//! What the close shim decides before calling the kernel.

use vstd::prelude::*;
use crate::libc::errno::{set_errno, Errno};

verus! {

/// The invalid descriptor `-1` fails up front: the error cell is set to
/// "bad file descriptor" and no kernel call is made. Any other descriptor
/// is handed to the kernel, the cell untouched.
pub fn close_precheck(file_descriptor: i32, errno_cell: &mut Errno) -> (proceed: bool)
    ensures
        proceed == (file_descriptor != -1),
        !proceed ==> final(errno_cell).0 == 9,
        proceed ==> *final(errno_cell) == *old(errno_cell),
{
    if file_descriptor == -1 {
        set_errno(errno_cell, Errno::badf());
        false
    } else {
        true
    }
}

} // verus!
