//! The per-thread error-state value that the shim layer reports through.

use vstd::prelude::*;

verus! {

/// An error number, as the kernel and the shim layer exchange them.
#[derive(Clone, Copy, Debug, PartialEq, Eq, Structural)]
pub struct Errno(pub u32);

/// Relies on `linux_raw_sys::errno::EBADF`: the kernel's "bad file
/// descriptor" error number, which is 9.
#[verifier::external_body]
fn ebadf_value() -> (r: u32)
    ensures
        r == 9,
{
    linux_raw_sys::errno::EBADF
}

impl Errno {
    /// The "bad file descriptor" error.
    pub fn badf() -> (r: Errno)
        ensures
            r.0 == 9,
    {
        Errno(ebadf_value())
    }

    /// The bare error number.
    pub fn code(&self) -> (r: u32)
        ensures
            r == self.0,
    {
        self.0
    }
}

/// Store a new value in the error-state cell.
pub fn set_errno(cell: &mut Errno, new_errno: Errno)
    ensures
        *final(cell) == new_errno,
{
    *cell = new_errno;
}

} // verus!
