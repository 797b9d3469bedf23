//! Byte-string operations: the verified semantics of the C-string length
//! shim.

use vstd::prelude::*;

verus! {

/// The length of the C string at the start of `bytes`: the index of its
/// first NUL byte. There is none when the buffer holds no NUL, a case the
/// raw shim can only run past.
pub fn c_string_length(bytes: &Vec<u8>) -> (r: Option<usize>)
    ensures
        match r {
            Some(n) => {
                &&& n < bytes@.len()
                &&& bytes@[n as int] == 0
                &&& forall|j: int| 0 <= j < n ==> bytes@[j] != 0
            },
            None => forall|j: int| 0 <= j < bytes@.len() ==> bytes@[j] != 0,
        },
{
    let length: usize = bytes.len();
    let mut i: usize = 0;
    while i < length
        invariant
            i <= length,
            length == bytes@.len(),
            forall|j: int| 0 <= j < i ==> bytes@[j] != 0,
        decreases length - i,
    {
        if bytes[i] == 0 {
            return Some(i);
        }
        i = i + 1;
    }
    None
}

} // verus!
