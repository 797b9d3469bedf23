//! Byte-memory operations: the verified semantics of the copy, fill and
//! compare shims.

use vstd::prelude::*;

verus! {

/// Copy the first `count` bytes of `source` over the start of
/// `destination`; the rest of `destination` is untouched.
pub fn memory_copy(destination: &mut Vec<u8>, source: &Vec<u8>, count: usize)
    requires
        count <= source@.len(),
        count <= old(destination)@.len(),
    ensures
        final(destination)@.len() == old(destination)@.len(),
        forall|i: int| 0 <= i < count ==> final(destination)@[i] == source@[i],
        forall|i: int|
            count <= i < old(destination)@.len() ==> final(destination)@[i] == old(destination)@[i],
{
    let mut i: usize = 0;
    while i < count
        invariant
            i <= count,
            count <= source@.len(),
            count <= destination@.len(),
            destination@.len() == old(destination)@.len(),
            forall|j: int| 0 <= j < i ==> destination@[j] == source@[j],
            forall|j: int|
                i <= j < destination@.len() ==> destination@[j] == old(destination)@[j],
        decreases count - i,
    {
        destination.set(i, source[i]);
        i = i + 1;
    }
}

/// Fill the first `count` bytes of `destination` with `byte`; the rest is
/// untouched.
pub fn memory_set(destination: &mut Vec<u8>, byte: u8, count: usize)
    requires
        count <= old(destination)@.len(),
    ensures
        final(destination)@.len() == old(destination)@.len(),
        forall|i: int| 0 <= i < count ==> final(destination)@[i] == byte,
        forall|i: int|
            count <= i < old(destination)@.len() ==> final(destination)@[i] == old(destination)@[i],
{
    let mut i: usize = 0;
    while i < count
        invariant
            i <= count,
            count <= destination@.len(),
            destination@.len() == old(destination)@.len(),
            forall|j: int| 0 <= j < i ==> destination@[j] == byte,
            forall|j: int|
                i <= j < destination@.len() ==> destination@[j] == old(destination)@[j],
        decreases count - i,
    {
        destination.set(i, byte);
        i = i + 1;
    }
}

/// The position of the first difference between `a` and `b` within the
/// first `count` bytes, scanning from `i`; negative when none.
pub open spec fn difference_position(a: Seq<u8>, b: Seq<u8>, count: int, i: int) -> int
    decreases count - i,
{
    if i < 0 || i >= count {
        -1
    } else if a[i] != b[i] {
        i
    } else {
        difference_position(a, b, count, i + 1)
    }
}

/// Compare the first `count` bytes of `left` and `right`: zero when they
/// are equal, otherwise the sign of the first differing byte pair,
/// compared as unsigned bytes.
pub fn memory_compare(left: &Vec<u8>, right: &Vec<u8>, count: usize) -> (r: i32)
    requires
        count <= left@.len(),
        count <= right@.len(),
    ensures
        ({
            let d = difference_position(left@, right@, count as int, 0);
            if d < 0 {
                r == 0
            } else if left@[d] < right@[d] {
                r == -1
            } else {
                r == 1
            }
        }),
{
    let mut i: usize = 0;
    while i < count
        invariant
            i <= count,
            count <= left@.len(),
            count <= right@.len(),
            difference_position(left@, right@, count as int, 0) == difference_position(
                left@,
                right@,
                count as int,
                i as int,
            ),
        decreases count - i,
    {
        if left[i] < right[i] {
            return -1;
        }
        if left[i] > right[i] {
            return 1;
        }
        i = i + 1;
    }
    0
}

} // verus!
