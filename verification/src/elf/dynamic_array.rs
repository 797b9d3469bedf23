//! The dynamic array: tag/value pairs terminated by a `DT_NULL` tag.
//!
//! The value field is a union in the file format (integer or pointer,
//! resolved by the tag); it is one machine word either way and is decoded
//! at scan time into a single word carried in `d_un`.

use vstd::prelude::*;
use crate::words::{read_u64_le, word_at};

verus! {

pub const DT_NULL: u64 = 0;

pub const DT_PLTGOT: u64 = 3;

pub const DT_RELA: u64 = 7;

pub const DT_RELASZ: u64 = 8;

pub const DT_RELAENT: u64 = 9;

pub const DT_INIT: u64 = 12;

pub const DT_FINI: u64 = 13;

pub const DT_REL: u64 = 17;

pub const DT_TEXTREL: u64 = 22;

pub const DT_INIT_ARRAY: u64 = 25;

pub const DT_FINI_ARRAY: u64 = 26;

pub const DT_INIT_ARRAYSZ: u64 = 27;

pub const DT_FINI_ARRAYSZ: u64 = 28;

pub const DT_RELRSZ: u64 = 35;

pub const DT_RELR: u64 = 36;

/// Size in bytes of one dynamic array item.
pub const DYNAMIC_ITEM_SIZE: usize = 16;

/// One item of the dynamic array.
#[derive(Clone, Copy, Debug, PartialEq, Eq, Structural)]
pub struct DynamicArrayItem {
    pub d_tag: u64,
    pub d_un: u64,
}

/// The item encoded at byte offset `i` of `s`.
pub open spec fn spec_dynamic_item(s: Seq<u8>, i: int) -> DynamicArrayItem {
    DynamicArrayItem { d_tag: word_at(s, i), d_un: word_at(s, i + 8) }
}

/// Whether a scan from byte offset `i` reaches a `DT_NULL` item without
/// running off the end of the image.
pub open spec fn dynamic_terminated(s: Seq<u8>, i: int) -> bool
    decreases s.len() - i,
{
    if i < 0 || i + DYNAMIC_ITEM_SIZE > s.len() {
        false
    } else if spec_dynamic_item(s, i).d_tag == DT_NULL {
        true
    } else {
        dynamic_terminated(s, i + DYNAMIC_ITEM_SIZE)
    }
}

/// The number of real items before the first `DT_NULL` sentinel (or before
/// the end of the image, for an unterminated array).
pub open spec fn dynamic_count(s: Seq<u8>, i: int) -> nat
    decreases s.len() - i,
{
    if i < 0 || i + DYNAMIC_ITEM_SIZE > s.len() {
        0
    } else if spec_dynamic_item(s, i).d_tag == DT_NULL {
        0
    } else {
        1 + dynamic_count(s, i + DYNAMIC_ITEM_SIZE)
    }
}

/// The real items of the array at byte offset `i`, in array order.
pub open spec fn dynamic_items(s: Seq<u8>, i: int) -> Seq<DynamicArrayItem> {
    Seq::new(dynamic_count(s, i), |k: int| spec_dynamic_item(s, i + k * DYNAMIC_ITEM_SIZE))
}

/// Scan the array at byte offset `offset` up to its `DT_NULL` sentinel and
/// collect the real items, in array order, each visited once. Fails exactly
/// when no sentinel lies within the image.
pub fn collect_dynamic_items(mem: &Vec<u8>, offset: usize) -> (r: Option<Vec<DynamicArrayItem>>)
    ensures
        match r {
            Some(v) => dynamic_terminated(mem@, offset as int) && v@ == dynamic_items(
                mem@,
                offset as int,
            ),
            None => !dynamic_terminated(mem@, offset as int),
        },
{
    let mut items: Vec<DynamicArrayItem> = Vec::new();
    let mut i: usize = offset;
    loop
        invariant
            offset <= i <= mem@.len() || i == offset,
            i == offset + items@.len() * DYNAMIC_ITEM_SIZE,
            dynamic_terminated(mem@, offset as int) == dynamic_terminated(mem@, i as int),
            dynamic_count(mem@, offset as int) == items@.len() + dynamic_count(mem@, i as int),
            forall|j: int|
                0 <= j < items@.len() ==> items@[j] == spec_dynamic_item(
                    mem@,
                    offset + j * DYNAMIC_ITEM_SIZE,
                ),
        decreases mem@.len() - i,
    {
        if mem.len() < DYNAMIC_ITEM_SIZE || i > mem.len() - DYNAMIC_ITEM_SIZE {
            assert(!dynamic_terminated(mem@, i as int));
            return None;
        }
        let item = DynamicArrayItem { d_tag: read_u64_le(mem, i), d_un: read_u64_le(mem, i + 8) };
        assert(item == spec_dynamic_item(mem@, i as int));
        if item.d_tag == DT_NULL {
            assert(dynamic_terminated(mem@, i as int));
            assert(dynamic_count(mem@, i as int) == 0);
            proof {
                assert(items@ =~= dynamic_items(mem@, offset as int));
            }
            return Some(items);
        }
        items.push(item);
        i = i + DYNAMIC_ITEM_SIZE;
    }
}

/// The last item with tag `tag`, if any: when a tag occurs more than once,
/// a forward scan that overwrites keeps the last one.
pub open spec fn last_item_with_tag(items: Seq<DynamicArrayItem>, tag: u64) -> Option<
    DynamicArrayItem,
>
    decreases items.len(),
{
    if items.len() == 0 {
        None
    } else if items.last().d_tag == tag {
        Some(items.last())
    } else {
        last_item_with_tag(items.drop_last(), tag)
    }
}

/// Scan the collected items for the last one with tag `tag`.
pub fn find_item_with_tag(items: &Vec<DynamicArrayItem>, tag: u64) -> (r: Option<DynamicArrayItem>)
    ensures
        r == last_item_with_tag(items@, tag),
{
    let mut found: Option<DynamicArrayItem> = None;
    let mut k: usize = 0;
    while k < items.len()
        invariant
            k <= items@.len(),
            found == last_item_with_tag(items@.take(k as int), tag),
        decreases items@.len() - k,
    {
        if items[k].d_tag == tag {
            found = Some(items[k]);
        }
        k = k + 1;
        proof {
            assert(items@.take(k as int).drop_last() =~= items@.take(k as int - 1));
            assert(items@.take(k as int).last() == items@[k - 1]);
        }
    }
    proof {
        assert(items@.take(items@.len() as int) =~= items@);
    }
    found
}

} // verus!
