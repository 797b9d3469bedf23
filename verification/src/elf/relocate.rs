//! The relocation table and the engine that applies it to the running image.
//!
//! Each table entry asks for one machine-word store at `base + offset`. A
//! plain relative entry stores `base + addend`; an indirect entry names a
//! resolver function at `base + addend` whose return value is stored; any
//! other entry type is unsupported, and once one is met no further store is
//! performed.

use vstd::prelude::*;
use crate::words::{read_u64_le, store_word, word_at, write_u64_le};
use crate::elf::dynamic_array::{
    last_item_with_tag, DynamicArrayItem, DT_RELA, DT_RELAENT, DT_RELASZ,
};

verus! {

/// Relocation type: store `base + addend`.
pub const R_X86_64_RELATIVE: u32 = 8;

/// Relocation type: call the resolver at `base + addend`, store its result.
pub const R_X86_64_IRELATIVE: u32 = 37;

/// Size in bytes of one relocation table entry.
pub const RELA_SIZE: usize = 24;

/// One relocation table entry: target offset, type-and-symbol word, and
/// signed addend.
#[derive(Clone, Copy, Debug, PartialEq, Eq, Structural)]
pub struct Rela {
    pub r_offset: u64,
    pub r_info: u64,
    pub r_addend: i64,
}

impl Rela {
    /// The relocation type: the low half of the info word.
    pub open spec fn spec_r_type(self) -> u32 {
        (self.r_info & 0xffff_ffff) as u32
    }

    /// The relocation type: the low half of the info word.
    pub fn r_type(&self) -> (r: u32)
        ensures
            r == self.spec_r_type(),
    {
        #[verifier::truncate] ((self.r_info & 0xffff_ffff) as u32)
    }

    /// Whether the engine knows this entry's type.
    pub open spec fn supported(self) -> bool {
        self.spec_r_type() == R_X86_64_RELATIVE || self.spec_r_type() == R_X86_64_IRELATIVE
    }

    /// The entry's target is an aligned machine word inside the image.
    pub open spec fn in_bounds(self, len: nat) -> bool {
        self.r_offset % 8 == 0 && self.r_offset + 8 <= len
    }

    /// `base + addend` with address-width wrapping: the value stored by a
    /// relative entry, and the resolver address of an indirect one.
    pub open spec fn displaced(self, base: u64) -> u64 {
        base.wrapping_add_signed(self.r_addend)
    }
}

/// The entry encoded at byte offset `i` of `s`.
pub open spec fn spec_rela(s: Seq<u8>, i: int) -> Rela {
    Rela { r_offset: word_at(s, i), r_info: word_at(s, i + 8), r_addend: word_at(s, i + 16) as i64 }
}

/// The whole table of `count` entries at byte offset `offset` fits in the image.
pub open spec fn rela_table_in_bounds(s: Seq<u8>, offset: u64, count: u64) -> bool {
    offset + count * RELA_SIZE <= s.len()
}

/// The `count` entries of the table at byte offset `offset`, in array order.
pub open spec fn rela_items(s: Seq<u8>, offset: u64, count: u64) -> Seq<Rela> {
    Seq::new(count as nat, |k: int| spec_rela(s, offset + k * RELA_SIZE))
}

/// Decode the relocation table. Fails exactly when the claimed table does
/// not fit inside the image.
pub fn parse_rela_table(mem: &Vec<u8>, offset: u64, count: u64) -> (r: Option<Vec<Rela>>)
    ensures
        match r {
            Some(v) => rela_table_in_bounds(mem@, offset, count) && v@ == rela_items(
                mem@,
                offset,
                count,
            ),
            None => !rela_table_in_bounds(mem@, offset, count),
        },
{
    let length: usize = mem.len();
    if offset > length as u64 {
        assert(!rela_table_in_bounds(mem@, offset, count)) by (nonlinear_arith)
            requires
                offset > length as u64,
                length == mem@.len(),
                count >= 0,
        ;
        return None;
    }
    let remaining: u64 = length as u64 - offset;
    if count > remaining / (RELA_SIZE as u64) {
        assert(!rela_table_in_bounds(mem@, offset, count)) by (nonlinear_arith)
            requires
                count > remaining / 24,
                remaining == length as u64 - offset,
                length == mem@.len(),
                offset <= length as u64,
        ;
        return None;
    }
    assert(offset + count * RELA_SIZE <= length) by (nonlinear_arith)
        requires
            count <= remaining / 24,
            remaining == length as u64 - offset,
            offset <= length as u64,
    ;
    let offset_index: usize = offset as usize;
    let count_index: usize = count as usize;
    assert(count <= usize::MAX) by (nonlinear_arith)
        requires
            count <= remaining / 24,
            remaining <= usize::MAX,
    ;
    let mut table: Vec<Rela> = Vec::new();
    let mut k: usize = 0;
    while k < count_index
        invariant
            k <= count_index,
            count_index == count,
            offset_index == offset,
            mem@.len() <= usize::MAX,
            offset + count * RELA_SIZE <= mem@.len(),
            table@.len() == k,
            forall|j: int| 0 <= j < k ==> table@[j] == spec_rela(mem@, offset + j * RELA_SIZE),
        decreases count_index - k,
    {
        assert((k + 1) * RELA_SIZE <= count * RELA_SIZE) by (nonlinear_arith)
            requires
                k + 1 <= count,
        ;
        assert(k * RELA_SIZE < count * RELA_SIZE) by (nonlinear_arith)
            requires
                k < count,
        ;
        let entry_offset: usize = offset_index + k * RELA_SIZE;
        let entry = Rela {
            r_offset: read_u64_le(mem, entry_offset),
            r_info: read_u64_le(mem, entry_offset + 8),
            r_addend: #[verifier::truncate] (read_u64_le(mem, entry_offset + 16) as i64),
        };
        table.push(entry);
        k = k + 1;
    }
    proof {
        assert(table@ =~= rela_items(mem@, offset, count));
    }
    Some(table)
}

/// Where the dynamic array says the relocation table lies: its image
/// offset, its total byte size, and the entry count `size / entry-size`.
#[derive(Clone, Copy, Debug, PartialEq, Eq, Structural)]
pub struct RelocationSlices {
    pub rela_offset: u64,
    pub rela_size: u64,
    pub rela_count: u64,
}

/// The table location the dynamic items describe: the last `DT_RELA` item
/// gives the offset, the last `DT_RELASZ` the total size (0 when absent),
/// and a present `DT_RELAENT` must match the expected entry size. `None`
/// when no `DT_RELA` item exists or the entry size mismatches.
pub open spec fn spec_relocation_slices(items: Seq<DynamicArrayItem>) -> Option<RelocationSlices> {
    match last_item_with_tag(items, DT_RELA) {
        None => None,
        Some(rela) => {
            let size = match last_item_with_tag(items, DT_RELASZ) {
                Some(item) => item.d_un,
                None => 0,
            };
            let entry_size_ok = match last_item_with_tag(items, DT_RELAENT) {
                Some(item) => item.d_un == RELA_SIZE,
                None => true,
            };
            if entry_size_ok {
                Some(
                    RelocationSlices {
                        rela_offset: rela.d_un,
                        rela_size: size,
                        rela_count: size / (RELA_SIZE as u64),
                    },
                )
            } else {
                None
            }
        },
    }
}

/// Scan the collected dynamic items once for the relocation table's
/// location and size.
pub fn find_relocation_slices(items: &Vec<DynamicArrayItem>) -> (r: Option<RelocationSlices>)
    ensures
        r == spec_relocation_slices(items@),
{
    let rela = crate::elf::dynamic_array::find_item_with_tag(items, DT_RELA);
    let rela_size = crate::elf::dynamic_array::find_item_with_tag(items, DT_RELASZ);
    let rela_entry = crate::elf::dynamic_array::find_item_with_tag(items, DT_RELAENT);
    match rela {
        None => None,
        Some(rela_item) => {
            let size: u64 = match rela_size {
                Some(item) => item.d_un,
                None => 0,
            };
            match rela_entry {
                Some(item) if item.d_un != RELA_SIZE as u64 => None,
                _ => Some(
                    RelocationSlices {
                        rela_offset: rela_item.d_un,
                        rela_size: size,
                        rela_count: size / (RELA_SIZE as u64),
                    },
                ),
            }
        },
    }
}

/// The image after the first `n` entries' stores, each writing its
/// recorded value at its target offset, in array order.
pub open spec fn stores_applied(s: Seq<u8>, relas: Seq<Rela>, vals: Seq<u64>, n: int) -> Seq<u8>
    decreases n,
{
    if n <= 0 {
        s
    } else {
        store_word(stores_applied(s, relas, vals, n - 1), relas[n - 1].r_offset as int, vals[n - 1])
    }
}

/// The first `n` applied stores depend only on the first `n` recorded values.
pub proof fn lemma_stores_applied_congruence(
    s: Seq<u8>,
    relas: Seq<Rela>,
    vals1: Seq<u64>,
    vals2: Seq<u64>,
    n: int,
)
    requires
        forall|j: int| 0 <= j < n ==> vals1[j] == vals2[j],
    ensures
        stores_applied(s, relas, vals1, n) == stores_applied(s, relas, vals2, n),
    decreases n,
{
    if n > 0 {
        lemma_stores_applied_congruence(s, relas, vals1, vals2, n - 1);
    }
}

/// The value an entry is allowed to record: a relative entry records
/// exactly `base + addend`; an indirect entry records a value the resolver
/// can return for the resolver address `base + addend`.
pub open spec fn value_recorded<F: Fn(u64) -> u64>(
    resolver: F,
    base: u64,
    entry: Rela,
    v: u64,
) -> bool {
    if entry.spec_r_type() == R_X86_64_RELATIVE {
        v == entry.displaced(base)
    } else {
        call_ensures(resolver, (entry.displaced(base),), v)
    }
}

/// Apply the whole relocation table to the image, dispatching on each
/// entry's type in array order. Stops at the first unsupported entry,
/// returning its index with no further store performed. Also returns the
/// (ghost) sequence of values the performed stores wrote.
pub fn relocate_table<F: Fn(u64) -> u64>(
    mem: &mut Vec<u8>,
    base: u64,
    relas: &Vec<Rela>,
    resolver: &F,
) -> (r: (Result<(), usize>, Ghost<Seq<u64>>))
    requires
        forall|k: int| 0 <= k < relas@.len() ==> (#[trigger] relas@[k]).in_bounds(old(mem)@.len()),
        forall|k: int|
            0 <= k < relas@.len() && (#[trigger] relas@[k]).spec_r_type() == R_X86_64_IRELATIVE
                ==> call_requires(*resolver, (relas@[k].displaced(base),)),
    ensures
        ({
            let (res, vals) = r;
            let applied = match res {
                Ok(()) => relas@.len() as int,
                Err(i) => i as int,
            };
            &&& vals@.len() == applied
            &&& final(mem)@.len() == old(mem)@.len()
            &&& final(mem)@ == stores_applied(old(mem)@, relas@, vals@, applied)
            &&& forall|j: int|
                0 <= j < applied ==> value_recorded(*resolver, base, relas@[j], vals@[j])
            &&& match res {
                Ok(()) => forall|k: int| 0 <= k < relas@.len() ==> (#[trigger] relas@[k]).supported(),
                Err(i) => i < relas@.len() && !relas@[i as int].supported() && forall|j: int|
                    0 <= j < i ==> (#[trigger] relas@[j]).supported(),
            }
        }),
{
    let ghost s0 = mem@;
    let _image_length: usize = mem.len();
    let ghost mut vals: Seq<u64> = Seq::empty();
    let mut index: usize = 0;
    while index < relas.len()
        invariant
            index <= relas@.len(),
            s0 == old(mem)@,
            s0.len() <= usize::MAX,
            forall|k: int| 0 <= k < relas@.len() ==> (#[trigger] relas@[k]).in_bounds(s0.len()),
            forall|k: int|
                0 <= k < relas@.len() && (#[trigger] relas@[k]).spec_r_type() == R_X86_64_IRELATIVE
                    ==> call_requires(*resolver, (relas@[k].displaced(base),)),
            vals.len() == index,
            mem@ == stores_applied(s0, relas@, vals, index as int),
            mem@.len() == s0.len(),
            forall|j: int| 0 <= j < index ==> value_recorded(*resolver, base, relas@[j], vals[j]),
            forall|j: int| 0 <= j < index ==> (#[trigger] relas@[j]).supported(),
        decreases relas@.len() - index,
    {
        let entry = relas[index];
        let entry_type = entry.r_type();
        let value: u64;
        if entry_type == R_X86_64_RELATIVE {
            value = base.wrapping_add_signed(entry.r_addend);
        } else if entry_type == R_X86_64_IRELATIVE {
            let function_address = base.wrapping_add_signed(entry.r_addend);
            value = resolver(function_address);
        } else {
            return (Err(index), Ghost(vals));
        }
        let ghost previous = mem@;
        let ghost previous_vals = vals;
        write_u64_le(mem, entry.r_offset as usize, value);
        proof {
            vals = vals.push(value);
            lemma_stores_applied_congruence(s0, relas@, previous_vals, vals, index as int);
            assert(stores_applied(s0, relas@, vals, index as int + 1) == store_word(
                stores_applied(s0, relas@, vals, index as int),
                relas@[index as int].r_offset as int,
                vals[index as int],
            ));
        }
        index = index + 1;
    }
    (Ok(()), Ghost(vals))
}

/// Plain relocation law: for base `B` and one relative entry with offset
/// `O` and addend `A`, the word at `O` after its store is `B + A` with
/// address-width wrapping.
pub proof fn lemma_plain_relocation(s: Seq<u8>, base: u64, entry: Rela, vals: Seq<u64>)
    requires
        entry.in_bounds(s.len()),
        entry.spec_r_type() == R_X86_64_RELATIVE,
        vals.len() == 1,
        vals[0] == entry.displaced(base),
    ensures
        word_at(stores_applied(s, seq![entry], vals, 1), entry.r_offset as int)
            == base.wrapping_add_signed(entry.r_addend),
{
    assert(seq![entry][0] == entry);
    assert(stores_applied(s, seq![entry], vals, 0) == s);
    assert(stores_applied(s, seq![entry], vals, 1) == store_word(s, entry.r_offset as int, vals[0]));
    crate::words::lemma_store_word_read(s, entry.r_offset as int, vals[0]);
}

/// Indirect relocation law: for base `B` and one indirect entry with
/// offset `O` and addend `A` whose resolver returned `v`, the word at `O`
/// after its store is exactly `v`.
pub proof fn lemma_indirect_relocation(s: Seq<u8>, base: u64, entry: Rela, vals: Seq<u64>)
    requires
        entry.in_bounds(s.len()),
        entry.spec_r_type() == R_X86_64_IRELATIVE,
        vals.len() == 1,
    ensures
        word_at(stores_applied(s, seq![entry], vals, 1), entry.r_offset as int) == vals[0],
{
    assert(seq![entry][0] == entry);
    assert(stores_applied(s, seq![entry], vals, 0) == s);
    assert(stores_applied(s, seq![entry], vals, 1) == store_word(s, entry.r_offset as int, vals[0]));
    crate::words::lemma_store_word_read(s, entry.r_offset as int, vals[0]);
}

} // verus!
