//! The program header table: one fixed-size entry per segment of the image.

use vstd::prelude::*;
use crate::words::{quarter_at, read_u32_le, read_u64_le, word_at};

verus! {

/// Segment type of the dynamic array.
pub const PT_DYNAMIC: u32 = 2;

/// Segment type of the program header table's own entry.
pub const PT_PHDR: u32 = 6;

/// Segment type of the thread-local-storage template.
pub const PT_TLS: u32 = 7;

/// Size in bytes of one program header table entry.
pub const PROGRAM_HEADER_SIZE: usize = 56;

/// One program header table entry.
#[derive(Clone, Copy, Debug, PartialEq, Eq, Structural)]
pub struct ProgramHeader {
    pub p_type: u32,
    pub p_flags: u32,
    pub p_offset: u64,
    pub p_vaddr: u64,
    pub p_paddr: u64,
    pub p_filesz: u64,
    pub p_memsz: u64,
    pub p_align: u64,
}

/// The entry encoded at byte offset `i` of `s`.
pub open spec fn spec_program_header(s: Seq<u8>, i: int) -> ProgramHeader {
    ProgramHeader {
        p_type: quarter_at(s, i),
        p_flags: quarter_at(s, i + 4),
        p_offset: word_at(s, i + 8),
        p_vaddr: word_at(s, i + 16),
        p_paddr: word_at(s, i + 24),
        p_filesz: word_at(s, i + 32),
        p_memsz: word_at(s, i + 40),
        p_align: word_at(s, i + 48),
    }
}

/// Decode the entry at byte offset `offset`.
pub fn parse_program_header(mem: &Vec<u8>, offset: usize) -> (r: ProgramHeader)
    requires
        offset + PROGRAM_HEADER_SIZE <= mem@.len(),
    ensures
        r == spec_program_header(mem@, offset as int),
{
    let _length: usize = mem.len();
    ProgramHeader {
        p_type: read_u32_le(mem, offset),
        p_flags: read_u32_le(mem, offset + 4),
        p_offset: read_u64_le(mem, offset + 8),
        p_vaddr: read_u64_le(mem, offset + 16),
        p_paddr: read_u64_le(mem, offset + 24),
        p_filesz: read_u64_le(mem, offset + 32),
        p_memsz: read_u64_le(mem, offset + 40),
        p_align: read_u64_le(mem, offset + 48),
    }
}

/// Decode the table of `count` entries starting at byte offset `offset`.
/// Fails exactly when the table does not fit inside the image.
pub fn parse_program_header_table(mem: &Vec<u8>, offset: usize, count: usize) -> (r: Option<
    Vec<ProgramHeader>,
>)
    requires
        count <= 0xffff,
    ensures
        match r {
            Some(t) => {
                &&& offset + count * PROGRAM_HEADER_SIZE <= mem@.len()
                &&& t@.len() == count
                &&& forall|k: int|
                    0 <= k < count ==> t@[k] == spec_program_header(
                        mem@,
                        offset + k * PROGRAM_HEADER_SIZE,
                    )
            },
            None => offset + count * PROGRAM_HEADER_SIZE > mem@.len(),
        },
{
    if offset > mem.len() {
        return None;
    }
    let need = count * PROGRAM_HEADER_SIZE;
    if need > mem.len() - offset {
        return None;
    }
    let length: usize = mem.len();
    let mut table: Vec<ProgramHeader> = Vec::new();
    let mut k: usize = 0;
    while k < count
        invariant
            k <= count,
            count <= 0xffff,
            mem@.len() <= usize::MAX,
            offset + count * PROGRAM_HEADER_SIZE <= mem@.len(),
            table@.len() == k,
            forall|j: int|
                0 <= j < k ==> table@[j] == spec_program_header(
                    mem@,
                    offset + j * PROGRAM_HEADER_SIZE,
                ),
        decreases count - k,
    {
        assert(k * PROGRAM_HEADER_SIZE < count * PROGRAM_HEADER_SIZE) by (nonlinear_arith)
            requires
                k < count,
        ;
        assert((k + 1) * PROGRAM_HEADER_SIZE <= count * PROGRAM_HEADER_SIZE) by (nonlinear_arith)
            requires
                k + 1 <= count,
        ;
        table.push(parse_program_header(mem, offset + k * PROGRAM_HEADER_SIZE));
        k = k + 1;
    }
    Some(table)
}

/// The last table entry of segment type `pt`, if any: when a type occurs
/// more than once, a forward scan that overwrites keeps the last one.
pub open spec fn last_header_of_type(t: Seq<ProgramHeader>, pt: u32) -> Option<ProgramHeader>
    decreases t.len(),
{
    if t.len() == 0 {
        None
    } else if t.last().p_type == pt {
        Some(t.last())
    } else {
        last_header_of_type(t.drop_last(), pt)
    }
}

/// Scan the table for the last entry of segment type `pt`.
pub fn find_header_of_type(table: &Vec<ProgramHeader>, pt: u32) -> (r: Option<ProgramHeader>)
    ensures
        r == last_header_of_type(table@, pt),
{
    let mut found: Option<ProgramHeader> = None;
    let mut k: usize = 0;
    while k < table.len()
        invariant
            k <= table@.len(),
            found == last_header_of_type(table@.take(k as int), pt),
        decreases table@.len() - k,
    {
        if table[k].p_type == pt {
            found = Some(table[k]);
        }
        k = k + 1;
        proof {
            assert(table@.take(k as int).drop_last() =~= table@.take(k as int - 1));
            assert(table@.take(k as int).last() == table@[k - 1]);
        }
    }
    proof {
        assert(table@.take(table@.len() as int) =~= table@);
    }
    found
}

} // verus!
