//! The fixed-layout file header at the start of the loaded image.

use vstd::prelude::*;
use crate::words::{half_at, read_u16_le, read_u64_le, word_at};

verus! {

/// Image type tag of a shared object / position-independent executable.
pub const ET_DYN: u16 = 3;

/// Size in bytes of the file header.
pub const ELF_HEADER_SIZE: usize = 64;

/// The fields of the file header that bootstrap reads: the image type and
/// the geometry of the program header table.
#[derive(Clone, Copy, Debug, PartialEq, Eq, Structural)]
pub struct ElfHeader {
    pub e_type: u16,
    pub e_entry: u64,
    pub e_phoff: u64,
    pub e_phentsize: u16,
    pub e_phnum: u16,
}

/// The header encoded in the first bytes of `s`.
pub open spec fn spec_elf_header(s: Seq<u8>) -> ElfHeader {
    ElfHeader {
        e_type: half_at(s, 16),
        e_entry: word_at(s, 24),
        e_phoff: word_at(s, 32),
        e_phentsize: half_at(s, 54),
        e_phnum: half_at(s, 56),
    }
}

/// Decode the file header at the start of the image. Fails exactly when the
/// image is too short to hold one.
pub fn parse_elf_header(mem: &Vec<u8>) -> (r: Option<ElfHeader>)
    ensures
        match r {
            Some(h) => mem@.len() >= ELF_HEADER_SIZE && h == spec_elf_header(mem@),
            None => mem@.len() < ELF_HEADER_SIZE,
        },
{
    if mem.len() < ELF_HEADER_SIZE {
        return None;
    }
    Some(
        ElfHeader {
            e_type: read_u16_le(mem, 16),
            e_entry: read_u64_le(mem, 24),
            e_phoff: read_u64_le(mem, 32),
            e_phentsize: read_u16_le(mem, 54),
            e_phnum: read_u16_le(mem, 56),
        },
    )
}

} // verus!
