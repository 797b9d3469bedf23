//! Little-endian views of byte memory.
//!
//! The loaded image is a byte sequence indexed by image offset. ELF
//! structures and relocation stores work on machine words, halfwords and
//! 32-bit fields embedded in that sequence, so the readers and the single
//! word store below carry exact little-endian contracts.

use vstd::prelude::*;

verus! {

/// The 16-bit little-endian value stored at byte offset `i` of `s`.
pub open spec fn half_at(s: Seq<u8>, i: int) -> u16 {
    (s[i] as u16) | ((s[i + 1] as u16) << 8u16)
}

/// The 32-bit little-endian value stored at byte offset `i` of `s`.
pub open spec fn quarter_at(s: Seq<u8>, i: int) -> u32 {
    (s[i] as u32) | ((s[i + 1] as u32) << 8u32) | ((s[i + 2] as u32) << 16u32) | ((s[i
        + 3] as u32) << 24u32)
}

/// The little-endian machine word stored at byte offset `i` of `s`.
pub open spec fn word_at(s: Seq<u8>, i: int) -> u64 {
    (s[i] as u64) | ((s[i + 1] as u64) << 8u64) | ((s[i + 2] as u64) << 16u64) | ((s[i
        + 3] as u64) << 24u64) | ((s[i + 4] as u64) << 32u64) | ((s[i + 5] as u64) << 40u64) | ((s[
        i + 6] as u64) << 48u64) | ((s[i + 7] as u64) << 56u64)
}

/// Byte `k` (0-based, least significant first) of the little-endian
/// encoding of `v`.
pub open spec fn word_byte(v: u64, k: int) -> u8 {
    if k == 0 {
        v as u8
    } else if k == 1 {
        (v >> 8u64) as u8
    } else if k == 2 {
        (v >> 16u64) as u8
    } else if k == 3 {
        (v >> 24u64) as u8
    } else if k == 4 {
        (v >> 32u64) as u8
    } else if k == 5 {
        (v >> 40u64) as u8
    } else if k == 6 {
        (v >> 48u64) as u8
    } else {
        (v >> 56u64) as u8
    }
}

/// `s` with the eight bytes starting at offset `i` replaced by the
/// little-endian encoding of `v`; all other bytes unchanged.
pub open spec fn store_word(s: Seq<u8>, i: int, v: u64) -> Seq<u8> {
    Seq::new(s.len(), |j: int| if i <= j < i + 8 { word_byte(v, j - i) } else { s[j] })
}

/// Reading a word back from where it was just stored yields the stored value.
pub proof fn lemma_store_word_read(s: Seq<u8>, i: int, v: u64)
    requires
        0 <= i,
        i + 8 <= s.len(),
    ensures
        word_at(store_word(s, i, v), i) == v,
{
    let t = store_word(s, i, v);
    assert(t[i] == (v as u8));
    assert(t[i + 1] == ((v >> 8u64) as u8));
    assert(t[i + 2] == ((v >> 16u64) as u8));
    assert(t[i + 3] == ((v >> 24u64) as u8));
    assert(t[i + 4] == ((v >> 32u64) as u8));
    assert(t[i + 5] == ((v >> 40u64) as u8));
    assert(t[i + 6] == ((v >> 48u64) as u8));
    assert(t[i + 7] == ((v >> 56u64) as u8));
    assert(((v as u8) as u64) | ((((v >> 8u64) as u8) as u64) << 8u64) | ((((v
        >> 16u64) as u8) as u64) << 16u64) | ((((v >> 24u64) as u8) as u64) << 24u64) | ((((v
        >> 32u64) as u8) as u64) << 32u64) | ((((v >> 40u64) as u8) as u64) << 40u64) | ((((v
        >> 48u64) as u8) as u64) << 48u64) | ((((v >> 56u64) as u8) as u64) << 56u64) == v)
        by (bit_vector);
}

/// A word store leaves every byte outside its eight-byte window unchanged,
/// so a word read from a disjoint window is unchanged.
pub proof fn lemma_store_word_frame(s: Seq<u8>, i: int, v: u64, j: int)
    requires
        0 <= i,
        i + 8 <= s.len(),
        0 <= j,
        j + 8 <= s.len(),
        j + 8 <= i || i + 8 <= j,
    ensures
        word_at(store_word(s, i, v), j) == word_at(s, j),
{
}

/// Read the 16-bit little-endian value at `offset`.
pub fn read_u16_le(mem: &Vec<u8>, offset: usize) -> (r: u16)
    requires
        offset + 2 <= mem@.len(),
    ensures
        r == half_at(mem@, offset as int),
{
    let _length: usize = mem.len();
    let b0: u16 = mem[offset] as u16;
    let b1: u16 = mem[offset + 1] as u16;
    b0 | (b1 << 8u16)
}

/// Read the 32-bit little-endian value at `offset`.
pub fn read_u32_le(mem: &Vec<u8>, offset: usize) -> (r: u32)
    requires
        offset + 4 <= mem@.len(),
    ensures
        r == quarter_at(mem@, offset as int),
{
    let _length: usize = mem.len();
    let b0: u32 = mem[offset] as u32;
    let b1: u32 = mem[offset + 1] as u32;
    let b2: u32 = mem[offset + 2] as u32;
    let b3: u32 = mem[offset + 3] as u32;
    b0 | (b1 << 8u32) | (b2 << 16u32) | (b3 << 24u32)
}

/// Read the little-endian machine word at `offset`.
pub fn read_u64_le(mem: &Vec<u8>, offset: usize) -> (r: u64)
    requires
        offset + 8 <= mem@.len(),
    ensures
        r == word_at(mem@, offset as int),
{
    let _length: usize = mem.len();
    let b0: u64 = mem[offset] as u64;
    let b1: u64 = mem[offset + 1] as u64;
    let b2: u64 = mem[offset + 2] as u64;
    let b3: u64 = mem[offset + 3] as u64;
    let b4: u64 = mem[offset + 4] as u64;
    let b5: u64 = mem[offset + 5] as u64;
    let b6: u64 = mem[offset + 6] as u64;
    let b7: u64 = mem[offset + 7] as u64;
    b0 | (b1 << 8u64) | (b2 << 16u64) | (b3 << 24u64) | (b4 << 32u64) | (b5 << 40u64) | (b6
        << 48u64) | (b7 << 56u64)
}

/// Store `v` as a little-endian machine word at `offset`: a single aligned
/// word store in the running image, modelled byte for byte.
pub fn write_u64_le(mem: &mut Vec<u8>, offset: usize, v: u64)
    requires
        offset + 8 <= old(mem)@.len(),
    ensures
        final(mem)@ == store_word(old(mem)@, offset as int, v),
{
    let length: usize = mem.len();
    mem.set(offset, #[verifier::truncate] (v as u8));
    mem.set(offset + 1, #[verifier::truncate] ((v >> 8u64) as u8));
    mem.set(offset + 2, #[verifier::truncate] ((v >> 16u64) as u8));
    mem.set(offset + 3, #[verifier::truncate] ((v >> 24u64) as u8));
    mem.set(offset + 4, #[verifier::truncate] ((v >> 32u64) as u8));
    mem.set(offset + 5, #[verifier::truncate] ((v >> 40u64) as u8));
    mem.set(offset + 6, #[verifier::truncate] ((v >> 48u64) as u8));
    mem.set(offset + 7, #[verifier::truncate] ((v >> 56u64) as u8));
    proof {
        assert(mem@ =~= store_word(old(mem)@, offset as int, v));
    }
}

} // verus!
