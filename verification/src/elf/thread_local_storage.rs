//! The initial thread's storage: the TLS data block, filled from the
//! image's template, followed immediately by the thread control block in
//! one contiguous region.

use vstd::prelude::*;
use crate::words::{word_at, write_u64_le};

verus! {

/// Size in bytes of the thread control block: the self pointer the thread
/// pointer register will address, the dynamic-thread-vector pointer
/// (always null — no TLS modules appear after startup), three words of
/// reserved padding, and the stack-protector canary.
pub const TCB_SIZE: usize = 48;

/// Byte offset of the control block's self pointer.
pub const TCB_SELF_POINTER_OFFSET: usize = 0;

/// Byte offset of the dynamic-thread-vector pointer.
pub const TCB_DTV_OFFSET: usize = 8;

/// Byte offset of the stack-protector canary.
pub const TCB_CANARY_OFFSET: usize = 40;

/// The initial thread's storage region and the addresses derived from it.
pub struct TlsBlock {
    /// Where the kernel mapped the region.
    pub address: u64,
    /// The value installed in the thread-pointer register: the control
    /// block's own address, right after the TLS data block.
    pub thread_pointer: u64,
    /// The region's contents: TLS data first, control block after.
    pub region: Vec<u8>,
}

/// The fully initialized region: the template's file-backed bytes first,
/// zero fill up to the aligned data-block size, then the control block —
/// self pointer, null dynamic-thread-vector, zeroed padding, and a canary
/// taken from the first word of the kernel-supplied random bytes.
pub open spec fn tls_region_ok(
    region: Seq<u8>,
    s: Seq<u8>,
    template_offset: int,
    filesz: int,
    tls_size: int,
    random: Seq<u8>,
    region_address: u64,
) -> bool {
    &&& region.len() == tls_size + TCB_SIZE
    &&& (forall|i: int| 0 <= i < filesz ==> region[i] == s[template_offset + i])
    &&& (forall|i: int| filesz <= i < tls_size ==> region[i] == 0)
    &&& word_at(region, tls_size) == region_address + tls_size
    &&& word_at(region, tls_size + 8) == 0
    &&& (forall|i: int| tls_size + 16 <= i < tls_size + 40 ==> region[i] == 0)
    &&& word_at(region, tls_size + 40) == word_at(random, 0)
}

/// Build the initial thread's storage region at the mapped address
/// `region_address`: copy the template's `filesz` bytes, zero-fill the
/// rest of the data block, and populate the control block after it.
pub fn build_tls_region(
    mem: &Vec<u8>,
    template_offset: usize,
    filesz: usize,
    tls_size: usize,
    random: &[u8; 16],
    region_address: u64,
) -> (r: TlsBlock)
    requires
        template_offset + filesz <= mem@.len(),
        filesz <= tls_size,
        tls_size + TCB_SIZE <= usize::MAX,
        region_address != 0,
        region_address + tls_size + TCB_SIZE <= u64::MAX,
    ensures
        r.address == region_address,
        r.thread_pointer == region_address + tls_size,
        r.thread_pointer != 0,
        tls_region_ok(
            r.region@,
            mem@,
            template_offset as int,
            filesz as int,
            tls_size as int,
            random@,
            region_address,
        ),
{
    let _image_length: usize = mem.len();
    let total: usize = tls_size + TCB_SIZE;
    let mut region: Vec<u8> = Vec::new();
    let mut i: usize = 0;
    while i < filesz
        invariant
            i <= filesz,
            mem@.len() <= usize::MAX,
            template_offset + filesz <= mem@.len(),
            region@.len() == i,
            forall|j: int| 0 <= j < i ==> region@[j] == mem@[template_offset + j],
        decreases filesz - i,
    {
        region.push(mem[template_offset + i]);
        i = i + 1;
    }
    while i < total
        invariant
            filesz <= i <= total,
            total == tls_size + TCB_SIZE,
            filesz <= tls_size,
            template_offset + filesz <= mem@.len(),
            region@.len() == i,
            forall|j: int| 0 <= j < filesz ==> region@[j] == mem@[template_offset + j],
            forall|j: int| filesz <= j < i ==> region@[j] == 0,
        decreases total - i,
    {
        region.push(0u8);
        i = i + 1;
    }
    let ghost filled = region@;
    let thread_pointer: u64 = region_address + tls_size as u64;
    let canary: u64 = (random[0] as u64) | ((random[1] as u64) << 8u64) | ((random[2] as u64)
        << 16u64) | ((random[3] as u64) << 24u64) | ((random[4] as u64) << 32u64) | ((
    random[5] as u64) << 40u64) | ((random[6] as u64) << 48u64) | ((random[7] as u64) << 56u64);
    write_u64_le(&mut region, tls_size, thread_pointer);
    let ghost after_self = region@;
    write_u64_le(&mut region, tls_size + 8, 0);
    let ghost after_dtv = region@;
    write_u64_le(&mut region, tls_size + TCB_CANARY_OFFSET, canary);
    proof {
        let t = tls_size as int;
        crate::words::lemma_store_word_read(filled, t, thread_pointer);
        crate::words::lemma_store_word_frame(after_self, t + 8, 0, t);
        crate::words::lemma_store_word_frame(after_dtv, t + 40, canary, t);
        crate::words::lemma_store_word_read(after_self, t + 8, 0);
        crate::words::lemma_store_word_frame(after_dtv, t + 40, canary, t + 8);
        crate::words::lemma_store_word_read(after_dtv, t + 40, canary);
        assert(canary == word_at(random@, 0));
    }
    TlsBlock { address: region_address, thread_pointer, region }
}

} // verus!
