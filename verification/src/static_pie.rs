//! A statically relocatable position-independent executable, seen through
//! two construction paths and driven through its two phases: unrelocated
//! ingredients, then the baked (relocated) image on which thread-local
//! storage may be allocated. The phase is a type parameter, so applying
//! relocations twice or allocating TLS before relocating cannot compile.

use vstd::prelude::*;
use core::marker::PhantomData;
use crate::elf::dynamic_array::{collect_dynamic_items, dynamic_items, dynamic_terminated};
use crate::elf::header::{parse_elf_header, spec_elf_header, ELF_HEADER_SIZE, ET_DYN};
use crate::elf::program_header::{
    find_header_of_type, last_header_of_type, parse_program_header_table, spec_program_header,
    ProgramHeader, PROGRAM_HEADER_SIZE, PT_DYNAMIC, PT_PHDR, PT_TLS,
};
use crate::elf::relocate::{
    find_relocation_slices, parse_rela_table, rela_items, rela_table_in_bounds, relocate_table,
    spec_relocation_slices, stores_applied, value_recorded, Rela, R_X86_64_IRELATIVE,
};
use crate::elf::thread_local_storage::{build_tls_region, tls_region_ok, TlsBlock, TCB_SIZE};
use crate::utils::spec_round_up;

verus! {

/// Phase marker of a handle whose image is not yet relocated.
pub struct Ingredients;

/// Phase marker of a handle whose image has been relocated.
pub struct Baked;

/// A condition no bootstrap step can recover from.
#[derive(Clone, Copy, Debug, PartialEq, Eq, Structural)]
pub enum BootstrapError {
    /// A bootstrap invariant does not hold of the image or environment
    /// (bad header, unterminated dynamic array, mismatched relocation
    /// entry size, out-of-bounds table, failed or misplaced mapping).
    InvariantViolation,
    /// The relocation engine met an entry type it does not know; the
    /// partially relocated image must not run further.
    UnsupportedRelocation,
}

impl BootstrapError {
    /// The process exit status reserved for this condition.
    pub fn exit_status(&self) -> (r: i32)
        ensures
            *self == BootstrapError::InvariantViolation ==> r == 101,
            *self == BootstrapError::UnsupportedRelocation ==> r == 32,
    {
        match self {
            BootstrapError::InvariantViolation => 101,
            BootstrapError::UnsupportedRelocation => 32,
        }
    }
}

/// A handle on the running image: its load base, the image offset of its
/// dynamic array, and its thread-local-storage program header, if any.
/// `T` is the phase marker.
pub struct StaticPie<T> {
    pub base_address: u64,
    pub dynamic_array: u64,
    pub tls_program_header: Option<ProgramHeader>,
    pub phantom_data: PhantomData<T>,
}

/// The program header table the image's own file header describes.
pub open spec fn spec_image_table(s: Seq<u8>) -> Seq<ProgramHeader> {
    Seq::new(
        spec_elf_header(s).e_phnum as nat,
        |k: int|
            spec_program_header(s, spec_elf_header(s).e_phoff + k * PROGRAM_HEADER_SIZE),
    )
}

/// What construction from a load base checks of the image: a long enough
/// shared-object header with the expected entry size, a program header
/// table inside the image, and a dynamic array entry in that table.
pub open spec fn image_well_formed(s: Seq<u8>) -> bool {
    &&& s.len() >= ELF_HEADER_SIZE
    &&& spec_elf_header(s).e_type == ET_DYN
    &&& spec_elf_header(s).e_phentsize == PROGRAM_HEADER_SIZE
    &&& spec_elf_header(s).e_phoff + spec_elf_header(s).e_phnum * PROGRAM_HEADER_SIZE <= s.len()
    &&& last_header_of_type(spec_image_table(s), PT_DYNAMIC) is Some
}

/// The base recovered from a table that contains its own `PT_PHDR` entry:
/// the table's runtime address minus that entry's declared address. Null
/// when no such entry exists.
pub open spec fn spec_base_from_table(t: Seq<ProgramHeader>, table_address: u64) -> u64 {
    match last_header_of_type(t, PT_PHDR) {
        Some(ph) => table_address.wrapping_sub(ph.p_vaddr),
        None => 0,
    }
}

/// The relocation table that the dynamic array at `dynamic_offset`
/// describes; empty when the scan or the location fails.
pub open spec fn spec_relocation_table(s: Seq<u8>, dynamic_offset: u64) -> Seq<Rela> {
    match spec_relocation_slices(dynamic_items(s, dynamic_offset as int)) {
        Some(slices) => rela_items(s, slices.rela_offset, slices.rela_count),
        None => Seq::empty(),
    }
}

/// What relocation checks before storing anything: a terminated dynamic
/// array, a located table of the expected entry size that lies inside the
/// image, and every entry's target an aligned word inside the image.
pub open spec fn relocations_well_formed(s: Seq<u8>, dynamic_offset: u64) -> bool {
    &&& dynamic_terminated(s, dynamic_offset as int)
    &&& match spec_relocation_slices(dynamic_items(s, dynamic_offset as int)) {
        Some(slices) => rela_table_in_bounds(s, slices.rela_offset, slices.rela_count),
        None => false,
    }
    &&& forall|k: int|
        0 <= k < spec_relocation_table(s, dynamic_offset).len() ==> (#[trigger] spec_relocation_table(
            s,
            dynamic_offset,
        )[k]).in_bounds(s.len())
}

impl StaticPie<Ingredients> {
    /// Construct from a known load base: read the file header at the start
    /// of the image and scan its program header table for the dynamic
    /// array and the TLS template.
    pub fn from_base(mem: &Vec<u8>, base: u64) -> (r: Result<
        StaticPie<Ingredients>,
        BootstrapError,
    >)
        ensures
            match r {
                Ok(pie) => {
                    &&& image_well_formed(mem@)
                    &&& pie.base_address == base
                    &&& pie.dynamic_array == last_header_of_type(
                        spec_image_table(mem@),
                        PT_DYNAMIC,
                    ).unwrap().p_vaddr
                    &&& pie.tls_program_header == last_header_of_type(spec_image_table(mem@), PT_TLS)
                },
                Err(e) => e == BootstrapError::InvariantViolation && !image_well_formed(mem@),
            },
    {
        let header = match parse_elf_header(mem) {
            None => {
                return Err(BootstrapError::InvariantViolation);
            },
            Some(h) => h,
        };
        if header.e_type != ET_DYN {
            return Err(BootstrapError::InvariantViolation);
        }
        if header.e_phentsize as usize != PROGRAM_HEADER_SIZE {
            return Err(BootstrapError::InvariantViolation);
        }
        let length: usize = mem.len();
        if header.e_phoff > length as u64 {
            proof {
                assert(spec_elf_header(mem@).e_phnum * PROGRAM_HEADER_SIZE >= 0) by (nonlinear_arith);
            }
            return Err(BootstrapError::InvariantViolation);
        }
        let table = match parse_program_header_table(
            mem,
            header.e_phoff as usize,
            header.e_phnum as usize,
        ) {
            None => {
                return Err(BootstrapError::InvariantViolation);
            },
            Some(t) => t,
        };
        proof {
            assert(table@ =~= spec_image_table(mem@));
        }
        let dynamic = match find_header_of_type(&table, PT_DYNAMIC) {
            None => {
                return Err(BootstrapError::InvariantViolation);
            },
            Some(d) => d,
        };
        let tls = find_header_of_type(&table, PT_TLS);
        Ok(
            StaticPie {
                base_address: base,
                dynamic_array: dynamic.p_vaddr,
                tls_program_header: tls,
                phantom_data: PhantomData,
            },
        )
    }

    /// Construct with no known base: recover it from the table's own
    /// `PT_PHDR` entry (the table's runtime address minus that entry's
    /// declared address), then scan for the dynamic array and the TLS
    /// template as above.
    pub fn from_program_headers(
        program_header_table: &Vec<ProgramHeader>,
        table_address: u64,
    ) -> (r: Result<StaticPie<Ingredients>, BootstrapError>)
        ensures
            match r {
                Ok(pie) => {
                    &&& last_header_of_type(program_header_table@, PT_DYNAMIC) is Some
                    &&& pie.dynamic_array == last_header_of_type(
                        program_header_table@,
                        PT_DYNAMIC,
                    ).unwrap().p_vaddr
                    &&& pie.base_address == spec_base_from_table(
                        program_header_table@,
                        table_address,
                    )
                    &&& pie.tls_program_header == last_header_of_type(
                        program_header_table@,
                        PT_TLS,
                    )
                },
                Err(e) => e == BootstrapError::InvariantViolation && last_header_of_type(
                    program_header_table@,
                    PT_DYNAMIC,
                ) is None,
            },
    {
        let base: u64 = match find_header_of_type(program_header_table, PT_PHDR) {
            Some(ph) => table_address.wrapping_sub(ph.p_vaddr),
            None => 0,
        };
        let dynamic = match find_header_of_type(program_header_table, PT_DYNAMIC) {
            None => {
                return Err(BootstrapError::InvariantViolation);
            },
            Some(d) => d,
        };
        let tls = find_header_of_type(program_header_table, PT_TLS);
        Ok(
            StaticPie {
                base_address: base,
                dynamic_array: dynamic.p_vaddr,
                tls_program_header: tls,
                phantom_data: PhantomData,
            },
        )
    }

    /// Apply the image's relocations: scan the dynamic array once for the
    /// relocation table, check its entry size and bounds, then store each
    /// entry's value in array order — `base + addend` for a relative
    /// entry, the resolver's return value for an indirect one. An
    /// unsupported entry type stops the engine with no further store. On
    /// success the handle moves to the relocated phase. Also returns the
    /// (ghost) values the performed stores wrote.
    pub fn relocate<F: Fn(u64) -> u64>(self, mem: &mut Vec<u8>, resolver: &F) -> (r: (
        Result<StaticPie<Baked>, BootstrapError>,
        Ghost<Seq<u64>>,
    ))
        requires
            forall|k: int|
                0 <= k < spec_relocation_table(old(mem)@, self.dynamic_array).len() && (
                #[trigger] spec_relocation_table(old(mem)@, self.dynamic_array)[k]).spec_r_type()
                    == R_X86_64_IRELATIVE ==> call_requires(
                    *resolver,
                    (spec_relocation_table(old(mem)@, self.dynamic_array)[k].displaced(
                        self.base_address,
                    ),),
                ),
        ensures
            ({
                let relas = spec_relocation_table(old(mem)@, self.dynamic_array);
                let (res, vals) = r;
                match res {
                    Ok(pie) => {
                        &&& pie.base_address == self.base_address
                        &&& pie.dynamic_array == self.dynamic_array
                        &&& pie.tls_program_header == self.tls_program_header
                        &&& relocations_well_formed(old(mem)@, self.dynamic_array)
                        &&& forall|k: int| 0 <= k < relas.len() ==> (#[trigger] relas[k]).supported()
                        &&& vals@.len() == relas.len()
                        &&& final(mem)@.len() == old(mem)@.len()
                        &&& final(mem)@ == stores_applied(
                            old(mem)@,
                            relas,
                            vals@,
                            relas.len() as int,
                        )
                        &&& forall|j: int|
                            0 <= j < relas.len() ==> value_recorded(
                                *resolver,
                                self.base_address,
                                #[trigger] relas[j],
                                vals@[j],
                            )
                    },
                    Err(BootstrapError::InvariantViolation) => {
                        &&& final(mem)@ == old(mem)@
                        &&& !relocations_well_formed(old(mem)@, self.dynamic_array)
                    },
                    Err(BootstrapError::UnsupportedRelocation) => {
                        &&& relocations_well_formed(old(mem)@, self.dynamic_array)
                        &&& vals@.len() < relas.len()
                        &&& !relas[vals@.len() as int].supported()
                        &&& forall|j: int|
                            0 <= j < vals@.len() ==> (#[trigger] relas[j]).supported()
                                && value_recorded(
                                *resolver,
                                self.base_address,
                                relas[j],
                                vals@[j],
                            )
                        &&& final(mem)@.len() == old(mem)@.len()
                        &&& final(mem)@ == stores_applied(
                            old(mem)@,
                            relas,
                            vals@,
                            vals@.len() as int,
                        )
                    },
                }
            }),
    {
        let ghost s0 = mem@;
        let length: usize = mem.len();
        if self.dynamic_array > length as u64 {
            return (Err(BootstrapError::InvariantViolation), Ghost(Seq::empty()));
        }
        let items = match collect_dynamic_items(mem, self.dynamic_array as usize) {
            None => {
                return (Err(BootstrapError::InvariantViolation), Ghost(Seq::empty()));
            },
            Some(v) => v,
        };
        let slices = match find_relocation_slices(&items) {
            None => {
                return (Err(BootstrapError::InvariantViolation), Ghost(Seq::empty()));
            },
            Some(s) => s,
        };
        let relas = match parse_rela_table(mem, slices.rela_offset, slices.rela_count) {
            None => {
                return (Err(BootstrapError::InvariantViolation), Ghost(Seq::empty()));
            },
            Some(v) => v,
        };
        proof {
            assert(relas@ == spec_relocation_table(s0, self.dynamic_array));
        }
        let mut k: usize = 0;
        while k < relas.len()
            invariant
                k <= relas@.len(),
                mem@ == s0,
                mem@.len() <= usize::MAX,
                length == s0.len(),
                relas@ == spec_relocation_table(s0, self.dynamic_array),
                forall|j: int| 0 <= j < k ==> (#[trigger] relas@[j]).in_bounds(s0.len()),
            decreases relas@.len() - k,
        {
            let entry = relas[k];
            if length < 8 || entry.r_offset > (length as u64) - 8 || entry.r_offset % 8 != 0 {
                assert(!relas@[k as int].in_bounds(s0.len()));
                return (Err(BootstrapError::InvariantViolation), Ghost(Seq::empty()));
            }
            k = k + 1;
        }
        let (result, vals) = relocate_table(mem, self.base_address, &relas, resolver);
        match result {
            Ok(()) => (
                Ok(
                    StaticPie {
                        base_address: self.base_address,
                        dynamic_array: self.dynamic_array,
                        tls_program_header: self.tls_program_header,
                        phantom_data: PhantomData,
                    },
                ),
                vals,
            ),
            Err(_) => (Err(BootstrapError::UnsupportedRelocation), vals),
        }
    }
}

/// The TLS data block's size: the declared memory size rounded up to the
/// declared alignment.
pub open spec fn spec_tls_data_size(ph: ProgramHeader) -> nat {
    spec_round_up(ph.p_memsz as nat, ph.p_align as nat)
}

/// What TLS allocation checks before building the region: the mapping
/// succeeded at a nonnull address, the declared alignment is nonzero, the
/// template lies inside the image and within the declared size, and the
/// region (data block plus control block) fits the address space.
pub open spec fn tls_allocation_well_formed(
    ph: ProgramHeader,
    s: Seq<u8>,
    region_address: u64,
) -> bool {
    &&& region_address != 0
    &&& ph.p_align >= 1
    &&& ph.p_filesz <= ph.p_memsz
    &&& ph.p_offset + ph.p_filesz <= s.len()
    &&& spec_tls_data_size(ph) + TCB_SIZE <= usize::MAX
    &&& region_address + spec_tls_data_size(ph) + TCB_SIZE <= u64::MAX
}

impl StaticPie<Baked> {
    /// How many bytes the initial thread's storage region must hold: the
    /// aligned TLS data block plus the control block. Nothing when the
    /// image declares no TLS template or the sizes cannot fit.
    pub fn tls_region_size(&self) -> (r: Option<u64>)
        ensures
            match r {
                Some(size) => (self.tls_program_header matches Some(ph) && {
                    &&& ph.p_align >= 1
                    &&& size == spec_tls_data_size(ph) + TCB_SIZE
                }),
                None => match self.tls_program_header {
                    Some(ph) => ph.p_align < 1 || spec_tls_data_size(ph) + TCB_SIZE > u64::MAX,
                    None => true,
                },
            },
    {
        let ph = match self.tls_program_header {
            None => {
                return None;
            },
            Some(ph) => ph,
        };
        if ph.p_align < 1 {
            return None;
        }
        let data_size = match round_up_u64(ph.p_memsz, ph.p_align) {
            None => {
                return None;
            },
            Some(v) => v,
        };
        if data_size > u64::MAX - (TCB_SIZE as u64) {
            return None;
        }
        Some(data_size + TCB_SIZE as u64)
    }

    /// Allocate and initialize the initial thread's storage, a no-op when
    /// the image declares no TLS template. `region_address` is where the
    /// kernel mapped the fresh anonymous region (null on mapping failure,
    /// which is fatal). The returned block carries the initialized region
    /// and the value to install in the thread-pointer register: the
    /// control block's own address.
    pub fn allocate_tls(
        self,
        mem: &Vec<u8>,
        pseudorandom_bytes: &[u8; 16],
        region_address: u64,
    ) -> (r: Result<Option<TlsBlock>, BootstrapError>)
        ensures
            match r {
                Ok(None) => self.tls_program_header is None,
                Ok(Some(block)) => (self.tls_program_header matches Some(ph) && {
                    &&& tls_allocation_well_formed(ph, mem@, region_address)
                    &&& block.address == region_address
                    &&& block.thread_pointer == region_address + spec_tls_data_size(ph)
                    &&& block.thread_pointer != 0
                    &&& tls_region_ok(
                        block.region@,
                        mem@,
                        ph.p_offset as int,
                        ph.p_filesz as int,
                        spec_tls_data_size(ph) as int,
                        pseudorandom_bytes@,
                        region_address,
                    )
                }),
                Err(e) => e == BootstrapError::InvariantViolation && (
                self.tls_program_header matches Some(ph) && !tls_allocation_well_formed(
                    ph,
                    mem@,
                    region_address,
                )),
            },
    {
        let ph = match self.tls_program_header {
            None => {
                return Ok(None);
            },
            Some(ph) => ph,
        };
        let length: usize = mem.len();
        if region_address == 0 || ph.p_align < 1 || ph.p_filesz > ph.p_memsz {
            return Err(BootstrapError::InvariantViolation);
        }
        if ph.p_offset > length as u64 || ph.p_filesz > (length as u64) - ph.p_offset {
            return Err(BootstrapError::InvariantViolation);
        }
        let data_size: u64 = match round_up_u64(ph.p_memsz, ph.p_align) {
            None => {
                return Err(BootstrapError::InvariantViolation);
            },
            Some(v) => v,
        };
        if data_size > (usize::MAX as u64) - (TCB_SIZE as u64) {
            return Err(BootstrapError::InvariantViolation);
        }
        if region_address > u64::MAX - (TCB_SIZE as u64) - data_size {
            return Err(BootstrapError::InvariantViolation);
        }
        proof {
            crate::utils::lemma_round_up_properties(ph.p_memsz as nat, ph.p_align as nat);
        }
        let block = build_tls_region(
            mem,
            ph.p_offset as usize,
            ph.p_filesz as usize,
            data_size as usize,
            pseudorandom_bytes,
            region_address,
        );
        Ok(Some(block))
    }
}

/// Round `value` up to the next multiple of `boundary` in address-width
/// arithmetic; `None` when the result does not fit.
pub fn round_up_u64(value: u64, boundary: u64) -> (r: Option<u64>)
    requires
        boundary > 0,
    ensures
        match r {
            Some(v) => v == spec_round_up(value as nat, boundary as nat),
            None => spec_round_up(value as nat, boundary as nat) > u64::MAX,
        },
{
    let remainder = value % boundary;
    if remainder == 0 {
        Some(value)
    } else if boundary - remainder <= u64::MAX - value {
        Some(value + (boundary - remainder))
    } else {
        None
    }
}

} // verus!
