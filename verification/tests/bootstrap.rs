use miros::elf::program_header::{ProgramHeader, PROGRAM_HEADER_SIZE, PT_DYNAMIC, PT_PHDR, PT_TLS};
use miros::linux::auxiliary_iterator::{
    AuxiliaryIterator, AuxiliaryIteratorItem, AT_BASE, AT_PAGE_SIZE, AT_PHENT, AT_RANDOM,
};
use miros::start::environment_variables::EnvironmentIterator;
use miros::start::{argument_pointers, collect_auxiliary_values, parse_initial_stack,
    validate_bootstrap_values};
use miros::static_pie::{BootstrapError, StaticPie};
use miros::words::{read_u64_le, write_u64_le};

fn zeroed(n: usize) -> Vec<u8> {
    vec![0u8; n]
}

fn put_u32(mem: &mut Vec<u8>, at: usize, value: u32) {
    mem[at] = (value & 0xFF) as u8;
    mem[at + 1] = ((value >> 8) & 0xFF) as u8;
    mem[at + 2] = ((value >> 16) & 0xFF) as u8;
    mem[at + 3] = ((value >> 24) & 0xFF) as u8;
}

/// A loadable image: file header, three program headers (`PT_PHDR`,
/// `PT_DYNAMIC`, `PT_TLS`), a dynamic array with one plain relocation, the
/// relocation's target word, and a four-byte TLS template with declared
/// size eight and alignment eight.
fn synthetic_image() -> Vec<u8> {
    let mut mem = zeroed(336);
    // file header
    mem[16] = 3; // shared object
    write_u64_le(&mut mem, 32, 64); // table offset
    mem[54] = 56; // entry size
    mem[56] = 3; // entry count
    // PT_PHDR at 64
    put_u32(&mut mem, 64, PT_PHDR);
    write_u64_le(&mut mem, 64 + 16, 64); // its own declared address
    // PT_DYNAMIC at 120
    put_u32(&mut mem, 120, PT_DYNAMIC);
    write_u64_le(&mut mem, 120 + 16, 232); // dynamic array offset
    // PT_TLS at 176
    put_u32(&mut mem, 176, PT_TLS);
    write_u64_le(&mut mem, 176 + 8, 328); // template file offset
    write_u64_le(&mut mem, 176 + 32, 4); // file size
    write_u64_le(&mut mem, 176 + 40, 8); // memory size
    write_u64_le(&mut mem, 176 + 48, 8); // alignment
    // dynamic array at 232: relocation table pointer, size, entry size, end
    write_u64_le(&mut mem, 232, 7);
    write_u64_le(&mut mem, 240, 296);
    write_u64_le(&mut mem, 248, 8);
    write_u64_le(&mut mem, 256, 24);
    write_u64_le(&mut mem, 264, 9);
    write_u64_le(&mut mem, 272, 24);
    write_u64_le(&mut mem, 280, 0);
    write_u64_le(&mut mem, 288, 0);
    // one plain relocation at 296: store base + 0x100 at offset 320
    write_u64_le(&mut mem, 296, 320);
    write_u64_le(&mut mem, 304, 8);
    write_u64_le(&mut mem, 312, 0x100);
    // TLS template bytes at 328
    mem[328] = 0xAA;
    mem[329] = 0xBB;
    mem[330] = 0xCC;
    mem[331] = 0xDD;
    mem
}

#[test]
fn end_to_end_construct_relocate_allocate_tls() {
    let mut mem = synthetic_image();
    let base: u64 = 0x7000_0000;
    let pie = StaticPie::from_base(&mem, base).unwrap();
    let resolver = |_a: u64| 0u64;
    let (relocated, _) = pie.relocate(&mut mem, &resolver);
    let baked = relocated.unwrap();
    // the one plain relocation was applied: base + addend at the target
    assert_eq!(read_u64_le(&mem, 320), 0x7000_0100);
    // the region must hold the aligned data block plus the control block
    assert_eq!(baked.tls_region_size(), Some(8 + 48));
    let random: [u8; 16] = [9, 8, 7, 6, 5, 4, 3, 2, 1, 0, 11, 12, 13, 14, 15, 16];
    let block = baked.allocate_tls(&mem, &random, 0x9000).unwrap().unwrap();
    // the template's four bytes, then zero fill up to the declared size
    assert_eq!(&block.region[0..4], &[0xAA, 0xBB, 0xCC, 0xDD]);
    assert_eq!(&block.region[4..8], &[0, 0, 0, 0]);
    // the thread pointer is installed nonnull, right after the data block
    assert_ne!(block.thread_pointer, 0);
    assert_eq!(block.thread_pointer, 0x9000 + 8);
    // the control block's self pointer is its own address
    assert_eq!(read_u64_le(&block.region, 8), block.thread_pointer);
    // the dynamic-thread-vector pointer is null
    assert_eq!(read_u64_le(&block.region, 16), 0);
    // the canary is the first word of the supplied randomness
    assert_eq!(read_u64_le(&block.region, 48), read_u64_le(&random.to_vec(), 0));
}

#[test]
fn from_base_rejects_a_wrong_image_type() {
    let mut mem = synthetic_image();
    mem[16] = 2; // an ordinary executable, not a shared object
    let error = match StaticPie::from_base(&mem, 0) {
        Err(error) => error,
        Ok(_) => panic!("a wrong image type must be refused"),
    };
    assert_eq!(error, BootstrapError::InvariantViolation);
}

#[test]
fn from_program_headers_recovers_the_base() {
    let table = vec![
        ProgramHeader {
            p_type: PT_PHDR,
            p_flags: 0,
            p_offset: 0,
            p_vaddr: 64,
            p_paddr: 0,
            p_filesz: 0,
            p_memsz: 0,
            p_align: 8,
        },
        ProgramHeader {
            p_type: PT_DYNAMIC,
            p_flags: 0,
            p_offset: 0,
            p_vaddr: 232,
            p_paddr: 0,
            p_filesz: 0,
            p_memsz: 0,
            p_align: 8,
        },
    ];
    // the table runs at 0x5000_0040 and declares itself at 64
    let pie = StaticPie::from_program_headers(&table, 0x5000_0040).unwrap();
    assert_eq!(pie.base_address, 0x5000_0000);
    assert_eq!(pie.dynamic_array, 232);
    assert!(pie.tls_program_header.is_none());
}

#[test]
fn from_program_headers_needs_a_dynamic_entry() {
    let table = vec![ProgramHeader {
        p_type: PT_PHDR,
        p_flags: 0,
        p_offset: 0,
        p_vaddr: 64,
        p_paddr: 0,
        p_filesz: 0,
        p_memsz: 0,
        p_align: 8,
    }];
    assert!(StaticPie::from_program_headers(&table, 0x5000_0040).is_err());
}

#[test]
fn unsupported_relocation_type_fails_the_whole_pass() {
    let mut mem = synthetic_image();
    write_u64_le(&mut mem, 304, 1234); // an entry type the engine does not know
    let pie = StaticPie::from_base(&mem, 0x7000_0000).unwrap();
    let resolver = |_a: u64| 0u64;
    let (relocated, _) = pie.relocate(&mut mem, &resolver);
    let error = match relocated {
        Err(error) => error,
        Ok(_) => panic!("an unknown entry type must fail the pass"),
    };
    assert_eq!(error, BootstrapError::UnsupportedRelocation);
    assert_eq!(error.exit_status(), 32);
    // the target word was never written
    assert_eq!(read_u64_le(&mem, 320), 0);
}

#[test]
fn initial_stack_parses_counts_and_positions() {
    // argument count 2, two argument pointers, null, one environment
    // pointer, null, then the auxiliary vector
    let stack: Vec<usize> = vec![2, 0x11, 0x22, 0, 0x33, 0, AT_PAGE_SIZE, 4096, 0, 0];
    let layout = parse_initial_stack(&stack).unwrap();
    assert_eq!(layout.argument_count, 2);
    assert_eq!(layout.arguments_start, 1);
    assert_eq!(layout.environment_start, 4);
}

#[test]
fn argument_pointers_follow_the_count() {
    let stack: Vec<usize> = vec![2, 0x11, 0x22, 0, 0x33, 0, 0, 0];
    let layout = parse_initial_stack(&stack).unwrap();
    let pointers = argument_pointers(&stack, &layout);
    assert_eq!(pointers, vec![0x11, 0x22]);
}

#[test]
fn initial_stack_needs_the_argument_terminator() {
    let stack: Vec<usize> = vec![2, 0x11, 0x22, 7, 0];
    let error = parse_initial_stack(&stack).unwrap_err();
    assert_eq!(error.exit_status(), 101);
}

#[test]
fn auxiliary_iterator_stops_at_the_sentinel_and_stays_there() {
    let words: Vec<usize> = vec![AT_PAGE_SIZE, 4096, AT_BASE, 0x7000, 0, 99, 55, 66];
    let mut iterator = AuxiliaryIterator::new(words, 0);
    assert_eq!(
        iterator.next(),
        Some(AuxiliaryIteratorItem { kind: AT_PAGE_SIZE, value: 4096 })
    );
    assert_eq!(iterator.next(), Some(AuxiliaryIteratorItem { kind: AT_BASE, value: 0x7000 }));
    assert_eq!(iterator.next(), None);
    assert_eq!(iterator.next(), None);
}

#[test]
fn auxiliary_entries_collected_count_real_entries_only() {
    let words: Vec<usize> = vec![AT_PAGE_SIZE, 4096, AT_BASE, 0x7000, 0, 99, 55, 66];
    let entries = AuxiliaryIterator::new(words, 0).collect_entries();
    assert_eq!(entries.len(), 2);
    assert_eq!(entries[0].kind, AT_PAGE_SIZE);
    assert_eq!(entries[1].kind, AT_BASE);
}

#[test]
fn auxiliary_vector_begins_after_the_environment_terminator() {
    let words: Vec<usize> = vec![0x33, 0x44, 0, AT_PAGE_SIZE, 4096, 0, 0];
    let environment = EnvironmentIterator::new(words, 0);
    let iterator = AuxiliaryIterator::from_environment_iterator(environment);
    let entries = iterator.collect_entries();
    assert_eq!(entries.len(), 1);
    assert_eq!(entries[0], AuxiliaryIteratorItem { kind: AT_PAGE_SIZE, value: 4096 });
}

#[test]
fn auxiliary_values_keep_the_last_occurrence() {
    let words: Vec<usize> = vec![AT_PAGE_SIZE, 4096, AT_PAGE_SIZE, 8192, AT_RANDOM, 0x123, 0, 0];
    let values = collect_auxiliary_values(AuxiliaryIterator::new(words, 0)).unwrap();
    assert_eq!(values.page_size, 8192);
    assert_eq!(values.random, 0x123);
    assert_eq!(values.base, 0); // never mentioned: stays null
}

#[test]
fn auxiliary_scan_rejects_a_wrong_header_entry_size() {
    let words: Vec<usize> = vec![AT_PHENT, 55, 0, 0];
    let error = collect_auxiliary_values(AuxiliaryIterator::new(words, 0)).unwrap_err();
    assert_eq!(error.exit_status(), 101);
    let good: Vec<usize> = vec![AT_PHENT, PROGRAM_HEADER_SIZE, 0, 0];
    assert!(collect_auxiliary_values(AuxiliaryIterator::new(good, 0)).is_ok());
}

#[test]
fn bootstrap_validation_checks_page_size_and_alignment() {
    let words: Vec<usize> = vec![AT_PAGE_SIZE, 4096, AT_BASE, 0x7000_0000, 0, 0];
    let values = collect_auxiliary_values(AuxiliaryIterator::new(words, 0)).unwrap();
    assert!(validate_bootstrap_values(&values).is_ok());

    let bad_page: Vec<usize> = vec![AT_PAGE_SIZE, 4095, 0, 0];
    let values = collect_auxiliary_values(AuxiliaryIterator::new(bad_page, 0)).unwrap();
    assert!(validate_bootstrap_values(&values).is_err());

    let bad_base: Vec<usize> = vec![AT_PAGE_SIZE, 4096, AT_BASE, 0x7000_0001, 0, 0];
    let values = collect_auxiliary_values(AuxiliaryIterator::new(bad_base, 0)).unwrap();
    assert!(validate_bootstrap_values(&values).is_err());
}

/// An image whose dynamic array names a relocation table of size zero and
/// declares no TLS template: header, `PT_PHDR`, `PT_DYNAMIC`, and the
/// dynamic array alone.
fn relocation_free_image() -> Vec<u8> {
    let mut mem = zeroed(296);
    mem[16] = 3;
    write_u64_le(&mut mem, 32, 64);
    mem[54] = 56;
    mem[56] = 2;
    put_u32(&mut mem, 64, PT_PHDR);
    write_u64_le(&mut mem, 64 + 16, 64);
    put_u32(&mut mem, 120, PT_DYNAMIC);
    write_u64_le(&mut mem, 120 + 16, 232);
    write_u64_le(&mut mem, 232, 7); // relocation table pointer
    write_u64_le(&mut mem, 240, 280);
    write_u64_le(&mut mem, 248, 8); // total size zero stays zero
    write_u64_le(&mut mem, 256, 0);
    write_u64_le(&mut mem, 264, 0);
    write_u64_le(&mut mem, 272, 0);
    mem
}

#[test]
fn an_empty_relocation_table_relocates_nothing() {
    let mut mem = relocation_free_image();
    let before = mem.clone();
    let pie = StaticPie::from_base(&mem, 0x1000).unwrap();
    let resolver = |_a: u64| 0u64;
    let (relocated, _) = pie.relocate(&mut mem, &resolver);
    let baked = match relocated {
        Ok(baked) => baked,
        Err(_) => panic!("a zero-sized table must relocate cleanly"),
    };
    assert_eq!(mem, before);
    // no TLS template: allocation is a no-op and no region size is owed
    assert_eq!(baked.tls_region_size(), None);
    let random: [u8; 16] = [0; 16];
    let block = baked.allocate_tls(&mem, &random, 0x9000).unwrap();
    assert!(block.is_none());
}

#[test]
fn a_missing_relocation_table_pointer_is_fatal() {
    let mut mem = relocation_free_image();
    let before = mem.clone();
    write_u64_le(&mut mem, 232, 13); // a tag that is not the table pointer
    let before2 = mem.clone();
    let pie = StaticPie::from_base(&mem, 0x1000).unwrap();
    let resolver = |_a: u64| 0u64;
    let (relocated, _) = pie.relocate(&mut mem, &resolver);
    let error = match relocated {
        Err(error) => error,
        Ok(_) => panic!("a dynamic array without a table pointer must be refused"),
    };
    assert_eq!(error.exit_status(), 101);
    assert_eq!(mem, before2); // nothing was written
    assert_ne!(before, before2);
}

#[test]
fn a_truncated_auxiliary_pair_yields_nothing() {
    let words: Vec<usize> = vec![AT_PAGE_SIZE];
    let mut iterator = AuxiliaryIterator::new(words, 0);
    assert_eq!(iterator.next(), None);
}
