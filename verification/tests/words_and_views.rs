use miros::elf::header::{parse_elf_header, ELF_HEADER_SIZE};
use miros::elf::program_header::{
    find_header_of_type, parse_program_header_table, ProgramHeader, PROGRAM_HEADER_SIZE,
    PT_DYNAMIC, PT_TLS,
};
use miros::utils::{check_power_of_two, max_usize, round_up_to_boundary};
use miros::words::{read_u16_le, read_u32_le, read_u64_le, write_u64_le};

fn zeroed(n: usize) -> Vec<u8> {
    vec![0u8; n]
}

#[test]
fn word_store_then_read_round_trips() {
    let mut mem = zeroed(32);
    write_u64_le(&mut mem, 8, 0x1122_3344_5566_7788);
    assert_eq!(read_u64_le(&mem, 8), 0x1122_3344_5566_7788);
    // little-endian: the low byte comes first
    assert_eq!(mem[8], 0x88);
    assert_eq!(mem[15], 0x11);
    // bytes outside the window stay zero
    assert_eq!(mem[7], 0);
    assert_eq!(mem[16], 0);
}

#[test]
fn half_and_quarter_reads_are_little_endian() {
    let mut mem = zeroed(8);
    mem[0] = 0x34;
    mem[1] = 0x12;
    mem[2] = 0x78;
    mem[3] = 0x56;
    assert_eq!(read_u16_le(&mem, 0), 0x1234);
    assert_eq!(read_u32_le(&mem, 0), 0x5678_1234);
}

#[test]
fn elf_header_parses_its_fields() {
    let mut mem = zeroed(ELF_HEADER_SIZE);
    mem[16] = 3; // image type: shared object
    write_u64_le(&mut mem, 24, 0xBEEF); // entry
    write_u64_le(&mut mem, 32, 64); // program header table offset
    mem[54] = 56; // entry size
    mem[56] = 2; // entry count
    let header = parse_elf_header(&mem).unwrap();
    assert_eq!(header.e_type, 3);
    assert_eq!(header.e_entry, 0xBEEF);
    assert_eq!(header.e_phoff, 64);
    assert_eq!(header.e_phentsize, 56);
    assert_eq!(header.e_phnum, 2);
}

#[test]
fn elf_header_needs_sixty_four_bytes() {
    let mem = zeroed(ELF_HEADER_SIZE - 1);
    assert!(parse_elf_header(&mem).is_none());
}

fn put_program_header(mem: &mut Vec<u8>, at: usize, p_type: u32, p_vaddr: u64) {
    mem[at] = (p_type & 0xFF) as u8;
    mem[at + 1] = ((p_type >> 8) & 0xFF) as u8;
    mem[at + 2] = ((p_type >> 16) & 0xFF) as u8;
    mem[at + 3] = ((p_type >> 24) & 0xFF) as u8;
    write_u64_le(mem, at + 16, p_vaddr);
}

#[test]
fn program_header_table_parses_and_last_match_wins() {
    let mut mem = zeroed(3 * PROGRAM_HEADER_SIZE);
    put_program_header(&mut mem, 0, PT_DYNAMIC, 0x100);
    put_program_header(&mut mem, PROGRAM_HEADER_SIZE, PT_TLS, 0x200);
    put_program_header(&mut mem, 2 * PROGRAM_HEADER_SIZE, PT_DYNAMIC, 0x300);
    let table = parse_program_header_table(&mem, 0, 3).unwrap();
    assert_eq!(table.len(), 3);
    assert_eq!(table[0].p_type, PT_DYNAMIC);
    assert_eq!(table[1].p_vaddr, 0x200);
    let dynamic = find_header_of_type(&table, PT_DYNAMIC).unwrap();
    assert_eq!(dynamic.p_vaddr, 0x300);
    let tls = find_header_of_type(&table, PT_TLS).unwrap();
    assert_eq!(tls.p_vaddr, 0x200);
    assert!(find_header_of_type(&table, 0xFFFF).is_none());
}

#[test]
fn program_header_table_rejects_overrun() {
    let mem = zeroed(PROGRAM_HEADER_SIZE);
    assert!(parse_program_header_table(&mem, 0, 2).is_none());
    assert!(parse_program_header_table(&mem, 8, 1).is_none());
}

#[test]
fn rounding_and_power_checks() {
    assert_eq!(round_up_to_boundary(0, 8), 0);
    assert_eq!(round_up_to_boundary(1, 8), 8);
    assert_eq!(round_up_to_boundary(8, 8), 8);
    assert_eq!(round_up_to_boundary(4097, 4096), 8192);
    assert!(check_power_of_two(1));
    assert!(check_power_of_two(4096));
    assert!(!check_power_of_two(0));
    assert!(!check_power_of_two(12));
    assert_eq!(max_usize(3, 9), 9);
    assert_eq!(max_usize(9, 3), 9);
}

#[test]
fn program_header_struct_round_trips_through_bytes() {
    let mut mem = zeroed(PROGRAM_HEADER_SIZE);
    put_program_header(&mut mem, 0, PT_TLS, 0xAB);
    write_u64_le(&mut mem, 8, 0x10); // p_offset
    write_u64_le(&mut mem, 32, 4); // p_filesz
    write_u64_le(&mut mem, 40, 8); // p_memsz
    write_u64_le(&mut mem, 48, 8); // p_align
    let table = parse_program_header_table(&mem, 0, 1).unwrap();
    let expected = ProgramHeader {
        p_type: PT_TLS,
        p_flags: 0,
        p_offset: 0x10,
        p_vaddr: 0xAB,
        p_paddr: 0,
        p_filesz: 4,
        p_memsz: 8,
        p_align: 8,
    };
    assert_eq!(table[0], expected);
}
