use miros::elf::dynamic_array::{collect_dynamic_items, DynamicArrayItem, DT_RELA, DT_RELAENT,
    DT_RELASZ};
use miros::elf::relocate::{
    find_relocation_slices, parse_rela_table, relocate_table, Rela, R_X86_64_IRELATIVE,
    R_X86_64_RELATIVE,
};
use miros::static_pie::BootstrapError;
use miros::words::{read_u64_le, write_u64_le};

fn zeroed(n: usize) -> Vec<u8> {
    vec![0u8; n]
}

fn put_dynamic_item(mem: &mut Vec<u8>, at: usize, tag: u64, value: u64) {
    write_u64_le(mem, at, tag);
    write_u64_le(mem, at + 8, value);
}

#[test]
fn dynamic_scan_yields_exactly_the_real_entries() {
    let mut mem = zeroed(64);
    put_dynamic_item(&mut mem, 0, 5, 11);
    put_dynamic_item(&mut mem, 16, 12, 22);
    put_dynamic_item(&mut mem, 32, 0, 0); // terminator
    put_dynamic_item(&mut mem, 48, 7, 99); // beyond the sentinel: never read
    let items = collect_dynamic_items(&mem, 0).unwrap();
    assert_eq!(items.len(), 2);
    assert_eq!(items[0], DynamicArrayItem { d_tag: 5, d_un: 11 });
    assert_eq!(items[1], DynamicArrayItem { d_tag: 12, d_un: 22 });
}

#[test]
fn dynamic_scan_fails_without_terminator() {
    let mut mem = zeroed(32);
    put_dynamic_item(&mut mem, 0, 5, 11);
    put_dynamic_item(&mut mem, 16, 12, 22);
    assert!(collect_dynamic_items(&mem, 0).is_none());
}

#[test]
fn relocation_slices_compute_count_from_size() {
    let mut mem = zeroed(80);
    put_dynamic_item(&mut mem, 0, DT_RELA, 1000);
    put_dynamic_item(&mut mem, 16, DT_RELASZ, 72);
    put_dynamic_item(&mut mem, 32, DT_RELAENT, 24);
    put_dynamic_item(&mut mem, 48, 0, 0);
    let items = collect_dynamic_items(&mem, 0).unwrap();
    let slices = find_relocation_slices(&items).unwrap();
    assert_eq!(slices.rela_offset, 1000);
    assert_eq!(slices.rela_size, 72);
    assert_eq!(slices.rela_count, 3); // 72 / 24, exactly
}

#[test]
fn relocation_slices_reject_mismatched_entry_size() {
    let mut mem = zeroed(80);
    put_dynamic_item(&mut mem, 0, DT_RELA, 1000);
    put_dynamic_item(&mut mem, 16, DT_RELASZ, 72);
    put_dynamic_item(&mut mem, 32, DT_RELAENT, 16);
    put_dynamic_item(&mut mem, 48, 0, 0);
    let items = collect_dynamic_items(&mem, 0).unwrap();
    assert!(find_relocation_slices(&items).is_none());
}

#[test]
fn relocation_slices_need_a_table_pointer() {
    let mut mem = zeroed(32);
    put_dynamic_item(&mut mem, 0, DT_RELASZ, 72);
    put_dynamic_item(&mut mem, 16, 0, 0);
    let items = collect_dynamic_items(&mem, 0).unwrap();
    assert!(find_relocation_slices(&items).is_none());
}

#[test]
fn rela_table_parses_entries_in_order() {
    let mut mem = zeroed(48);
    write_u64_le(&mut mem, 0, 0x10);
    write_u64_le(&mut mem, 8, 8);
    write_u64_le(&mut mem, 16, 0x2i64 as u64);
    write_u64_le(&mut mem, 24, 0x20);
    write_u64_le(&mut mem, 32, 37);
    write_u64_le(&mut mem, 40, (-5i64) as u64);
    let relas = parse_rela_table(&mem, 0, 2).unwrap();
    assert_eq!(relas.len(), 2);
    assert_eq!(relas[0], Rela { r_offset: 0x10, r_info: 8, r_addend: 2 });
    assert_eq!(relas[1], Rela { r_offset: 0x20, r_info: 37, r_addend: -5 });
    assert!(parse_rela_table(&mem, 0, 3).is_none());
}

#[test]
fn plain_relocation_stores_base_plus_addend() {
    let mut mem = zeroed(64);
    let relas = vec![Rela { r_offset: 16, r_info: R_X86_64_RELATIVE as u64, r_addend: 0x100 }];
    let resolver = |_a: u64| 0u64;
    let (result, _) = relocate_table(&mut mem, 0x7000_0000, &relas, &resolver);
    assert!(result.is_ok());
    assert_eq!(read_u64_le(&mem, 16), 0x7000_0100);
}

#[test]
fn plain_relocation_wraps_at_the_address_width() {
    let mut mem = zeroed(32);
    let relas = vec![Rela { r_offset: 8, r_info: R_X86_64_RELATIVE as u64, r_addend: -1 }];
    let resolver = |_a: u64| 0u64;
    let (result, _) = relocate_table(&mut mem, 0, &relas, &resolver);
    assert!(result.is_ok());
    assert_eq!(read_u64_le(&mem, 8), u64::MAX); // 0 + (-1), wrapping
}

#[test]
fn indirect_relocation_stores_the_resolver_value() {
    let mut mem = zeroed(64);
    let relas = vec![Rela { r_offset: 24, r_info: R_X86_64_IRELATIVE as u64, r_addend: 0x40 }];
    let base: u64 = 0x5000;
    let resolver = |address: u64| {
        // the resolver lives at base + addend and returns a chosen value
        assert_eq!(address, 0x5040);
        0xFEED_F00D_u64
    };
    let (result, _) = relocate_table(&mut mem, base, &relas, &resolver);
    assert!(result.is_ok());
    assert_eq!(read_u64_le(&mem, 24), 0xFEED_F00D);
}

#[test]
fn unsupported_relocation_stops_with_no_further_writes() {
    let mut mem = zeroed(128);
    let relas = vec![
        Rela { r_offset: 96, r_info: R_X86_64_RELATIVE as u64, r_addend: 1 },
        Rela { r_offset: 104, r_info: 99, r_addend: 2 },
        Rela { r_offset: 112, r_info: R_X86_64_RELATIVE as u64, r_addend: 3 },
    ];
    let resolver = |_a: u64| 0u64;
    let (result, _) = relocate_table(&mut mem, 0x1000, &relas, &resolver);
    assert_eq!(result, Err(1));
    // the entry before the unsupported one was applied
    assert_eq!(read_u64_le(&mem, 96), 0x1001);
    // the unsupported entry and everything after it stored nothing
    assert_eq!(read_u64_le(&mem, 104), 0);
    assert_eq!(read_u64_le(&mem, 112), 0);
    // and the reserved status for this condition is distinct
    assert_eq!(BootstrapError::UnsupportedRelocation.exit_status(), 32);
    assert_eq!(BootstrapError::InvariantViolation.exit_status(), 101);
}

#[test]
fn relocation_entries_are_applied_once_in_array_order() {
    let mut mem = zeroed(32);
    // two entries with the same target: the later one wins
    let relas = vec![
        Rela { r_offset: 8, r_info: R_X86_64_RELATIVE as u64, r_addend: 0x11 },
        Rela { r_offset: 8, r_info: R_X86_64_RELATIVE as u64, r_addend: 0x22 },
    ];
    let resolver = |_a: u64| 0u64;
    let (result, _) = relocate_table(&mut mem, 0, &relas, &resolver);
    assert!(result.is_ok());
    assert_eq!(read_u64_le(&mem, 8), 0x22);
}
