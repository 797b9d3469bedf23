use miros::libc::close::close_precheck;
use miros::libc::errno::{set_errno, Errno};
use miros::libc::mem::{memory_compare, memory_copy, memory_set};
use miros::libc::str::c_string_length;
use miros::start::environment_variables::{
    bytes_equal, environment_lookup, split_environment_entry, EnvironmentIterator,
};
use miros::syscall::openat::{open_mode_argument, AccessMode, OFlags, S_IFMT};

#[test]
fn errno_cell_stores_what_it_is_given() {
    let mut cell = Errno(0);
    set_errno(&mut cell, Errno(5));
    assert_eq!(cell.code(), 5);
    // the bad-descriptor error carries the kernel's number for it
    assert_eq!(Errno::badf().code(), 9);
}

#[test]
fn close_of_the_invalid_descriptor_fails_up_front() {
    let mut cell = Errno(0);
    assert!(!close_precheck(-1, &mut cell));
    assert_eq!(cell.code(), 9);
    let mut cell = Errno(77);
    assert!(close_precheck(3, &mut cell));
    assert_eq!(cell.code(), 77); // untouched on the proceed path
}

#[test]
fn memory_copy_touches_only_the_prefix() {
    let mut destination = vec![9u8; 6];
    let source = vec![1u8, 2, 3, 4];
    memory_copy(&mut destination, &source, 3);
    assert_eq!(destination, vec![1, 2, 3, 9, 9, 9]);
}

#[test]
fn memory_set_fills_the_prefix() {
    let mut destination = vec![9u8; 5];
    memory_set(&mut destination, 0, 4);
    assert_eq!(destination, vec![0, 0, 0, 0, 9]);
}

#[test]
fn memory_compare_signs_the_first_difference_as_unsigned() {
    let a = vec![1u8, 2, 3];
    let b = vec![1u8, 2, 3];
    assert_eq!(memory_compare(&a, &b, 3), 0);
    let c = vec![1u8, 2, 4];
    assert_eq!(memory_compare(&a, &c, 3), -1);
    assert_eq!(memory_compare(&c, &a, 3), 1);
    // bytes compare unsigned: 0xFF is above 0x01
    let high = vec![0xFFu8];
    let low = vec![0x01u8];
    assert_eq!(memory_compare(&high, &low, 1), 1);
    // differences past the count are invisible
    assert_eq!(memory_compare(&a, &c, 2), 0);
}

#[test]
fn c_string_length_finds_the_first_nul() {
    let bytes = vec![104u8, 105, 0, 7];
    assert_eq!(c_string_length(&bytes), Some(2));
    let no_nul = vec![104u8, 105];
    assert_eq!(c_string_length(&no_nul), None);
    let empty_string = vec![0u8, 42];
    assert_eq!(c_string_length(&empty_string), Some(0));
}

#[test]
fn environment_entries_split_at_the_first_equals() {
    let entry = b"PATH=/bin:/usr/bin".to_vec();
    let (name, value) = split_environment_entry(&entry).unwrap();
    assert_eq!(name, b"PATH".to_vec());
    assert_eq!(value, b"/bin:/usr/bin".to_vec());
    let tricky = b"A=B=C".to_vec();
    let (name, value) = split_environment_entry(&tricky).unwrap();
    assert_eq!(name, b"A".to_vec());
    assert_eq!(value, b"B=C".to_vec());
    assert!(split_environment_entry(&b"NOEQUALS".to_vec()).is_none());
}

#[test]
fn environment_lookup_returns_the_first_match() {
    let entries: Vec<Vec<u8>> = vec![
        b"HOME=/root".to_vec(),
        b"PATH=/bin".to_vec(),
        b"PATH=/other".to_vec(),
    ];
    let value = environment_lookup(&entries, &b"PATH".to_vec()).unwrap();
    assert_eq!(value, b"/bin".to_vec());
    assert!(environment_lookup(&entries, &b"SHELL".to_vec()).is_none());
    assert!(bytes_equal(&b"x".to_vec(), &b"x".to_vec()));
    assert!(!bytes_equal(&b"x".to_vec(), &b"y".to_vec()));
}

#[test]
fn environment_iterator_stops_at_its_terminator() {
    let words: Vec<usize> = vec![0x10, 0x20, 0, 0x30];
    let mut iterator = EnvironmentIterator::new(words, 0);
    assert_eq!(iterator.next(), Some(0x10));
    assert_eq!(iterator.next(), Some(0x20));
    assert_eq!(iterator.next(), None);
    assert_eq!(iterator.next(), None);
}

#[test]
fn open_flags_read_their_fields() {
    let flags = OFlags(0x80 | 0x200 | 2);
    assert_eq!(flags.access_mode(), Some(AccessMode::ReadAndWrite));
    assert!(flags.create());
    assert!(!flags.require_create());
    assert!(flags.do_not_make_controlling_terminal());
    assert!(!flags.do_not_follow_symbolic_link());
    assert!(!flags.create_unnamed_temporary_file());
    assert_eq!(flags.raw_value(), 0x282);
    assert_eq!(OFlags(3).access_mode(), None);
    assert_eq!(OFlags(0).access_mode(), Some(AccessMode::ReadOnly));
    assert_eq!(OFlags(1).access_mode(), Some(AccessMode::WriteOnly));
    assert_eq!(AccessMode::WriteOnly.bits(), 1);
}

#[test]
fn open_mode_argument_masks_only_when_creating() {
    let creating = OFlags(0x80);
    assert_eq!(open_mode_argument(creating, 0x457FFF), 0x457FFF & !S_IFMT);
    assert_eq!(open_mode_argument(creating, 0o644), 0o644);
    let temporary = OFlags(0x400000);
    assert_eq!(open_mode_argument(temporary, 0o600), 0o600);
    let plain = OFlags(0);
    assert_eq!(open_mode_argument(plain, 0o644), 0);
}

#[test]
fn tls_region_layout_matches_the_template() {
    // a template larger than the end-to-end case: seven file-backed bytes,
    // declared size twelve, alignment eight
    let mut image = vec![0u8; 64];
    for i in 0..7 {
        image[32 + i] = (i as u8) + 1;
    }
    let random: [u8; 16] = [0xFF; 16];
    let block = miros::elf::thread_local_storage::build_tls_region(&image, 32, 7, 16, &random, 0x4000);
    assert_eq!(block.address, 0x4000);
    assert_eq!(block.thread_pointer, 0x4010);
    assert_eq!(block.region.len(), 16 + 48);
    assert_eq!(&block.region[0..7], &[1, 2, 3, 4, 5, 6, 7]);
    assert!(block.region[7..16].iter().all(|b| *b == 0));
    assert_eq!(miros::words::read_u64_le(&block.region, 16), 0x4010);
    assert_eq!(miros::words::read_u64_le(&block.region, 24), 0);
    assert_eq!(miros::words::read_u64_le(&block.region, 56), u64::MAX);
}
