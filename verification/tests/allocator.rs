use miros::global_allocator::{Allocator, Layout, MemoryMap, ThreadCache, MAX_SUPPORTED_ALIGN};

fn armed() -> (Allocator, MemoryMap) {
    let mut allocator = Allocator::new();
    allocator.initialize(4096);
    (allocator, MemoryMap::new(4096))
}

#[test]
fn allocator_starts_unarmed_and_arms_once() {
    let allocator = Allocator::new();
    assert_eq!(allocator.page_size, 0);
    let mut allocator = Allocator::new();
    allocator.initialize(4096);
    assert_eq!(allocator.page_size, 4096);
    let _cache = ThreadCache::new();
}

#[test]
fn layouts_demand_power_of_two_alignment() {
    assert!(Layout::from_size_align(100, 8).is_some());
    assert!(Layout::from_size_align(100, 12).is_none());
    let layout = Layout::from_size_align(100, 8).unwrap();
    assert_eq!(layout.pad_to_align(), 104);
}

#[test]
fn aligned_layout_takes_the_larger_alignment() {
    let (allocator, _) = armed();
    let layout = Layout { size: 100, align: 8 };
    let aligned = allocator.align_layout_to_page_size(layout);
    assert_eq!(aligned.size, 100);
    assert_eq!(aligned.align, 4096);
}

#[test]
fn allocate_then_deallocate_leaks_no_mapping_and_never_double_unmaps() {
    let (allocator, mut mm) = armed();
    let layout = Layout { size: 100, align: 8 };
    let address = allocator.allocate(&mut mm, layout).unwrap();
    assert_ne!(address, 0);
    // aligned to at least max(requested alignment, page size)
    assert_eq!(address % 4096, 0);
    assert_eq!(address % 8, 0);
    assert_eq!(mm.region_count(), 1);
    assert!(mm.lookup(address).is_some());
    allocator.dealloc(&mut mm, address, layout);
    assert_eq!(mm.region_count(), 0);
    assert!(mm.lookup(address).is_none());
    // releasing the same mapping again changes nothing
    allocator.dealloc(&mut mm, address, layout);
    assert_eq!(mm.region_count(), 0);
}

#[test]
fn oversized_alignment_fails_without_attempting_a_mapping() {
    let (allocator, mut mm) = armed();
    let layout = Layout { size: 100, align: 2 * MAX_SUPPORTED_ALIGN };
    assert!(allocator.allocate(&mut mm, layout).is_none());
    assert_eq!(mm.region_count(), 0);
}

#[test]
fn empty_requests_are_refused() {
    let (allocator, mut mm) = armed();
    let layout = Layout { size: 0, align: 8 };
    assert!(allocator.allocate(&mut mm, layout).is_none());
    assert_eq!(mm.region_count(), 0);
}

#[test]
fn fresh_mappings_come_zeroed_and_page_rounded() {
    let (allocator, mut mm) = armed();
    let layout = Layout { size: 100, align: 8 };
    let address = allocator.allocate(&mut mm, layout).unwrap();
    let bytes = mm.lookup(address).unwrap();
    assert_eq!(bytes.len(), 4096); // 100 rounded up to one page
    assert!(bytes.iter().all(|b| *b == 0));
}

#[test]
fn realloc_with_equal_page_rounded_size_returns_the_identical_address() {
    let (allocator, mut mm) = armed();
    let layout = Layout { size: 100, align: 8 };
    let address = allocator.allocate(&mut mm, layout).unwrap();
    let again = allocator.realloc(&mut mm, address, layout, 200).unwrap();
    assert_eq!(again, address);
    assert_eq!(mm.region_count(), 1);
}

#[test]
fn realloc_with_differing_size_moves_and_copies_the_content() {
    let (allocator, mut mm) = armed();
    let layout = Layout { size: 100, align: 8 };
    let address = allocator.allocate(&mut mm, layout).unwrap();
    let data: Vec<u8> = vec![1, 2, 3, 4, 5, 6, 7, 8, 9, 10];
    assert!(mm.write_prefix(address, &data, 10));
    let moved = allocator.realloc(&mut mm, address, layout, 5000).unwrap();
    assert_ne!(moved, address);
    assert_eq!(mm.region_count(), 1);
    assert!(mm.lookup(address).is_none()); // the old mapping was released
    let bytes = mm.lookup(moved).unwrap();
    assert_eq!(bytes.len(), 8192); // 5000 rounded up to pages
    assert_eq!(&bytes[0..10], &data[..]);
    assert!(bytes[104..].iter().all(|b| *b == 0)); // beyond the copied prefix
}

#[test]
fn realloc_of_null_is_a_plain_allocation() {
    let (allocator, mut mm) = armed();
    let layout = Layout { size: 100, align: 8 };
    let address = allocator.realloc(&mut mm, 0, layout, 300).unwrap();
    assert_ne!(address, 0);
    assert_eq!(mm.lookup(address).unwrap().len(), 4096);
}

#[test]
fn realloc_to_zero_is_a_release() {
    let (allocator, mut mm) = armed();
    let layout = Layout { size: 100, align: 8 };
    let address = allocator.allocate(&mut mm, layout).unwrap();
    assert!(allocator.realloc(&mut mm, address, layout, 0).is_none());
    assert_eq!(mm.region_count(), 0);
}

#[test]
fn realloc_with_oversized_alignment_fails_cleanly() {
    let (allocator, mut mm) = armed();
    let layout = Layout { size: 100, align: 8 };
    let address = allocator.allocate(&mut mm, layout).unwrap();
    let bad = Layout { size: 100, align: 2 * MAX_SUPPORTED_ALIGN };
    assert!(allocator.realloc(&mut mm, address, bad, 200).is_none());
    assert_eq!(mm.region_count(), 1);
}
