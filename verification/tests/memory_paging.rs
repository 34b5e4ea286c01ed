use mini_kernel::memory::{PageAllocator, PAGE_SIZE};
use mini_kernel::paging::{PageTable, PAGE_R, PAGE_W, PAGE_X};
use mini_kernel::KernelError;

#[test]
fn allocations_are_aligned_zeroed_and_disjoint() {
    let mut alloc = PageAllocator::new(0x1000, 0x9000);
    let first = alloc.alloc_pages(1).unwrap();
    let second = alloc.alloc_pages(2).unwrap();
    let third = alloc.alloc_pages(1).unwrap();

    for region in [&first, &second, &third] {
        assert_eq!(region.paddr % PAGE_SIZE, 0);
        assert!(region.bytes.iter().all(|b| *b == 0));
    }
    assert_eq!(first.bytes.len(), 4096);
    assert_eq!(second.bytes.len(), 8192);

    // pairwise disjoint: each region ends before the next begins
    assert_eq!(first.paddr, 0x1000);
    assert_eq!(second.paddr, 0x2000);
    assert_eq!(third.paddr, 0x4000);
    assert!(first.paddr + first.bytes.len() as u32 <= second.paddr);
    assert!(second.paddr + second.bytes.len() as u32 <= third.paddr);
}

#[test]
fn exhaustion_is_reported_and_never_wraps() {
    let mut alloc = PageAllocator::new(0x1000, 0x3000);
    assert_eq!(alloc.alloc_pages(3).unwrap_err(), KernelError::OutOfMemory);
    // the failed request left the allocator untouched
    let ok = alloc.alloc_pages(2).unwrap();
    assert_eq!(ok.paddr, 0x1000);
    assert_eq!(alloc.alloc_pages(1).unwrap_err(), KernelError::OutOfMemory);
}

#[test]
fn translation_returns_exactly_what_was_mapped() {
    let mut alloc = PageAllocator::new(0x10000, 0x20000);
    let mut pt = PageTable::new(&mut alloc).unwrap();
    let va = 5 * PAGE_SIZE;
    let pa = 9 * PAGE_SIZE;
    let flags = PAGE_R | PAGE_W;
    pt.create_mapping(&mut alloc, va, pa, flags).unwrap();

    assert_eq!(pt.translate(va), Some((pa, flags)));
    // offsets within the page carry over
    assert_eq!(pt.translate(va + 123), Some((pa + 123, flags)));
    // other pages stay unmapped
    assert_eq!(pt.translate(va + PAGE_SIZE), None);
    assert_eq!(pt.translate(0), None);
}

#[test]
fn mappings_sharing_a_second_level_table_do_not_corrupt_each_other() {
    let mut alloc = PageAllocator::new(0x10000, 0x40000);
    let mut pt = PageTable::new(&mut alloc).unwrap();
    let next_before = alloc.next_paddr;
    // both page numbers fall in the same root slot
    pt.create_mapping(&mut alloc, PAGE_SIZE, 7 * PAGE_SIZE, PAGE_R)
        .unwrap();
    let next_after_first = alloc.next_paddr;
    pt.create_mapping(&mut alloc, 2 * PAGE_SIZE, 8 * PAGE_SIZE, PAGE_X)
        .unwrap();

    // the first mapping allocated the shared table; the second reused it
    assert_eq!(next_after_first, next_before + PAGE_SIZE);
    assert_eq!(alloc.next_paddr, next_after_first);

    assert_eq!(pt.translate(PAGE_SIZE), Some((7 * PAGE_SIZE, PAGE_R)));
    assert_eq!(pt.translate(2 * PAGE_SIZE), Some((8 * PAGE_SIZE, PAGE_X)));
}

#[test]
fn remapping_a_page_replaces_its_entry() {
    let mut alloc = PageAllocator::new(0x10000, 0x40000);
    let mut pt = PageTable::new(&mut alloc).unwrap();
    pt.create_mapping(&mut alloc, PAGE_SIZE, 7 * PAGE_SIZE, PAGE_R)
        .unwrap();
    pt.create_mapping(&mut alloc, PAGE_SIZE, 3 * PAGE_SIZE, PAGE_W)
        .unwrap();
    assert_eq!(pt.translate(PAGE_SIZE), Some((3 * PAGE_SIZE, PAGE_W)));
}

#[test]
fn mapping_fails_when_no_page_is_left_for_a_table() {
    // one page: enough for the root, nothing left for a second level
    let mut alloc = PageAllocator::new(0x1000, 0x2000);
    let mut pt = PageTable::new(&mut alloc).unwrap();
    assert_eq!(
        pt.create_mapping(&mut alloc, 0, 0, PAGE_R).unwrap_err(),
        KernelError::OutOfMemory
    );
    assert_eq!(pt.translate(0), None);
}
