use kernel::bump::BumpAllocator;
use kernel::heap::{
    heap_check, heap_page_virt, HeapInitError, HeapSetup, HeapStage, HeapStep, Locked, HEAP_PAGES, HEAP_START,
    HEAP_TEST_PATTERN,
};
use kernel::linked_list::{LinkedListAllocator, ListNode};

fn free_list(a: &LinkedListAllocator) -> Vec<(usize, usize)> {
    a.regions().iter().map(|n| (n.start, n.size)).collect()
}

#[test]
fn linked_list_empty_allocator_has_nothing() {
    let mut a = LinkedListAllocator::new();
    assert_eq!(a.allocate(8, 8), None);
    assert!(free_list(&a).is_empty());
}

#[test]
fn linked_list_init_aligns_start() {
    let mut a = LinkedListAllocator::new();
    a.init(0x1003, 100);
    assert_eq!(free_list(&a), vec![(0x1008, 95)]);
}

#[test]
fn linked_list_small_requests_take_a_node() {
    let mut a = LinkedListAllocator::new();
    a.init(0x1000, 0x1000);
    assert_eq!(a.allocate(8, 8), Some(0x1000));
    assert_eq!(a.allocate(1, 1), Some(0x1010));
    assert_eq!(free_list(&a), vec![(0x1020, 0xFE0)]);
}

#[test]
fn linked_list_alignment_is_honoured() {
    let mut a = LinkedListAllocator::new();
    a.init(0x1008, 0x100);
    // The block starts at the next multiple of 32; the bytes skipped are lost.
    assert_eq!(a.allocate(16, 32), Some(0x1020));
    assert_eq!(free_list(&a), vec![(0x1040, 0xC8)]);
    a.deallocate(0x1020, 16, 32);
    // size 16 padded to 32
    assert_eq!(free_list(&a), vec![(0x1020, 0xE8)]);
    assert_eq!(a.allocate(16, 8), Some(0x1020));
}

#[test]
fn linked_list_free_then_allocate_reuses_block() {
    let mut a = LinkedListAllocator::new();
    a.init(0x1000, 0x100);
    let x = a.allocate(32, 8).unwrap();
    let y = a.allocate(32, 8).unwrap();
    assert_eq!((x, y), (0x1000, 0x1020));
    a.deallocate(x, 32, 8);
    assert_eq!(free_list(&a), vec![(0x1000, 32), (0x1040, 0xC0)]);
    assert_eq!(a.allocate(32, 8), Some(0x1000));
}

#[test]
fn linked_list_neighbours_coalesce() {
    let mut a = LinkedListAllocator::new();
    a.init(0x1000, 0x100);
    let x = a.allocate(32, 8).unwrap();
    let y = a.allocate(32, 8).unwrap();
    a.deallocate(x, 32, 8);
    a.deallocate(y, 32, 8);
    // merged with the free block before and the rest of the heap after
    assert_eq!(free_list(&a), vec![(0x1000, 0x100)]);
    assert_eq!(a.allocate(0x100, 8), Some(0x1000));
    assert_eq!(a.allocate(8, 8), None);
}

#[test]
fn linked_list_rejects_remainder_smaller_than_a_node() {
    let mut a = LinkedListAllocator::new();
    a.init(0x1000, 48);
    // would leave 8 bytes, too few for a node
    assert_eq!(a.allocate(40, 8), None);
    assert_eq!(free_list(&a), vec![(0x1000, 48)]);
    assert_eq!(a.allocate(32, 8), Some(0x1000));
    assert_eq!(free_list(&a), vec![(0x1020, 16)]);
}

#[test]
fn linked_list_first_fit_skips_small_regions() {
    let mut a = LinkedListAllocator::new();
    a.init(0x1000, 0x100);
    let x = a.allocate(16, 8).unwrap();
    let _y = a.allocate(16, 8).unwrap();
    a.deallocate(x, 16, 8);
    assert_eq!(a.allocate(64, 8), Some(0x1020));
    assert_eq!(free_list(&a), vec![(0x1000, 16), (0x1060, 0xA0)]);
}

#[test]
fn list_node_addresses() {
    let n = ListNode::new(0x2000, 0x40);
    assert_eq!(n.start_addr(), 0x2000);
    assert_eq!(n.end_addr(), 0x2040);
}

#[test]
fn bump_allocates_linearly() {
    let mut b = BumpAllocator::new();
    assert_eq!(b.allocate(1, 1), None);
    b.init(0x1000, 0x100);
    assert_eq!(b.allocate(10, 1), Some(0x1000));
    assert_eq!(b.allocate(8, 8), Some(0x1010));
    assert_eq!(b.allocate(0x100, 1), None);
    b.deallocate(0x1000, 10, 1);
    assert_eq!(b.allocate(0xE8, 1), Some(0x1018));
    assert_eq!(b.allocate(1, 1), None);
}

#[test]
fn heap_pages_and_check() {
    assert_eq!(heap_page_virt(0), 0xFFFF_C444_4444_0000);
    assert_eq!(heap_page_virt(255), 0xFFFF_C444_4453_F000);
    assert_eq!(heap_check(HEAP_TEST_PATTERN), Ok(()));
    assert_eq!(heap_check(0), Err(HeapInitError::VerifyFailed));
    assert_eq!(HeapInitError::OutOfMemory.message(), "Out of physical memory for heap");
    assert_eq!(HeapInitError::MapFailed.message(), "Failed to map heap page");
}

#[test]
fn locked_gives_access_to_inner() {
    let mut l = Locked::new(LinkedListAllocator::new());
    l.lock().init(0x1000, 0x100);
    assert_eq!(l.lock().allocate(16, 8), Some(0x1000));
}

#[test]
fn linked_list_alloc_then_free_restores_regions() {
    let mut a = LinkedListAllocator::new();
    a.init(0x1000, 0x400);
    let x = a.allocate(32, 8).unwrap();
    let _y = a.allocate(64, 8).unwrap();
    let before = free_list(&a);
    let p = a.allocate(48, 8).unwrap();
    a.deallocate(p, 48, 8);
    assert_eq!(free_list(&a), before);
    a.deallocate(x, 32, 8);
    let regions = free_list(&a);
    // touching regions never stay side by side
    for w in regions.windows(2) {
        assert!(w[0].0 + w[0].1 < w[1].0);
    }
}

/// Drive a heap setup to its end, every mapping succeeding unless it is
/// page `fail_at`, and no table frames needed.
fn run_setup(cur: u64, end: u64, fail_at: Option<usize>, read_back: u64) -> (Vec<(u64, u64)>, Result<u64, HeapInitError>) {
    let mut s = HeapSetup::new(cur, end);
    let mut mapped = Vec::new();
    loop {
        match s.next() {
            HeapStep::MapPage { virt, phys } => {
                let ok = Some(s.page) != fail_at;
                if ok {
                    mapped.push((virt, phys));
                }
                s.after_map(ok);
            }
            HeapStep::Verify => s.after_verify(read_back),
            HeapStep::Done(r) => return (mapped, r),
        }
    }
}

#[test]
fn heap_setup_maps_pages_in_order() {
    let (mapped, r) = run_setup(0x30_0000, 0x100_0000, None, HEAP_TEST_PATTERN);
    assert_eq!(mapped.len(), HEAP_PAGES);
    for (i, (virt, phys)) in mapped.iter().enumerate() {
        assert_eq!(*virt, HEAP_START + 4096 * i as u64);
        assert_eq!(*phys, 0x30_0000 + 4096 * i as u64);
    }
    assert_eq!(r, Ok(0x30_0000 + 4096 * HEAP_PAGES as u64));
}

#[test]
fn heap_setup_errors() {
    let (mapped, r) = run_setup(0x30_0000, 0x30_0000 + 4096 * 10, None, HEAP_TEST_PATTERN);
    assert_eq!(mapped.len(), 10);
    assert_eq!(r, Err(HeapInitError::OutOfMemory));
    let (mapped, r) = run_setup(0x30_0000, 0x100_0000, Some(3), HEAP_TEST_PATTERN);
    assert_eq!(mapped.len(), 3);
    assert_eq!(r, Err(HeapInitError::MapFailed));
    let (_, r) = run_setup(0x30_0000, 0x100_0000, None, 0);
    assert_eq!(r, Err(HeapInitError::VerifyFailed));
    let mut s = HeapSetup::new(0x30_0000, 0x100_0000);
    assert!(matches!(s.stage, HeapStage::Mapping));
    assert!(matches!(s.next(), HeapStep::MapPage { .. }));
    assert_eq!(s.table_frame(), Some(0x30_1000));
    s.after_map(true);
    assert!(matches!(s.next(), HeapStep::MapPage { virt: 0xFFFF_C444_4444_1000, phys: 0x30_2000 }));
}
