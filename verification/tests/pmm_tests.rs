use kernel::pmm::{E820Entry, HeapFrameAllocator, PhysicalMemoryManager};

fn entry(base: u64, length: u64, kind: u32) -> E820Entry {
    E820Entry { base, length, kind, _ext: 0 }
}

#[test]
fn pmm_picks_largest_usable_region() {
    let map = [entry(0, 0x9F000, 1), entry(0x10_0000, 0x7EE_0000, 1), entry(0xFFFC_0000, 0x4_0000, 2)];
    let mut pmm = PhysicalMemoryManager::new(&map).unwrap();
    // the first 2 MiB are skipped
    assert_eq!(pmm.get_state(), (0x20_0000, 0x7FE_0000));
    assert_eq!(pmm.alloc_frame(), Some(0x20_0000));
    assert_eq!(pmm.alloc_frame(), Some(0x20_1000));
    assert_eq!(pmm.get_state(), (0x20_2000, 0x7FE_0000));
}

#[test]
fn pmm_ignores_low_and_reserved_memory() {
    let map = [entry(0, 0x9F000, 1), entry(0x100_0000, 0x1000_0000, 2)];
    assert!(PhysicalMemoryManager::new(&map).is_none());
    assert!(PhysicalMemoryManager::new(&[]).is_none());
}

#[test]
fn pmm_region_inside_kernel_image_is_unusable() {
    let map = [entry(0x10_0000, 0x10_0000, 1)];
    assert!(PhysicalMemoryManager::new(&map).is_none());
}

#[test]
fn pmm_aligns_start_and_keeps_first_largest() {
    let map = [entry(0x30_0800, 0x10_0000, 1), entry(0x50_0000, 0x10_0000, 1)];
    let pmm = PhysicalMemoryManager::new(&map).unwrap();
    assert_eq!(pmm.get_state(), (0x30_1000, 0x40_0800));
}

#[test]
fn pmm_runs_out_of_frames() {
    let map = [entry(0x20_0000, 0x2000, 1)];
    let mut pmm = PhysicalMemoryManager::new(&map).unwrap();
    assert_eq!(pmm.alloc_frame(), Some(0x20_0000));
    assert_eq!(pmm.alloc_frame(), Some(0x20_1000));
    assert_eq!(pmm.alloc_frame(), None);
    pmm.advance_to(0x20_1000);
    assert_eq!(pmm.alloc_frame(), Some(0x20_1000));
}

#[test]
fn heap_frame_allocator_hands_out_pages() {
    let mut f = HeapFrameAllocator { current: 0x40_0000, end: 0x40_2000 };
    assert_eq!(f.alloc_frame(), Some(0x40_0000));
    assert_eq!(f.alloc_frame(), Some(0x40_1000));
    assert_eq!(f.alloc_frame(), None);
    assert_eq!(f.current, 0x40_2000);
}

#[test]
fn pmm_frames_follow_each_other_until_none() {
    let map = [entry(0x10_0000, 0x10_5000, 1)];
    let mut pmm = PhysicalMemoryManager::new(&map).unwrap();
    let got: Vec<Option<u64>> = (0..7).map(|_| pmm.alloc_frame()).collect();
    assert_eq!(
        got,
        vec![Some(0x20_0000), Some(0x20_1000), Some(0x20_2000), Some(0x20_3000), Some(0x20_4000), None, None]
    );
}
