use kernel::paging::{
    make_recursive_va, page_table_indices, pd_entry_ptr, pdpt_entry_ptr, pml4_entry_ptr, pt_entry_ptr, range_pages,
    PageWalk, WalkAction,
};
use kernel::pmm::{E820Entry, PhysicalMemoryManager};
use kernel::vmm::{vga_table_frame, PageTableManager};

#[test]
fn recursive_addresses() {
    assert_eq!(make_recursive_va(510, 510, 510, 510), 0xFFFF_FF7F_BFDF_E000);
    assert_eq!(make_recursive_va(1, 0, 0, 0), 0x80_0000_0000);
    assert_eq!(pml4_entry_ptr(392), 0xFFFF_FF7F_BFDF_E000 + 392 * 8);
    assert_eq!(pdpt_entry_ptr(392, 273), 0xFFFF_FF7F_BFD8_8000 + 273 * 8);
    assert_eq!(pd_entry_ptr(392, 273, 34), make_recursive_va(510, 510, 392, 273) + 34 * 8);
    assert_eq!(pt_entry_ptr(0x188, 0x111, 0x22, 0x40), 0xFFFF_FF62_2222_2000 + 0x40 * 8);
}

#[test]
fn indices_of_heap_start() {
    assert_eq!(page_table_indices(0xFFFF_C444_4444_0000), (392, 273, 34, 64));
    assert_eq!(page_table_indices(0xB8000), (0, 0, 0, 0xB8));
}

#[test]
fn physical_walk_installs_missing_tables() {
    let mut w = PageWalk::physical(0x2000, 0x40_0000, 0x30_0000, 0x3, true);
    assert_eq!(w.start(), WalkAction::ReadEntry { entry: 0x2000 });
    // PML4 entry present, pointing at a PDPT at 0x3000
    assert_eq!(w.on_entry(0x3003), WalkAction::ReadEntry { entry: 0x3000 });
    // PDPT entry missing
    assert_eq!(w.on_entry(0), WalkAction::NeedFrame);
    assert_eq!(
        w.on_frame(Some(0x50_0000)),
        WalkAction::InstallTable { entry: 0x3000, value: 0x50_0003, table: 0x50_0000, zero_first: true, flush_all: false }
    );
    assert_eq!(w.after_install(), WalkAction::ReadEntry { entry: 0x50_0000 + 2 * 8 });
    assert_eq!(w.on_entry(0), WalkAction::NeedFrame);
    assert_eq!(w.on_frame(None), WalkAction::OutOfFrames);
    assert_eq!(
        w.on_frame(Some(0x50_1000)),
        WalkAction::InstallTable { entry: 0x50_0010, value: 0x50_1003, table: 0x50_1000, zero_first: true, flush_all: false }
    );
    assert_eq!(w.after_install(), WalkAction::WriteLeaf { entry: 0x50_1000, value: 0x30_0003 });
}

#[test]
fn top_level_install_flushes_tlb() {
    let mut w = PageWalk::physical(0x2000, 0xFFFF_8000_0000_0000, 0x30_0000, 0x3, true);
    assert_eq!(w.start(), WalkAction::ReadEntry { entry: 0x2000 + 256 * 8 });
    assert_eq!(w.on_entry(0), WalkAction::NeedFrame);
    assert_eq!(
        w.on_frame(Some(0x9000)),
        WalkAction::InstallTable { entry: 0x2800, value: 0x9003, table: 0x9000, zero_first: true, flush_all: true }
    );
}

#[test]
fn recursive_walk_uses_window() {
    let virt = 0xFFFF_C444_4444_0000;
    let mut w = PageWalk::recursive(virt, 0x60_0000, 0x2);
    assert_eq!(w.start(), WalkAction::ReadEntry { entry: pml4_entry_ptr(392) });
    assert_eq!(w.on_entry(0), WalkAction::NeedFrame);
    assert_eq!(
        w.on_frame(Some(0x70_0000)),
        WalkAction::InstallTable {
            entry: pml4_entry_ptr(392),
            value: 0x70_0003,
            table: make_recursive_va(510, 510, 510, 392),
            zero_first: false,
            flush_all: false,
        }
    );
    assert_eq!(w.after_install(), WalkAction::ReadEntry { entry: pdpt_entry_ptr(392, 273) });
    assert_eq!(w.on_entry(0x71_0003), WalkAction::ReadEntry { entry: pd_entry_ptr(392, 273, 34) });
    assert_eq!(w.on_entry(0x72_0003), WalkAction::WriteLeaf { entry: pt_entry_ptr(392, 273, 34, 64), value: 0x60_0003 });
}

#[test]
fn ranges_split_into_pages() {
    assert_eq!(range_pages(0x1234, 0x5678, 0x1001), vec![(0x1000, 0x5000), (0x2000, 0x6000)]);
    assert_eq!(range_pages(0x1000, 0x2000, 0), vec![]);
    let pages = range_pages(0xFFFF_8000_0010_0000, 0x10_0000, 0x10_0000);
    assert_eq!(pages.len(), 256);
    assert_eq!(pages[255], (0xFFFF_8000_001F_F000, 0x1F_F000));
}

#[test]
fn table_manager_takes_frames() {
    let map = [E820Entry { base: 0x20_0000, length: 0x2000, kind: 1, _ext: 0 }];
    let pmm = PhysicalMemoryManager::new(&map).unwrap();
    let mut m = PageTableManager::new(0x2000, pmm);
    assert_eq!(m.map_page(0x40_0000, 0x1000, 3).start(), WalkAction::ReadEntry { entry: 0x2000 });
    assert_eq!(m.table_frame(), Some(0x20_0000));
    assert_eq!(m.table_frame(), Some(0x20_1000));
    assert_eq!(m.table_frame(), None);
    assert_eq!(m.map_range(0x1000, 0x2000, 0x1000), vec![(0x1000, 0x2000)]);
    assert_eq!(m.into_pmm().get_state(), (0x20_2000, 0x20_2000));
    assert_eq!(vga_table_frame(1), 0x8000);
    assert_eq!(vga_table_frame(3), 0xA000);
}
