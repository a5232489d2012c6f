//! Mapping pages through tables reached by physical address, with frames
//! from the physical memory manager.
use vstd::prelude::*;
use crate::pmm::{PhysicalMemoryManager, alloc_frame_spec, PAGE_SIZE};
use crate::paging::{PageWalk, leaf_entry, range_pages, walk_ok};

verus! {

/// Physical address of the boot PML4.
pub const BOOT_PML4: u64 = 0x2000;

/// Maps pages into the tables rooted at `pml4_phys`, taking table frames
/// from `pmm`.
pub struct PageTableManager {
    pml4_phys: u64,
    pmm: PhysicalMemoryManager,
}

impl PageTableManager {
    pub closed spec fn root(&self) -> u64 {
        self.pml4_phys
    }

    pub closed spec fn frames(&self) -> (u64, u64) {
        self.pmm@
    }

    pub fn new(pml4_phys: u64, pmm: PhysicalMemoryManager) -> (m: PageTableManager)
        ensures
            m.root() == pml4_phys,
            m.frames() == pmm@,
    {
        PageTableManager { pml4_phys, pmm }
    }

    /// Start mapping `virt` to `phys` with `flags`: a walk over physical
    /// tables that flushes the whole TLB after adding a PML4 entry.
    pub fn map_page(&self, virt: u64, phys: u64, flags: u64) -> (w: PageWalk)
        requires
            self.root() + 4096 <= u64::MAX,
        ensures
            w == (PageWalk {
                virt, leaf: leaf_entry(phys, flags), level: 0, table: self.root(), recursive: false,
                flush_on_top: true, pending: 0,
            }),
            walk_ok(w),
    {
        PageWalk::physical(self.pml4_phys, virt, phys, flags, true)
    }

    /// A frame for a new table.
    pub fn table_frame(&mut self) -> (r: Option<u64>)
        requires
            old(self).frames().0 + PAGE_SIZE <= u64::MAX,
        ensures
            (r, final(self).frames()) == alloc_frame_spec(old(self).frames()),
            final(self).root() == old(self).root(),
    {
        self.pmm.alloc_frame()
    }

    /// The pages of a range, in order (see `range_pages`).
    pub fn map_range(&self, virt_start: u64, phys_start: u64, size: u64) -> (r: Vec<(u64, u64)>)
        requires
            size + 0xFFF <= u64::MAX,
            virt_start / 4096 * 4096 + size + 0xFFF <= u64::MAX,
            phys_start / 4096 * 4096 + size + 0xFFF <= u64::MAX,
        ensures
            r@.len() == (size + 0xFFF) / 4096,
            forall|i: int| 0 <= i < r@.len() ==> #[trigger] r@[i] == (
                (virt_start / 4096 * 4096 + i * 4096) as u64,
                (phys_start / 4096 * 4096 + i * 4096) as u64,
            ),
    {
        range_pages(virt_start, phys_start, size)
    }

    /// Give the frame allocator back.
    pub fn into_pmm(self) -> (p: PhysicalMemoryManager)
        ensures
            p@ == self.frames(),
    {
        self.pmm
    }
}

/// The fixed frame for the table at `level` (1 = PDPT, 2 = directory,
/// 3 = page table) of the higher-half VGA mapping.
pub fn vga_table_frame(level: u64) -> (r: u64)
    requires
        1 <= level <= 3,
    ensures
        r == 0x7000 + level * 0x1000,
{
    0x7000 + level * 0x1000
}

} // verus!
