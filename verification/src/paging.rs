//! Four-level x86-64 page tables: index arithmetic, the recursive mapping
//! window, and the walk that installs a mapping one level at a time.
use vstd::prelude::*;

verus! {

/// PML4 slot that maps the PML4 itself.
pub const RECURSIVE_INDEX: u64 = 510;
/// Entries in one table.
pub const TABLE_ENTRIES: u64 = 512;
/// Present bit of a table entry.
pub const ENTRY_PRESENT: u64 = 0x1;
/// Present and writable: the flags of an entry that points to a table.
pub const TABLE_ENTRY_FLAGS: u64 = 0x3;
/// Bits of an entry that hold the physical address of what it points to.
pub const ENTRY_ADDR_MASK: u64 = 0x000F_FFFF_FFFF_F000;
/// Sign-extension bits of a canonical higher-half address.
pub const SIGN_EXTENSION: u64 = 0xFFFF_0000_0000_0000;
/// Page size.
pub const PAGE_BYTES: u64 = 4096;

/// A 48-bit address made canonical: bit 47 copied into bits 48 to 63.
pub open spec fn canonical(raw: int) -> int {
    if raw >= 0x8000_0000_0000 { raw + SIGN_EXTENSION } else { raw }
}

/// The virtual address that selects the given table slots, made canonical.
pub open spec fn table_va(i3: int, i2: int, i1: int, i0: int) -> int {
    canonical(i3 * 0x80_0000_0000 + i2 * 0x4000_0000 + i1 * 0x20_0000 + i0 * 0x1000)
}

/// The address the code computes for any inputs: the four indices shifted
/// into place and or-ed together, then sign-extended from bit 47.
pub open spec fn recursive_va_bits(i3: u64, i2: u64, i1: u64, i0: u64) -> u64 {
    let raw = (i3 << 39u64) | (i2 << 30u64) | (i1 << 21u64) | (i0 << 12u64);
    if raw & (1u64 << 47u64) != 0 { raw | SIGN_EXTENSION } else { raw }
}

/// The virtual address whose table slots are `i3`, `i2`, `i1`, `i0`.
pub fn make_recursive_va(i3: u64, i2: u64, i1: u64, i0: u64) -> (r: u64)
    ensures
        r == recursive_va_bits(i3, i2, i1, i0),
        (i3 < 512 && i2 < 512 && i1 < 512 && i0 < 512) ==> r == table_va(i3 as int, i2 as int, i1 as int, i0 as int),
{
    let raw = (i3 << 39u64) | (i2 << 30u64) | (i1 << 21u64) | (i0 << 12u64);
    let r = if raw & (1u64 << 47u64) != 0 { raw | 0xFFFF_0000_0000_0000u64 } else { raw };
    proof {
        if i3 < 512 && i2 < 512 && i1 < 512 && i0 < 512 {
            assert(raw == i3 * 0x80_0000_0000 + i2 * 0x4000_0000 + i1 * 0x20_0000 + i0 * 0x1000) by (bit_vector)
                requires
                    i3 < 512, i2 < 512, i1 < 512, i0 < 512,
                    raw == (i3 << 39u64) | (i2 << 30u64) | (i1 << 21u64) | (i0 << 12u64);
            assert((raw & (1u64 << 47u64) != 0) == (raw >= 0x8000_0000_0000)
                && (raw | 0xFFFF_0000_0000_0000u64) == raw + 0xFFFF_0000_0000_0000u64) by (bit_vector)
                requires raw < 0x1_0000_0000_0000u64;
        }
    }
    r
}

/// Address of the PML4 entry `pml4_i`, through the recursive window.
pub fn pml4_entry_ptr(pml4_i: u64) -> (r: u64)
    requires
        pml4_i < 512,
    ensures
        r == table_va(510, 510, 510, 510) + pml4_i * 8,
{
    let base = make_recursive_va(RECURSIVE_INDEX, RECURSIVE_INDEX, RECURSIVE_INDEX, RECURSIVE_INDEX);
    base + pml4_i * 8
}

/// Address of the PDPT entry `pdpt_i` under PML4 slot `pml4_i`.
pub fn pdpt_entry_ptr(pml4_i: u64, pdpt_i: u64) -> (r: u64)
    requires
        pml4_i < 512,
        pdpt_i < 512,
    ensures
        r == table_va(510, 510, 510, pml4_i as int) + pdpt_i * 8,
{
    let base = make_recursive_va(RECURSIVE_INDEX, RECURSIVE_INDEX, RECURSIVE_INDEX, pml4_i);
    base + pdpt_i * 8
}

/// Address of the page-directory entry `pd_i`.
pub fn pd_entry_ptr(pml4_i: u64, pdpt_i: u64, pd_i: u64) -> (r: u64)
    requires
        pml4_i < 512,
        pdpt_i < 512,
        pd_i < 512,
    ensures
        r == table_va(510, 510, pml4_i as int, pdpt_i as int) + pd_i * 8,
{
    let base = make_recursive_va(RECURSIVE_INDEX, RECURSIVE_INDEX, pml4_i, pdpt_i);
    base + pd_i * 8
}

/// Address of the page-table entry `pt_i`.
pub fn pt_entry_ptr(pml4_i: u64, pdpt_i: u64, pd_i: u64, pt_i: u64) -> (r: u64)
    requires
        pml4_i < 512,
        pdpt_i < 512,
        pd_i < 512,
        pt_i < 512,
    ensures
        r == table_va(510, pml4_i as int, pdpt_i as int, pd_i as int) + pt_i * 8,
{
    let base = make_recursive_va(RECURSIVE_INDEX, pml4_i, pdpt_i, pd_i);
    base + pt_i * 8
}

/// The table slot that `virt` selects at `level` (0 = PML4, 3 = page table).
pub open spec fn va_index(virt: int, level: int) -> int {
    (virt / pow_level(level)) % 512
}

/// Bytes covered by one entry at `level`.
pub open spec fn pow_level(level: int) -> int {
    if level == 0 {
        0x80_0000_0000
    } else if level == 1 {
        0x4000_0000
    } else if level == 2 {
        0x20_0000
    } else {
        0x1000
    }
}

/// The four table slots that `virt` goes through, PML4 first.
pub fn page_table_indices(virt: u64) -> (r: (u64, u64, u64, u64))
    ensures
        r.0 == va_index(virt as int, 0),
        r.1 == va_index(virt as int, 1),
        r.2 == va_index(virt as int, 2),
        r.3 == va_index(virt as int, 3),
{
    let pml4_i = (virt >> 39u64) & 0x1FF;
    let pdpt_i = (virt >> 30u64) & 0x1FF;
    let pd_i = (virt >> 21u64) & 0x1FF;
    let pt_i = (virt >> 12u64) & 0x1FF;
    assert(pml4_i == (virt / 0x80_0000_0000) % 512 && pdpt_i == (virt / 0x4000_0000) % 512
        && pd_i == (virt / 0x20_0000) % 512 && pt_i == (virt / 0x1000) % 512) by (bit_vector)
        requires
            pml4_i == (virt >> 39u64) & 0x1FF,
            pdpt_i == (virt >> 30u64) & 0x1FF,
            pd_i == (virt >> 21u64) & 0x1FF,
            pt_i == (virt >> 12u64) & 0x1FF;
    (pml4_i, pdpt_i, pd_i, pt_i)
}

/// Through the recursive window, the page-table entry of `virt` sits at the
/// window base plus eight bytes per page number of `virt`'s low 48 bits.
pub proof fn lemma_pt_entry_is_page_number(virt: u64)
    ensures
        table_va(510, va_index(virt as int, 0), va_index(virt as int, 1), va_index(virt as int, 2))
            + va_index(virt as int, 3) * 8
            == 0xFFFF_FF00_0000_0000 + ((virt as int % 0x1_0000_0000_0000) / 0x1000) * 8,
{
    let a = (virt / 0x80_0000_0000) % 512;
    let b = (virt / 0x4000_0000) % 512;
    let c = (virt / 0x20_0000) % 512;
    let d = (virt / 0x1000) % 512;
    assert((virt % 0x1_0000_0000_0000) / 0x1000 == a * 0x800_0000 + b * 0x4_0000 + c * 0x200 + d) by (bit_vector)
        requires
            a == (virt / 0x80_0000_0000) % 512,
            b == (virt / 0x4000_0000) % 512,
            c == (virt / 0x20_0000) % 512,
            d == (virt / 0x1000) % 512;
}

/// Value of an entry that points to a table at `frame`.
pub open spec fn table_entry(frame: u64) -> u64 {
    frame | TABLE_ENTRY_FLAGS
}

/// Value of the final entry mapping a page to `phys` with `flags`.
pub open spec fn leaf_entry(phys: u64, flags: u64) -> u64 {
    phys | flags | ENTRY_PRESENT
}

/// What the caller must do next to carry a mapping through the tables.
#[derive(Clone, Copy, Debug, PartialEq, Eq, Structural)]
pub enum WalkAction {
    /// Read the 64-bit entry at this address and report it with `on_entry`.
    ReadEntry { entry: u64 },
    /// A table is missing: get a fresh frame and report it with `on_frame`.
    NeedFrame,
    /// Install a new table: write `value` to the entry at `entry` and clear
    /// the 512 entries at `table` (clearing first when `zero_first`), flush
    /// the whole TLB when `flush_all`, then call `after_install`.
    InstallTable { entry: u64, value: u64, table: u64, zero_first: bool, flush_all: bool },
    /// Write `value` to the final entry at `entry` and invalidate the TLB
    /// entry of the mapped page; the mapping is done.
    WriteLeaf { entry: u64, value: u64 },
    /// No frame was available for a missing table; the mapping failed.
    OutOfFrames,
}

/// Progress of one mapping `virt -> phys` through the four levels.
#[derive(Clone, Copy, Debug, PartialEq, Eq, Structural)]
pub struct PageWalk {
    pub virt: u64,
    pub leaf: u64,
    /// 0 = PML4, 1 = PDPT, 2 = page directory, 3 = page table.
    pub level: u64,
    /// With physical tables: physical address of the table at `level`.
    pub table: u64,
    /// Tables are reached through the recursive window rather than by
    /// physical address.
    pub recursive: bool,
    /// Flush the whole TLB after installing a PML4 entry.
    pub flush_on_top: bool,
    /// Value of the table entry being installed.
    pub pending: u64,
}

/// Slot of `virt` at the walk's level.
pub open spec fn walk_index(w: PageWalk, level: int) -> int {
    va_index(w.virt as int, level)
}

/// Address of the entry the walk looks at on its current level.
pub open spec fn walk_entry_addr(w: PageWalk) -> int {
    let i0 = walk_index(w, 0);
    let i1 = walk_index(w, 1);
    let i2 = walk_index(w, 2);
    let i3 = walk_index(w, 3);
    if w.recursive {
        if w.level == 0 {
            table_va(510, 510, 510, 510) + i0 * 8
        } else if w.level == 1 {
            table_va(510, 510, 510, i0) + i1 * 8
        } else if w.level == 2 {
            table_va(510, 510, i0, i1) + i2 * 8
        } else {
            table_va(510, i0, i1, i2) + i3 * 8
        }
    } else {
        w.table + walk_index(w, w.level as int) * 8
    }
}

/// Where the table under the current level's entry is cleared after a new
/// frame `frame` is installed there.
pub open spec fn walk_child_table(w: PageWalk, frame: u64) -> int {
    let i0 = walk_index(w, 0);
    let i1 = walk_index(w, 1);
    let i2 = walk_index(w, 2);
    if w.recursive {
        if w.level == 0 {
            table_va(510, 510, 510, i0)
        } else if w.level == 1 {
            table_va(510, 510, i0, i1)
        } else {
            table_va(510, i0, i1, i2)
        }
    } else {
        frame as int
    }
}

/// The walk is usable: it is on a table level, and physical table addresses
/// leave room for the 512 entries.
pub open spec fn walk_ok(w: PageWalk) -> bool {
    &&& w.level <= 3
    &&& w.recursive || w.table + 4096 <= u64::MAX
}

/// The walk after the entry of the current level turned out to hold `val`
/// (present): one level down.
pub open spec fn walk_descend(w: PageWalk, val: u64) -> PageWalk {
    PageWalk { level: (w.level + 1) as u64, table: if w.recursive { w.table } else { val & ENTRY_ADDR_MASK }, ..w }
}

/// The action for the walk's current level, once the levels above it are
/// in place: the final write on the page-table level, a read otherwise.
pub open spec fn walk_next_action(w: PageWalk) -> WalkAction {
    if w.level == 3 {
        WalkAction::WriteLeaf { entry: walk_entry_addr(w) as u64, value: w.leaf }
    } else {
        WalkAction::ReadEntry { entry: walk_entry_addr(w) as u64 }
    }
}

impl PageWalk {
    /// A walk over tables reached by physical address, from the PML4 at
    /// `pml4`, mapping `virt` to `phys` with `flags`.
    pub fn physical(pml4: u64, virt: u64, phys: u64, flags: u64, flush_on_top: bool) -> (w: PageWalk)
        requires
            pml4 + 4096 <= u64::MAX,
        ensures
            w == (PageWalk {
                virt, leaf: leaf_entry(phys, flags), level: 0, table: pml4, recursive: false, flush_on_top, pending: 0,
            }),
            walk_ok(w),
    {
        PageWalk { virt, leaf: phys | flags | ENTRY_PRESENT, level: 0, table: pml4, recursive: false, flush_on_top, pending: 0 }
    }

    /// A walk over the active tables reached through the recursive window.
    pub fn recursive(virt: u64, phys: u64, flags: u64) -> (w: PageWalk)
        ensures
            w == (PageWalk {
                virt, leaf: leaf_entry(phys, flags), level: 0, table: 0, recursive: true, flush_on_top: false, pending: 0,
            }),
            walk_ok(w),
    {
        PageWalk { virt, leaf: phys | flags | ENTRY_PRESENT, level: 0, table: 0, recursive: true, flush_on_top: false, pending: 0 }
    }

    /// Address of the entry on the current level.
    pub fn entry_addr(&self) -> (r: u64)
        requires
            walk_ok(*self),
        ensures
            r == walk_entry_addr(*self),
    {
        let (i0, i1, i2, i3) = page_table_indices(self.virt);
        if self.recursive {
            if self.level == 0 {
                pml4_entry_ptr(i0)
            } else if self.level == 1 {
                pdpt_entry_ptr(i0, i1)
            } else if self.level == 2 {
                pd_entry_ptr(i0, i1, i2)
            } else {
                pt_entry_ptr(i0, i1, i2, i3)
            }
        } else {
            let i = if self.level == 0 {
                i0
            } else if self.level == 1 {
                i1
            } else if self.level == 2 {
                i2
            } else {
                i3
            };
            self.table + i * 8
        }
    }

    /// The first action: read the PML4 entry.
    pub fn start(&self) -> (a: WalkAction)
        requires
            walk_ok(*self),
            self.level == 0,
        ensures
            a == walk_next_action(*self),
    {
        WalkAction::ReadEntry { entry: self.entry_addr() }
    }

    fn descend(&mut self, val: u64) -> (a: WalkAction)
        requires
            walk_ok(*old(self)),
            old(self).level < 3,
        ensures
            *final(self) == walk_descend(*old(self), val),
            walk_ok(*final(self)),
            a == walk_next_action(*final(self)),
    {
        if !self.recursive {
            self.table = val & ENTRY_ADDR_MASK;
            assert(val & 0x000F_FFFF_FFFF_F000u64 <= 0x000F_FFFF_FFFF_F000u64) by (bit_vector);
        }
        self.level = self.level + 1;
        if self.level == 3 {
            WalkAction::WriteLeaf { entry: self.entry_addr(), value: self.leaf }
        } else {
            WalkAction::ReadEntry { entry: self.entry_addr() }
        }
    }

    /// The entry on the current level holds `val`: go down a level when it
    /// is present, otherwise ask for a frame for the missing table.
    pub fn on_entry(&mut self, val: u64) -> (a: WalkAction)
        requires
            walk_ok(*old(self)),
            old(self).level < 3,
        ensures
            walk_ok(*final(self)),
            val & ENTRY_PRESENT != 0 ==> *final(self) == walk_descend(*old(self), val) && a == walk_next_action(*final(self)),
            val & ENTRY_PRESENT == 0 ==> *final(self) == *old(self) && a == WalkAction::NeedFrame,
    {
        if val & ENTRY_PRESENT != 0 {
            self.descend(val)
        } else {
            WalkAction::NeedFrame
        }
    }

    /// A frame for the missing table came back (`None`: there was none).
    pub fn on_frame(&mut self, frame: Option<u64>) -> (a: WalkAction)
        requires
            walk_ok(*old(self)),
            old(self).level < 3,
        ensures
            walk_ok(*final(self)),
            match frame {
                None => *final(self) == *old(self) && a == WalkAction::OutOfFrames,
                Some(f) => {
                    &&& *final(self) == (PageWalk { pending: table_entry(f), ..*old(self) })
                    &&& a == (WalkAction::InstallTable {
                        entry: walk_entry_addr(*old(self)) as u64,
                        value: table_entry(f),
                        table: walk_child_table(*old(self), f) as u64,
                        zero_first: !old(self).recursive,
                        flush_all: old(self).flush_on_top && old(self).level == 0,
                    })
                },
            },
    {
        match frame {
            None => WalkAction::OutOfFrames,
            Some(f) => {
                self.pending = f | TABLE_ENTRY_FLAGS;
                let (i0, i1, i2, _) = page_table_indices(self.virt);
                let table = if self.recursive {
                    if self.level == 0 {
                        make_recursive_va(RECURSIVE_INDEX, RECURSIVE_INDEX, RECURSIVE_INDEX, i0)
                    } else if self.level == 1 {
                        make_recursive_va(RECURSIVE_INDEX, RECURSIVE_INDEX, i0, i1)
                    } else {
                        make_recursive_va(RECURSIVE_INDEX, i0, i1, i2)
                    }
                } else {
                    f
                };
                WalkAction::InstallTable {
                    entry: self.entry_addr(),
                    value: self.pending,
                    table,
                    zero_first: !self.recursive,
                    flush_all: self.flush_on_top && self.level == 0,
                }
            }
        }
    }

    /// The new table is in place: go down a level through it.
    pub fn after_install(&mut self) -> (a: WalkAction)
        requires
            walk_ok(*old(self)),
            old(self).level < 3,
        ensures
            *final(self) == walk_descend(*old(self), old(self).pending),
            walk_ok(*final(self)),
            a == walk_next_action(*final(self)),
    {
        let v = self.pending;
        self.descend(v)
    }
}

/// Physical memory as the 64-bit word stored at each address.
pub open spec fn mem_write(mem: spec_fn(int) -> u64, addr: int, v: u64) -> spec_fn(int) -> u64 {
    |a: int| if a == addr { v } else { mem(a) }
}

/// Address `a` is one of the 512 entries of the table at `table`.
pub open spec fn in_table(table: int, a: int) -> bool {
    table <= a < table + 4096 && (a - table) % 8 == 0
}

/// Memory after installing a table: entry `entry` set to `value` and the 512
/// entries of `table` cleared, the clearing first when `zero_first`.
pub open spec fn mem_install(mem: spec_fn(int) -> u64, entry: int, value: u64, table: int, zero_first: bool) -> spec_fn(int) -> u64 {
    if zero_first {
        |a: int| if a == entry { value } else if in_table(table, a) { 0u64 } else { mem(a) }
    } else {
        |a: int| if in_table(table, a) { 0u64 } else if a == entry { value } else { mem(a) }
    }
}

/// The entry `virt` maps to, looked up from the table at `table` on `level`
/// down to the page table: `None` when an entry on the way is not present.
pub open spec fn lookup_from(mem: spec_fn(int) -> u64, table: int, virt: int, level: int) -> Option<u64>
    decreases 3 - level,
{
    let e = mem(table + va_index(virt, level) * 8);
    if level >= 3 {
        if e & ENTRY_PRESENT != 0 { Some(e) } else { None }
    } else if e & ENTRY_PRESENT == 0 {
        None
    } else {
        lookup_from(mem, (e & ENTRY_ADDR_MASK) as int, virt, level + 1)
    }
}

/// The page-table entry of `virt` under the PML4 at `pml4`.
pub open spec fn translate(mem: spec_fn(int) -> u64, pml4: int, virt: int) -> Option<u64> {
    lookup_from(mem, pml4, virt, 0)
}

/// Carrying walk `w` to its end the way its actions ask, on memory `mem`,
/// with `frames` the answers to its requests for a frame, in order: the
/// memory afterwards, or `None` when it ran out of frames.
pub open spec fn walk_run(w: PageWalk, mem: spec_fn(int) -> u64, frames: Seq<Option<u64>>) -> Option<spec_fn(int) -> u64>
    decreases 3 - w.level,
{
    let e = walk_entry_addr(w);
    if w.level >= 3 {
        Some(mem_write(mem, e, w.leaf))
    } else if mem(e) & ENTRY_PRESENT != 0 {
        walk_run(walk_descend(w, mem(e)), mem, frames)
    } else if frames.len() > 0 && frames[0] is Some {
        let f = frames[0]->0;
        let mem2 = mem_install(mem, e, table_entry(f), walk_child_table(w, f), !w.recursive);
        walk_run(walk_descend(w, table_entry(f)), mem2, frames.drop_first())
    } else {
        None
    }
}

/// Address `a` is written by the rest of walk `w`.
pub open spec fn walk_writes(w: PageWalk, mem: spec_fn(int) -> u64, frames: Seq<Option<u64>>, a: int) -> bool
    decreases 3 - w.level,
{
    let e = walk_entry_addr(w);
    if w.level >= 3 {
        a == e
    } else if mem(e) & ENTRY_PRESENT != 0 {
        walk_writes(walk_descend(w, mem(e)), mem, frames, a)
    } else if frames.len() > 0 && frames[0] is Some {
        let f = frames[0]->0;
        let mem2 = mem_install(mem, e, table_entry(f), walk_child_table(w, f), !w.recursive);
        a == e || in_table(walk_child_table(w, f), a) || walk_writes(walk_descend(w, table_entry(f)), mem2, frames.drop_first(), a)
    } else {
        false
    }
}

/// No entry the walk goes through is written again further down: the
/// tables on the way to `virt` are distinct, and no new table is placed over
/// an entry above it.
pub open spec fn walk_separate(w: PageWalk, mem: spec_fn(int) -> u64, frames: Seq<Option<u64>>) -> bool
    decreases 3 - w.level,
{
    let e = walk_entry_addr(w);
    if w.level >= 3 {
        true
    } else if mem(e) & ENTRY_PRESENT != 0 {
        let w2 = walk_descend(w, mem(e));
        !walk_writes(w2, mem, frames, e) && walk_separate(w2, mem, frames)
    } else if frames.len() > 0 && frames[0] is Some {
        let f = frames[0]->0;
        let mem2 = mem_install(mem, e, table_entry(f), walk_child_table(w, f), !w.recursive);
        let w2 = walk_descend(w, table_entry(f));
        !walk_writes(w2, mem2, frames.drop_first(), e) && walk_separate(w2, mem2, frames.drop_first())
    } else {
        true
    }
}

/// The rest of a walk changes no address outside the ones it writes.
proof fn lemma_walk_frame(w: PageWalk, mem: spec_fn(int) -> u64, frames: Seq<Option<u64>>, a: int)
    requires
        w.level <= 3,
        walk_run(w, mem, frames) is Some,
        !walk_writes(w, mem, frames, a),
    ensures
        (walk_run(w, mem, frames)->0)(a) == mem(a),
    decreases 3 - w.level,
{
    let e = walk_entry_addr(w);
    if w.level >= 3 {
    } else if mem(e) & ENTRY_PRESENT != 0 {
        lemma_walk_frame(walk_descend(w, mem(e)), mem, frames, a);
    } else if frames.len() > 0 && frames[0] is Some {
        let f = frames[0]->0;
        let mem2 = mem_install(mem, e, table_entry(f), walk_child_table(w, f), !w.recursive);
        lemma_walk_frame(walk_descend(w, table_entry(f)), mem2, frames.drop_first(), a);
    }
}

/// A walk over physical tables that reaches its end leaves `virt` mapped:
/// looking `virt` up from the walk's table gives the leaf entry, so with the
/// walk started at the PML4, `virt` translates to `phys | flags | present`.
/// This holds as long as no entry on the way is written again further down.
pub proof fn lemma_walk_translates(w: PageWalk, mem: spec_fn(int) -> u64, frames: Seq<Option<u64>>)
    requires
        !w.recursive,
        w.level <= 3,
        w.leaf & ENTRY_PRESENT != 0,
        walk_run(w, mem, frames) is Some,
        walk_separate(w, mem, frames),
    ensures
        lookup_from(walk_run(w, mem, frames)->0, w.table as int, w.virt as int, w.level as int) == Some(w.leaf),
    decreases 3 - w.level,
{
    let e = walk_entry_addr(w);
    let m2 = walk_run(w, mem, frames)->0;
    assert(e == w.table + va_index(w.virt as int, w.level as int) * 8);
    if w.level >= 3 {
        assert(m2(e) == w.leaf);
    } else if mem(e) & ENTRY_PRESENT != 0 {
        let w2 = walk_descend(w, mem(e));
        lemma_walk_translates(w2, mem, frames);
        lemma_walk_frame(w2, mem, frames, e);
        assert(m2(e) == mem(e));
    } else {
        let f = frames[0]->0;
        let v = table_entry(f);
        let mem2 = mem_install(mem, e, v, walk_child_table(w, f), !w.recursive);
        let w2 = walk_descend(w, v);
        assert(mem2(e) == v);
        lemma_walk_translates(w2, mem2, frames.drop_first());
        lemma_walk_frame(w2, mem2, frames.drop_first(), e);
        assert(v & ENTRY_PRESENT != 0) by (bit_vector)
            requires v == f | 3u64;
    }
}

/// A completed walk from the PML4 maps `virt` to `phys` with `flags`.
pub proof fn lemma_map_translates(pml4: u64, virt: u64, phys: u64, flags: u64, flush: bool,
    mem: spec_fn(int) -> u64, frames: Seq<Option<u64>>)
    requires
        pml4 + 4096 <= u64::MAX,
        walk_run(PageWalk { virt, leaf: leaf_entry(phys, flags), level: 0, table: pml4, recursive: false,
            flush_on_top: flush, pending: 0 }, mem, frames) is Some,
        walk_separate(PageWalk { virt, leaf: leaf_entry(phys, flags), level: 0, table: pml4, recursive: false,
            flush_on_top: flush, pending: 0 }, mem, frames),
    ensures
        translate(walk_run(PageWalk { virt, leaf: leaf_entry(phys, flags), level: 0, table: pml4, recursive: false,
            flush_on_top: flush, pending: 0 }, mem, frames)->0, pml4 as int, virt as int) == Some(leaf_entry(phys, flags)),
{
    let w = PageWalk { virt, leaf: leaf_entry(phys, flags), level: 0, table: pml4, recursive: false, flush_on_top: flush, pending: 0 };
    let l = leaf_entry(phys, flags);
    assert(l & ENTRY_PRESENT != 0) by (bit_vector)
        requires l == phys | flags | 1u64;
    lemma_walk_translates(w, mem, frames);
}

/// The physical address virtual address `va` reaches through the tables
/// under the PML4 at `pml4`: the page its page-table entry points to, plus
/// the offset in the page.
pub open spec fn phys_of(mem: spec_fn(int) -> u64, pml4: int, va: int) -> Option<int> {
    match translate(mem, pml4, va) {
        Some(e) => Some((e & ENTRY_ADDR_MASK) + va % 4096),
        None => None,
    }
}

/// The recursive slot of the PML4 at `pml4` is present and points back to
/// that PML4.
pub open spec fn window_ok(mem: spec_fn(int) -> u64, pml4: int) -> bool {
    &&& mem(pml4 + RECURSIVE_INDEX * 8) & ENTRY_PRESENT != 0
    &&& (mem(pml4 + RECURSIVE_INDEX * 8) & ENTRY_ADDR_MASK) as int == pml4
}

/// The physical table `virt` reaches at `level`, following present entries
/// down from the PML4 at `pml4`.
pub open spec fn path_table(mem: spec_fn(int) -> u64, pml4: u64, virt: int, level: int) -> Option<u64>
    decreases level,
{
    if level <= 0 {
        Some(pml4)
    } else {
        match path_table(mem, pml4, virt, level - 1) {
            Some(t) => {
                let e = mem(t + va_index(virt, level - 1) * 8);
                if e & ENTRY_PRESENT != 0 { Some(e & ENTRY_ADDR_MASK) } else { None }
            },
            None => None,
        }
    }
}

/// Physical address of `virt`'s entry at `level` on its path.
pub open spec fn path_entry(mem: spec_fn(int) -> u64, pml4: u64, virt: int, level: int) -> int {
    path_table(mem, pml4, virt, level)->0 + va_index(virt, level) * 8
}

/// Virtual address through the recursive window of the table `virt` uses
/// at `level`.
pub open spec fn rec_table_va(virt: int, level: int) -> int {
    let i0 = va_index(virt, 0);
    let i1 = va_index(virt, 1);
    let i2 = va_index(virt, 2);
    if level == 0 {
        table_va(510, 510, 510, 510)
    } else if level == 1 {
        table_va(510, 510, 510, i0)
    } else if level == 2 {
        table_va(510, 510, i0, i1)
    } else {
        table_va(510, i0, i1, i2)
    }
}

proof fn lemma_window_indices(b: u64, c: u64, d: u64, off: u64)
    by (bit_vector)
    requires
        b < 512,
        c < 512,
        d < 512,
        off < 4096,
    ensures
        ((510 * 0x80_0000_0000 + b * 0x4000_0000 + c * 0x20_0000 + d * 0x1000 + off + 0xFFFF_0000_0000_0000) / 0x80_0000_0000) % 512 == 510,
        ((510 * 0x80_0000_0000 + b * 0x4000_0000 + c * 0x20_0000 + d * 0x1000 + off + 0xFFFF_0000_0000_0000) / 0x4000_0000) % 512 == b,
        ((510 * 0x80_0000_0000 + b * 0x4000_0000 + c * 0x20_0000 + d * 0x1000 + off + 0xFFFF_0000_0000_0000) / 0x20_0000) % 512 == c,
        ((510 * 0x80_0000_0000 + b * 0x4000_0000 + c * 0x20_0000 + d * 0x1000 + off + 0xFFFF_0000_0000_0000) / 0x1000) % 512 == d,
        (510 * 0x80_0000_0000 + b * 0x4000_0000 + c * 0x20_0000 + d * 0x1000 + off + 0xFFFF_0000_0000_0000) % 4096 == off,
{
}

proof fn lemma_window_va(b: int, c: int, d: int, off: int)
    requires
        0 <= b < 512,
        0 <= c < 512,
        0 <= d < 512,
        0 <= off < 4096,
    ensures
        va_index(table_va(510, b, c, d) + off, 0) == 510,
        va_index(table_va(510, b, c, d) + off, 1) == b,
        va_index(table_va(510, b, c, d) + off, 2) == c,
        va_index(table_va(510, b, c, d) + off, 3) == d,
        (table_va(510, b, c, d) + off) % 4096 == off,
{
    lemma_window_indices(b as u64, c as u64, d as u64, off as u64);
}

/// Through the recursive window, the table `virt` uses at `level` is reached
/// at its physical address: with the recursive slot in place, `virt` outside
/// the window, and the path down to `level` present, byte `off` of the
/// window's view of that table is byte `off` of the table itself.
pub proof fn lemma_window_resolves(mem: spec_fn(int) -> u64, pml4: u64, virt: u64, level: int, off: int)
    requires
        window_ok(mem, pml4 as int),
        va_index(virt as int, 0) != RECURSIVE_INDEX,
        0 <= level <= 3,
        path_table(mem, pml4, virt as int, level) is Some,
        0 <= off < 4096,
    ensures
        phys_of(mem, pml4 as int, rec_table_va(virt as int, level) + off)
            == Some(path_table(mem, pml4, virt as int, level)->0 + off),
{
    let v = virt as int;
    let i0 = va_index(v, 0);
    let i1 = va_index(v, 1);
    let i2 = va_index(v, 2);
    let p = pml4 as int;
    let slot = mem(p + 510 * 8);
    if level == 0 {
        let va = table_va(510, 510, 510, 510) + off;
        lemma_window_va(510, 510, 510, off);
        assert(lookup_from(mem, p, va, 3) == Some(slot));
        assert(lookup_from(mem, p, va, 2) == Some(slot));
        assert(lookup_from(mem, p, va, 1) == Some(slot));
        assert(lookup_from(mem, p, va, 0) == Some(slot));
    } else if level == 1 {
        let va = table_va(510, 510, 510, i0) + off;
        lemma_window_va(510, 510, i0, off);
        let e0 = mem(p + i0 * 8);
        assert(path_table(mem, pml4, v, 0) == Some(pml4));
        assert(lookup_from(mem, p, va, 3) == Some(e0));
        assert(lookup_from(mem, p, va, 2) == Some(e0));
        assert(lookup_from(mem, p, va, 1) == Some(e0));
        assert(lookup_from(mem, p, va, 0) == Some(e0));
    } else if level == 2 {
        let va = table_va(510, 510, i0, i1) + off;
        lemma_window_va(510, i0, i1, off);
        assert(path_table(mem, pml4, v, 0) == Some(pml4));
        let e0 = mem(p + i0 * 8);
        let t1 = path_table(mem, pml4, v, 1)->0;
        assert(t1 == e0 & ENTRY_ADDR_MASK);
        let e1 = mem(t1 + i1 * 8);
        assert(lookup_from(mem, t1 as int, va, 3) == Some(e1));
        assert(lookup_from(mem, p, va, 2) == Some(e1));
        assert(lookup_from(mem, p, va, 1) == Some(e1));
        assert(lookup_from(mem, p, va, 0) == Some(e1));
    } else {
        let va = table_va(510, i0, i1, i2) + off;
        lemma_window_va(i0, i1, i2, off);
        assert(path_table(mem, pml4, v, 0) == Some(pml4));
        let t1 = path_table(mem, pml4, v, 1)->0;
        let t2 = path_table(mem, pml4, v, 2)->0;
        let e2 = mem(t2 + i2 * 8);
        assert(lookup_from(mem, t2 as int, va, 3) == Some(e2));
        assert(lookup_from(mem, t1 as int, va, 2) == Some(e2));
        assert(lookup_from(mem, p, va, 1) == Some(e2));
        assert(lookup_from(mem, p, va, 0) == Some(e2));
    }
}

/// Memory after clearing, through the active tables, the 512 entries of the
/// table seen at virtual address `table`.
pub open spec fn mem_zero_through(mem: spec_fn(int) -> u64, pml4: int, table: int) -> spec_fn(int) -> u64 {
    |a: int| if exists|k: int| 0 <= k < 512 && #[trigger] phys_of(mem, pml4, table + k * 8) == Some(a) {
        0u64
    } else {
        mem(a)
    }
}

/// Carrying walk `w` to its end on physical memory `mem`, every address the
/// walk names being a virtual one that the processor resolves through the
/// tables under the PML4 at `pml4` as they stand at that moment: the memory
/// afterwards, or `None` when a frame was missing or an address did not
/// resolve.
pub open spec fn walk_run_active(w: PageWalk, mem: spec_fn(int) -> u64, frames: Seq<Option<u64>>, pml4: int) -> Option<spec_fn(int) -> u64>
    decreases 3 - w.level,
{
    match phys_of(mem, pml4, walk_entry_addr(w)) {
        None => None,
        Some(e) => {
            if w.level >= 3 {
                Some(mem_write(mem, e, w.leaf))
            } else if mem(e) & ENTRY_PRESENT != 0 {
                walk_run_active(walk_descend(w, mem(e)), mem, frames, pml4)
            } else if frames.len() > 0 && frames[0] is Some {
                let f = frames[0]->0;
                let mem1 = mem_write(mem, e, table_entry(f));
                let mem2 = mem_zero_through(mem1, pml4, walk_child_table(w, f));
                walk_run_active(walk_descend(w, table_entry(f)), mem2, frames.drop_first(), pml4)
            } else {
                None
            }
        },
    }
}

/// Every frame the walk takes for a new table is page-aligned, addressable by
/// an entry, and does not hold the entry that is to point to it.
pub open spec fn frames_clear(w: PageWalk, mem: spec_fn(int) -> u64, frames: Seq<Option<u64>>) -> bool
    decreases 3 - w.level,
{
    let e = walk_entry_addr(w);
    if w.level >= 3 {
        true
    } else if mem(e) & ENTRY_PRESENT != 0 {
        frames_clear(walk_descend(w, mem(e)), mem, frames)
    } else if frames.len() > 0 && frames[0] is Some {
        let f = frames[0]->0;
        let mem2 = mem_install(mem, e, table_entry(f), walk_child_table(w, f), !w.recursive);
        &&& f % 4096 == 0
        &&& f < 0x10_0000_0000_0000
        &&& !in_table(walk_child_table(w, f), e)
        &&& frames_clear(walk_descend(w, table_entry(f)), mem2, frames.drop_first())
    } else {
        true
    }
}

/// The walk over physical tables that a walk through the window stands for,
/// at the table `t` it has reached.
pub open spec fn physical_twin(w: PageWalk, t: u64) -> PageWalk {
    PageWalk { recursive: false, table: t, ..w }
}

proof fn lemma_path_stable(mem: spec_fn(int) -> u64, mem2: spec_fn(int) -> u64, pml4: u64, virt: int, level: int)
    requires
        0 <= level,
        path_table(mem, pml4, virt, level) is Some,
        forall|j: int| 0 <= j < level ==> mem2(#[trigger] path_entry(mem, pml4, virt, j)) == mem(path_entry(mem, pml4, virt, j)),
    ensures
        path_table(mem2, pml4, virt, level) == path_table(mem, pml4, virt, level),
    decreases level,
{
    if level > 0 {
        assert(path_table(mem, pml4, virt, level - 1) is Some);
        lemma_path_stable(mem, mem2, pml4, virt, level - 1);
        assert(mem2(path_entry(mem, pml4, virt, level - 1)) == mem(path_entry(mem, pml4, virt, level - 1)));
    }
}

proof fn lemma_path_prefix(mem: spec_fn(int) -> u64, pml4: u64, virt: int, level: int, j: int)
    requires
        0 <= j <= level,
        path_table(mem, pml4, virt, level) is Some,
    ensures
        path_table(mem, pml4, virt, j) is Some,
    decreases level,
{
    if j < level {
        lemma_path_prefix(mem, pml4, virt, level - 1, j);
    }
}

proof fn lemma_entry_mask(f: u64)
    by (bit_vector)
    requires
        f % 4096 == 0,
        f < 0x10_0000_0000_0000,
    ensures
        (f | 3u64) & 0x000F_FFFF_FFFF_F000u64 == f,
        (f | 3u64) & 1u64 != 0,
{
}

/// A walk through the recursive window does, step by step, what the walk
/// over the physical tables on `virt`'s path does, as long as the window's
/// slot and the entries above the current level are not overwritten.
proof fn lemma_active_is_physical(w: PageWalk, mem: spec_fn(int) -> u64, frames: Seq<Option<u64>>, pml4: u64)
    requires
        w.recursive,
        w.level <= 3,
        window_ok(mem, pml4 as int),
        va_index(w.virt as int, 0) != RECURSIVE_INDEX,
        path_table(mem, pml4, w.virt as int, w.level as int) is Some,
        ({
            let tw = physical_twin(w, path_table(mem, pml4, w.virt as int, w.level as int)->0);
            &&& walk_separate(tw, mem, frames)
            &&& frames_clear(tw, mem, frames)
            &&& !walk_writes(tw, mem, frames, pml4 + RECURSIVE_INDEX * 8)
            &&& forall|j: int| 0 <= j < w.level ==> !walk_writes(tw, mem, frames, #[trigger] path_entry(mem, pml4, w.virt as int, j))
        }),
    ensures
        walk_run_active(w, mem, frames, pml4 as int)
            == walk_run(physical_twin(w, path_table(mem, pml4, w.virt as int, w.level as int)->0), mem, frames),
    decreases 3 - w.level,
{
    let v = w.virt as int;
    let l = w.level as int;
    let t = path_table(mem, pml4, v, l)->0;
    let tw = physical_twin(w, t);
    let p = pml4 as int;
    let slot = p + RECURSIVE_INDEX * 8;
    lemma_window_resolves(mem, pml4, w.virt, l, va_index(v, l) * 8);
    let e = walk_entry_addr(tw);
    assert(walk_entry_addr(w) == rec_table_va(v, l) + va_index(v, l) * 8);
    assert(phys_of(mem, p, walk_entry_addr(w)) == Some(e));
    assert(e == path_entry(mem, pml4, v, l));
    if l >= 3 {
    } else if mem(e) & ENTRY_PRESENT != 0 {
        let w2 = walk_descend(w, mem(e));
        let tw2 = walk_descend(tw, mem(e));
        assert(path_table(mem, pml4, v, l + 1) == Some(mem(e) & ENTRY_ADDR_MASK));
        assert(tw2 == physical_twin(w2, mem(e) & ENTRY_ADDR_MASK));
        assert forall|j: int| 0 <= j < w2.level implies !walk_writes(tw2, mem, frames, #[trigger] path_entry(mem, pml4, v, j)) by {
            if j < l {
                assert(!walk_writes(tw, mem, frames, path_entry(mem, pml4, v, j)));
            }
        }
        lemma_active_is_physical(w2, mem, frames, pml4);
    } else if frames.len() > 0 && frames[0] is Some {
        let f = frames[0]->0;
        let val = table_entry(f);
        assert(f % 4096 == 0 && f < 0x10_0000_0000_0000 && !in_table(walk_child_table(tw, f), e));
        lemma_entry_mask(f);
        let mem1 = mem_write(mem, e, val);
        let child = walk_child_table(w, f);
        assert(child == rec_table_va(v, l + 1));
        // the slot and the entries above stay as they were
        assert(slot != e);
        assert forall|j: int| 0 <= j < l implies mem1(#[trigger] path_entry(mem, pml4, v, j)) == mem(path_entry(mem, pml4, v, j)) by {
            assert(!walk_writes(tw, mem, frames, path_entry(mem, pml4, v, j)));
        }
        lemma_path_stable(mem, mem1, pml4, v, l);
        assert(path_table(mem1, pml4, v, l + 1) == Some(f));
        assert(window_ok(mem1, p));
        let memz = mem_zero_through(mem1, p, child);
        let mem2 = mem_install(mem, e, val, f as int, true);
        assert(walk_child_table(tw, f) == f);
        assert(!in_table(f as int, e));
        assert(memz =~= mem2) by {
            assert forall|a: int| #[trigger] memz(a) == mem2(a) by {
                if in_table(f as int, a) {
                    let k = (a - f) / 8;
                    lemma_window_resolves(mem1, pml4, w.virt, l + 1, k * 8);
                    assert(phys_of(mem1, p, child + k * 8) == Some(a));
                } else {
                    assert forall|k: int| 0 <= k < 512 implies #[trigger] phys_of(mem1, p, child + k * 8) != Some(a) by {
                        lemma_window_resolves(mem1, pml4, w.virt, l + 1, k * 8);
                    }
                }
            }
        }
        let w2 = walk_descend(w, val);
        let tw2 = walk_descend(tw, val);
        assert(tw2 == physical_twin(w2, f));
        assert(window_ok(mem2, p));
        assert forall|j: int| 0 <= j < l implies mem2(#[trigger] path_entry(mem, pml4, v, j)) == mem(path_entry(mem, pml4, v, j)) by {
            assert(!walk_writes(tw, mem, frames, path_entry(mem, pml4, v, j)));
        }
        lemma_path_stable(mem, mem2, pml4, v, l);
        assert(path_table(mem2, pml4, v, l + 1) == Some(f));
        assert forall|j: int| 0 <= j <= l implies path_entry(mem2, pml4, v, j) == path_entry(mem, pml4, v, j) by {
            lemma_path_prefix(mem, pml4, v, l, j);
            assert forall|i: int| 0 <= i < j implies mem2(#[trigger] path_entry(mem, pml4, v, i)) == mem(path_entry(mem, pml4, v, i)) by {
                assert(!walk_writes(tw, mem, frames, path_entry(mem, pml4, v, i)));
            }
            lemma_path_stable(mem, mem2, pml4, v, j);
        }
        assert forall|j: int| 0 <= j < w2.level implies !walk_writes(tw2, mem2, frames.drop_first(), #[trigger] path_entry(mem2, pml4, v, j)) by {
            if j < l {
                assert(!walk_writes(tw, mem, frames, path_entry(mem, pml4, v, j)));
            }
        }
        lemma_active_is_physical(w2, mem2, frames.drop_first(), pml4);
    }
}

/// A walk through the recursive window that reaches its end leaves `virt`
/// mapped under the active PML4: with the PML4's recursive slot pointing to
/// itself, `virt` outside the window, fresh table frames page-aligned and
/// apart from the entry that points to them, and no entry on the way (nor
/// the slot) written again further down, the walk does what the walk over
/// the physical tables from the PML4 does, and `virt` translates to
/// `phys | flags | present`.
pub proof fn lemma_recursive_walk_translates(w: PageWalk, mem: spec_fn(int) -> u64, frames: Seq<Option<u64>>, pml4: u64)
    requires
        w.recursive,
        w.level == 0,
        w.leaf & ENTRY_PRESENT != 0,
        window_ok(mem, pml4 as int),
        va_index(w.virt as int, 0) != RECURSIVE_INDEX,
        walk_run(physical_twin(w, pml4), mem, frames) is Some,
        walk_separate(physical_twin(w, pml4), mem, frames),
        frames_clear(physical_twin(w, pml4), mem, frames),
        !walk_writes(physical_twin(w, pml4), mem, frames, pml4 + RECURSIVE_INDEX * 8),
    ensures
        walk_run_active(w, mem, frames, pml4 as int) == walk_run(physical_twin(w, pml4), mem, frames),
        translate(walk_run_active(w, mem, frames, pml4 as int)->0, pml4 as int, w.virt as int) == Some(w.leaf),
{
    assert(path_table(mem, pml4, w.virt as int, 0) == Some(pml4));
    lemma_active_is_physical(w, mem, frames, pml4);
    lemma_walk_translates(physical_twin(w, pml4), mem, frames);
}

/// The pages of a range as (virtual, physical) pairs: both starts rounded
/// down to a page, the size rounded up to whole pages.
pub fn range_pages(virt_start: u64, phys_start: u64, size: u64) -> (r: Vec<(u64, u64)>)
    requires
        size + 0xFFF <= u64::MAX,
        virt_start / 4096 * 4096 + size + 0xFFF <= u64::MAX,
        phys_start / 4096 * 4096 + size + 0xFFF <= u64::MAX,
    ensures
        r@.len() == (size + 0xFFF) / 4096,
        forall|i: int| 0 <= i < r@.len() ==> #[trigger] r@[i] == (
            (virt_start / 4096 * 4096 + i * 4096) as u64,
            (phys_start / 4096 * 4096 + i * 4096) as u64,
        ),
{
    let virt_aligned = virt_start & !0xFFFu64;
    let phys_aligned = phys_start & !0xFFFu64;
    let t = size + 0xFFF;
    let size_aligned = t & !0xFFFu64;
    let num_pages = size_aligned / 4096;
    assert(virt_aligned == virt_start / 4096 * 4096) by (bit_vector)
        requires virt_aligned == virt_start & !0xFFFu64;
    assert(phys_aligned == phys_start / 4096 * 4096) by (bit_vector)
        requires phys_aligned == phys_start & !0xFFFu64;
    assert(size_aligned / 4096 == t / 4096) by (bit_vector)
        requires size_aligned == t & !0xFFFu64;
    let mut pages: Vec<(u64, u64)> = Vec::new();
    let mut i: u64 = 0;
    while i < num_pages
        invariant
            i <= num_pages,
            num_pages == (size + 0xFFF) / 4096,
            virt_aligned == virt_start / 4096 * 4096,
            phys_aligned == phys_start / 4096 * 4096,
            virt_aligned + size + 0xFFF <= u64::MAX,
            phys_aligned + size + 0xFFF <= u64::MAX,
            pages@.len() == i,
            forall|k: int| 0 <= k < i ==> #[trigger] pages@[k] == (
                (virt_start / 4096 * 4096 + k * 4096) as u64,
                (phys_start / 4096 * 4096 + k * 4096) as u64,
            ),
        decreases num_pages - i,
    {
        assert(i * 4096 <= size + 0xFFF - 4096) by (nonlinear_arith)
            requires i < num_pages, num_pages == (size + 0xFFF) / 4096;
        pages.push((virt_aligned + i * 4096, phys_aligned + i * 4096));
        i = i + 1;
    }
    pages
}

} // verus!
