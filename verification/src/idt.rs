//! Interrupt descriptor table: gate encoding and which vector gets which
//! handler.
use vstd::prelude::*;

verus! {

pub const IDT_ENTRIES: usize = 256;
/// Code segment selector the gates use.
pub const GATE_SELECTOR: u16 = 0x18;
/// Present, ring 0, 64-bit interrupt gate.
pub const GATE_ATTRIBUTES: u8 = 0x8E;
/// Attribute of the exception banner: white on red.
pub const BANNER_ATTRIBUTE: u16 = 0x4F00;
/// Columns of the banner line.
pub const BANNER_WIDTH: usize = 80;

#[derive(Clone, Copy, Debug, PartialEq, Eq, Structural)]
pub struct IdtEntry {
    pub offset_low: u16,
    pub selector: u16,
    pub ist: u8,
    pub attributes: u8,
    pub offset_mid: u16,
    pub offset_high: u32,
    pub zero: u32,
}

/// The handler address a gate points to.
pub open spec fn gate_address(e: IdtEntry) -> int {
    e.offset_low + e.offset_mid * 0x1_0000 + e.offset_high * 0x1_0000_0000
}

/// A present kernel interrupt gate to `handler`.
pub open spec fn is_gate_to(e: IdtEntry, handler: u64) -> bool {
    &&& gate_address(e) == handler
    &&& e.selector == GATE_SELECTOR
    &&& e.ist == 0
    &&& e.attributes == GATE_ATTRIBUTES
    &&& e.zero == 0
}

pub open spec fn missing_entry() -> IdtEntry {
    IdtEntry { offset_low: 0, selector: 0, ist: 0, attributes: 0, offset_mid: 0, offset_high: 0, zero: 0 }
}

impl IdtEntry {
    /// A non-present gate.
    pub fn missing() -> (e: IdtEntry)
        ensures
            e == missing_entry(),
    {
        IdtEntry { offset_low: 0, selector: 0, ist: 0, attributes: 0, offset_mid: 0, offset_high: 0, zero: 0 }
    }

    /// Make this entry an interrupt gate to `handler`.
    pub fn set_handler(&mut self, handler: u64)
        ensures
            is_gate_to(*final(self), handler),
    {
        self.offset_low = handler as u16;
        self.offset_mid = (handler >> 16u64) as u16;
        self.offset_high = (handler >> 32u64) as u32;
        self.selector = GATE_SELECTOR;
        self.ist = 0;
        self.attributes = GATE_ATTRIBUTES;
        self.zero = 0;
        let lo = handler as u16;
        let mid = (handler >> 16u64) as u16;
        let hi = (handler >> 32u64) as u32;
        assert(lo as u64 + (mid as u64) * 0x1_0000 + (hi as u64) * 0x1_0000_0000 == handler) by (bit_vector)
            requires
                lo == handler as u16,
                mid == (handler >> 16u64) as u16,
                hi == (handler >> 32u64) as u32;
    }
}

pub struct Idt {
    entries: Vec<IdtEntry>,
}

impl View for Idt {
    type V = Seq<IdtEntry>;

    closed spec fn view(&self) -> Seq<IdtEntry> {
        self.entries@
    }
}

impl Idt {
    /// All 256 gates missing.
    pub fn new() -> (t: Idt)
        ensures
            t@ == Seq::new(IDT_ENTRIES as nat, |i: int| missing_entry()),
    {
        let mut entries: Vec<IdtEntry> = Vec::new();
        let mut i: usize = 0;
        while i < IDT_ENTRIES
            invariant
                i <= IDT_ENTRIES,
                entries@ == Seq::new(i as nat, |k: int| missing_entry()),
            decreases IDT_ENTRIES - i,
        {
            entries.push(IdtEntry::missing());
            i = i + 1;
        }
        Idt { entries }
    }

    /// Point vector `index` at `handler`; the other gates stay as they were.
    pub fn set_handler(&mut self, index: usize, handler: u64)
        requires
            index < old(self)@.len(),
        ensures
            final(self)@.len() == old(self)@.len(),
            is_gate_to(final(self)@[index as int], handler),
            forall|i: int| 0 <= i < old(self)@.len() && i != index ==> final(self)@[i] == old(self)@[i],
    {
        let mut e = self.entries[index];
        e.set_handler(handler);
        self.entries.set(index, e);
    }

    /// Entry `index` of the table.
    pub fn entry(&self, index: usize) -> (e: IdtEntry)
        requires
            index < self@.len(),
        ensures
            e == self@[index as int],
    {
        self.entries[index]
    }
}

/// Addresses of the kernel's interrupt handlers.
#[derive(Clone, Copy, Debug, PartialEq, Eq, Structural)]
pub struct HandlerAddrs {
    pub generic_exception: u64,
    pub divide_by_zero: u64,
    pub double_fault: u64,
    pub general_protection: u64,
    pub page_fault: u64,
    pub timer: u64,
    pub keyboard: u64,
}

/// The handler that vector `v` gets: the dedicated ones for vectors 0, 8,
/// 13, 14 and the timer and keyboard lines (32, 33), the generic handler
/// for the other exceptions (below 32); `None` for vectors left alone.
pub open spec fn vector_handler(h: HandlerAddrs, v: int) -> Option<u64> {
    if v == 0 {
        Some(h.divide_by_zero)
    } else if v == 8 {
        Some(h.double_fault)
    } else if v == 13 {
        Some(h.general_protection)
    } else if v == 14 {
        Some(h.page_fault)
    } else if v == 32 {
        Some(h.timer)
    } else if v == 33 {
        Some(h.keyboard)
    } else if 0 <= v < 32 {
        Some(h.generic_exception)
    } else {
        None
    }
}

/// Install the kernel's handlers (see `vector_handler`).
pub fn register_all_handlers(idt: &mut Idt, h: HandlerAddrs)
    requires
        old(idt)@.len() == IDT_ENTRIES,
    ensures
        final(idt)@.len() == IDT_ENTRIES,
        forall|v: int| 0 <= v < IDT_ENTRIES ==> match vector_handler(h, v) {
            Some(a) => is_gate_to(#[trigger] final(idt)@[v], a),
            None => final(idt)@[v] == old(idt)@[v],
        },
        forall|v: int| 0 <= v < 32 ==> is_gate_to(#[trigger] final(idt)@[v],
            if v == 0 { h.divide_by_zero } else if v == 8 { h.double_fault }
            else if v == 13 { h.general_protection } else if v == 14 { h.page_fault }
            else { h.generic_exception }),
        is_gate_to(final(idt)@[32], h.timer),
        is_gate_to(final(idt)@[33], h.keyboard),
{
    let mut i: usize = 0;
    while i < 32
        invariant
            i <= 32,
            idt@.len() == IDT_ENTRIES,
            forall|v: int| 0 <= v < i ==> is_gate_to(#[trigger] idt@[v], h.generic_exception),
            forall|v: int| i <= v < IDT_ENTRIES ==> #[trigger] idt@[v] == old(idt)@[v],
        decreases 32 - i,
    {
        idt.set_handler(i, h.generic_exception);
        i = i + 1;
    }
    idt.set_handler(0, h.divide_by_zero);
    idt.set_handler(8, h.double_fault);
    idt.set_handler(13, h.general_protection);
    idt.set_handler(14, h.page_fault);
    idt.set_handler(32, h.timer);
    idt.set_handler(33, h.keyboard);
}

/// The cells of the red banner naming an exception: the first 80 bytes of
/// the name in white on red.
pub fn exception_banner(name: &[u8]) -> (cells: Vec<u16>)
    ensures
        cells@.len() == if name@.len() < BANNER_WIDTH { name@.len() } else { BANNER_WIDTH as nat },
        forall|i: int| 0 <= i < cells@.len() ==> #[trigger] cells@[i] == BANNER_ATTRIBUTE + name@[i],
{
    let mut cells: Vec<u16> = Vec::new();
    let mut i: usize = 0;
    while i < name.len() && i < BANNER_WIDTH
        invariant
            i <= name@.len(),
            i <= BANNER_WIDTH,
            cells@.len() == i,
            forall|k: int| 0 <= k < i ==> #[trigger] cells@[k] == BANNER_ATTRIBUTE + name@[k],
        decreases name@.len() - i,
    {
        let b = name[i];
        assert(0x4F00u16 | (b as u16) == 0x4F00u16 + (b as u16)) by (bit_vector);
        cells.push(BANNER_ATTRIBUTE | b as u16);
        i = i + 1;
    }
    cells
}

/// Every CPU exception vector (0 to 31) gets a handler: divide error,
/// double fault, general protection and page fault their own, every other
/// exception the generic one; the timer and keyboard interrupts (vectors 32
/// and 33) get theirs, and no other vector gets one.
pub proof fn lemma_every_exception_handled(h: HandlerAddrs)
    ensures
        forall|v: int| 0 <= v < 32 ==> #[trigger] vector_handler(h, v) is Some,
        forall|v: int| 0 <= v < 32 && v != 0 && v != 8 && v != 13 && v != 14
            ==> #[trigger] vector_handler(h, v) == Some(h.generic_exception),
        vector_handler(h, 0) == Some(h.divide_by_zero),
        vector_handler(h, 8) == Some(h.double_fault),
        vector_handler(h, 13) == Some(h.general_protection),
        vector_handler(h, 14) == Some(h.page_fault),
        vector_handler(h, 32) == Some(h.timer),
        vector_handler(h, 33) == Some(h.keyboard),
        forall|v: int| (v < 0 || v >= 34) ==> #[trigger] vector_handler(h, v) is None,
{
}

} // verus!
