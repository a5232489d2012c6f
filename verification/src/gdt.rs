//! Global descriptor table with a 64-bit kernel code segment, a data
//! segment, and the task-state segment descriptor.
use vstd::prelude::*;

verus! {

pub const GDT_ENTRIES: usize = 9;
/// Bytes of the task-state segment.
pub const TSS_SIZE: u64 = 104;
/// Access byte of an available 64-bit TSS descriptor.
pub const TSS_ACCESS: u64 = 0x89;
/// Kernel code segment: accessed, code, present, long mode (bits 43, 44, 47, 53).
pub const KERNEL_CODE_DESCRIPTOR: u64 = 0x0020_9800_0000_0000;
/// Kernel data segment: writable, data, present (bits 41, 44, 47).
pub const KERNEL_DATA_DESCRIPTOR: u64 = 0x0000_9200_0000_0000;

/// The x86-64 task-state segment.
#[derive(Clone, Copy, Debug, PartialEq, Eq, Structural)]
pub struct Tss {
    pub reserved0: u32,
    pub rsp0: u64,
    pub rsp1: u64,
    pub rsp2: u64,
    pub reserved1: u64,
    pub ist1: u64,
    pub ist2: u64,
    pub ist3: u64,
    pub ist4: u64,
    pub ist5: u64,
    pub ist6: u64,
    pub ist7: u64,
    pub reserved2: u64,
    pub reserved3: u16,
    pub iomap_base: u16,
}

impl Tss {
    /// All stacks zero and the I/O permission map placed past the end of the
    /// segment (so there is none).
    pub fn new() -> (t: Tss)
        ensures
            t.rsp0 == 0 && t.rsp1 == 0 && t.rsp2 == 0,
            t.ist1 == 0 && t.ist2 == 0 && t.ist3 == 0 && t.ist4 == 0,
            t.ist5 == 0 && t.ist6 == 0 && t.ist7 == 0,
            t.iomap_base == TSS_SIZE,
            t.reserved0 == 0 && t.reserved1 == 0 && t.reserved2 == 0 && t.reserved3 == 0,
    {
        Tss {
            reserved0: 0, rsp0: 0, rsp1: 0, rsp2: 0,
            reserved1: 0,
            ist1: 0, ist2: 0, ist3: 0, ist4: 0,
            ist5: 0, ist6: 0, ist7: 0,
            reserved2: 0, reserved3: 0,
            iomap_base: 104,
        }
    }
}

/// Base address held by a 16-byte system descriptor split as `low`, `high`.
pub open spec fn descriptor_base(low: u64, high: u64) -> int {
    ((low / 0x1_0000) % 0x1_0000) + ((low / 0x1_0000_0000) % 0x100) * 0x1_0000
        + ((low / 0x100_0000_0000_0000) % 0x100) * 0x100_0000 + high * 0x1_0000_0000
}

/// Segment limit held by a descriptor's low word.
pub open spec fn descriptor_limit(low: u64) -> int {
    (low % 0x1_0000) + ((low / 0x1_0000_0000_0000) % 0x10) * 0x1_0000
}

/// Access byte of a descriptor's low word.
pub open spec fn descriptor_access(low: u64) -> int {
    ((low / 0x100_0000_0000) % 0x100) as int
}

/// Flags nibble (granularity, size) of a descriptor's low word.
pub open spec fn descriptor_flags(low: u64) -> int {
    ((low / 0x10_0000_0000_0000) % 0x10) as int
}

#[derive(Clone, Copy, Debug)]
pub struct Gdt {
    pub entries: [u64; 9],
}

impl Gdt {
    /// Null descriptors except the kernel code segment (selector 0x18) and
    /// data segment (selector 0x20).
    pub fn new() -> (g: Gdt)
        ensures
            forall|i: int| 0 <= i < GDT_ENTRIES && i != 3 && i != 4 ==> g.entries@[i] == 0,
            g.entries@[3] == KERNEL_CODE_DESCRIPTOR,
            g.entries@[4] == KERNEL_DATA_DESCRIPTOR,
    {
        let mut entries = [0u64; 9];
        entries[3] = (1u64 << 43u64) | (1u64 << 44u64) | (1u64 << 47u64) | (1u64 << 53u64);
        entries[4] = (1u64 << 41u64) | (1u64 << 44u64) | (1u64 << 47u64);
        assert((1u64 << 43u64) | (1u64 << 44u64) | (1u64 << 47u64) | (1u64 << 53u64) == 0x0020_9800_0000_0000u64) by (bit_vector);
        assert((1u64 << 41u64) | (1u64 << 44u64) | (1u64 << 47u64) == 0x0000_9200_0000_0000u64) by (bit_vector);
        Gdt { entries }
    }

    /// Fill slots 5 and 6 (selector 0x28) with the descriptor of the TSS at
    /// `tss_addr`: its base, a limit of its size less one, and the access
    /// byte of an available TSS; nothing else changes.
    pub fn install_tss(&mut self, tss_addr: u64)
        ensures
            descriptor_base(final(self).entries@[5], final(self).entries@[6]) == tss_addr,
            descriptor_limit(final(self).entries@[5]) == TSS_SIZE - 1,
            descriptor_access(final(self).entries@[5]) == TSS_ACCESS,
            descriptor_flags(final(self).entries@[5]) == 0,
            forall|i: int| 0 <= i < GDT_ENTRIES && i != 5 && i != 6 ==> final(self).entries@[i] == old(self).entries@[i],
    {
        let tss_len: u64 = TSS_SIZE - 1;
        let low: u64 = (tss_len & 0xFFFF)
            | ((tss_addr & 0xFFFF) << 16u64)
            | (((tss_addr >> 16u64) & 0xFF) << 32u64)
            | (0x89u64 << 40u64)
            | (((tss_len >> 16u64) & 0xF) << 48u64)
            | (((tss_addr >> 24u64) & 0xFF) << 56u64);
        let high: u64 = tss_addr >> 32u64;
        assert(
            (low / 0x1_0000) % 0x1_0000 + ((low / 0x1_0000_0000) % 0x100) * 0x1_0000
                + ((low / 0x100_0000_0000_0000) % 0x100) * 0x100_0000 + high * 0x1_0000_0000 == tss_addr
            && low % 0x1_0000 + ((low / 0x1_0000_0000_0000) % 0x10) * 0x1_0000 == 103
            && (low / 0x100_0000_0000) % 0x100 == 0x89
            && (low / 0x10_0000_0000_0000) % 0x10 == 0
        ) by (bit_vector)
            requires
                tss_len == 103u64,
                high == tss_addr >> 32u64,
                low == (tss_len & 0xFFFF)
                    | ((tss_addr & 0xFFFF) << 16u64)
                    | (((tss_addr >> 16u64) & 0xFF) << 32u64)
                    | (0x89u64 << 40u64)
                    | (((tss_len >> 16u64) & 0xF) << 48u64)
                    | (((tss_addr >> 24u64) & 0xFF) << 56u64);
        self.entries[5] = low;
        self.entries[6] = high;
    }
}

} // verus!
