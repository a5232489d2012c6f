//! Decisions of the boot path: the memory map listing, the search for the
//! ACPI root pointer, relocation entries, and the higher-half layout.
use vstd::prelude::*;
use crate::pmm::E820Entry;

verus! {

/// Start of the kernel's higher-half virtual window.
pub const KERNEL_VIRT_BASE: u64 = 0xFFFF_8000_0000_0000;
/// Physical start of the kernel image.
pub const KERNEL_PHYS_START: u64 = 0x10_0000;
/// Physical end of the kernel image.
pub const KERNEL_PHYS_END: u64 = 0x20_0000;
/// "RSD PTR " read as a little-endian 64-bit word.
pub const RSDP_SIGNATURE: u64 = 0x2052_5450_2044_5352;
/// Bytes of an ACPI 1.0 root pointer.
pub const RSDP_V1_SIZE: usize = 20;
/// Bytes of one ELF relocation entry with addend.
pub const RELA_ENTRY_SIZE: u64 = 24;
/// R_X86_64_RELATIVE.
pub const R_X86_64_RELATIVE: u64 = 8;
/// Start of the BIOS read-only area searched for the root pointer.
pub const BIOS_AREA_START: u64 = 0xE0000;
/// Length of that area.
pub const BIOS_AREA_LEN: u64 = 0x20000;
/// Bytes of the extended BIOS data area searched first.
pub const EBDA_SEARCH_LEN: u64 = 1024;

/// Name of an E820 memory type.
pub fn e820_type_str(kind: u32) -> (r: &'static str)
    ensures
        r@ == (match kind {
            1 => "USABLE"@,
            2 => "RESERVED"@,
            3 => "ACPI"@,
            4 => "ACPI_NVS"@,
            5 => "BAD"@,
            _ => "UNKNOWN"@,
        }),
{
    match kind {
        1 => "USABLE",
        2 => "RESERVED",
        3 => "ACPI",
        4 => "ACPI_NVS",
        5 => "BAD",
        _ => "UNKNOWN",
    }
}

/// An all-zero entry is padding and is left out of the listing.
pub fn e820_entry_listed(e: &E820Entry) -> (r: bool)
    ensures
        r == !(e.base == 0 && e.length == 0 && e.kind == 0),
{
    !(e.base == 0 && e.length == 0 && e.kind == 0)
}

/// The ranges searched for the root pointer, in order: the first KiB of the
/// extended BIOS data area when its segment points below 1 MiB, then the
/// BIOS area.
pub fn rsdp_search_ranges(ebda_seg: u16) -> (r: Vec<(u64, u64)>)
    ensures
        (ebda_seg != 0 && ebda_seg as int * 16 < 0x10_0000) ==>
            r@ == seq![((ebda_seg as int * 16) as u64, EBDA_SEARCH_LEN), (BIOS_AREA_START, BIOS_AREA_LEN)],
        !(ebda_seg != 0 && ebda_seg as int * 16 < 0x10_0000) ==> r@ == seq![(BIOS_AREA_START, BIOS_AREA_LEN)],
{
    let ebda_addr = (ebda_seg as u64) << 4u64;
    let s = ebda_seg as u64;
    assert(ebda_addr == s * 16) by (bit_vector)
        requires ebda_addr == s << 4u64, s < 0x1_0000;
    let mut r: Vec<(u64, u64)> = Vec::new();
    if ebda_addr != 0 && ebda_addr < 0x10_0000 {
        r.push((ebda_addr, EBDA_SEARCH_LEN));
    }
    r.push((BIOS_AREA_START, BIOS_AREA_LEN));
    r
}

/// Little-endian 64-bit value at `off`.
pub open spec fn le64(b: Seq<u8>, off: int) -> int {
    b[off] + b[off + 1] * 0x100 + b[off + 2] * 0x1_0000 + b[off + 3] * 0x100_0000
        + b[off + 4] * 0x1_0000_0000 + b[off + 5] * 0x100_0000_0000
        + b[off + 6] * 0x1_0000_0000_0000 + b[off + 7] * 0x100_0000_0000_0000
}

/// A valid ACPI 1.0 root pointer starts at `off`: signature, and its 20
/// bytes add up to zero modulo 256.
pub open spec fn rsdp_at(mem: Seq<u8>, off: int) -> bool {
    le64(mem, off) == RSDP_SIGNATURE && crate::acpi::byte_sum(mem.subrange(off, off + 20)) % 256 == 0
}

/// First 16-byte-aligned offset from `k * 16` below `length` where a root
/// pointer lies.
pub open spec fn rsdp_search(mem: Seq<u8>, length: int, k: int) -> Option<int>
    decreases (if length > k * 16 { length - k * 16 } else { 0 }),
{
    if k < 0 || k * 16 >= length {
        None
    } else if rsdp_at(mem, k * 16) {
        Some(k * 16)
    } else {
        rsdp_search(mem, length, k + 1)
    }
}

fn read_u64(b: &[u8], off: usize) -> (r: u64)
    requires
        off + 8 <= b@.len(),
    ensures
        r == le64(b@, off as int),
{
    (b[off] as u64) + (b[off + 1] as u64) * 0x100 + (b[off + 2] as u64) * 0x1_0000
        + (b[off + 3] as u64) * 0x100_0000 + (b[off + 4] as u64) * 0x1_0000_0000
        + (b[off + 5] as u64) * 0x100_0000_0000 + (b[off + 6] as u64) * 0x1_0000_0000_0000
        + (b[off + 7] as u64) * 0x100_0000_0000_0000
}

/// Search `length` bytes from physical address `start`, whose contents (and
/// the 20 bytes after) are `mem`, for the root pointer at 16-byte steps.
pub fn search_rsdp_range(mem: &[u8], start: u64, length: u64) -> (r: Option<u64>)
    requires
        start + length <= u64::MAX,
        mem@.len() >= length + RSDP_V1_SIZE,
    ensures
        match rsdp_search(mem@, length as int, 0) {
            None => r is None,
            Some(off) => r == Some((start + off) as u64),
        },
{
    let mut k: u64 = 0;
    let end = start + length;
    let mut addr = start;
    while addr < end
        invariant
            start + length <= u64::MAX,
            end == start + length,
            mem@.len() >= length + RSDP_V1_SIZE,
            addr == start + k * 16,
            k * 16 <= length + 15,
            mem@.len() == mem.len(),
            rsdp_search(mem@, length as int, 0) == rsdp_search(mem@, length as int, k as int),
        decreases (if end > addr { end - addr } else { 0 }),
    {
        let off = (addr - start) as usize;
        if rsdp_check(mem, off) {
            return Some(addr);
        }
        if addr > u64::MAX - 16 {
            proof { lemma_rsdp_search_end(mem@, length as int, k as int + 1); }
            return None;
        }
        addr += 16;
        k += 1;
    }
    proof { lemma_rsdp_search_end(mem@, length as int, k as int); }
    None
}

proof fn lemma_rsdp_search_end(mem: Seq<u8>, length: int, k: int)
    requires
        k * 16 >= length,
    ensures
        rsdp_search(mem, length, k) is None,
{
}

fn rsdp_check(mem: &[u8], off: usize) -> (r: bool)
    requires
        off + 20 <= mem@.len(),
    ensures
        r == rsdp_at(mem@, off as int),
{
    let sig = read_u64(mem, off);
    if sig == RSDP_SIGNATURE {
        let window = mem_window(mem, off);
        crate::acpi::checksum_ok(&window)
    } else {
        false
    }
}

fn mem_window(mem: &[u8], off: usize) -> (w: Vec<u8>)
    requires
        off + 20 <= mem@.len(),
    ensures
        w@ == mem@.subrange(off as int, off + 20),
{
    let mut w: Vec<u8> = Vec::new();
    let mut i: usize = 0;
    while i < 20
        invariant
            i <= 20,
            off + 20 <= mem@.len(),
            mem@.len() == mem.len(),
            w@ == mem@.subrange(off as int, off + i),
        decreases 20 - i,
    {
        w.push(mem[off + i]);
        i = i + 1;
        proof {
            assert(mem@.subrange(off as int, off + i) =~= mem@.subrange(off as int, off + i - 1).push(mem@[off + i - 1]));
        }
    }
    w
}

/// The revision and RSDT address recorded in a root pointer's 20 bytes.
pub fn rsdp_fields(bytes: &[u8]) -> (r: (u8, u32))
    requires
        bytes@.len() >= RSDP_V1_SIZE,
    ensures
        r == (bytes@[15], crate::acpi::le32(bytes@, 16) as u32),
{
    (bytes[15], crate::acpi::read_u32(bytes, 16))
}

/// The write a relocation entry asks for, with all addresses moved by
/// `bias`: for a relative relocation (type 8 in the low half of `info`),
/// store `addend + bias` at `offset + bias`; other types are skipped.
pub fn rela_patch(offset: u64, info: u64, addend: u64, bias: u64) -> (r: Option<(u64, u64)>)
    requires
        info % 0x1_0000_0000 == R_X86_64_RELATIVE ==> offset + bias <= u64::MAX && addend + bias <= u64::MAX,
    ensures
        info % 0x1_0000_0000 == R_X86_64_RELATIVE ==> r == Some(((offset + bias) as u64, (addend + bias) as u64)),
        info % 0x1_0000_0000 != R_X86_64_RELATIVE ==> r is None,
{
    let rela_type = (info & 0xFFFF_FFFF) as u32;
    assert((info & 0xFFFF_FFFF) == info % 0x1_0000_0000) by (bit_vector);
    if rela_type == 8 {
        Some((offset + bias, addend + bias))
    } else {
        None
    }
}

/// Where code at physical address `phys` in the kernel image runs once the
/// kernel executes from the higher half.
pub fn higher_half_address(phys: u64) -> (r: u64)
    requires
        KERNEL_PHYS_START <= phys,
        phys - KERNEL_PHYS_START + KERNEL_PHYS_START + KERNEL_VIRT_BASE <= u64::MAX,
    ensures
        r == KERNEL_VIRT_BASE + phys,
{
    let offset = phys - KERNEL_PHYS_START;
    KERNEL_VIRT_BASE + KERNEL_PHYS_START + offset
}

} // verus!
