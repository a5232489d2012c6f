//! PCI configuration space: addressing, header decoding, base address
//! registers, the bus scan order and class names.
use vstd::prelude::*;

verus! {

pub const CONFIG_ADDRESS: u16 = 0xCF8;
pub const CONFIG_DATA: u16 = 0xCFC;
/// Dwords of the standard configuration header read for a device.
pub const HEADER_DWORDS: usize = 16;

/// The value written to CONFIG_ADDRESS to reach a configuration dword:
/// enable bit, bus, device (5 bits), function (3 bits), dword-aligned offset.
pub open spec fn config_address_spec(bus: u8, dev: u8, func: u8, offset: u8) -> int {
    0x8000_0000 + bus * 0x1_0000 + (dev % 32) * 0x800 + (func % 8) * 0x100 + (offset - offset % 4)
}

pub fn config_address(bus: u8, dev: u8, func: u8, offset: u8) -> (r: u32)
    ensures
        r == config_address_spec(bus, dev, func, offset),
{
    let b = bus as u32;
    let d = dev as u32;
    let f = func as u32;
    let o = offset as u32;
    let r = (1u32 << 31u32) | (b << 16u32) | ((d & 0x1F) << 11u32) | ((f & 0x07) << 8u32) | (o & 0xFC);
    assert(r == 0x8000_0000 + b * 0x1_0000 + (d % 32) * 0x800 + (f % 8) * 0x100 + (o - o % 4)) by (bit_vector)
        requires
            b < 256, d < 256, f < 256, o < 256,
            r == (1u32 << 31u32) | (b << 16u32) | ((d & 0x1F) << 11u32) | ((f & 0x07) << 8u32) | (o & 0xFC);
    r
}

proof fn lemma_u32_fields(x: u32)
    by (bit_vector)
    ensures
        x >> 0u32 == x,
        (x & 1 != 0) == (x % 2 == 1),
        (x >> 1u32) & 0x3 == (x / 2) % 4,
        x & 0xFFFFFFF0 == x - x % 16,
        x & 0xFFFC == (x % 0x1_0000) - (x % 4),
        x & 0xFFFF == x % 0x1_0000,
        (x >> 16u32) & 0xFFFF == (x / 0x1_0000) % 0x1_0000,
        x & 0xFF == x % 0x100,
        (x >> 8u32) & 0xFF == (x / 0x100) % 0x100,
        (x >> 16u32) & 0xFF == (x / 0x1_0000) % 0x100,
        (x >> 24u32) & 0xFF == (x / 0x100_0000) % 0x100,
{
}

proof fn lemma_u8_fields(x: u8)
    by (bit_vector)
    ensures
        (x & 0x80 != 0) == (x >= 0x80),
        (x & 0x7F == 0) == (x % 0x80 == 0),
        (x & 2) == 0 || (x & 2) == 2,
        (x & 2 == 2) == (x % 4 >= 2),
        (x & 3) == x % 4,
{
}

proof fn lemma_join64(hi: u64, lo: u64)
    by (bit_vector)
    requires
        hi < 0x1_0000_0000u64,
        lo < 0x1_0000_0000u64,
    ensures
        (hi << 32u64) | lo == hi * 0x1_0000_0000 + lo,
{
}

proof fn lemma_negate(m32: u32, m64: u64)
    by (bit_vector)
    ensures
        m32 != 0 ==> (!m32).wrapping_add(1) as int == 0x1_0000_0000 - m32,
        m32 == 0 ==> (!m32).wrapping_add(1) == 0,
        m64 != 0 ==> (!m64).wrapping_add(1) as int == 0x1_0000_0000_0000_0000 - m64,
{
}

/// The 16-bit field at byte `offset` of the dword that holds it.
pub open spec fn word_of(dword: u32, offset: u8) -> u16 {
    ((dword as int / if offset % 4 >= 2 { 0x1_0000int } else { 1int }) % 0x1_0000) as u16
}

/// The byte at `offset` of the dword that holds it.
pub open spec fn byte_of(dword: u32, offset: u8) -> u8 {
    ((dword as int / pow256(offset as int % 4)) % 0x100) as u8
}

pub open spec fn pow256(k: int) -> int {
    if k == 0 { 1 } else if k == 1 { 0x100 } else if k == 2 { 0x1_0000 } else { 0x100_0000 }
}

/// The 16-bit field at `offset` (0 or 2 within its dword) of `dword`, as
/// a 16-bit configuration read returns it.
pub fn config_word(dword: u32, offset: u8) -> (r: u16)
    ensures
        r == word_of(dword, offset),
{
    proof {
        lemma_u8_fields(offset);
        lemma_u32_fields(dword);
    }
    let half = offset & 2;
    let shift = (half as u32) * 8;
    let r = ((dword >> shift) & 0xFFFF) as u16;
    r
}

/// The byte at `offset` of `dword`, as an 8-bit configuration read returns it.
pub fn config_byte(dword: u32, offset: u8) -> (r: u8)
    ensures
        r == byte_of(dword, offset),
{
    proof {
        lemma_u8_fields(offset);
        lemma_u32_fields(dword);
    }
    let k3 = offset & 3;
    let k = k3 as u32;
    let r = ((dword >> (k * 8)) & 0xFF) as u8;
    r
}

#[allow(inconsistent_fields)]
#[derive(Clone, Copy, Debug, PartialEq, Eq, Structural)]
pub enum BarInfo {
    Unused,
    Io { port: u16 },
    Memory32 { base: u32, size: u32 },
    Memory64 { base: u64, size: u64 },
}

impl BarInfo {
    /// The register is listed: an I/O port, or memory of non-zero size.
    pub fn is_listed(&self) -> (r: bool)
        ensures
            r == match *self {
                BarInfo::Unused => false,
                BarInfo::Io { .. } => true,
                BarInfo::Memory32 { size, .. } => size > 0,
                BarInfo::Memory64 { size, .. } => size > 0,
            },
    {
        match self {
            BarInfo::Unused => false,
            BarInfo::Io { .. } => true,
            BarInfo::Memory32 { size, .. } => *size > 0,
            BarInfo::Memory64 { size, .. } => *size > 0,
        }
    }
}

/// What must be read back to size a base address register: nothing, or the
/// registers at the given configuration offsets after writing all ones.
#[derive(Clone, Copy, Debug, PartialEq, Eq, Structural)]
pub enum BarProbe {
    Skip,
    Single { offset: u8 },
    Pair { offset_lo: u8, offset_hi: u8 },
}

#[derive(Clone, Copy, Debug)]
pub struct PciDevice {
    pub bus: u8,
    pub dev: u8,
    pub func: u8,
    pub vendor_id: u16,
    pub device_id: u16,
    pub class: u8,
    pub subclass: u8,
    pub prog_if: u8,
    pub revision: u8,
    pub header_type: u8,
    pub irq_line: u8,
    pub irq_pin: u8,
    pub bars: [u32; 6],
}

/// The byte at configuration offset `off` of a header read as dwords.
pub open spec fn header_byte(h: Seq<u32>, off: int) -> u8 {
    byte_of(h[off / 4], off as u8)
}

/// The 16-bit field at configuration offset `off` of a header.
pub open spec fn header_word(h: Seq<u32>, off: int) -> u16 {
    word_of(h[off / 4], off as u8)
}

/// A vendor id of all ones means no function answers.
pub open spec fn vendor_absent(dword0: u32) -> bool {
    word_of(dword0, 0) == 0xFFFF
}

/// Offset of BAR `i` in the configuration header.
pub open spec fn bar_offset(i: int) -> int {
    0x10 + i * 4
}

/// Size of a 32-bit memory region from the all-ones readback: the two's
/// complement of the address bits, 0 when none are writable.
pub open spec fn bar_size32_spec(readback: u32) -> u32 {
    let mask = readback as int - readback as int % 16;
    if mask == 0 { 0 } else { (0x1_0000_0000 - mask) as u32 }
}

/// Size of a 64-bit memory region from the readbacks of both halves.
pub open spec fn bar_size64_spec(lo: u32, hi: u32) -> u64 {
    let mask = hi as int * 0x1_0000_0000 + (lo as int - lo as int % 16);
    if mask == 0 { 0 } else { (0x1_0000_0000_0000_0000 - mask) as u64 }
}

/// Decoded BAR `index` of `d`, given what sizing read back (`lo` for the
/// register, `hi` for the next one when it is a 64-bit region).
pub open spec fn bar_info_spec(d: PciDevice, index: int, lo: u32, hi: u32) -> BarInfo {
    if index >= 6 {
        BarInfo::Unused
    } else {
        let raw = d.bars@[index];
        if raw == 0 {
            BarInfo::Unused
        } else if raw % 2 == 1 {
            BarInfo::Io { port: ((raw % 0x1_0000) - (raw % 4)) as u16 }
        } else {
            let kind = (raw / 2) % 4;
            let base32 = raw - raw % 16;
            if kind == 0 {
                BarInfo::Memory32 { base: base32 as u32, size: bar_size32_spec(lo) }
            } else if kind == 2 {
                if index + 1 >= 6 {
                    BarInfo::Unused
                } else {
                    BarInfo::Memory64 {
                        base: (d.bars@[index + 1] * 0x1_0000_0000 + base32) as u64,
                        size: bar_size64_spec(lo, hi),
                    }
                }
            } else {
                BarInfo::Unused
            }
        }
    }
}

/// Size of a 32-bit memory region from the all-ones readback.
pub fn bar_size_32(readback: u32) -> (r: u32)
    ensures
        r == bar_size32_spec(readback),
{
    if readback == 0 {
        return 0;
    }
    let mask = readback & 0xFFFFFFF0;
    let r = (!mask).wrapping_add(1);
    proof {
        lemma_u32_fields(readback);
        lemma_negate(mask, 0);
    }
    r
}

/// Size of a 64-bit memory region from the readbacks of both halves.
pub fn bar_size_64(rb_lo: u32, rb_hi: u32) -> (r: u64)
    ensures
        r == bar_size64_spec(rb_lo, rb_hi),
{
    let lo = (rb_lo & 0xFFFFFFF0) as u64;
    let hi = rb_hi as u64;
    let mask = (hi << 32u64) | lo;
    proof {
        lemma_u32_fields(rb_lo);
        lemma_join64(hi, lo);
        lemma_negate(0, mask);
    }
    if mask == 0 {
        return 0;
    }
    (!mask).wrapping_add(1)
}

impl PciDevice {
    /// Decode the configuration header `header` (its first 16 dwords) of
    /// function `func` of device `dev` on `bus`; `None` when no function
    /// answers. BARs are kept only for an ordinary (type 0) header.
    pub fn from_config(bus: u8, dev: u8, func: u8, header: &[u32]) -> (r: Option<PciDevice>)
        requires
            header@.len() >= HEADER_DWORDS,
        ensures
            vendor_absent(header@[0]) ==> r is None,
            !vendor_absent(header@[0]) ==> (r matches Some(d) && {
                &&& d.bus == bus && d.dev == dev && d.func == func
                &&& d.vendor_id == header_word(header@, 0x00)
                &&& d.device_id == header_word(header@, 0x02)
                &&& d.class == header_byte(header@, 0x0B)
                &&& d.subclass == header_byte(header@, 0x0A)
                &&& d.prog_if == header_byte(header@, 0x09)
                &&& d.revision == header_byte(header@, 0x08)
                &&& d.header_type == header_byte(header@, 0x0E)
                &&& d.irq_line == header_byte(header@, 0x3C)
                &&& d.irq_pin == header_byte(header@, 0x3D)
                &&& forall|i: int| 0 <= i < 6 ==> #[trigger] d.bars@[i] == if d.header_type % 0x80 == 0 {
                    header@[bar_offset(i) / 4]
                } else {
                    0
                }
            }),
    {
        let vendor_id = config_word(header[0], 0x00);
        if vendor_id == 0xFFFF {
            return None;
        }
        let device_id = config_word(header[0], 0x02);
        let class = config_byte(header[2], 0x0B);
        let subclass = config_byte(header[2], 0x0A);
        let prog_if = config_byte(header[2], 0x09);
        let revision = config_byte(header[2], 0x08);
        let header_type = config_byte(header[3], 0x0E);
        let irq_line = config_byte(header[15], 0x3C);
        let irq_pin = config_byte(header[15], 0x3D);
        let mut bars = [0u32; 6];
        proof { lemma_u8_fields(header_type); }
        if (header_type & 0x7F) == 0 {
            let mut i: usize = 0;
            while i < 6
                invariant
                    i <= 6,
                    header@.len() >= HEADER_DWORDS,
                    bars@.len() == 6,
                    forall|k: int| 0 <= k < i ==> #[trigger] bars@[k] == header@[bar_offset(k) / 4],
                    forall|k: int| i <= k < 6 ==> #[trigger] bars@[k] == 0,
                decreases 6 - i,
            {
                bars[i] = header[4 + i];
                i = i + 1;
            }
        }
        Some(PciDevice {
            bus, dev, func, vendor_id, device_id,
            class, subclass, prog_if, revision,
            header_type, irq_line, irq_pin, bars,
        })
    }

    /// The function is one of several of its device.
    pub fn is_multifunction(&self) -> (r: bool)
        ensures
            r == (self.header_type >= 0x80),
    {
        let h = self.header_type;
        proof { lemma_u8_fields(h); }
        (self.header_type & 0x80) != 0
    }

    /// Which registers must be probed to size BAR `index`.
    pub fn bar_probe(&self, index: usize) -> (r: BarProbe)
        ensures
            r == (if index >= 6 || self.bars@[index as int] == 0 || self.bars@[index as int] % 2 == 1 {
                BarProbe::Skip
            } else {
                let kind = (self.bars@[index as int] / 2) % 4;
                if kind == 0 {
                    BarProbe::Single { offset: bar_offset(index as int) as u8 }
                } else if kind == 2 && index + 1 < 6 {
                    BarProbe::Pair { offset_lo: bar_offset(index as int) as u8, offset_hi: bar_offset(index + 1) as u8 }
                } else {
                    BarProbe::Skip
                }
            }),
    {
        if index >= 6 {
            return BarProbe::Skip;
        }
        let raw = self.bars[index];
        proof { lemma_u32_fields(raw); }
        if raw == 0 || (raw & 1) != 0 {
            return BarProbe::Skip;
        }
        let mem_type = (raw >> 1) & 0x3;
        let off = 0x10 + (index as u8) * 4;
        if mem_type == 0 {
            BarProbe::Single { offset: off }
        } else if mem_type == 2 && index + 1 < 6 {
            BarProbe::Pair { offset_lo: off, offset_hi: 0x10 + (index as u8 + 1) * 4 }
        } else {
            BarProbe::Skip
        }
    }

    /// Decode BAR `index`, given what sizing read back from the registers
    /// `bar_probe` named (`rb_lo` for the first, `rb_hi` for the second).
    pub fn bar_info(&self, index: usize, rb_lo: u32, rb_hi: u32) -> (r: BarInfo)
        ensures
            r == bar_info_spec(*self, index as int, rb_lo, rb_hi),
    {
        if index >= 6 {
            return BarInfo::Unused;
        }
        let raw = self.bars[index];
        if raw == 0 {
            return BarInfo::Unused;
        }
        proof { lemma_u32_fields(raw); }
        if (raw & 1) != 0 {
            return BarInfo::Io { port: (raw & 0xFFFC) as u16 };
        }
        let mem_type = (raw >> 1) & 0x3;
        let base = raw & 0xFFFFFFF0;
        if mem_type == 0 {
            BarInfo::Memory32 { base, size: bar_size_32(rb_lo) }
        } else if mem_type == 2 {
            if index + 1 >= 6 {
                return BarInfo::Unused;
            }
            let high = self.bars[index + 1] as u64;
            let b = (high << 32u64) | (base as u64);
            let bl = base as u64;
            proof { lemma_join64(high, bl); }
            BarInfo::Memory64 { base: b, size: bar_size_64(rb_lo, rb_hi) }
        } else {
            BarInfo::Unused
        }
    }
}

/// Whether the function answering at dword 0 `dword0` is absent.
pub fn is_absent(dword0: u32) -> (r: bool)
    ensures
        r == vendor_absent(dword0),
{
    config_word(dword0, 0) == 0xFFFF
}

/// Progress of the bus scan: the function to probe next.
#[derive(Clone, Copy, Debug, PartialEq, Eq, Structural)]
pub struct ScanPos {
    pub bus: u8,
    pub dev: u8,
    pub func: u8,
    pub max_bus: u8,
    pub done: bool,
}

/// Buses to scan: all eight when the host bridge is multi-function, else one.
pub open spec fn max_bus_for(host_header_type: u8) -> u8 {
    if host_header_type >= 0x80 { 8 } else { 1 }
}

/// The position after the last function of a device: function 0 of the
/// next device, of the next bus after device 31; the scan ends after the
/// last bus.
pub open spec fn next_device(p: ScanPos) -> ScanPos {
    if p.dev + 1 < 32 {
        ScanPos { dev: (p.dev + 1) as u8, func: 0, ..p }
    } else if p.bus + 1 < p.max_bus {
        ScanPos { bus: (p.bus + 1) as u8, dev: 0, func: 0, ..p }
    } else {
        ScanPos { dev: 0, func: 0, done: true, ..p }
    }
}

/// The position after probing the current function: a present
/// multi-function device at function 0 goes on to function 1, functions
/// 1 to 6 go on to the next function; otherwise to the next device.
pub open spec fn scan_step(p: ScanPos, found: Option<bool>) -> ScanPos {
    if p.func == 0 {
        match found {
            Some(multi) => if multi { ScanPos { func: 1, ..p } } else { next_device(p) },
            None => next_device(p),
        }
    } else if p.func + 1 < 8 {
        ScanPos { func: (p.func + 1) as u8, ..p }
    } else {
        next_device(p)
    }
}

/// The scan is on a real function of a real device of a scanned bus.
pub open spec fn scan_ok(p: ScanPos) -> bool {
    &&& p.dev < 32
    &&& p.func < 8
    &&& 1 <= p.max_bus <= 8
    &&& p.bus < p.max_bus
}

/// Bus scan over every bus, device and function in turn, collecting devices.
pub struct PciScan {
    pub pos: ScanPos,
    pub devices: Vec<PciDevice>,
}

impl PciScan {
    /// Start at bus 0, device 0, function 0, given the host bridge's header
    /// type byte (configuration offset 0x0E of 0:0.0).
    pub fn new(host_header_type: u8) -> (s: PciScan)
        ensures
            s.pos == (ScanPos { bus: 0, dev: 0, func: 0, max_bus: max_bus_for(host_header_type), done: false }),
            s.devices@.len() == 0,
            scan_ok(s.pos),
    {
        let max_bus: u8 = if (host_header_type & 0x80) != 0 { 8 } else { 1 };
        proof { lemma_u8_fields(host_header_type); }
        PciScan { pos: ScanPos { bus: 0, dev: 0, func: 0, max_bus, done: false }, devices: Vec::new() }
    }

    /// The function to probe next, or `None` when the scan is over.
    pub fn next_probe(&self) -> (r: Option<(u8, u8, u8)>)
        ensures
            self.pos.done ==> r is None,
            !self.pos.done ==> r == Some((self.pos.bus, self.pos.dev, self.pos.func)),
    {
        if self.pos.done {
            None
        } else {
            Some((self.pos.bus, self.pos.dev, self.pos.func))
        }
    }

    /// Record what probing the current function found; devices are kept in
    /// scan order.
    pub fn record(&mut self, found: Option<PciDevice>)
        requires
            scan_ok(old(self).pos),
            !old(self).pos.done,
        ensures
            scan_ok(final(self).pos),
            final(self).pos == scan_step(old(self).pos, match found { Some(d) => Some(d.header_type >= 0x80), None => None }),
            final(self).devices@ == match found { Some(d) => old(self).devices@.push(d), None => old(self).devices@ },
    {
        let p = self.pos;
        let mut multi = false;
        let present = match found {
            Some(d) => {
                multi = d.is_multifunction();
                self.devices.push(d);
                true
            }
            None => false,
        };
        if p.func == 0 && present && multi {
            self.pos = ScanPos { func: 1, ..p };
        } else if p.func != 0 && p.func + 1 < 8 {
            self.pos = ScanPos { func: p.func + 1, ..p };
        } else if p.dev + 1 < 32 {
            self.pos = ScanPos { dev: p.dev + 1, func: 0, ..p };
        } else if p.bus + 1 < p.max_bus {
            self.pos = ScanPos { bus: p.bus + 1, dev: 0, func: 0, ..p };
        } else {
            self.pos = ScanPos { dev: 0, func: 0, done: true, ..p };
        }
    }
}

/// Probes left before the scan ends from `p`, counting every function slot.
pub open spec fn scan_remaining(p: ScanPos) -> int {
    if p.done { 0 } else { (p.max_bus - p.bus) * 256 - p.dev * 8 - p.func }
}

/// Every step of the scan brings it closer to its end, so the scan finishes
/// after at most eight probes per device slot of each bus.
pub proof fn lemma_scan_progress(p: ScanPos, found: Option<bool>)
    requires
        scan_ok(p),
        !p.done,
    ensures
        0 <= scan_remaining(scan_step(p, found)) < scan_remaining(p),
        scan_remaining(p) <= 8 * 32 * 8,
{
}

/// Name of a device class and subclass.
pub fn class_name(class: u8, subclass: u8) -> (r: &'static str)
    ensures
        r@ == class_name_spec(class, subclass),
{
    match (class, subclass) {
        (0x00, 0x00) => "Non-VGA Unclassified",
        (0x00, 0x01) => "VGA-Compatible Unclassified",
        (0x01, 0x00) => "SCSI Bus Controller",
        (0x01, 0x01) => "IDE Controller",
        (0x01, 0x02) => "Floppy Disk Controller",
        (0x01, 0x05) => "ATA Controller",
        (0x01, 0x06) => "SATA Controller",
        (0x01, 0x08) => "NVMe Controller",
        (0x02, 0x00) => "Ethernet Controller",
        (0x02, 0x80) => "Other Network Controller",
        (0x03, 0x00) => "VGA Controller",
        (0x03, 0x01) => "XGA Controller",
        (0x04, 0x00) => "Video Controller",
        (0x04, 0x01) => "Audio Controller",
        (0x04, 0x03) => "HD Audio Controller",
        (0x05, 0x00) => "RAM Controller",
        (0x06, 0x00) => "Host Bridge",
        (0x06, 0x01) => "ISA Bridge",
        (0x06, 0x02) => "EISA Bridge",
        (0x06, 0x04) => "PCI-to-PCI Bridge",
        (0x06, 0x80) => "Other Bridge",
        (0x07, 0x00) => "Serial Controller",
        (0x07, 0x01) => "Parallel Controller",
        (0x08, 0x00) => "PIC",
        (0x08, 0x01) => "DMA Controller",
        (0x08, 0x02) => "Timer",
        (0x08, 0x03) => "RTC Controller",
        (0x0C, 0x00) => "FireWire Controller",
        (0x0C, 0x03) => "USB Controller",
        (0x0C, 0x05) => "SMBus Controller",
        _ => "Unknown",
    }
}

/// The class names, as text.
pub open spec fn class_name_spec(class: u8, subclass: u8) -> Seq<char> {
    match (class, subclass) {
        (0x00, 0x00) => "Non-VGA Unclassified"@,
        (0x00, 0x01) => "VGA-Compatible Unclassified"@,
        (0x01, 0x00) => "SCSI Bus Controller"@,
        (0x01, 0x01) => "IDE Controller"@,
        (0x01, 0x02) => "Floppy Disk Controller"@,
        (0x01, 0x05) => "ATA Controller"@,
        (0x01, 0x06) => "SATA Controller"@,
        (0x01, 0x08) => "NVMe Controller"@,
        (0x02, 0x00) => "Ethernet Controller"@,
        (0x02, 0x80) => "Other Network Controller"@,
        (0x03, 0x00) => "VGA Controller"@,
        (0x03, 0x01) => "XGA Controller"@,
        (0x04, 0x00) => "Video Controller"@,
        (0x04, 0x01) => "Audio Controller"@,
        (0x04, 0x03) => "HD Audio Controller"@,
        (0x05, 0x00) => "RAM Controller"@,
        (0x06, 0x00) => "Host Bridge"@,
        (0x06, 0x01) => "ISA Bridge"@,
        (0x06, 0x02) => "EISA Bridge"@,
        (0x06, 0x04) => "PCI-to-PCI Bridge"@,
        (0x06, 0x80) => "Other Bridge"@,
        (0x07, 0x00) => "Serial Controller"@,
        (0x07, 0x01) => "Parallel Controller"@,
        (0x08, 0x00) => "PIC"@,
        (0x08, 0x01) => "DMA Controller"@,
        (0x08, 0x02) => "Timer"@,
        (0x08, 0x03) => "RTC Controller"@,
        (0x0C, 0x00) => "FireWire Controller"@,
        (0x0C, 0x03) => "USB Controller"@,
        (0x0C, 0x05) => "SMBus Controller"@,
        _ => "Unknown"@,
    }
}


/// The class and subclass a device name stands for, read back from the name.
pub open spec fn class_of_name(n: Seq<char>) -> Option<(u8, u8)> {
    if false {
        None
    } else if n == "Non-VGA Unclassified"@ {
        Some((0x00u8, 0x00u8))
    } else if n == "VGA-Compatible Unclassified"@ {
        Some((0x00u8, 0x01u8))
    } else if n == "SCSI Bus Controller"@ {
        Some((0x01u8, 0x00u8))
    } else if n == "IDE Controller"@ {
        Some((0x01u8, 0x01u8))
    } else if n == "Floppy Disk Controller"@ {
        Some((0x01u8, 0x02u8))
    } else if n == "ATA Controller"@ {
        Some((0x01u8, 0x05u8))
    } else if n == "SATA Controller"@ {
        Some((0x01u8, 0x06u8))
    } else if n == "NVMe Controller"@ {
        Some((0x01u8, 0x08u8))
    } else if n == "Ethernet Controller"@ {
        Some((0x02u8, 0x00u8))
    } else if n == "Other Network Controller"@ {
        Some((0x02u8, 0x80u8))
    } else if n == "VGA Controller"@ {
        Some((0x03u8, 0x00u8))
    } else if n == "XGA Controller"@ {
        Some((0x03u8, 0x01u8))
    } else if n == "Video Controller"@ {
        Some((0x04u8, 0x00u8))
    } else if n == "Audio Controller"@ {
        Some((0x04u8, 0x01u8))
    } else if n == "HD Audio Controller"@ {
        Some((0x04u8, 0x03u8))
    } else if n == "RAM Controller"@ {
        Some((0x05u8, 0x00u8))
    } else if n == "Host Bridge"@ {
        Some((0x06u8, 0x00u8))
    } else if n == "ISA Bridge"@ {
        Some((0x06u8, 0x01u8))
    } else if n == "EISA Bridge"@ {
        Some((0x06u8, 0x02u8))
    } else if n == "PCI-to-PCI Bridge"@ {
        Some((0x06u8, 0x04u8))
    } else if n == "Other Bridge"@ {
        Some((0x06u8, 0x80u8))
    } else if n == "Serial Controller"@ {
        Some((0x07u8, 0x00u8))
    } else if n == "Parallel Controller"@ {
        Some((0x07u8, 0x01u8))
    } else if n == "PIC"@ {
        Some((0x08u8, 0x00u8))
    } else if n == "DMA Controller"@ {
        Some((0x08u8, 0x01u8))
    } else if n == "Timer"@ {
        Some((0x08u8, 0x02u8))
    } else if n == "RTC Controller"@ {
        Some((0x08u8, 0x03u8))
    } else if n == "FireWire Controller"@ {
        Some((0x0Cu8, 0x00u8))
    } else if n == "USB Controller"@ {
        Some((0x0Cu8, 0x03u8))
    } else if n == "SMBus Controller"@ {
        Some((0x0Cu8, 0x05u8))
    } else {
        None
    }
}

/// Every class and subclass the table knows gets a name of its own: the
/// name of a known pair (any name but `Unknown`) gives that pair back, so
/// two different known pairs never share a name, and `Unknown` names no
/// known pair.
pub proof fn lemma_class_names_distinct()
    ensures
        forall|c: u8, sc: u8| #[trigger] class_name_spec(c, sc) != "Unknown"@
            ==> class_of_name(class_name_spec(c, sc)) == Some((c, sc)),
        forall|c1: u8, s1: u8, c2: u8, s2: u8|
            #[trigger] class_name_spec(c1, s1) == #[trigger] class_name_spec(c2, s2) && (c1, s1) != (c2, s2)
            ==> class_name_spec(c1, s1) == "Unknown"@,
        class_of_name("Unknown"@) is None,
{
    reveal_strlit("Non-VGA Unclassified");
    reveal_strlit("VGA-Compatible Unclassified");
    reveal_strlit("SCSI Bus Controller");
    reveal_strlit("IDE Controller");
    reveal_strlit("Floppy Disk Controller");
    reveal_strlit("ATA Controller");
    reveal_strlit("SATA Controller");
    reveal_strlit("NVMe Controller");
    reveal_strlit("Ethernet Controller");
    reveal_strlit("Other Network Controller");
    reveal_strlit("VGA Controller");
    reveal_strlit("XGA Controller");
    reveal_strlit("Video Controller");
    reveal_strlit("Audio Controller");
    reveal_strlit("HD Audio Controller");
    reveal_strlit("RAM Controller");
    reveal_strlit("Host Bridge");
    reveal_strlit("ISA Bridge");
    reveal_strlit("EISA Bridge");
    reveal_strlit("PCI-to-PCI Bridge");
    reveal_strlit("Other Bridge");
    reveal_strlit("Serial Controller");
    reveal_strlit("Parallel Controller");
    reveal_strlit("PIC");
    reveal_strlit("DMA Controller");
    reveal_strlit("Timer");
    reveal_strlit("RTC Controller");
    reveal_strlit("FireWire Controller");
    reveal_strlit("USB Controller");
    reveal_strlit("SMBus Controller");
    reveal_strlit("Unknown");
    assert("Non-VGA Unclassified"@.len() == 20 && "Non-VGA Unclassified"@[0] == 'N' && "Non-VGA Unclassified"@[1] == 'o');
    assert("VGA-Compatible Unclassified"@.len() == 27 && "VGA-Compatible Unclassified"@[0] == 'V' && "VGA-Compatible Unclassified"@[1] == 'G');
    assert("SCSI Bus Controller"@.len() == 19 && "SCSI Bus Controller"@[0] == 'S' && "SCSI Bus Controller"@[1] == 'C');
    assert("IDE Controller"@.len() == 14 && "IDE Controller"@[0] == 'I' && "IDE Controller"@[1] == 'D');
    assert("Floppy Disk Controller"@.len() == 22 && "Floppy Disk Controller"@[0] == 'F' && "Floppy Disk Controller"@[1] == 'l');
    assert("ATA Controller"@.len() == 14 && "ATA Controller"@[0] == 'A' && "ATA Controller"@[1] == 'T');
    assert("SATA Controller"@.len() == 15 && "SATA Controller"@[0] == 'S' && "SATA Controller"@[1] == 'A');
    assert("NVMe Controller"@.len() == 15 && "NVMe Controller"@[0] == 'N' && "NVMe Controller"@[1] == 'V');
    assert("Ethernet Controller"@.len() == 19 && "Ethernet Controller"@[0] == 'E' && "Ethernet Controller"@[1] == 't');
    assert("Other Network Controller"@.len() == 24 && "Other Network Controller"@[0] == 'O' && "Other Network Controller"@[1] == 't');
    assert("VGA Controller"@.len() == 14 && "VGA Controller"@[0] == 'V' && "VGA Controller"@[1] == 'G');
    assert("XGA Controller"@.len() == 14 && "XGA Controller"@[0] == 'X' && "XGA Controller"@[1] == 'G');
    assert("Video Controller"@.len() == 16 && "Video Controller"@[0] == 'V' && "Video Controller"@[1] == 'i');
    assert("Audio Controller"@.len() == 16 && "Audio Controller"@[0] == 'A' && "Audio Controller"@[1] == 'u');
    assert("HD Audio Controller"@.len() == 19 && "HD Audio Controller"@[0] == 'H' && "HD Audio Controller"@[1] == 'D');
    assert("RAM Controller"@.len() == 14 && "RAM Controller"@[0] == 'R' && "RAM Controller"@[1] == 'A');
    assert("Host Bridge"@.len() == 11 && "Host Bridge"@[0] == 'H' && "Host Bridge"@[1] == 'o');
    assert("ISA Bridge"@.len() == 10 && "ISA Bridge"@[0] == 'I' && "ISA Bridge"@[1] == 'S');
    assert("EISA Bridge"@.len() == 11 && "EISA Bridge"@[0] == 'E' && "EISA Bridge"@[1] == 'I');
    assert("PCI-to-PCI Bridge"@.len() == 17 && "PCI-to-PCI Bridge"@[0] == 'P' && "PCI-to-PCI Bridge"@[1] == 'C');
    assert("Other Bridge"@.len() == 12 && "Other Bridge"@[0] == 'O' && "Other Bridge"@[1] == 't');
    assert("Serial Controller"@.len() == 17 && "Serial Controller"@[0] == 'S' && "Serial Controller"@[1] == 'e');
    assert("Parallel Controller"@.len() == 19 && "Parallel Controller"@[0] == 'P' && "Parallel Controller"@[1] == 'a');
    assert("PIC"@.len() == 3 && "PIC"@[0] == 'P' && "PIC"@[1] == 'I');
    assert("DMA Controller"@.len() == 14 && "DMA Controller"@[0] == 'D' && "DMA Controller"@[1] == 'M');
    assert("Timer"@.len() == 5 && "Timer"@[0] == 'T' && "Timer"@[1] == 'i');
    assert("RTC Controller"@.len() == 14 && "RTC Controller"@[0] == 'R' && "RTC Controller"@[1] == 'T');
    assert("FireWire Controller"@.len() == 19 && "FireWire Controller"@[0] == 'F' && "FireWire Controller"@[1] == 'i');
    assert("USB Controller"@.len() == 14 && "USB Controller"@[0] == 'U' && "USB Controller"@[1] == 'S');
    assert("SMBus Controller"@.len() == 16 && "SMBus Controller"@[0] == 'S' && "SMBus Controller"@[1] == 'M');
    assert("Unknown"@.len() == 7 && "Unknown"@[0] == 'U' && "Unknown"@[1] == 'n');
    assert forall|c: u8, sc: u8| #[trigger] class_name_spec(c, sc) != "Unknown"@
        implies class_of_name(class_name_spec(c, sc)) == Some((c, sc)) by {
            if c == 0x00 && sc == 0x00 {
                assert(class_of_name("Non-VGA Unclassified"@) == Some((0x00u8, 0x00u8)));
            } else if c == 0x00 && sc == 0x01 {
                assert(class_of_name("VGA-Compatible Unclassified"@) == Some((0x00u8, 0x01u8)));
            } else if c == 0x01 && sc == 0x00 {
                assert(class_of_name("SCSI Bus Controller"@) == Some((0x01u8, 0x00u8)));
            } else if c == 0x01 && sc == 0x01 {
                assert(class_of_name("IDE Controller"@) == Some((0x01u8, 0x01u8)));
            } else if c == 0x01 && sc == 0x02 {
                assert(class_of_name("Floppy Disk Controller"@) == Some((0x01u8, 0x02u8)));
            } else if c == 0x01 && sc == 0x05 {
                assert(class_of_name("ATA Controller"@) == Some((0x01u8, 0x05u8)));
            } else if c == 0x01 && sc == 0x06 {
                assert(class_of_name("SATA Controller"@) == Some((0x01u8, 0x06u8)));
            } else if c == 0x01 && sc == 0x08 {
                assert(class_of_name("NVMe Controller"@) == Some((0x01u8, 0x08u8)));
            } else if c == 0x02 && sc == 0x00 {
                assert(class_of_name("Ethernet Controller"@) == Some((0x02u8, 0x00u8)));
            } else if c == 0x02 && sc == 0x80 {
                assert(class_of_name("Other Network Controller"@) == Some((0x02u8, 0x80u8)));
            } else if c == 0x03 && sc == 0x00 {
                assert(class_of_name("VGA Controller"@) == Some((0x03u8, 0x00u8)));
            } else if c == 0x03 && sc == 0x01 {
                assert(class_of_name("XGA Controller"@) == Some((0x03u8, 0x01u8)));
            } else if c == 0x04 && sc == 0x00 {
                assert(class_of_name("Video Controller"@) == Some((0x04u8, 0x00u8)));
            } else if c == 0x04 && sc == 0x01 {
                assert(class_of_name("Audio Controller"@) == Some((0x04u8, 0x01u8)));
            } else if c == 0x04 && sc == 0x03 {
                assert(class_of_name("HD Audio Controller"@) == Some((0x04u8, 0x03u8)));
            } else if c == 0x05 && sc == 0x00 {
                assert(class_of_name("RAM Controller"@) == Some((0x05u8, 0x00u8)));
            } else if c == 0x06 && sc == 0x00 {
                assert(class_of_name("Host Bridge"@) == Some((0x06u8, 0x00u8)));
            } else if c == 0x06 && sc == 0x01 {
                assert(class_of_name("ISA Bridge"@) == Some((0x06u8, 0x01u8)));
            } else if c == 0x06 && sc == 0x02 {
                assert(class_of_name("EISA Bridge"@) == Some((0x06u8, 0x02u8)));
            } else if c == 0x06 && sc == 0x04 {
                assert(class_of_name("PCI-to-PCI Bridge"@) == Some((0x06u8, 0x04u8)));
            } else if c == 0x06 && sc == 0x80 {
                assert(class_of_name("Other Bridge"@) == Some((0x06u8, 0x80u8)));
            } else if c == 0x07 && sc == 0x00 {
                assert(class_of_name("Serial Controller"@) == Some((0x07u8, 0x00u8)));
            } else if c == 0x07 && sc == 0x01 {
                assert(class_of_name("Parallel Controller"@) == Some((0x07u8, 0x01u8)));
            } else if c == 0x08 && sc == 0x00 {
                assert(class_of_name("PIC"@) == Some((0x08u8, 0x00u8)));
            } else if c == 0x08 && sc == 0x01 {
                assert(class_of_name("DMA Controller"@) == Some((0x08u8, 0x01u8)));
            } else if c == 0x08 && sc == 0x02 {
                assert(class_of_name("Timer"@) == Some((0x08u8, 0x02u8)));
            } else if c == 0x08 && sc == 0x03 {
                assert(class_of_name("RTC Controller"@) == Some((0x08u8, 0x03u8)));
            } else if c == 0x0C && sc == 0x00 {
                assert(class_of_name("FireWire Controller"@) == Some((0x0Cu8, 0x00u8)));
            } else if c == 0x0C && sc == 0x03 {
                assert(class_of_name("USB Controller"@) == Some((0x0Cu8, 0x03u8)));
            } else if c == 0x0C && sc == 0x05 {
                assert(class_of_name("SMBus Controller"@) == Some((0x0Cu8, 0x05u8)));
            }
    }
    assert forall|c1: u8, s1: u8, c2: u8, s2: u8|
        #[trigger] class_name_spec(c1, s1) == #[trigger] class_name_spec(c2, s2) && (c1, s1) != (c2, s2)
        implies class_name_spec(c1, s1) == "Unknown"@ by {
        if class_name_spec(c1, s1) != "Unknown"@ {
            assert(class_of_name(class_name_spec(c1, s1)) == Some((c1, s1)));
            assert(class_of_name(class_name_spec(c2, s2)) == Some((c2, s2)));
        }
    }
}

} // verus!
