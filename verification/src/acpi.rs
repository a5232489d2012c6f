//! ACPI tables: the RSDT, the FADT (power management) and the MADT
//! (interrupt controllers and processors), read from their bytes.
use vstd::prelude::*;

verus! {

/// Bytes of a standard table header.
pub const HEADER_SIZE: usize = 36;
/// Bytes of the FADT fields that are read.
pub const FADT_MIN_LEN: usize = 68;
/// MADT entries start after the header, the local APIC address and flags.
pub const MADT_ENTRIES_OFFSET: usize = 44;
/// PM1 control value that enters sleep state S5: SLP_TYP 5 and SLP_EN.
pub const S5_SLEEP_COMMAND: u16 = 0x3400;

/// What the kernel learned from the ACPI tables.
#[derive(Clone, Copy, Debug, PartialEq, Eq, Structural)]
pub struct AcpiInfo {
    pub valid: bool,
    pub cpu_count: u8,
    pub io_apic_addr: u32,
    pub local_apic_addr: u32,
    pub pm1a_cnt_blk: u16,
    pub sci_interrupt: u16,
    pub pm_profile: u8,
    pub rsdt_addr: u32,
    pub table_count: u8,
}

pub open spec fn empty_info() -> AcpiInfo {
    AcpiInfo {
        valid: false, cpu_count: 0, io_apic_addr: 0, local_apic_addr: 0,
        pm1a_cnt_blk: 0, sci_interrupt: 0, pm_profile: 0, rsdt_addr: 0, table_count: 0,
    }
}

impl AcpiInfo {
    /// Nothing known yet.
    pub fn empty() -> (i: AcpiInfo)
        ensures
            i == empty_info(),
    {
        AcpiInfo {
            valid: false, cpu_count: 0, io_apic_addr: 0, local_apic_addr: 0,
            pm1a_cnt_blk: 0, sci_interrupt: 0, pm_profile: 0, rsdt_addr: 0, table_count: 0,
        }
    }
}

/// Little-endian 16-bit value at `off`.
pub open spec fn le16(b: Seq<u8>, off: int) -> int {
    b[off] + b[off + 1] * 0x100
}

/// Little-endian 32-bit value at `off`.
pub open spec fn le32(b: Seq<u8>, off: int) -> int {
    b[off] + b[off + 1] * 0x100 + b[off + 2] * 0x1_0000 + b[off + 3] * 0x100_0000
}

pub fn read_u16(b: &[u8], off: usize) -> (r: u16)
    requires
        off + 2 <= b@.len(),
    ensures
        r == le16(b@, off as int),
{
    (b[off] as u16) + (b[off + 1] as u16) * 0x100
}

pub fn read_u32(b: &[u8], off: usize) -> (r: u32)
    requires
        off + 4 <= b@.len(),
    ensures
        r == le32(b@, off as int),
{
    (b[off] as u32) + (b[off + 1] as u32) * 0x100 + (b[off + 2] as u32) * 0x1_0000 + (b[off + 3] as u32) * 0x100_0000
}

/// Sum of the bytes of `s`.
pub open spec fn byte_sum(s: Seq<u8>) -> int
    decreases s.len(),
{
    if s.len() == 0 { 0 } else { byte_sum(s.drop_last()) + s.last() }
}

/// A table's bytes add up to zero modulo 256.
pub fn checksum_ok(bytes: &[u8]) -> (r: bool)
    ensures
        r == (byte_sum(bytes@) % 256 == 0),
{
    let mut sum: u8 = 0;
    let mut i: usize = 0;
    while i < bytes.len()
        invariant
            i <= bytes@.len(),
            sum == byte_sum(bytes@.subrange(0, i as int)) % 256,
        decreases bytes@.len() - i,
    {
        proof {
            assert(bytes@.subrange(0, i + 1).drop_last() == bytes@.subrange(0, i as int));
            vstd::arithmetic::div_mod::lemma_add_mod_noop(byte_sum(bytes@.subrange(0, i as int)), bytes@[i as int] as int, 256);
            vstd::arithmetic::div_mod::lemma_small_mod(bytes@[i as int] as nat, 256);
            vstd::arithmetic::div_mod::lemma_mod_twice(byte_sum(bytes@.subrange(0, i as int)), 256);
        }
        sum = sum.wrapping_add(bytes[i]);
        i = i + 1;
    }
    assert(bytes@.subrange(0, i as int) == bytes@);
    sum == 0
}

/// A table that can be read: at least a header, and exactly as long as its
/// header says.
pub open spec fn table_readable(t: Seq<u8>) -> bool {
    t.len() >= HEADER_SIZE && t.len() == le32(t, 4)
}

/// The result of parsing the RSDT at `rsdt_addr` with bytes `t`: `None`
/// when the checksum fails; otherwise the info with the RSDT address and the
/// number of entries (kept to a byte), and the entries' table addresses.
pub open spec fn rsdt_spec(t: Seq<u8>, rsdt_addr: u32) -> Option<(AcpiInfo, Seq<u32>)> {
    if byte_sum(t) % 256 != 0 {
        None
    } else {
        let n = (t.len() - HEADER_SIZE) / 4;
        Some((
            AcpiInfo { rsdt_addr, table_count: (n % 256) as u8, ..empty_info() },
            Seq::new(n as nat, |i: int| le32(t, HEADER_SIZE + 4 * i) as u32),
        ))
    }
}

/// Check the RSDT and list the tables it points to.
pub fn parse_rsdt(t: &[u8], rsdt_addr: u32) -> (r: Option<(AcpiInfo, Vec<u32>)>)
    requires
        table_readable(t@),
    ensures
        match rsdt_spec(t@, rsdt_addr) {
            None => r is None,
            Some((info, entries)) => r matches Some((i2, e2)) && i2 == info && e2@ == entries,
        },
{
    if !checksum_ok(t) {
        return None;
    }
    let mut info = AcpiInfo::empty();
    info.rsdt_addr = rsdt_addr;
    let num_entries = (t.len() - HEADER_SIZE) / 4;
    info.table_count = (num_entries % 256) as u8;
    let mut entries: Vec<u32> = Vec::new();
    let mut i: usize = 0;
    while i < num_entries
        invariant
            i <= num_entries,
            num_entries == (t@.len() - HEADER_SIZE) / 4,
            t@.len() >= HEADER_SIZE,
            t@.len() == t.len(),
            entries@.len() == i,
            forall|k: int| 0 <= k < i ==> #[trigger] entries@[k] == le32(t@, HEADER_SIZE + 4 * k) as u32,
        decreases num_entries - i,
    {
        assert(HEADER_SIZE + 4 * i + 4 <= t@.len()) by (nonlinear_arith)
            requires i < num_entries, num_entries == (t@.len() - HEADER_SIZE) / 4, t@.len() >= HEADER_SIZE;
        assert(4 * i < t@.len());
        let off = HEADER_SIZE + 4 * i;
        entries.push(read_u32(t, off));
        i = i + 1;
    }
    assert(entries@ =~= Seq::new(num_entries as nat, |k: int| le32(t@, HEADER_SIZE + 4 * k) as u32));
    Some((info, entries))
}

/// What a table is, from its signature.
#[derive(Clone, Copy, Debug, PartialEq, Eq, Structural)]
pub enum TableKind {
    Fadt,
    Madt,
    Other,
}

/// `FACP` is the FADT, `APIC` the MADT.
pub open spec fn table_kind_spec(sig: Seq<u8>) -> TableKind {
    if sig =~= seq![0x46u8, 0x41, 0x43, 0x50] {
        TableKind::Fadt
    } else if sig =~= seq![0x41u8, 0x50, 0x49, 0x43] {
        TableKind::Madt
    } else {
        TableKind::Other
    }
}

/// The kind of a table from the signature in its first four bytes.
pub fn table_kind(sig: &[u8]) -> (k: TableKind)
    requires
        sig@.len() >= 4,
    ensures
        k == table_kind_spec(sig@.subrange(0, 4)),
{
    let ghost s4 = sig@.subrange(0, 4);
    if sig[0] == 0x46 && sig[1] == 0x41 && sig[2] == 0x43 && sig[3] == 0x50 {
        TableKind::Fadt
    } else if sig[0] == 0x41 && sig[1] == 0x50 && sig[2] == 0x49 && sig[3] == 0x43 {
        TableKind::Madt
    } else {
        proof {
            if s4 == seq![0x46u8, 0x41, 0x43, 0x50] {
                assert(s4[0] == 0x46 && s4[1] == 0x41 && s4[2] == 0x43 && s4[3] == 0x50);
            }
            if s4 == seq![0x41u8, 0x50, 0x49, 0x43] {
                assert(s4[0] == 0x41 && s4[1] == 0x50 && s4[2] == 0x49 && s4[3] == 0x43);
            }
        }
        TableKind::Other
    }
}

/// The info after reading a FADT: the PM1a control block (kept to 16 bits),
/// the SCI interrupt and the preferred power-management profile.
pub open spec fn fadt_spec(b: Seq<u8>, info: AcpiInfo) -> AcpiInfo {
    AcpiInfo {
        pm1a_cnt_blk: (le32(b, 64) % 0x1_0000) as u16,
        sci_interrupt: le16(b, 46) as u16,
        pm_profile: b[45],
        ..info
    }
}

pub fn parse_fadt(b: &[u8], info: &mut AcpiInfo)
    requires
        b@.len() >= FADT_MIN_LEN,
    ensures
        *final(info) == fadt_spec(b@, *old(info)),
{
    info.pm1a_cnt_blk = (read_u32(b, 64) & 0xFFFF) as u16;
    let v = read_u32(b, 64);
    assert(v & 0xFFFF == v % 0x1_0000) by (bit_vector);
    info.sci_interrupt = read_u16(b, 46);
    info.pm_profile = b[45];
}

/// Enabled processors among the MADT entries from `off` up to `total`.
pub open spec fn madt_cpus(b: Seq<u8>, total: int, off: int) -> nat
    decreases (if total > off { total - off } else { 0 }),
{
    if off + 2 > total || b[off + 1] < 2 {
        0
    } else {
        let here: nat = if b[off] == 0 && le32(b, off + 4) % 2 == 1 { 1 } else { 0 };
        here + madt_cpus(b, total, off + b[off + 1])
    }
}

/// The info after the MADT entries from `off` up to `total`: each enabled
/// local APIC (type 0) counts a processor, and the first I/O APIC (type 1)
/// gives its address; an entry shorter than its own header ends the walk.
pub open spec fn madt_walk(b: Seq<u8>, total: int, off: int, info: AcpiInfo) -> AcpiInfo
    decreases (if total > off { total - off } else { 0 }),
{
    if off + 2 > total || b[off + 1] < 2 {
        info
    } else {
        let next = if b[off] == 0 {
            if le32(b, off + 4) % 2 == 1 { AcpiInfo { cpu_count: (info.cpu_count + 1) as u8, ..info } } else { info }
        } else if b[off] == 1 {
            if info.io_apic_addr == 0 { AcpiInfo { io_apic_addr: le32(b, off + 4) as u32, ..info } } else { info }
        } else {
            info
        };
        madt_walk(b, total, off + b[off + 1], next)
    }
}

/// The MADT's bytes reach past every entry header by the six bytes an entry
/// body is read with.
pub open spec fn madt_readable(b: Seq<u8>) -> bool {
    b.len() >= MADT_ENTRIES_OFFSET && b.len() >= le32(b, 4) + 6
}

/// Number of enabled processors the MADT lists.
pub fn madt_enabled_cpus(b: &[u8]) -> (r: u64)
    requires
        madt_readable(b@),
    ensures
        r == madt_cpus(b@, le32(b@, 4), MADT_ENTRIES_OFFSET as int),
{
    let total = read_u32(b, 4) as u64;
    let mut offset: u64 = MADT_ENTRIES_OFFSET as u64;
    let mut count: u64 = 0;
    while offset + 2 <= total
        invariant
            madt_readable(b@),
            b@.len() == b.len(),
            total == le32(b@, 4),
            total < 0x1_0000_0000,
            offset >= MADT_ENTRIES_OFFSET,
            offset <= total + 256,
            count <= offset,
            count + madt_cpus(b@, total as int, offset as int) == madt_cpus(b@, total as int, MADT_ENTRIES_OFFSET as int),
        ensures
            madt_cpus(b@, total as int, offset as int) == 0,
        decreases (if total > offset { total - offset } else { 0 }),
    {
        let length = b[offset as usize + 1];
        if length < 2 {
            break;
        }
        if b[offset as usize] == 0 {
            let flags = read_u32(b, offset as usize + 4);
            assert((flags & 1 != 0) == (flags % 2 == 1)) by (bit_vector);
            if flags & 1 != 0 {
                count += 1;
            }
        }
        offset += length as u64;
    }
    count
}

/// Read a MADT: the local APIC address, then the entries.
pub fn parse_madt(b: &[u8], info: &mut AcpiInfo)
    requires
        madt_readable(b@),
        old(info).cpu_count + madt_cpus(b@, le32(b@, 4), MADT_ENTRIES_OFFSET as int) <= 255,
    ensures
        *final(info) == madt_walk(b@, le32(b@, 4), MADT_ENTRIES_OFFSET as int,
            AcpiInfo { local_apic_addr: le32(b@, 36) as u32, ..*old(info) }),
{
    info.local_apic_addr = read_u32(b, 36);
    let total = read_u32(b, 4) as u64;
    let mut offset: u64 = MADT_ENTRIES_OFFSET as u64;
    let ghost start = *info;
    while offset + 2 <= total
        invariant
            madt_readable(b@),
            b@.len() == b.len(),
            total == le32(b@, 4),
            total < 0x1_0000_0000,
            offset >= MADT_ENTRIES_OFFSET,
            offset <= total + 256,
            madt_walk(b@, total as int, offset as int, *info) == madt_walk(b@, total as int, MADT_ENTRIES_OFFSET as int, start),
            info.cpu_count + madt_cpus(b@, total as int, offset as int) <= 255,
        ensures
            madt_walk(b@, total as int, offset as int, *info) == *info,
        decreases (if total > offset { total - offset } else { 0 }),
    {
        let entry_type = b[offset as usize];
        let length = b[offset as usize + 1];
        if length < 2 {
            break;
        }
        if entry_type == 0 {
            let flags = read_u32(b, offset as usize + 4);
            assert((flags & 1 != 0) == (flags % 2 == 1)) by (bit_vector);
            if flags & 1 != 0 {
                info.cpu_count += 1;
            }
        } else if entry_type == 1 {
            if info.io_apic_addr == 0 {
                info.io_apic_addr = read_u32(b, offset as usize + 4);
            }
        }
        offset += length as u64;
    }
}

/// What reading one table does to the info: a FADT sets the power
/// management fields, a MADT the APIC fields and processor count, and any
/// other table nothing.
pub open spec fn table_effect(t: Seq<u8>, info: AcpiInfo) -> AcpiInfo {
    match table_kind_spec(t.subrange(0, 4)) {
        TableKind::Fadt => fadt_spec(t, info),
        TableKind::Madt => madt_walk(t, le32(t, 4), MADT_ENTRIES_OFFSET as int,
            AcpiInfo { local_apic_addr: le32(t, 36) as u32, ..info }),
        TableKind::Other => info,
    }
}

/// A table's bytes reach as far as reading it goes, and a MADT does not
/// take the processor count past 255.
pub open spec fn table_usable(t: Seq<u8>, info: AcpiInfo) -> bool {
    &&& t.len() >= 4
    &&& match table_kind_spec(t.subrange(0, 4)) {
        TableKind::Fadt => t.len() >= FADT_MIN_LEN,
        TableKind::Madt => madt_readable(t)
            && info.cpu_count + madt_cpus(t, le32(t, 4), MADT_ENTRIES_OFFSET as int) <= 255,
        TableKind::Other => true,
    }
}

/// The info after reading the tables `ts` in order.
pub open spec fn apply_tables(ts: Seq<Seq<u8>>, info: AcpiInfo) -> AcpiInfo
    decreases ts.len(),
{
    if ts.len() == 0 {
        info
    } else {
        table_effect(ts.last(), apply_tables(ts.drop_last(), info))
    }
}

/// Each table is usable on the info the tables before it left.
pub open spec fn tables_usable(ts: Seq<Seq<u8>>, info: AcpiInfo) -> bool
    decreases ts.len(),
{
    ts.len() == 0 || (tables_usable(ts.drop_last(), info) && table_usable(ts.last(), apply_tables(ts.drop_last(), info)))
}

/// The system info from the RSDT and the tables its entries point to: none
/// when the RSDT checksum fails; otherwise valid, with the RSDT's address
/// and entry count, and every other field set only by the FACP and APIC
/// tables among `ts`, in entry order.
pub open spec fn acpi_info_spec(rsdt: Seq<u8>, rsdt_addr: u32, ts: Seq<Seq<u8>>) -> Option<AcpiInfo> {
    match rsdt_spec(rsdt, rsdt_addr) {
        None => None,
        Some((info, _)) => Some(AcpiInfo { valid: true, ..apply_tables(ts, info) }),
    }
}

/// The bytes of each table.
pub open spec fn table_bytes(tables: Seq<Vec<u8>>) -> Seq<Seq<u8>> {
    tables.map_values(|t: Vec<u8>| t@)
}

proof fn lemma_usable_prefix(ts: Seq<Seq<u8>>, info: AcpiInfo, k: int)
    requires
        tables_usable(ts, info),
        0 <= k <= ts.len(),
    ensures
        tables_usable(ts.subrange(0, k), info),
    decreases ts.len(),
{
    if k == ts.len() {
        assert(ts.subrange(0, k) =~= ts);
    } else {
        lemma_usable_prefix(ts.drop_last(), info, k);
        assert(ts.drop_last().subrange(0, k) =~= ts.subrange(0, k));
    }
}

/// Read the RSDT and then, in entry order, the tables its entries point to
/// (`tables[i]` holds the bytes at entry `i`).
pub fn acpi_info_from(rsdt: &[u8], rsdt_addr: u32, tables: &[Vec<u8>]) -> (r: Option<AcpiInfo>)
    requires
        table_readable(rsdt@),
        tables@.len() == (rsdt@.len() - HEADER_SIZE) / 4,
        rsdt_spec(rsdt@, rsdt_addr) matches Some((info, _)) ==> tables_usable(table_bytes(tables@), info),
    ensures
        r == acpi_info_spec(rsdt@, rsdt_addr, table_bytes(tables@)),
{
    match parse_rsdt(rsdt, rsdt_addr) {
        None => None,
        Some((info0, _entries)) => {
            let ghost ts = table_bytes(tables@);
            let mut info = info0;
            let mut i: usize = 0;
            while i < tables.len()
                invariant
                    i <= tables@.len(),
                    ts == table_bytes(tables@),
                    tables_usable(ts, info0),
                    info == apply_tables(ts.subrange(0, i as int), info0),
                decreases tables@.len() - i,
            {
                proof {
                    lemma_usable_prefix(ts, info0, i + 1);
                    assert(ts.subrange(0, i + 1).drop_last() =~= ts.subrange(0, i as int));
                    assert(ts.subrange(0, i + 1).last() == tables@[i as int]@);
                }
                let t = tables[i].as_slice();
                match table_kind(t) {
                    TableKind::Fadt => parse_fadt(t, &mut info),
                    TableKind::Madt => parse_madt(t, &mut info),
                    TableKind::Other => {},
                }
                i = i + 1;
            }
            assert(ts.subrange(0, i as int) =~= ts);
            info.valid = true;
            Some(info)
        },
    }
}

/// Name of the preferred power-management profile.
pub fn pm_profile_name(p: u8) -> (r: &'static str)
    ensures
        r@ == (match p {
            0 => "Unspecified"@,
            1 => "Desktop"@,
            2 => "Mobile"@,
            3 => "Workstation"@,
            4 => "Enterprise Server"@,
            5 => "SOHO Server"@,
            6 => "Appliance"@,
            7 => "Performance Server"@,
            8 => "Tablet"@,
            _ => "Unknown"@,
        }),
{
    match p {
        0 => "Unspecified",
        1 => "Desktop",
        2 => "Mobile",
        3 => "Workstation",
        4 => "Enterprise Server",
        5 => "SOHO Server",
        6 => "Appliance",
        7 => "Performance Server",
        8 => "Tablet",
        _ => "Unknown",
    }
}

/// The port and value to write to power off, when a PM1a control block is
/// known.
pub fn shutdown_command(info: &AcpiInfo) -> (r: Option<(u16, u16)>)
    ensures
        info.pm1a_cnt_blk == 0 ==> r is None,
        info.pm1a_cnt_blk != 0 ==> r == Some((info.pm1a_cnt_blk, S5_SLEEP_COMMAND)),
{
    if info.pm1a_cnt_blk != 0 {
        let val: u16 = (5u16 << 10u16) | (1u16 << 13u16);
        assert((5u16 << 10u16) | (1u16 << 13u16) == 0x3400u16) by (bit_vector);
        Some((info.pm1a_cnt_blk, val))
    } else {
        None
    }
}

} // verus!
