use kernel::acpi::{
    acpi_info_from, checksum_ok, parse_fadt, parse_madt, parse_rsdt, pm_profile_name, shutdown_command, table_kind, AcpiInfo, TableKind,
};
use kernel::boot::{
    e820_entry_listed, e820_type_str, higher_half_address, rela_patch, rsdp_fields, rsdp_search_ranges,
    search_rsdp_range,
};
use kernel::pmm::E820Entry;

fn fix_checksum(t: &mut Vec<u8>, at: usize) {
    t[at] = 0;
    let sum: u8 = t.iter().fold(0u8, |a, b| a.wrapping_add(*b));
    t[at] = 0u8.wrapping_sub(sum);
}

#[test]
fn checksums() {
    assert!(checksum_ok(&[]));
    assert!(checksum_ok(&[0x80, 0x80]));
    assert!(!checksum_ok(&[1, 2, 3]));
}

#[test]
fn rsdt_lists_tables() {
    let mut t = vec![0u8; 36 + 8];
    t[0..4].copy_from_slice(b"RSDT");
    t[4..8].copy_from_slice(&44u32.to_le_bytes());
    t[36..40].copy_from_slice(&0x7FE_1000u32.to_le_bytes());
    t[40..44].copy_from_slice(&0x7FE_2000u32.to_le_bytes());
    fix_checksum(&mut t, 9);
    let (info, entries) = parse_rsdt(&t, 0x7FE_0000).unwrap();
    assert_eq!(info.rsdt_addr, 0x7FE_0000);
    assert_eq!(info.table_count, 2);
    assert!(!info.valid);
    assert_eq!(entries, vec![0x7FE_1000, 0x7FE_2000]);
    t[9] = t[9].wrapping_add(1);
    assert!(parse_rsdt(&t, 0x7FE_0000).is_none());
}

#[test]
fn table_kinds() {
    assert_eq!(table_kind(b"FACP"), TableKind::Fadt);
    assert_eq!(table_kind(b"APIC"), TableKind::Madt);
    assert_eq!(table_kind(b"HPET"), TableKind::Other);
}

#[test]
fn fadt_fields() {
    let mut t = vec![0u8; 116];
    t[45] = 1;
    t[46..48].copy_from_slice(&9u16.to_le_bytes());
    t[64..68].copy_from_slice(&0x0001_0604u32.to_le_bytes());
    let mut info = AcpiInfo::empty();
    parse_fadt(&t, &mut info);
    assert_eq!(info.pm1a_cnt_blk, 0x0604);
    assert_eq!(info.sci_interrupt, 9);
    assert_eq!(info.pm_profile, 1);
    assert_eq!(pm_profile_name(info.pm_profile), "Desktop");
    assert_eq!(shutdown_command(&info), Some((0x0604, 0x3400)));
    assert_eq!(shutdown_command(&AcpiInfo::empty()), None);
}

#[test]
fn madt_counts_enabled_cpus() {
    let mut t = vec![0u8; 44];
    t[36..40].copy_from_slice(&0xFEE0_0000u32.to_le_bytes());
    // enabled local APIC, disabled local APIC, I/O APIC, second I/O APIC
    t.extend_from_slice(&[0, 8, 0, 0, 1, 0, 0, 0]);
    t.extend_from_slice(&[0, 8, 1, 1, 0, 0, 0, 0]);
    t.extend_from_slice(&[1, 12, 2, 0, 0x00, 0x00, 0xC0, 0xFE, 0, 0, 0, 0]);
    t.extend_from_slice(&[1, 12, 3, 0, 0x00, 0x10, 0xC0, 0xFE, 0, 0, 0, 0]);
    let total = t.len() as u32;
    t[4..8].copy_from_slice(&total.to_le_bytes());
    t.extend_from_slice(&[0; 6]);
    let mut info = AcpiInfo::empty();
    parse_madt(&t, &mut info);
    assert_eq!(info.local_apic_addr, 0xFEE0_0000);
    assert_eq!(info.cpu_count, 1);
    assert_eq!(info.io_apic_addr, 0xFEC0_0000);
}

#[test]
fn madt_stops_at_short_entry() {
    let mut t = vec![0u8; 44];
    t.extend_from_slice(&[0, 1, 0, 0, 1, 0, 0, 0]);
    t.extend_from_slice(&[0, 8, 0, 0, 1, 0, 0, 0]);
    let total = t.len() as u32;
    t[4..8].copy_from_slice(&total.to_le_bytes());
    t.extend_from_slice(&[0; 6]);
    let mut info = AcpiInfo::empty();
    parse_madt(&t, &mut info);
    assert_eq!(info.cpu_count, 0);
}

#[test]
fn acpi_info_from_rsdt_and_tables() {
    let mut rsdt = vec![0u8; 36 + 12];
    rsdt[0..4].copy_from_slice(b"RSDT");
    rsdt[4..8].copy_from_slice(&48u32.to_le_bytes());
    fix_checksum(&mut rsdt, 9);
    let mut fadt = vec![0u8; 68];
    fadt[0..4].copy_from_slice(b"FACP");
    fadt[45] = 2;
    fadt[46..48].copy_from_slice(&9u16.to_le_bytes());
    fadt[64..68].copy_from_slice(&0x0604u32.to_le_bytes());
    let mut madt = vec![0u8; 44];
    madt[0..4].copy_from_slice(b"APIC");
    madt[36..40].copy_from_slice(&0xFEE0_0000u32.to_le_bytes());
    madt.extend_from_slice(&[0, 8, 0, 0, 1, 0, 0, 0]);
    madt.extend_from_slice(&[0, 8, 1, 1, 1, 0, 0, 0]);
    let total = madt.len() as u32;
    madt[4..8].copy_from_slice(&total.to_le_bytes());
    madt.extend_from_slice(&[0; 6]);
    // A table of another kind with FADT-like bytes changes nothing.
    let mut hpet = fadt.clone();
    hpet[0..4].copy_from_slice(b"HPET");
    hpet[45] = 7;
    let tables = vec![fadt, hpet, madt];
    let info = acpi_info_from(&rsdt, 0x7FE_0000, &tables).unwrap();
    assert!(info.valid);
    assert_eq!(info.rsdt_addr, 0x7FE_0000);
    assert_eq!(info.table_count, 3);
    assert_eq!(info.pm_profile, 2);
    assert_eq!(info.sci_interrupt, 9);
    assert_eq!(info.pm1a_cnt_blk, 0x0604);
    assert_eq!(info.cpu_count, 2);
    assert_eq!(info.local_apic_addr, 0xFEE0_0000);
    assert_eq!(info.io_apic_addr, 0);
    rsdt[9] = rsdt[9].wrapping_add(1);
    assert_eq!(acpi_info_from(&rsdt, 0x7FE_0000, &tables), None);
}

#[test]
fn profile_names() {
    assert_eq!(pm_profile_name(0), "Unspecified");
    assert_eq!(pm_profile_name(7), "Performance Server");
    assert_eq!(pm_profile_name(200), "Unknown");
}

#[test]
fn memory_map_listing() {
    assert_eq!(e820_type_str(1), "USABLE");
    assert_eq!(e820_type_str(4), "ACPI_NVS");
    assert_eq!(e820_type_str(9), "UNKNOWN");
    assert!(!e820_entry_listed(&E820Entry { base: 0, length: 0, kind: 0, _ext: 0 }));
    assert!(e820_entry_listed(&E820Entry { base: 0, length: 0, kind: 2, _ext: 0 }));
}

#[test]
fn rsdp_search() {
    assert_eq!(rsdp_search_ranges(0x9FC0), vec![(0x9FC00, 1024), (0xE0000, 0x20000)]);
    assert_eq!(rsdp_search_ranges(0), vec![(0xE0000, 0x20000)]);
    assert_eq!(rsdp_search_ranges(0xF000), vec![(0xF0000, 1024), (0xE0000, 0x20000)]);

    let mut mem = vec![0u8; 64 + 20];
    // a signature at an unaligned offset is not seen
    mem[8..16].copy_from_slice(b"RSD PTR ");
    let mut rsdp = vec![0u8; 20];
    rsdp[0..8].copy_from_slice(b"RSD PTR ");
    rsdp[16..20].copy_from_slice(&0x7FE_0000u32.to_le_bytes());
    fix_checksum(&mut rsdp, 8);
    mem[32..52].copy_from_slice(&rsdp);
    assert_eq!(search_rsdp_range(&mem, 0xE0000, 64), Some(0xE0020));
    assert_eq!(rsdp_fields(&rsdp), (0, 0x7FE_0000));
    assert_eq!(search_rsdp_range(&mem, 0xE0000, 32), None);
}

#[test]
fn relocations() {
    assert_eq!(rela_patch(0x10_1000, 8, 0x10_2000, 0), Some((0x10_1000, 0x10_2000)));
    assert_eq!(
        rela_patch(0x10_1000, 0x5_0000_0008, 0x10_2000, 0xFFFF_8000_0000_0000),
        Some((0xFFFF_8000_0010_1000, 0xFFFF_8000_0010_2000))
    );
    assert_eq!(rela_patch(0x10_1000, 6, 0x10_2000, 0), None);
    assert_eq!(higher_half_address(0x10_2345), 0xFFFF_8000_0010_2345);
}
