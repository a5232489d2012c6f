use kernel::pci::{
    bar_size_32, bar_size_64, class_name, config_address, config_byte, config_word, is_absent, BarInfo, BarProbe,
    PciDevice, PciScan,
};

fn header(vendor: u16, device: u16, class: u8, sub: u8, header_type: u8, bars: [u32; 6]) -> Vec<u32> {
    let mut h = vec![0u32; 16];
    h[0] = (device as u32) << 16 | vendor as u32;
    h[2] = (class as u32) << 24 | (sub as u32) << 16 | 0x0102;
    h[3] = (header_type as u32) << 16;
    for i in 0..6 {
        h[4 + i] = bars[i];
    }
    h[15] = 0x0000_010B;
    h
}

#[test]
fn config_addresses() {
    assert_eq!(config_address(0, 31, 0, 0x80), 0x8000_F880);
    assert_eq!(config_address(1, 2, 3, 0x0E), 0x8001_130C);
    assert_eq!(config_address(0, 0xFF, 0xFF, 0xFF), 0x8000_FFFC);
}

#[test]
fn config_fields_from_dwords() {
    assert_eq!(config_word(0x1234_8086, 0x00), 0x8086);
    assert_eq!(config_word(0x1234_8086, 0x02), 0x1234);
    assert_eq!(config_byte(0x0600_0002, 0x0B), 0x06);
    assert_eq!(config_byte(0x0600_0002, 0x08), 0x02);
    assert_eq!(config_byte(0x0080_0000, 0x0E), 0x80);
    assert!(is_absent(0xFFFF_FFFF));
    assert!(!is_absent(0x1237_8086));
}

#[test]
fn device_from_header() {
    let h = header(0x8086, 0x100E, 0x02, 0x00, 0x00, [0xFEBC_0000, 0xC001, 0, 0, 0, 0]);
    let d = PciDevice::from_config(0, 3, 0, &h).unwrap();
    assert_eq!((d.vendor_id, d.device_id), (0x8086, 0x100E));
    assert_eq!((d.class, d.subclass, d.prog_if, d.revision), (0x02, 0x00, 0x01, 0x02));
    assert_eq!((d.irq_line, d.irq_pin), (0x0B, 0x01));
    assert_eq!(d.bars[0], 0xFEBC_0000);
    assert!(!d.is_multifunction());
    assert_eq!(class_name(d.class, d.subclass), "Ethernet Controller");
    let absent = header(0xFFFF, 0xFFFF, 0xFF, 0xFF, 0xFF, [0; 6]);
    assert!(PciDevice::from_config(0, 4, 0, &absent).is_none());
}

#[test]
fn bridge_header_has_no_bars() {
    let h = header(0x8086, 0x2918, 0x06, 0x01, 0x80, [1, 2, 3, 4, 5, 6]);
    let d = PciDevice::from_config(0, 31, 0, &h).unwrap();
    assert!(d.is_multifunction());
    assert_eq!(d.bars, [1, 2, 3, 4, 5, 6]);
    let h = header(0x8086, 0x244E, 0x06, 0x04, 0x01, [1, 2, 3, 4, 5, 6]);
    let d = PciDevice::from_config(0, 30, 0, &h).unwrap();
    assert_eq!(d.bars, [0; 6]);
}

#[test]
fn bars_decode() {
    let h = header(0x1234, 0x1111, 0x03, 0x00, 0x00, [0xFD00_0008, 0xC001, 0xFEB0_000C, 0x0000_0001, 0, 0x0000_0004]);
    let d = PciDevice::from_config(0, 2, 0, &h).unwrap();
    assert_eq!(d.bar_probe(0), BarProbe::Single { offset: 0x10 });
    assert_eq!(d.bar_info(0, 0xFF00_0008, 0), BarInfo::Memory32 { base: 0xFD00_0000, size: 0x0100_0000 });
    assert_eq!(d.bar_probe(1), BarProbe::Skip);
    assert_eq!(d.bar_info(1, 0, 0), BarInfo::Io { port: 0xC000 });
    assert_eq!(d.bar_probe(2), BarProbe::Pair { offset_lo: 0x18, offset_hi: 0x1C });
    assert_eq!(
        d.bar_info(2, 0xFFFF_C00C, 0xFFFF_FFFF),
        BarInfo::Memory64 { base: 0x1_FEB0_0000, size: 0x4000 }
    );
    assert_eq!(d.bar_info(4, 0, 0), BarInfo::Unused);
    // a 64-bit BAR in the last slot has no upper half
    assert_eq!(d.bar_probe(5), BarProbe::Skip);
    assert_eq!(d.bar_info(5, 0, 0), BarInfo::Unused);
    assert_eq!(d.bar_info(6, 0, 0), BarInfo::Unused);
}

#[test]
fn bar_sizes() {
    assert_eq!(bar_size_32(0), 0);
    assert_eq!(bar_size_32(0xFFFF_F000), 0x1000);
    assert_eq!(bar_size_32(0x0000_0001), 0);
    assert_eq!(bar_size_64(0, 0), 0);
    assert_eq!(bar_size_64(0xF000_000C, 0xFFFF_FFFF), 0x1000_0000);
}

#[test]
fn class_names() {
    assert_eq!(class_name(0x06, 0x00), "Host Bridge");
    assert_eq!(class_name(0x01, 0x08), "NVMe Controller");
    assert_eq!(class_name(0x0C, 0x03), "USB Controller");
    assert_eq!(class_name(0x0C, 0x04), "Unknown");
}

#[test]
fn scan_order() {
    let mut s = PciScan::new(0x00);
    assert_eq!(s.next_probe(), Some((0, 0, 0)));
    let multi = header(0x8086, 0x2918, 0x06, 0x01, 0x80, [0; 6]);
    let single = header(0x8086, 0x1111, 0x03, 0x00, 0x00, [0; 6]);
    s.record(PciDevice::from_config(0, 0, 0, &single));
    assert_eq!(s.next_probe(), Some((0, 1, 0)));
    s.record(PciDevice::from_config(0, 1, 0, &multi));
    assert_eq!(s.next_probe(), Some((0, 1, 1)));
    for f in 1..8 {
        assert_eq!(s.next_probe(), Some((0, 1, f)));
        s.record(None);
    }
    assert_eq!(s.next_probe(), Some((0, 2, 0)));
    for _ in 2..32 {
        s.record(None);
    }
    assert_eq!(s.next_probe(), None);
    assert_eq!(s.devices.len(), 2);
    let s8 = PciScan::new(0x80);
    assert_eq!(s8.pos.max_bus, 8);
}

#[test]
fn bars_listed() {
    assert!(!BarInfo::Unused.is_listed());
    assert!(BarInfo::Io { port: 0xC000 }.is_listed());
    assert!(BarInfo::Memory32 { base: 0xFD00_0000, size: 0x1000 }.is_listed());
    assert!(!BarInfo::Memory32 { base: 0xFD00_0000, size: 0 }.is_listed());
    assert!(!BarInfo::Memory64 { base: 0xFD00_0000, size: 0 }.is_listed());
}
