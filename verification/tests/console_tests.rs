use kernel::digits::{decimal_digits, hex_digit, hex_digits, padded_decimal};
use kernel::serial::SerialWriter;
use kernel::vga::{Color, ColorCode, VgaWriter};

#[test]
fn hex_and_decimal_digits() {
    assert_eq!(hex_digit(9), b'9');
    assert_eq!(hex_digit(0xA), b'A');
    assert_eq!(hex_digits(0xBEEF, 4), b"BEEF".to_vec());
    assert_eq!(hex_digits(0x1234_5678_9ABC_DEF0, 16), b"123456789ABCDEF0".to_vec());
    assert_eq!(hex_digits(0x8086, 2), b"86".to_vec());
    assert_eq!(decimal_digits(0), b"0".to_vec());
    assert_eq!(decimal_digits(12345), b"12345".to_vec());
    assert_eq!(decimal_digits(u64::MAX), b"18446744073709551615".to_vec());
}

#[test]
fn padded_numbers_keep_eight_digits() {
    assert_eq!(padded_decimal(0, 3), b"  0".to_vec());
    assert_eq!(padded_decimal(31, 4), b"  31".to_vec());
    assert_eq!(padded_decimal(1234, 2), b"1234".to_vec());
    assert_eq!(padded_decimal(123_456_789, 3), b"23456789".to_vec());
}

#[test]
fn serial_text() {
    let mut w = SerialWriter::new();
    w.print("ACPI: ");
    w.print_num(4);
    w.print(" CPUs, IO APIC @ ");
    w.print_hex(0xFEC0_0000);
    w.println("");
    assert_eq!(w.take(), b"ACPI: 4 CPUs, IO APIC @ 0x00000000FEC00000\n".to_vec());
    assert!(w.take().is_empty());
    w.println("ok");
    assert_eq!(w.take(), b"ok\n".to_vec());
}

#[test]
fn color_codes() {
    assert_eq!(ColorCode::new(Color::LightGray, Color::Black).0, 0x07);
    assert_eq!(ColorCode::new(Color::White, Color::Red).0, 0x4F);
    assert_eq!(Color::Yellow.number(), 14);
}

#[test]
fn vga_writes_along_the_row() {
    let mut w = VgaWriter::new();
    let o = w.write_byte(b'H');
    assert!(o.put && !o.scroll);
    assert_eq!((o.index, o.cell), (0, 0x0748));
    let outs = w.write_str("i\n!");
    assert_eq!(outs.len(), 3);
    assert_eq!((outs[0].index, outs[0].cell), (1, 0x0769));
    assert!(!outs[1].put && !outs[1].scroll);
    assert_eq!((outs[2].index, outs[2].cell), (80, 0x0721));
    assert_eq!((w.row, w.column), (1, 1));
}

#[test]
fn vga_wraps_and_scrolls() {
    let mut w = VgaWriter::with_colors(Color::White, Color::Blue);
    for _ in 0..80 {
        w.write_byte(b'x');
    }
    assert_eq!((w.row, w.column), (0, 80));
    let o = w.write_byte(b'y');
    assert_eq!(o.index, 80);
    assert!(!o.scroll);
    for _ in 0..23 {
        w.write_byte(b'\n');
    }
    assert_eq!(w.row, 24);
    let o = w.write_byte(b'\n');
    assert!(o.scroll && !o.put);
    assert_eq!(o.blank, 0x1F20);
    assert_eq!((w.row, w.column), (24, 0));
    let cells = w.clear_screen();
    assert_eq!((w.row, w.column), (0, 0));
    assert_eq!(cells.len(), 2000);
    assert!(cells.iter().all(|&c| c == 0x1F20));
    assert_eq!(w.blank(), 0x1F20);
}
