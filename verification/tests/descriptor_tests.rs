use kernel::gdt::{Gdt, Tss};
use kernel::idt::{exception_banner, register_all_handlers, HandlerAddrs, Idt, IdtEntry};

#[test]
fn gdt_segments() {
    let g = Gdt::new();
    assert_eq!(g.entries[0], 0);
    assert_eq!(g.entries[3], 0x0020_9800_0000_0000);
    assert_eq!(g.entries[4], 0x0000_9200_0000_0000);
    assert_eq!(g.entries[5], 0);
}

#[test]
fn tss_descriptor_encodes_base_and_limit() {
    let mut g = Gdt::new();
    g.install_tss(0xFFFF_8000_1234_5678);
    assert_eq!(g.entries[5], 0x1200_8934_5678_0067);
    assert_eq!(g.entries[6], 0xFFFF_8000);
    assert_eq!(g.entries[3], 0x0020_9800_0000_0000);
}

#[test]
fn tss_starts_empty() {
    let t = Tss::new();
    assert_eq!({ t.rsp0 }, 0);
    assert_eq!({ t.iomap_base }, 104);
}

#[test]
fn idt_gate_splits_address() {
    let mut e = IdtEntry::missing();
    assert_eq!(e.attributes, 0);
    e.set_handler(0xFFFF_8000_0012_3456);
    assert_eq!(e.offset_low, 0x3456);
    assert_eq!(e.offset_mid, 0x0012);
    assert_eq!(e.offset_high, 0xFFFF_8000);
    assert_eq!(e.selector, 0x18);
    assert_eq!(e.attributes, 0x8E);
}

#[test]
fn handlers_go_to_their_vectors() {
    let mut idt = Idt::new();
    let h = HandlerAddrs {
        generic_exception: 0x1000,
        divide_by_zero: 0x2000,
        double_fault: 0x3000,
        general_protection: 0x4000,
        page_fault: 0x5000,
        timer: 0x6000,
        keyboard: 0x7000,
    };
    register_all_handlers(&mut idt, h);
    assert_eq!(idt.entry(0).offset_low, 0x2000);
    assert_eq!(idt.entry(1).offset_low, 0x1000);
    assert_eq!(idt.entry(8).offset_low, 0x3000);
    assert_eq!(idt.entry(13).offset_low, 0x4000);
    assert_eq!(idt.entry(14).offset_low, 0x5000);
    assert_eq!(idt.entry(31).offset_low, 0x1000);
    assert_eq!(idt.entry(32).offset_low, 0x6000);
    assert_eq!(idt.entry(33).offset_low, 0x7000);
    assert_eq!(idt.entry(34).attributes, 0);
}

#[test]
fn exception_banner_is_white_on_red() {
    assert_eq!(exception_banner(b"PF"), vec![0x4F50, 0x4F46]);
    assert_eq!(exception_banner(&[b'x'; 100]).len(), 80);
}
