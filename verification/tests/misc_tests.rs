use kernel::compute::{fib, fib_task_argument, is_prime};
use kernel::devices::{
    acpi_io_base, com_decode_name, count_present, eoi_to_slave, generic_decode_base, interrupts_enabled, lpt_decode_name,
    mask_value, ms_to_ticks, pad_to, pic_line, pit_divisor, port_present, serial_present, transmit_ready, unmask_value,
};
use kernel::mem::{memcmp, memcpy, memmove, memset};

#[test]
fn primes() {
    let small: Vec<u64> = (0..30).filter(|&n| is_prime(n)).collect();
    assert_eq!(small, vec![2, 3, 5, 7, 11, 13, 17, 19, 23, 29]);
    assert!(is_prime(99_991));
    assert!(!is_prime(99_989 * 3));
    assert!(!is_prime(25));
    assert!(!is_prime(49));
    assert!(is_prime(4_294_967_291));
    assert!(!is_prime(4_294_967_291u64 * 3));
    // Composites above the last trial divisor's square are still answered.
    assert!(!is_prime(u64::MAX));
    assert!(!is_prime(4_294_967_291u64 * 4_294_967_291 + 1));
}

#[test]
fn fibonacci() {
    assert_eq!(fib(0), 0);
    assert_eq!(fib(1), 1);
    assert_eq!(fib(10), 55);
    assert_eq!(fib(30), 832_040);
    assert_eq!(fib(93), 12_200_160_415_121_876_738);
    assert_eq!(fib_task_argument(1), 31);
    assert_eq!(fib_task_argument(9), 34);
}

#[test]
fn byte_routines() {
    let mut d = vec![9u8; 6];
    memcpy(&mut d, &[1, 2, 3, 4], 3);
    assert_eq!(d, vec![1, 2, 3, 9, 9, 9]);
    let mut b = vec![1u8, 2, 3, 4, 5, 6];
    memmove(&mut b, 2, 0, 4);
    assert_eq!(b, vec![1, 2, 1, 2, 3, 4]);
    let mut b = vec![1u8, 2, 3, 4, 5, 6];
    memmove(&mut b, 0, 2, 4);
    assert_eq!(b, vec![3, 4, 5, 6, 5, 6]);
    let mut z = vec![7u8; 4];
    memset(&mut z, 0x1FF, 2);
    assert_eq!(z, vec![0xFF, 0xFF, 7, 7]);
    assert_eq!(memcmp(b"abc", b"abd", 3), -1);
    assert_eq!(memcmp(b"abc", b"abd", 2), 0);
    assert_eq!(memcmp(&[200], &[10], 1), 190);
}

#[test]
fn interrupt_controller_masks() {
    assert_eq!(pic_line(1), (false, 1));
    assert_eq!(pic_line(12), (true, 4));
    assert_eq!(unmask_value(0xFF, 0), 0xFE);
    assert_eq!(unmask_value(0xFF, 2), 0xFB);
    assert_eq!(mask_value(0x00, 7), 0x80);
    assert!(eoi_to_slave(8));
    assert!(!eoi_to_slave(7));
}

#[test]
fn timer_and_flags() {
    assert_eq!(pit_divisor(100), 11_931);
    assert_eq!(ms_to_ticks(500), 50);
    assert_eq!(ms_to_ticks(5), 0);
    assert!(interrupts_enabled(0x202));
    assert!(!interrupts_enabled(0x002));
    assert!(transmit_ready(0x60));
    assert!(!transmit_ready(0x01));
}

#[test]
fn legacy_probes() {
    assert!(port_present(0x00));
    assert!(!port_present(0xFF));
    assert!(serial_present(0xC1, 0x60));
    assert!(!serial_present(0xFF, 0x60));
    assert!(!serial_present(0xC1, 0x01));
    assert_eq!(pad_to(4, 20), 16);
    assert_eq!(pad_to(25, 20), 0);
    assert_eq!(count_present(&[true, false, true]), 2);
}

#[test]
fn lpc_decodes() {
    assert_eq!(com_decode_name(0x0010), "0x3F8 (COM1)");
    assert_eq!(com_decode_name(0x0007), "0x3E8 (COM4)");
    assert_eq!(lpt_decode_name(0x0010), "0x278 (LPT2)");
    assert_eq!(lpt_decode_name(0x0030), "Reserved");
    assert_eq!(acpi_io_base(0x0601), 0x0600);
    assert_eq!(generic_decode_base(0x0000_0000), None);
    assert_eq!(generic_decode_base(0x0C01_0A01), Some(0x0C00));
}
