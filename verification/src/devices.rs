//! Register values for the legacy devices: interrupt controller masks, the
//! timer divisor, the serial line, and the LPC probes and decodes.
use vstd::prelude::*;

verus! {

/// Input clock of the programmable interval timer.
pub const PIT_BASE_FREQ: u32 = 1_193_182;
/// Timer interrupts per second.
pub const TICK_HZ: u32 = 100;
/// Interrupt-enable bit of RFLAGS.
pub const RFLAGS_IF: u64 = 0x200;
/// Master interrupt controller line that the slave cascades into.
pub const CASCADE_LINE: u8 = 2;

/// Which controller serves interrupt line `irq` (below 16), and its bit on
/// that controller: `(true, irq - 8)` for the slave.
pub fn pic_line(irq: u8) -> (r: (bool, u8))
    requires
        irq < 16,
    ensures
        irq < 8 ==> r == (false, irq),
        irq >= 8 ==> r == (true, (irq - 8) as u8),
{
    if irq < 8 { (false, irq) } else { (true, irq - 8) }
}

/// `mask` with bit `bit` cleared: the line is let through.
pub fn unmask_value(mask: u8, bit: u8) -> (r: u8)
    requires
        bit < 8,
    ensures
        forall|k: u8| k < 8 ==> ((r >> k) & 1 == 1) == (k != bit && (mask >> k) & 1 == 1),
{
    let r = mask & !(1u8 << bit);
    assert(forall|k: u8| k < 8 ==> ((r >> k) & 1 == 1) == (k != bit && (mask >> k) & 1 == 1)) by (bit_vector)
        requires r == mask & !(1u8 << bit), bit < 8;
    r
}

/// `mask` with bit `bit` set: the line is blocked.
pub fn mask_value(mask: u8, bit: u8) -> (r: u8)
    requires
        bit < 8,
    ensures
        forall|k: u8| k < 8 ==> ((r >> k) & 1 == 1) == (k == bit || (mask >> k) & 1 == 1),
{
    let r = mask | (1u8 << bit);
    assert(forall|k: u8| k < 8 ==> ((r >> k) & 1 == 1) == (k == bit || (mask >> k) & 1 == 1)) by (bit_vector)
        requires r == mask | (1u8 << bit), bit < 8;
    r
}

/// The end-of-interrupt goes to the slave as well for its lines.
pub fn eoi_to_slave(irq: u8) -> (r: bool)
    ensures
        r == (irq >= 8),
{
    irq >= 8
}

/// Divisor that makes the timer tick `hz` times per second.
pub fn pit_divisor(hz: u32) -> (r: u16)
    requires
        hz > 0,
        PIT_BASE_FREQ / hz < 0x1_0000,
    ensures
        r == PIT_BASE_FREQ / hz,
{
    (PIT_BASE_FREQ / hz) as u16
}

/// Timer ticks in `ms` milliseconds at `TICK_HZ`.
pub fn ms_to_ticks(ms: u64) -> (r: u64)
    ensures
        r == ms / 10,
{
    ms / (1000 / TICK_HZ as u64)
}

/// Interrupts were enabled according to the saved flags.
pub fn interrupts_enabled(rflags: u64) -> (r: bool)
    ensures
        r == ((rflags / RFLAGS_IF) % 2 == 1),
{
    assert((rflags & 0x200 != 0) == ((rflags / 0x200) % 2 == 1)) by (bit_vector);
    rflags & RFLAGS_IF != 0
}

/// The transmitter can take a byte (line status bit 5).
pub fn transmit_ready(lsr: u8) -> (r: bool)
    ensures
        r == ((lsr / 0x20) % 2 == 1),
{
    assert((lsr & 0x20 != 0) == ((lsr / 0x20) % 2 == 1)) by (bit_vector);
    lsr & 0x20 != 0
}

/// A port that reads all ones has nothing behind it.
pub fn port_present(val: u8) -> (r: bool)
    ensures
        r == (val != 0xFF),
{
    val != 0xFF
}

/// A UART answers: neither the interrupt identification nor the line status
/// register floats high, and the transmitter reports empty or ready.
pub fn serial_present(iir: u8, lsr: u8) -> (r: bool)
    ensures
        r == (iir != 0xFF && lsr != 0xFF && (lsr / 0x20) % 4 != 0),
{
    assert(((lsr & 0x60) != 0) == ((lsr / 0x20) % 4 != 0)) by (bit_vector);
    iir != 0xFF && lsr != 0xFF && (lsr & 0x60) != 0
}

/// Spaces to print after text of `current` columns to reach `target`.
pub fn pad_to(current: usize, target: usize) -> (r: usize)
    ensures
        r == (if current < target { target - current } else { 0 }),
{
    if current < target { target - current } else { 0 }
}

/// Base of the COM port range the LPC bridge decodes (I/O decode bits 0-2).
pub fn com_decode_name(lpc_io_dec: u16) -> (r: &'static str)
    ensures
        r@ == (match lpc_io_dec % 8 {
            0 => "0x3F8 (COM1)"@,
            1 => "0x2F8 (COM2)"@,
            2 => "0x220"@,
            3 => "0x228"@,
            4 => "0x238"@,
            5 => "0x2E8 (COM3)"@,
            6 => "0x338"@,
            _ => "0x3E8 (COM4)"@,
        }),
{
    let com_decode = lpc_io_dec & 0x07;
    assert(lpc_io_dec & 0x07 == lpc_io_dec % 8) by (bit_vector);
    match com_decode {
        0 => "0x3F8 (COM1)",
        1 => "0x2F8 (COM2)",
        2 => "0x220",
        3 => "0x228",
        4 => "0x238",
        5 => "0x2E8 (COM3)",
        6 => "0x338",
        _ => "0x3E8 (COM4)",
    }
}

/// Base of the parallel port range the LPC bridge decodes (bits 4-5).
pub fn lpt_decode_name(lpc_io_dec: u16) -> (r: &'static str)
    ensures
        r@ == (match (lpc_io_dec / 16) % 4 {
            0 => "0x378 (LPT1)"@,
            1 => "0x278 (LPT2)"@,
            2 => "0x3BC"@,
            _ => "Reserved"@,
        }),
{
    let lpt_decode = (lpc_io_dec >> 4u16) & 0x03;
    assert((lpc_io_dec >> 4u16) & 0x03 == (lpc_io_dec / 16) % 4) by (bit_vector);
    match lpt_decode {
        0 => "0x378 (LPT1)",
        1 => "0x278 (LPT2)",
        2 => "0x3BC",
        _ => "Reserved",
    }
}

/// ACPI I/O base from the bridge register (its low three bits dropped).
pub fn acpi_io_base(raw: u16) -> (r: u16)
    ensures
        r == raw - raw % 8,
{
    assert(raw & 0xFFF8 == raw - raw % 8) by (bit_vector);
    raw & 0xFFF8
}

/// Base of a generic decode range when the range is enabled (bit 0).
pub fn generic_decode_base(gen_dec: u32) -> (r: Option<u16>)
    ensures
        gen_dec % 2 == 0 ==> r is None,
        gen_dec % 2 == 1 ==> r == Some(((gen_dec / 0x1_0000) - (gen_dec / 0x1_0000) % 4) as u16),
{
    assert((gen_dec & 1 != 0) == (gen_dec % 2 == 1)) by (bit_vector);
    if gen_dec & 1 != 0 {
        let base = (gen_dec >> 16u32) & 0xFFFC;
        assert((gen_dec >> 16u32) & 0xFFFC == (gen_dec / 0x1_0000) - (gen_dec / 0x1_0000) % 4) by (bit_vector);
        Some(base as u16)
    } else {
        None
    }
}

/// Number of `true` entries.
pub open spec fn count_true(s: Seq<bool>) -> nat
    decreases s.len(),
{
    if s.len() == 0 { 0 } else { count_true(s.drop_last()) + if s.last() { 1nat } else { 0nat } }
}

/// How many of the probed devices answered.
pub fn count_present(present: &[bool]) -> (r: u32)
    requires
        present@.len() < 0x1_0000_0000,
    ensures
        r == count_true(present@),
{
    let mut found: u32 = 0;
    let mut i: usize = 0;
    while i < present.len()
        invariant
            i <= present@.len(),
            present@.len() < 0x1_0000_0000,
            found == count_true(present@.subrange(0, i as int)),
            found <= i,
        decreases present@.len() - i,
    {
        proof {
            let s = present@.subrange(0, i + 1);
            assert(s.drop_last() == present@.subrange(0, i as int));
        }
        if present[i] {
            found += 1;
        }
        i = i + 1;
    }
    assert(present@.subrange(0, i as int) == present@);
    found
}

} // verus!
