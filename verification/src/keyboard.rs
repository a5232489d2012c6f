//! PS/2 keyboard: scancode set 1 decoding with shift, and the ring buffer
//! of typed characters waiting to be read.
use vstd::prelude::*;

verus! {

/// Slots in the ring buffer; one is always left empty, so at most
/// `BUF_SIZE - 1` characters wait at a time.
pub const BUF_SIZE: usize = 256;
/// Make code of the left shift key.
pub const LEFT_SHIFT: u8 = 0x2A;
/// Make code of the right shift key.
pub const RIGHT_SHIFT: u8 = 0x36;

/// ASCII for a make code of scancode set 1 on a US layout, without and with
/// shift; 0 where the key yields no character.
pub open spec fn scancode_ascii(sc: u8, shift: bool) -> u8 {
    if !shift {
        match sc {
            0x02 => 0x31u8, 0x03 => 0x32u8, 0x04 => 0x33u8, 0x05 => 0x34u8, 0x06 => 0x35u8,
            0x07 => 0x36u8, 0x08 => 0x37u8, 0x09 => 0x38u8, 0x0A => 0x39u8, 0x0B => 0x30u8,
            0x0C => 0x2Du8, 0x0D => 0x3Du8, 0x0E => 0x08u8, 0x0F => 0x09u8,
            0x10 => 0x71u8, 0x11 => 0x77u8, 0x12 => 0x65u8, 0x13 => 0x72u8, 0x14 => 0x74u8,
            0x15 => 0x79u8, 0x16 => 0x75u8, 0x17 => 0x69u8, 0x18 => 0x6Fu8, 0x19 => 0x70u8,
            0x1A => 0x5Bu8, 0x1B => 0x5Du8, 0x1C => 0x0Au8,
            0x1E => 0x61u8, 0x1F => 0x73u8, 0x20 => 0x64u8, 0x21 => 0x66u8, 0x22 => 0x67u8,
            0x23 => 0x68u8, 0x24 => 0x6Au8, 0x25 => 0x6Bu8, 0x26 => 0x6Cu8,
            0x27 => 0x3Bu8, 0x28 => 0x27u8, 0x29 => 0x60u8, 0x2B => 0x5Cu8,
            0x2C => 0x7Au8, 0x2D => 0x78u8, 0x2E => 0x63u8, 0x2F => 0x76u8, 0x30 => 0x62u8,
            0x31 => 0x6Eu8, 0x32 => 0x6Du8, 0x33 => 0x2Cu8, 0x34 => 0x2Eu8, 0x35 => 0x2Fu8,
            0x39 => 0x20u8,
            _ => 0u8,
        }
    } else {
        match sc {
            0x02 => 0x21u8, 0x03 => 0x40u8, 0x04 => 0x23u8, 0x05 => 0x24u8, 0x06 => 0x25u8,
            0x07 => 0x5Eu8, 0x08 => 0x26u8, 0x09 => 0x2Au8, 0x0A => 0x28u8, 0x0B => 0x29u8,
            0x0C => 0x5Fu8, 0x0D => 0x2Bu8, 0x0E => 0x08u8, 0x0F => 0x09u8,
            0x10 => 0x51u8, 0x11 => 0x57u8, 0x12 => 0x45u8, 0x13 => 0x52u8, 0x14 => 0x54u8,
            0x15 => 0x59u8, 0x16 => 0x55u8, 0x17 => 0x49u8, 0x18 => 0x4Fu8, 0x19 => 0x50u8,
            0x1A => 0x7Bu8, 0x1B => 0x7Du8, 0x1C => 0x0Au8,
            0x1E => 0x41u8, 0x1F => 0x53u8, 0x20 => 0x44u8, 0x21 => 0x46u8, 0x22 => 0x47u8,
            0x23 => 0x48u8, 0x24 => 0x4Au8, 0x25 => 0x4Bu8, 0x26 => 0x4Cu8,
            0x27 => 0x3Au8, 0x28 => 0x22u8, 0x29 => 0x7Eu8, 0x2B => 0x7Cu8,
            0x2C => 0x5Au8, 0x2D => 0x58u8, 0x2E => 0x43u8, 0x2F => 0x56u8, 0x30 => 0x42u8,
            0x31 => 0x4Eu8, 0x32 => 0x4Du8, 0x33 => 0x3Cu8, 0x34 => 0x3Eu8, 0x35 => 0x3Fu8,
            0x39 => 0x20u8,
            _ => 0u8,
        }
    }
}

/// The character printed at position `i` of a keyboard row, as ASCII.
pub open spec fn row_char(row: &str, i: int) -> u8 {
    row@[i] as u8
}

/// The US keyboard read off its rows: the number row, the three letter rows
/// and the key beside the left shift, each from its first make code on,
/// with the characters printed on the keys (upper ones with shift), and the
/// control keys backspace, tab, enter and space.
pub open spec fn us_keyboard(sc: u8, shift: bool) -> u8 {
    if 0x02 <= sc <= 0x0D {
        row_char(if shift { "!@#$%^&*()_+" } else { "1234567890-=" }, sc - 0x02)
    } else if 0x10 <= sc <= 0x1B {
        row_char(if shift { "QWERTYUIOP{}" } else { "qwertyuiop[]" }, sc - 0x10)
    } else if 0x1E <= sc <= 0x29 {
        row_char(if shift { "ASDFGHJKL:\"~" } else { "asdfghjkl;'`" }, sc - 0x1E)
    } else if sc == 0x2B {
        row_char(if shift { "|" } else { "\\" }, 0)
    } else if 0x2C <= sc <= 0x35 {
        row_char(if shift { "ZXCVBNM<>?" } else { "zxcvbnm,./" }, sc - 0x2C)
    } else if sc == 0x0E {
        0x08
    } else if sc == 0x0F {
        0x09
    } else if sc == 0x1C {
        0x0A
    } else if sc == 0x39 {
        0x20
    } else {
        0
    }
}

/// Decoding gives, for every make code, the character printed on that key
/// of a US keyboard (the upper one with shift): `0x12` is `e`, `0x13` is
/// `r`, and so on along each row; keys that print nothing give 0. Letters
/// with shift are the capitals of the letters without, and no two letter
/// keys give the same letter.
pub proof fn lemma_decodes_us_keyboard()
    ensures
        forall|sc: u8, shift: bool| #[trigger] scancode_ascii(sc, shift) == us_keyboard(sc, shift),
        forall|sc: u8| 0x61 <= #[trigger] scancode_ascii(sc, false) <= 0x7A
            ==> scancode_ascii(sc, true) == scancode_ascii(sc, false) - 0x20,
        forall|a: u8, b: u8| a != b && 0x61 <= #[trigger] scancode_ascii(a, false) <= 0x7A
            ==> scancode_ascii(a, false) != #[trigger] scancode_ascii(b, false),
{
    reveal_strlit("1234567890-=");
    reveal_strlit("!@#$%^&*()_+");
    reveal_strlit("qwertyuiop[]");
    reveal_strlit("QWERTYUIOP{}");
    reveal_strlit("asdfghjkl;'`");
    reveal_strlit("ASDFGHJKL:\"~");
    reveal_strlit("\\");
    reveal_strlit("|");
    reveal_strlit("zxcvbnm,./");
    reveal_strlit("ZXCVBNM<>?");
    assert forall|sc: u8, shift: bool| #[trigger] scancode_ascii(sc, shift) == us_keyboard(sc, shift) by {
        if 0x02 <= sc <= 0x0D || 0x10 <= sc <= 0x1B || 0x1E <= sc <= 0x29 || 0x2C <= sc <= 0x35 {
            assert(scancode_ascii(sc, shift) == us_keyboard(sc, shift));
        }
    }
}

/// Map a make code below 128 to ASCII (0 when the key yields none).
pub fn scancode_to_ascii(sc: u8, shift: bool) -> (r: u8)
    ensures
        r == scancode_ascii(sc, shift),
{
    if !shift {
        match sc {
            0x02 => 0x31u8, 0x03 => 0x32u8, 0x04 => 0x33u8, 0x05 => 0x34u8, 0x06 => 0x35u8,
            0x07 => 0x36u8, 0x08 => 0x37u8, 0x09 => 0x38u8, 0x0A => 0x39u8, 0x0B => 0x30u8,
            0x0C => 0x2Du8, 0x0D => 0x3Du8, 0x0E => 0x08u8, 0x0F => 0x09u8,
            0x10 => 0x71u8, 0x11 => 0x77u8, 0x12 => 0x65u8, 0x13 => 0x72u8, 0x14 => 0x74u8,
            0x15 => 0x79u8, 0x16 => 0x75u8, 0x17 => 0x69u8, 0x18 => 0x6Fu8, 0x19 => 0x70u8,
            0x1A => 0x5Bu8, 0x1B => 0x5Du8, 0x1C => 0x0Au8,
            0x1E => 0x61u8, 0x1F => 0x73u8, 0x20 => 0x64u8, 0x21 => 0x66u8, 0x22 => 0x67u8,
            0x23 => 0x68u8, 0x24 => 0x6Au8, 0x25 => 0x6Bu8, 0x26 => 0x6Cu8,
            0x27 => 0x3Bu8, 0x28 => 0x27u8, 0x29 => 0x60u8, 0x2B => 0x5Cu8,
            0x2C => 0x7Au8, 0x2D => 0x78u8, 0x2E => 0x63u8, 0x2F => 0x76u8, 0x30 => 0x62u8,
            0x31 => 0x6Eu8, 0x32 => 0x6Du8, 0x33 => 0x2Cu8, 0x34 => 0x2Eu8, 0x35 => 0x2Fu8,
            0x39 => 0x20u8,
            _ => 0u8,
        }
    } else {
        match sc {
            0x02 => 0x21u8, 0x03 => 0x40u8, 0x04 => 0x23u8, 0x05 => 0x24u8, 0x06 => 0x25u8,
            0x07 => 0x5Eu8, 0x08 => 0x26u8, 0x09 => 0x2Au8, 0x0A => 0x28u8, 0x0B => 0x29u8,
            0x0C => 0x5Fu8, 0x0D => 0x2Bu8, 0x0E => 0x08u8, 0x0F => 0x09u8,
            0x10 => 0x51u8, 0x11 => 0x57u8, 0x12 => 0x45u8, 0x13 => 0x52u8, 0x14 => 0x54u8,
            0x15 => 0x59u8, 0x16 => 0x55u8, 0x17 => 0x49u8, 0x18 => 0x4Fu8, 0x19 => 0x50u8,
            0x1A => 0x7Bu8, 0x1B => 0x7Du8, 0x1C => 0x0Au8,
            0x1E => 0x41u8, 0x1F => 0x53u8, 0x20 => 0x44u8, 0x21 => 0x46u8, 0x22 => 0x47u8,
            0x23 => 0x48u8, 0x24 => 0x4Au8, 0x25 => 0x4Bu8, 0x26 => 0x4Cu8,
            0x27 => 0x3Au8, 0x28 => 0x22u8, 0x29 => 0x7Eu8, 0x2B => 0x7Cu8,
            0x2C => 0x5Au8, 0x2D => 0x58u8, 0x2E => 0x43u8, 0x2F => 0x56u8, 0x30 => 0x42u8,
            0x31 => 0x4Eu8, 0x32 => 0x4Du8, 0x33 => 0x3Cu8, 0x34 => 0x3Eu8, 0x35 => 0x3Fu8,
            0x39 => 0x20u8,
            _ => 0u8,
        }
    }
}

/// The keyboard's state as seen from outside: the characters waiting to be
/// read, oldest first, and whether a shift key is held.
pub struct KeyboardState {
    pub pending: Seq<u8>,
    pub shift_held: bool,
}

/// Shift state and the ring buffer of typed characters.
pub struct Keyboard {
    buf: Vec<u8>,
    read_pos: usize,
    write_pos: usize,
    shift_held: bool,
}

/// Characters in the ring `buf` from `rp` up to `wp`.
pub open spec fn ring_contents(buf: Seq<u8>, rp: int, wp: int) -> Seq<u8> {
    Seq::new(((wp - rp + BUF_SIZE) % BUF_SIZE as int) as nat, |i: int| buf[(rp + i) % BUF_SIZE as int])
}

impl View for Keyboard {
    type V = KeyboardState;

    closed spec fn view(&self) -> KeyboardState {
        KeyboardState {
            pending: ring_contents(self.buf@, self.read_pos as int, self.write_pos as int),
            shift_held: self.shift_held,
        }
    }
}

/// The state after a key event with scancode `sc`, and the character it
/// types (echoed even when the buffer is full), if any. A break code of a
/// shift key releases shift, a make code of one holds it; other make codes
/// below 128 type their character, which is queued unless `BUF_SIZE - 1`
/// characters already wait.
pub open spec fn scancode_spec(st: KeyboardState, sc: u8) -> (KeyboardState, Option<u8>) {
    if sc >= 0x80 {
        let released = (sc - 0x80) as u8;
        if released == LEFT_SHIFT || released == RIGHT_SHIFT {
            (KeyboardState { shift_held: false, ..st }, None)
        } else {
            (st, None)
        }
    } else if sc == LEFT_SHIFT || sc == RIGHT_SHIFT {
        (KeyboardState { shift_held: true, ..st }, None)
    } else {
        let ch = scancode_ascii(sc, st.shift_held);
        if ch == 0 {
            (st, None)
        } else if st.pending.len() < BUF_SIZE - 1 {
            (KeyboardState { pending: st.pending.push(ch), ..st }, Some(ch))
        } else {
            (st, Some(ch))
        }
    }
}

/// Reading a character: the oldest one, if any.
pub open spec fn read_spec(st: KeyboardState) -> (KeyboardState, Option<u8>) {
    if st.pending.len() == 0 {
        (st, None)
    } else {
        (KeyboardState { pending: st.pending.drop_first(), ..st }, Some(st.pending[0]))
    }
}

impl Keyboard {
    /// The buffer has its fixed size and both positions lie inside it.
    pub closed spec fn wf(&self) -> bool {
        &&& self.buf@.len() == BUF_SIZE
        &&& self.read_pos < BUF_SIZE
        &&& self.write_pos < BUF_SIZE
    }

    /// No character waiting and shift released.
    pub fn new() -> (k: Keyboard)
        ensures
            k.wf(),
            k@.pending == Seq::<u8>::empty(),
            !k@.shift_held,
    {
        let mut buf: Vec<u8> = Vec::new();
        let mut i: usize = 0;
        while i < BUF_SIZE
            invariant
                i <= BUF_SIZE,
                buf@.len() == i,
            decreases BUF_SIZE - i,
        {
            buf.push(0);
            i = i + 1;
        }
        let k = Keyboard { buf, read_pos: 0, write_pos: 0, shift_held: false };
        assert(k@.pending =~= Seq::<u8>::empty());
        k
    }

    /// Handle one scancode from the keyboard controller; returns the
    /// character it typed, to be echoed.
    pub fn handle_scancode(&mut self, scancode: u8) -> (r: Option<u8>)
        requires
            old(self).wf(),
        ensures
            final(self).wf(),
            (final(self)@, r) == scancode_spec(old(self)@, scancode),
    {
        if scancode & 0x80 != 0 {
            let released = scancode & 0x7F;
            assert(scancode & 0x80 != 0 ==> scancode >= 0x80 && scancode & 0x7F == scancode - 0x80) by (bit_vector);
            if released == LEFT_SHIFT || released == RIGHT_SHIFT {
                self.shift_held = false;
            }
            return None;
        }
        assert(scancode & 0x80 == 0 ==> scancode < 0x80) by (bit_vector);
        if scancode == LEFT_SHIFT || scancode == RIGHT_SHIFT {
            self.shift_held = true;
            return None;
        }
        if (scancode as usize) < 128 {
            let ch = scancode_to_ascii(scancode, self.shift_held);
            if ch != 0 {
                let wp = self.write_pos;
                let rp = self.read_pos;
                let wp1 = wp + 1;
                let next_wp = wp1 & (BUF_SIZE - 1);
                assert(next_wp == wp1 % 256) by (bit_vector)
                    requires next_wp == wp1 & 255usize;
                let ghost old_pending = self@.pending;
                if next_wp != rp {
                    self.buf.set(wp, ch);
                    self.write_pos = next_wp;
                    proof {
                        let n = old_pending.len();
                        assert(n == (wp - rp + 256) % 256);
                        assert(n < 255);
                        assert(self@.pending =~= old_pending.push(ch)) by {
                            assert forall|i: int| 0 <= i < n implies #[trigger] self@.pending[i] == old_pending[i] by {
                                assert((rp + i) % 256 != wp as int);
                            }
                        }
                    }
                } else {
                    assert(old_pending.len() == 255);
                }
                return Some(ch);
            }
        }
        None
    }

    /// Take the oldest waiting character, if any.
    pub fn read_char(&mut self) -> (r: Option<u8>)
        requires
            old(self).wf(),
        ensures
            final(self).wf(),
            (final(self)@, r) == read_spec(old(self)@),
    {
        let rp = self.read_pos;
        let wp = self.write_pos;
        if rp == wp {
            return None;
        }
        let ch = self.buf[rp];
        let rp1 = rp + 1;
        let next = rp1 & (BUF_SIZE - 1);
        assert(next == rp1 % 256) by (bit_vector)
            requires next == rp1 & 255usize;
        let ghost old_pending = self@.pending;
        self.read_pos = next;
        proof {
            assert(self@.pending =~= old_pending.drop_first()) by {
                assert forall|i: int| 0 <= i < self@.pending.len() implies #[trigger] self@.pending[i] == old_pending[i + 1] by {
                    assert((next + i) % 256 == (rp + (i + 1)) % 256);
                }
            }
        }
        Some(ch)
    }

    /// A character is waiting.
    pub fn has_input(&self) -> (r: bool)
        requires
            self.wf(),
        ensures
            r == (self@.pending.len() > 0),
    {
        self.read_pos != self.write_pos
    }
}

/// The buffer is first in, first out: a character queued behind others is
/// read after them, and one queued into an empty buffer is the next read.
pub proof fn lemma_fifo(st: KeyboardState, ch: u8)
    requires
        st.pending.len() < BUF_SIZE - 1,
    ensures
        ({
            let pushed = KeyboardState { pending: st.pending.push(ch), ..st };
            let (after, got) = read_spec(pushed);
            &&& st.pending.len() == 0 ==> got == Some(ch) && after.pending.len() == 0
            &&& st.pending.len() > 0 ==> got == Some(st.pending[0])
                && after.pending == read_spec(st).0.pending.push(ch)
        }),
{
    let pushed = KeyboardState { pending: st.pending.push(ch), ..st };
    if st.pending.len() > 0 {
        assert(read_spec(pushed).0.pending =~= read_spec(st).0.pending.push(ch));
    }
}

} // verus!
