//! Text for the serial line: what each print puts on the wire, collected
//! until it is sent.
use vstd::prelude::*;
use vstd::string::StringSliceAdditionalSpecFns;
use crate::digits::{dec_spec, decimal_digits, hex_digits, hex_spec};

verus! {

/// COM1's I/O base.
pub const SERIAL_PORT: u16 = 0x3F8;

/// Bytes waiting to be sent on the serial line, oldest first.
pub struct SerialWriter {
    out: Vec<u8>,
}

impl View for SerialWriter {
    type V = Seq<u8>;

    closed spec fn view(&self) -> Seq<u8> {
        self.out@
    }
}

impl SerialWriter {
    /// Nothing waiting.
    pub fn new() -> (w: SerialWriter)
        ensures
            w@ == Seq::<u8>::empty(),
    {
        SerialWriter { out: Vec::new() }
    }

    fn push_all(&mut self, bytes: &[u8])
        ensures
            final(self)@ == old(self)@ + bytes@,
    {
        let mut i: usize = 0;
        while i < bytes.len()
            invariant
                i <= bytes@.len(),
                self@ == old(self)@ + bytes@.subrange(0, i as int),
            decreases bytes@.len() - i,
        {
            self.out.push(bytes[i]);
            i = i + 1;
            proof {
                assert(bytes@.subrange(0, i as int) =~= bytes@.subrange(0, i - 1).push(bytes@[i - 1]));
            }
        }
        assert(bytes@.subrange(0, i as int) =~= bytes@);
    }

    /// Queue the bytes of `s`.
    pub fn print(&mut self, s: &str)
        ensures
            final(self)@ == old(self)@ + s.spec_bytes(),
    {
        self.push_all(s.as_bytes());
    }

    /// Queue the bytes of `s` and a line feed.
    pub fn println(&mut self, s: &str)
        ensures
            final(self)@ == old(self)@ + s.spec_bytes() + seq![0x0Au8],
    {
        self.push_all(s.as_bytes());
        self.out.push(0x0A);
    }

    /// Queue `0x` and the 16 hex digits of `num`.
    pub fn print_hex(&mut self, num: u64)
        ensures
            final(self)@ == old(self)@ + seq![0x30u8, 0x78u8] + hex_spec(num as int, 16),
    {
        self.out.push(0x30);
        self.out.push(0x78);
        let d = hex_digits(num, 16);
        self.push_all(d.as_slice());
    }

    /// Queue the decimal digits of `num`.
    pub fn print_num(&mut self, num: u64)
        ensures
            final(self)@ == old(self)@ + dec_spec(num as nat),
    {
        let d = decimal_digits(num);
        self.push_all(d.as_slice());
    }

    /// Hand over everything queued, leaving nothing waiting.
    pub fn take(&mut self) -> (bytes: Vec<u8>)
        ensures
            bytes@ == old(self)@,
            final(self)@ == Seq::<u8>::empty(),
    {
        let mut empty: Vec<u8> = Vec::new();
        std::mem::swap(&mut empty, &mut self.out);
        empty
    }
}

} // verus!
