//! Rendering numbers as ASCII digits, as the console printers do.
use vstd::prelude::*;
use vstd::arithmetic::power2::pow2;

verus! {

/// The ASCII digit for a value below 16: `0`-`9`, then `A`-`F`.
pub open spec fn hex_char(n: int) -> u8 {
    if n < 10 { (0x30 + n) as u8 } else { (0x41 + (n - 10)) as u8 }
}

/// The ASCII decimal digit for a value below 10.
pub open spec fn dec_char(n: int) -> u8 {
    (0x30 + n) as u8
}

/// Nibble `k` of `n`, counting from the least significant.
pub open spec fn nibble(n: int, k: int) -> int {
    (n / pow2((4 * k) as nat) as int) % 16
}

/// The last `width` hex digits of `n`, most significant first.
pub open spec fn hex_spec(n: int, width: int) -> Seq<u8> {
    Seq::new(width as nat, |i: int| hex_char(nibble(n, width - 1 - i)))
}

/// The decimal digits of `n` without leading zeros (`0` for zero).
pub open spec fn dec_spec(n: nat) -> Seq<u8>
    decreases n,
{
    if n < 10 {
        seq![dec_char(n as int)]
    } else {
        dec_spec(n / 10).push(dec_char((n % 10) as int))
    }
}

/// The number that decimal digits stand for.
pub open spec fn dec_value(s: Seq<u8>) -> int
    decreases s.len(),
{
    if s.len() == 0 { 0 } else { dec_value(s.drop_last()) * 10 + (s.last() - 0x30) }
}

/// The ASCII digit for `nibble` (below 16).
pub fn hex_digit(nibble: u8) -> (c: u8)
    requires
        nibble < 16,
    ensures
        c == hex_char(nibble as int),
{
    if nibble < 10 { 0x30 + nibble } else { 0x41 + (nibble - 10) }
}

/// The last `width` hex digits of `n`, most significant first (16 is the
/// whole number; 4 and 2 are the 16- and 8-bit forms).
pub fn hex_digits(n: u64, width: u32) -> (r: Vec<u8>)
    requires
        width <= 16,
    ensures
        r@ == hex_spec(n as int, width as int),
{
    let mut out: Vec<u8> = Vec::new();
    let mut i: u32 = width;
    while i > 0
        invariant
            i <= width <= 16,
            out@.len() == width - i,
            forall|j: int| 0 <= j < out@.len() ==> #[trigger] out@[j] == hex_char(nibble(n as int, width - 1 - j)),
        decreases i,
    {
        i = i - 1;
        let shift = (i * 4) as u64;
        let x = n >> shift;
        let nib = (x & 0xF) as u8;
        proof {
            vstd::bits::lemma_u64_shr_is_div(n, shift);
            assert(x & 0xF == x % 16) by (bit_vector);
        }
        out.push(hex_digit(nib));
    }
    assert(out@ =~= hex_spec(n as int, width as int));
    out
}

/// The decimal digits of `n`, most significant first, without leading zeros.
pub fn decimal_digits(n: u64) -> (r: Vec<u8>)
    ensures
        r@ == dec_spec(n as nat),
        1 <= r@.len() <= 20,
{
    let mut buf: Vec<u8> = Vec::new();
    let mut num = n;
    if num == 0 {
        buf.push(0x30);
        return buf;
    }
    // Least significant digit first, as the serial printer fills its buffer.
    proof { lemma_digit_count(n as nat); }
    while num > 0
        invariant
            num <= n,
            n > 0,
            buf@.len() <= 20,
            num > 0 ==> dec_spec(n as nat) =~= dec_spec(num as nat) + buf@.reverse(),
            num == 0 ==> dec_spec(n as nat) =~= buf@.reverse(),
            num > 0 ==> buf@.len() + digit_count(num as nat) <= 20,
        decreases num,
    {
        proof {
            lemma_digit_count(num as nat);
            if num >= 10 {
                assert(dec_spec(num as nat) == dec_spec((num / 10) as nat).push(dec_char((num % 10) as int)));
            }
        }
        let d = (num % 10) as u8;
        buf.push(0x30 + d);
        num = num / 10;
        proof {
            assert(buf@.reverse() =~= seq![dec_char(d as int)] + buf@.drop_last().reverse());
            if num > 0 {
                assert(dec_spec(n as nat) =~= dec_spec(num as nat) + buf@.reverse());
            }
        }
    }
    // Emit the buffer from its end.
    let mut out: Vec<u8> = Vec::new();
    let mut i = buf.len();
    while i > 0
        invariant
            i <= buf@.len(),
            out@ =~= buf@.subrange(i as int, buf@.len() as int).reverse(),
        decreases i,
    {
        i = i - 1;
        out.push(buf[i]);
        proof {
            assert(buf@.subrange(i as int, buf@.len() as int).reverse()
                =~= buf@.subrange(i as int + 1, buf@.len() as int).reverse().push(buf@[i as int]));
        }
    }
    assert(buf@.subrange(0, buf@.len() as int) == buf@);
    out
}

/// Number of decimal digits of `n`.
pub open spec fn digit_count(n: nat) -> nat
    decreases n,
{
    if n < 10 { 1 } else { 1 + digit_count(n / 10) }
}

proof fn lemma_digit_count(n: nat)
    requires
        n <= u64::MAX,
    ensures
        digit_count(n) <= 20,
        dec_spec(n).len() == digit_count(n),
{
    assert(pow10(20) == 100_000_000_000_000_000_000) by {
        reveal_with_fuel(pow10, 21);
    }
    lemma_digit_count_bound(n, 20);
    lemma_dec_len(n);
}

proof fn lemma_dec_len(n: nat)
    ensures
        dec_spec(n).len() == digit_count(n),
    decreases n,
{
    if n >= 10 {
        lemma_dec_len(n / 10);
    }
}

proof fn lemma_digit_count_bound(n: nat, k: nat)
    requires
        n < pow10(k),
        k >= 1,
    ensures
        digit_count(n) <= k,
    decreases n,
{
    if n >= 10 {
        if k == 1 {
            assert(pow10(1) == 10);
        }
        assert(n / 10 < pow10((k - 1) as nat)) by {
            assert(pow10(k) == 10 * pow10((k - 1) as nat));
        }
        lemma_digit_count_bound(n / 10, (k - 1) as nat);
    }
}

pub open spec fn pow10(k: nat) -> nat
    decreases k,
{
    if k == 0 { 1 } else { 10 * pow10((k - 1) as nat) }
}

/// The digits of `n` read back give `n`.
pub proof fn lemma_decimal_round_trip(n: nat)
    ensures
        dec_value(dec_spec(n)) == n,
    decreases n,
{
    let s = dec_spec(n);
    if n >= 10 {
        lemma_decimal_round_trip(n / 10);
        assert(s.drop_last() == dec_spec(n / 10));
        assert(s.last() == 0x30 + n % 10);
        vstd::arithmetic::div_mod::lemma_fundamental_div_mod(n as int, 10);
        assert(dec_value(s) == dec_value(s.drop_last()) * 10 + (s.last() - 0x30));
    } else {
        assert(s.drop_last() =~= Seq::<u8>::empty());
        assert(dec_value(s.drop_last()) == 0);
        assert(dec_value(s) == dec_value(s.drop_last()) * 10 + (s.last() - 0x30));
    }
}

/// The digits of `n` keeping at most the last eight, right-aligned with
/// spaces to `width` columns, as the device table prints them.
pub open spec fn padded_spec(n: nat, width: int) -> Seq<u8> {
    let d = dec_spec(n);
    let kept = if d.len() > 8 { d.subrange(d.len() - 8, d.len() as int) } else { d };
    let pad = if width > kept.len() { width - kept.len() } else { 0 };
    Seq::new(pad as nat, |i: int| 0x20u8) + kept
}

/// `n` right-aligned in `width` columns (only its last eight digits).
pub fn padded_decimal(n: u64, width: usize) -> (r: Vec<u8>)
    ensures
        r@ == padded_spec(n as nat, width as int),
{
    let d = decimal_digits(n);
    let start = if d.len() > 8 { d.len() - 8 } else { 0 };
    let digits = d.len() - start;
    let padding = if width > digits { width - digits } else { 0 };
    let mut out: Vec<u8> = Vec::new();
    let mut i: usize = 0;
    while i < padding
        invariant
            i <= padding,
            out@ =~= Seq::new(i as nat, |k: int| 0x20u8),
        decreases padding - i,
    {
        out.push(0x20);
        i = i + 1;
    }
    let mut j = start;
    while j < d.len()
        invariant
            start <= j <= d@.len(),
            out@ =~= Seq::new(padding as nat, |k: int| 0x20u8) + d@.subrange(start as int, j as int),
        decreases d@.len() - j,
    {
        out.push(d[j]);
        j = j + 1;
        proof {
            assert(d@.subrange(start as int, j as int) =~= d@.subrange(start as int, j - 1).push(d@[j - 1]));
        }
    }
    proof {
        if d@.len() <= 8 {
            assert(d@.subrange(0, d@.len() as int) =~= d@);
        }
    }
    out
}

} // verus!
