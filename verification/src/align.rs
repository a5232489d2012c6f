use vstd::prelude::*;
use vstd::arithmetic::power2::pow2;
use vstd::bits::low_bits_mask;

verus! {

/// `align` is a power of two that fits in a 64-bit word.
pub open spec fn is_pow2(align: int) -> bool {
    exists|k: nat| k < 64 && #[trigger] pow2(k) == align
}

/// The value `addr` rounded up to a multiple of `align`: the largest multiple
/// of `align` not above `addr + align - 1`.
pub open spec fn align_up_spec(addr: int, align: int) -> int {
    (addr + align - 1) - (addr + align - 1) % align
}

/// `r` is the least multiple of `align` that is at least `addr`.
pub open spec fn is_align_up(addr: int, align: int, r: int) -> bool {
    r % align == 0 && addr <= r && r < addr + align
}

/// Masking off the low bits of `y` below the power of two `a` rounds it down
/// to a multiple of `a`, losing less than `a`.
proof fn lemma_mask_round_down(y: u64, a: u64, r: u64)
    requires
        is_pow2(a as int),
        r == y & !((a - 1) as u64),
    ensures
        (r as int) % (a as int) == 0,
        r <= y,
        y - r < a,
        r == y - y % a,
{
    let k = choose|k: nat| k < 64 && #[trigger] pow2(k) == a as int;
    vstd::bits::lemma_u64_low_bits_mask_is_mod(y, k);
    vstd::arithmetic::power2::lemma_pow2_pos(k);
    let m = (a - 1) as u64;
    assert(low_bits_mask(k) as u64 == m);
    assert(y == r + (y & m) && (y & m) <= m) by (bit_vector)
        requires r == y & !m;
    let q = y / a;
    vstd::arithmetic::div_mod::lemma_fundamental_div_mod(y as int, a as int);
    vstd::arithmetic::div_mod::lemma_mod_multiples_basic(q as int, a as int);
    assert(r == q * a) by (nonlinear_arith)
        requires y == a * (y / a) + y % a, r + y % a == y, q == y / a;
}

/// A power of two is positive.
pub proof fn lemma_pow2_positive(a: int)
    requires
        is_pow2(a),
    ensures
        a > 0,
{
    let k = choose|k: nat| k < 64 && #[trigger] pow2(k) == a;
    vstd::arithmetic::power2::lemma_pow2_pos(k);
}

/// Round `addr` up to the next multiple of the power of two `align`.
pub fn align_up_u64(addr: u64, align: u64) -> (r: u64)
    requires
        is_pow2(align as int),
        addr + align - 1 <= u64::MAX,
    ensures
        r == align_up_spec(addr as int, align as int),
        is_align_up(addr as int, align as int, r as int),
{
    proof { lemma_pow2_positive(align as int); }
    let y = addr + (align - 1);
    let r = y & !(align - 1);
    proof { lemma_mask_round_down(y, align, r); }
    r
}

/// Round `addr` up to the next multiple of the power of two `align`.
pub fn align_up_usize(addr: usize, align: usize) -> (r: usize)
    requires
        is_pow2(align as int),
        addr + align - 1 <= usize::MAX,
    ensures
        r == align_up_spec(addr as int, align as int),
        is_align_up(addr as int, align as int, r as int),
{
    let r = align_up_u64(addr as u64, align as u64);
    r as usize
}

/// Eight, the word size, is a power of two.
pub proof fn lemma_pow2_8()
    ensures
        is_pow2(8),
{
    vstd::arithmetic::power2::lemma2_to64();
    assert(pow2(3) == 8);
}

/// A power of two that fits in a `usize` is at most `isize::MAX + 1`.
pub proof fn lemma_pow2_at_most_half(a: int)
    requires
        is_pow2(a),
        a <= usize::MAX,
    ensures
        a <= isize::MAX + 1,
{
    let k = choose|k: nat| k < 64 && #[trigger] pow2(k) == a;
    vstd::arithmetic::power2::lemma2_to64();
    vstd::arithmetic::power2::lemma2_to64_rest();
    if usize::MAX == 0xffff_ffff {
        if k > 31 {
            vstd::arithmetic::power2::lemma_pow2_strictly_increases(31, k);
            if k > 32 {
                vstd::arithmetic::power2::lemma_pow2_strictly_increases(32, k);
            }
        }
    } else {
        if k < 63 {
            vstd::arithmetic::power2::lemma_pow2_strictly_increases(k, 63);
        }
    }
}

/// A power of two at least `m`, where `m` is a power of two, is a multiple
/// of `m`; so are the multiples of the former.
pub proof fn lemma_pow2_multiple(a: int, m: int, x: int)
    requires
        is_pow2(a),
        is_pow2(m),
        m <= a,
        x % a == 0,
    ensures
        a % m == 0,
        x % m == 0,
{
    let k = choose|k: nat| k < 64 && #[trigger] pow2(k) == a;
    let j = choose|j: nat| j < 64 && #[trigger] pow2(j) == m;
    if k < j {
        vstd::arithmetic::power2::lemma_pow2_strictly_increases(k, j);
    }
    vstd::arithmetic::power2::lemma_pow2_adds(j, (k - j) as nat);
    vstd::arithmetic::power2::lemma_pow2_pos(j);
    vstd::arithmetic::power2::lemma_pow2_pos((k - j) as nat);
    let c = pow2((k - j) as nat) as int;
    assert(a == m * c);
    vstd::arithmetic::div_mod::lemma_mod_multiples_basic(c, m);
    assert(a % m == 0) by {
        assert(m * c == c * m) by (nonlinear_arith);
    }
    vstd::arithmetic::div_mod::lemma_fundamental_div_mod(x, a);
    let q = x / a;
    assert(x == (q * c) * m) by (nonlinear_arith)
        requires x == a * q + x % a, x % a == 0, a == m * c;
    vstd::arithmetic::div_mod::lemma_mod_multiples_basic(q * c, m);
}

} // verus!
