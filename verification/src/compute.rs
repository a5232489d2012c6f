//! The arithmetic the demonstration tasks run: primality by trial division
//! and Fibonacci numbers.
use vstd::prelude::*;

verus! {

/// `n` is prime: at least 2 and without divisors between 2 and `n - 1`.
pub open spec fn is_prime_spec(n: nat) -> bool {
    n >= 2 && forall|d: nat| 2 <= d < n ==> #[trigger] (n % d) != 0
}

/// Largest trial divisor, of the form 6k + 5, whose square fits in 64 bits.
pub const LAST_TRIAL: u64 = 4_294_967_291;

proof fn lemma_multiple_of_factor(n: nat, d: nat, f: nat)
    requires
        f > 0,
        d > 0,
        d % f == 0,
        n % d == 0,
    ensures
        n % f == 0,
{
    let q = n / d;
    let e = d / f;
    vstd::arithmetic::div_mod::lemma_fundamental_div_mod(n as int, d as int);
    vstd::arithmetic::div_mod::lemma_fundamental_div_mod(d as int, f as int);
    assert(n == f * (e * q)) by (nonlinear_arith)
        requires n == d * q + n % d, n % d == 0, d == f * e + d % f, d % f == 0;
    vstd::arithmetic::div_mod::lemma_mod_multiples_basic((e * q) as int, f as int);
    assert(f * (e * q) == (e * q) * f) by (nonlinear_arith);
}

proof fn lemma_cofactor(n: nat, d: nat, i: nat)
    requires
        2 <= i <= d < n,
        n % d == 0,
        n < i * i,
    ensures
        2 <= n / d < i,
        n % (n / d) == 0,
{
    let q = n / d;
    vstd::arithmetic::div_mod::lemma_fundamental_div_mod(n as int, d as int);
    assert(n == d * q);
    assert(q >= 2) by (nonlinear_arith)
        requires n == d * q, d < n, d >= 2;
    assert(q < i) by (nonlinear_arith)
        requires n == d * q, n < i * i, i <= d, q >= 0;
    vstd::arithmetic::div_mod::lemma_mod_multiples_basic(d as int, q as int);
    assert(d * q == q * d) by (nonlinear_arith);
}

/// Trial division by 2, 3 and the numbers 6k +- 1 up to the square root.
/// Primes from `LAST_TRIAL` squared up are outside its range: the next trial
/// divisor's square would not fit in 64 bits.
pub fn is_prime(n: u64) -> (r: bool)
    requires
        n < LAST_TRIAL * LAST_TRIAL || !is_prime_spec(n as nat),
    ensures
        r == is_prime_spec(n as nat),
{
    if n < 2 {
        return false;
    }
    if n == 2 || n == 3 {
        assert forall|d: nat| 2 <= d < n implies #[trigger] ((n as nat) % d) != 0 by {
            assert(d == 2);
        }
        return true;
    }
    if n % 2 == 0 || n % 3 == 0 {
        return false;
    }
    assert forall|d: nat| 2 <= d < 5 implies #[trigger] ((n as nat) % d) != 0 by {
        if d == 4 && (n as nat) % d == 0 {
            lemma_multiple_of_factor(n as nat, d, 2);
        }
    }
    let mut i: u64 = 5;
    while i * i <= n
        invariant
            5 <= i <= LAST_TRIAL,
            i * i <= LAST_TRIAL * LAST_TRIAL,
            i % 6 == 5,
            n < LAST_TRIAL * LAST_TRIAL || !is_prime_spec(n as nat),
            n > 3,
            n % 2 != 0,
            n % 3 != 0,
            forall|d: nat| 2 <= d < i ==> #[trigger] ((n as nat) % d) != 0,
        decreases LAST_TRIAL - i,
    {
        assert(i < n && i + 2 < n) by (nonlinear_arith)
            requires i * i <= n, i >= 5;
        if n % i == 0 || n % (i + 2) == 0 {
            return false;
        }
        let ghost j = i;
        assert forall|d: nat| 2 <= d < j + 6 implies #[trigger] ((n as nat) % d) != 0 by {
            if d >= j && d != j && d != j + 2 {
                if d == j + 1 || d == j + 3 || d == j + 5 {
                    assert(d % 2 == 0);
                    if (n as nat) % d == 0 {
                        lemma_multiple_of_factor(n as nat, d, 2);
                    }
                } else {
                    assert(d == j + 4);
                    assert(d % 3 == 0);
                    if (n as nat) % d == 0 {
                        lemma_multiple_of_factor(n as nat, d, 3);
                    }
                }
            }
        }
        assert(i + 6 <= LAST_TRIAL) by {
            if i == LAST_TRIAL {
                // Every divisor from LAST_TRIAL + 6 up has a cofactor below it,
                // so `n` would be prime, and at least LAST_TRIAL squared.
                assert forall|d: nat| 2 <= d < n implies #[trigger] ((n as nat) % d) != 0 by {
                    if d >= j + 6 && (n as nat) % d == 0 {
                        assert((n as nat) < (j + 6) * (j + 6)) by (nonlinear_arith)
                            requires j == 4294967291, n <= 0xFFFF_FFFF_FFFF_FFFFu64;
                        lemma_cofactor(n as nat, d, (j + 6) as nat);
                        let q = (n as nat) / d;
                        assert((n as nat) % q != 0);
                    }
                }
                assert(is_prime_spec(n as nat));
            }
        }
        assert((i + 6) * (i + 6) <= LAST_TRIAL * LAST_TRIAL) by (nonlinear_arith)
            requires i + 6 <= LAST_TRIAL, LAST_TRIAL == 4294967291;
        i += 6;
    }
    assert forall|d: nat| 2 <= d < n implies #[trigger] ((n as nat) % d) != 0 by {
        if d >= i && (n as nat) % d == 0 {
            lemma_cofactor(n as nat, d, i as nat);
            let q = (n as nat) / d;
            assert((n as nat) % q != 0);
        }
    }
    true
}

/// The Fibonacci numbers: 0, 1, 1, 2, 3, 5, ...
pub open spec fn fib_spec(n: nat) -> nat
    decreases n,
{
    if n == 0 {
        0
    } else if n == 1 {
        1
    } else {
        fib_spec((n - 2) as nat) + fib_spec((n - 1) as nat)
    }
}

/// Fibonacci numbers never decrease.
pub proof fn lemma_fib_monotonic(i: nat, j: nat)
    requires
        i <= j,
    ensures
        fib_spec(i) <= fib_spec(j),
    decreases j - i,
{
    if j < 2 {
    } else if i == j {
    } else if i == j - 1 {
    } else {
        lemma_fib_monotonic(i, (j - 1) as nat);
        lemma_fib_monotonic(i, (j - 2) as nat);
    }
}

proof fn lemma_fib_outgrows(n: nat)
    requires
        n >= 6,
    ensures
        fib_spec(n) >= n + 2,
    decreases n,
{
    if n == 6 {
        assert(fib_spec(6) == 8) by {
            reveal_with_fuel(fib_spec, 7);
        }
    } else if n == 7 {
        assert(fib_spec(7) == 13) by {
            reveal_with_fuel(fib_spec, 8);
        }
    } else {
        lemma_fib_outgrows((n - 1) as nat);
        lemma_fib_outgrows((n - 2) as nat);
    }
}

/// The `n`-th Fibonacci number, iteratively.
pub fn fib(n: u64) -> (r: u64)
    requires
        fib_spec(n as nat) <= u64::MAX,
    ensures
        r == fib_spec(n as nat),
{
    if n <= 1 {
        return n;
    }
    proof {
        if n >= 6 {
            lemma_fib_outgrows(n as nat);
        }
    }
    let mut a: u64 = 0;
    let mut b: u64 = 1;
    let mut k: u64 = 2;
    while k <= n
        invariant
            2 <= k <= n + 1,
            n < u64::MAX,
            fib_spec(n as nat) <= u64::MAX,
            a == fib_spec((k - 2) as nat),
            b == fib_spec((k - 1) as nat),
        decreases n + 1 - k,
    {
        proof { lemma_fib_monotonic(k as nat, n as nat); }
        let tmp = a + b;
        a = b;
        b = tmp;
        k += 1;
    }
    b
}

/// Argument of the Fibonacci task's `round`-th computation: 30 to 34 in turn.
pub fn fib_task_argument(round: u64) -> (r: u64)
    ensures
        r == 30 + round % 5,
{
    30 + (round % 5)
}

} // verus!
