//! Powers of ten, digit counts and trailing-zero stripping: the base
//! vocabulary for the decimal value model used throughout the crate.

use vstd::prelude::*;
use vstd::arithmetic::power::{
    pow, lemma_pow0, lemma_pow1, lemma_pow_adds, lemma_pow_positive, lemma_pow_strictly_increases,
};
use vstd::arithmetic::div_mod::{
    lemma_div_denominator, lemma_fundamental_div_mod, lemma_remainder_lower,
};

verus! {

/// Ten raised to the given power.
pub open spec fn p10(e: nat) -> int {
    pow(10, e)
}

pub proof fn lemma_p10_pos(e: nat)
    ensures
        p10(e) >= 1,
{
    lemma_pow_positive(10, e);
    if e > 0 {
        lemma_pow_strictly_increases(10, 0, e);
    }
}

pub proof fn lemma_p10_adds(a: nat, b: nat)
    ensures
        p10(a + b) == p10(a) * p10(b),
{
    lemma_pow_adds(10, a, b);
}

pub proof fn lemma_p10_increases(a: nat, b: nat)
    requires
        a <= b,
    ensures
        p10(a) <= p10(b),
        a < b ==> 10 * p10(a) <= p10(b),
{
    if a < b {
        lemma_pow_strictly_increases(10, a, b);
        lemma_p10_adds(a, (b - a) as nat);
        lemma_p10_pos((b - a - 1) as nat);
        lemma_p10_adds(1nat, (b - a - 1) as nat);
        lemma_p10_pos(a);
        lemma_pow1(10);
        vstd::arithmetic::mul::lemma_mul_inequality(10, p10((b - a) as nat), p10(a));
        vstd::arithmetic::mul::lemma_mul_is_commutative(p10(a), p10((b - a) as nat));
        assert(10 * p10(a) <= p10((b - a) as nat) * p10(a)) by {
            vstd::arithmetic::mul::lemma_mul_inequality(10, p10((b - a) as nat), p10(a));
        }
    }
}

/// Number of decimal digits; zero is counted as one digit.
pub open spec fn n_digits(a: nat) -> nat
    decreases a,
{
    if a < 10 {
        1
    } else {
        1 + n_digits(a / 10)
    }
}

pub proof fn lemma_n_digits_bounds(a: nat)
    requires
        a >= 1,
    ensures
        p10((n_digits(a) - 1) as nat) <= a < p10(n_digits(a)),
        n_digits(a) >= 1,
    decreases a,
{
    lemma_pow0(10);
    lemma_pow1(10);
    if a < 10 {
    } else {
        lemma_n_digits_bounds(a / 10);
        let d = n_digits((a / 10) as nat);
        lemma_fundamental_div_mod(a as int, 10);
        lemma_p10_adds((d - 1) as nat, 1);
        lemma_p10_adds(d, 1);
        lemma_p10_pos((d - 1) as nat);
        assert(a >= 10 * (a / 10)) by {
            lemma_remainder_lower(a as int, 10);
        }
        assert(10 * (a / 10) >= 10 * p10((d - 1) as nat)) by (nonlinear_arith)
            requires
                a / 10 >= p10((d - 1) as nat),
        ;
        assert(a < 10 * (a / 10) + 10);
        assert(10 * (a / 10) + 10 <= 10 * p10(d)) by (nonlinear_arith)
            requires
                (a / 10) < p10(d),
        ;
    }
}

pub proof fn lemma_n_digits_of_bounded(a: nat, d: nat)
    requires
        a >= 1,
        d >= 1,
        p10((d - 1) as nat) <= a < p10(d),
    ensures
        n_digits(a) == d,
{
    lemma_n_digits_bounds(a);
    let n = n_digits(a);
    if n < d {
        lemma_p10_increases(n, (d - 1) as nat);
        assert(a < p10((d - 1) as nat));
    }
    if n > d {
        lemma_p10_increases(d, (n - 1) as nat);
        assert(a >= p10(d));
    }
}

/// The digits of `a` with trailing zeros removed (`strip_tz(4500) == 45`).
pub open spec fn strip_tz(a: nat) -> nat
    decreases a,
{
    if a == 0 {
        0
    } else if a % 10 == 0 {
        strip_tz(a / 10)
    } else {
        a
    }
}

/// How many trailing zeros `strip_tz` removes.
pub open spec fn tz_count(a: nat) -> nat
    decreases a,
{
    if a == 0 {
        0
    } else if a % 10 == 0 {
        1 + tz_count(a / 10)
    } else {
        0
    }
}

pub proof fn lemma_strip_tz(a: nat)
    requires
        a >= 1,
    ensures
        strip_tz(a) >= 1,
        strip_tz(a) % 10 != 0,
        a == strip_tz(a) * p10(tz_count(a)),
        strip_tz(a) <= a,
    decreases a,
{
    lemma_pow0(10);
    if a % 10 == 0 {
        lemma_fundamental_div_mod(a as int, 10);
        assert(a / 10 >= 1) by {
            assert(a >= 10) by {
                if a < 10 {
                    vstd::arithmetic::div_mod::lemma_small_mod(a, 10);
                }
            }
        }
        lemma_strip_tz(a / 10);
        let s = strip_tz((a / 10) as nat);
        let t = tz_count((a / 10) as nat);
        lemma_p10_adds(t, 1);
        lemma_pow1(10);
        assert(a == 10 * (a / 10));
        assert(10 * (s * p10(t)) == s * (p10(t) * 10)) by (nonlinear_arith);
    }
}

/// Concrete values of the powers of ten the executable code works with.
pub proof fn lemma_p10_vals()
    ensures
        p10(0) == 1,
        p10(1) == 10,
        p10(2) == 100,
        p10(3) == 1000,
        p10(4) == 10000,
        p10(5) == 100000,
        p10(8) == 100_000_000,
        p10(9) == 1_000_000_000,
        p10(16) == 10_000_000_000_000_000,
        p10(17) == 100_000_000_000_000_000,
        p10(18) == 1_000_000_000_000_000_000,
        p10(19) == 10_000_000_000_000_000_000,
        p10(36) == 1_000_000_000_000_000_000_000_000_000_000_000_000,
        p10(37) == 10_000_000_000_000_000_000_000_000_000_000_000_000,
        p10(38) == 100_000_000_000_000_000_000_000_000_000_000_000_000,
{
    reveal_with_fuel(pow, 40);
}

/// Composing two truncations: dropping `t1` digits and then `t2` more
/// is the same as dropping `t1 + t2` at once.
pub proof fn lemma_div_div_p10(a: nat, t1: nat, t2: nat)
    ensures
        a / p10(t1) as nat / p10(t2) as nat == a / p10(t1 + t2) as nat,
{
    lemma_p10_pos(t1);
    lemma_p10_pos(t2);
    lemma_p10_adds(t1, t2);
    lemma_div_denominator(a as int, p10(t1), p10(t2));
}

/// Exact division of adjacent powers of ten.
pub proof fn lemma_p10_div(a: nat, b: nat)
    ensures
        p10(a + b) / p10(b) == p10(a),
{
    lemma_p10_adds(a, b);
    lemma_p10_pos(b);
    lemma_p10_pos(a);
    vstd::arithmetic::div_mod::lemma_div_multiples_vanish(p10(a), p10(b));
    assert(p10(a) * p10(b) == p10(b) * p10(a)) by (nonlinear_arith);
}

/// Executable decimal digit count.
pub fn ndigits_u64(m: u64) -> (r: u64)
    ensures
        r == n_digits(m as nat),
        1 <= r <= 20,
{
    let mut a: u64 = m;
    let mut r: u64 = 1;
    proof {
        lemma_n_digits_rec_bound(m as nat);
    }
    while a >= 10
        invariant
            n_digits(m as nat) == r + n_digits(a as nat) - 1,
            r + n_digits(a as nat) - 1 <= 20,
            r >= 1,
        decreases a,
    {
        proof {
            lemma_n_digits_rec_bound(a as nat);
        }
        a = a / 10;
        r = r + 1;
    }
    r
}

/// Executable decimal digit count for `u128`.
pub fn ndigits_u128(m: u128) -> (r: u64)
    ensures
        r == n_digits(m as nat),
        1 <= r <= 39,
{
    let mut a: u128 = m;
    let mut r: u64 = 1;
    proof {
        lemma_n_digits_rec_bound_128(m as nat);
    }
    while a >= 10
        invariant
            n_digits(m as nat) == r + n_digits(a as nat) - 1,
            r + n_digits(a as nat) - 1 <= 39,
            r >= 1,
        decreases a,
    {
        proof {
            lemma_n_digits_rec_bound_128(a as nat);
        }
        a = a / 10;
        r = r + 1;
    }
    r
}

proof fn lemma_n_digits_rec_bound(a: nat)
    requires
        a <= u64::MAX,
    ensures
        n_digits(a) <= 20,
        a >= 10 ==> n_digits(a) == 1 + n_digits(a / 10),
{
    lemma_p10_vals();
    lemma_p10_adds(19, 1);
    lemma_pow1(10);
    lemma_n_digits_le(a, 20);
}

proof fn lemma_n_digits_rec_bound_128(a: nat)
    requires
        a <= u128::MAX,
    ensures
        n_digits(a) <= 39,
        a >= 10 ==> n_digits(a) == 1 + n_digits(a / 10),
{
    lemma_p10_vals();
    lemma_p10_adds(38, 1);
    lemma_pow1(10);
    lemma_n_digits_le(a, 39);
}

/// If `a < 10^d` then `a` has at most `d` digits.
pub proof fn lemma_n_digits_le(a: nat, d: nat)
    requires
        d >= 1,
        a < p10(d),
    ensures
        n_digits(a) <= d,
    decreases d,
{
    lemma_pow1(10);
    if a < 10 {
    } else {
        if d == 1 {
            assert(false);
        } else {
            lemma_p10_adds((d - 1) as nat, 1);
            assert(a / 10 < p10((d - 1) as nat)) by {
                lemma_p10_pos((d - 1) as nat);
                assert(a < p10((d - 1) as nat) * 10) by (nonlinear_arith)
                    requires
                        a < p10(d),
                        p10(d) == p10((d - 1) as nat) * p10(1),
                        p10(1) == 10,
                ;
                vstd::arithmetic::div_mod::lemma_multiply_divide_lt(
                    a as int,
                    10,
                    p10((d - 1) as nat),
                );
            }
            lemma_n_digits_le((a / 10) as nat, (d - 1) as nat);
        }
    }
}

/// Executable power of ten within `u64` range.
pub fn pow10_u64(k: u64) -> (r: u64)
    requires
        k <= 19,
    ensures
        r == p10(k as nat),
{
    let mut r: u64 = 1;
    let mut i: u64 = 0;
    proof {
        lemma_pow0(10);
    }
    while i < k
        invariant
            i <= k <= 19,
            r == p10(i as nat),
        decreases k - i,
    {
        proof {
            lemma_p10_adds(i as nat, 1);
            lemma_pow1(10);
            lemma_p10_increases((i + 1) as nat, k as nat);
            lemma_p10_increases(k as nat, 19);
            lemma_p10_vals();
        }
        r = r * 10;
        i = i + 1;
    }
    r
}

/// Executable power of ten within `u128` range.
pub fn pow10_u128(k: u64) -> (r: u128)
    requires
        k <= 38,
    ensures
        r == p10(k as nat),
{
    let mut r: u128 = 1;
    let mut i: u64 = 0;
    proof {
        lemma_pow0(10);
    }
    while i < k
        invariant
            i <= k <= 38,
            r == p10(i as nat),
        decreases k - i,
    {
        proof {
            lemma_p10_adds(i as nat, 1);
            lemma_pow1(10);
            lemma_p10_increases((i + 1) as nat, k as nat);
            lemma_p10_increases(k as nat, 38);
            lemma_p10_vals();
        }
        r = r * 10;
        i = i + 1;
    }
    r
}

} // verus!
