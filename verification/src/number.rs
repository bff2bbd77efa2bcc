//! The calculator's numeric value: an exact decimal significand of at
//! most eighteen digits and a power-of-ten exponent, kept canonical
//! (no trailing zeros in the significand) and bounded in magnitude by
//! `1e100`. Arithmetic truncates toward zero beyond the eighteenth
//! significant digit; an addend more than eighteen orders of magnitude
//! below the other operand is absorbed.

use vstd::prelude::*;
use crate::digits::{
    n_digits, ndigits_u64, ndigits_u128, p10, pow10_u64, pow10_u128, strip_tz, tz_count,
    lemma_n_digits_bounds, lemma_n_digits_le, lemma_n_digits_of_bounded, lemma_p10_adds,
    lemma_p10_div, lemma_p10_increases, lemma_p10_pos, lemma_p10_vals, lemma_strip_tz,
};
use crate::errors::CalculatorError;
use crate::num_format::{render_plain, spec_plain};
use crate::chars::string_from_chars;

verus! {

/// A decimal number: `(-1)^negative * mant * 10^exp`.
#[derive(Debug, Clone, Copy, PartialEq, Eq, Structural)]
pub struct Number {
    /// Sign; never set when the value is zero.
    pub negative: bool,
    /// Significand, canonical: zero, or under `10^18` with no trailing zero.
    pub mant: u64,
    /// Decimal exponent.
    pub exp: i64,
}

/// `m * 10^e <= 10^100`, stated over naturals; meaningful for `e >= -4000`.
pub open spec fn le_bound(m: nat, e: int) -> bool {
    m * p10((e + 4000) as nat) <= p10(4100)
}

impl Number {
    /// Well-formedness: canonical significand, magnitude at most `1e100`,
    /// and no value below the smallest order the calculator keeps.
    pub open spec fn inv(self) -> bool {
        if self.mant == 0 {
            self.exp == 0 && !self.negative
        } else {
            &&& self.mant % 10 != 0
            &&& self.mant < 1_000_000_000_000_000_000u64
            &&& -340 <= self.exp <= 100
            &&& le_bound(self.mant as nat, self.exp as int)
            &&& self.exp + n_digits(self.mant as nat) - 1 >= -323
        }
    }

    /// The signed significand as a mathematical integer.
    pub open spec fn signed_mant(self) -> int {
        if self.negative {
            -(self.mant as int)
        } else {
            self.mant as int
        }
    }

    /// Zero.
    pub fn zero() -> (r: Number)
        ensures
            r == spec_zero(),
            r.inv(),
    {
        Number { negative: false, mant: 0, exp: 0 }
    }

    /// Whether the value is zero.
    pub fn is_zero(&self) -> (r: bool)
        ensures
            r == (self.mant == 0),
    {
        self.mant == 0
    }
}

/// The zero value.
pub open spec fn spec_zero() -> Number {
    Number { negative: false, mant: 0, exp: 0 }
}

/// Normalization: truncate the magnitude `a` toward zero to eighteen
/// significant digits, strip trailing zeros, and flush to zero anything
/// below order `-323`. This is the single rounding rule of the library.
pub open spec fn spec_norm(sgn: bool, a: nat, e: int) -> Number {
    if a == 0 {
        spec_zero()
    } else {
        let nd = n_digits(a);
        let t: nat = if nd > 18 {
            (nd - 18) as nat
        } else {
            0
        };
        let a1 = a / (p10(t) as nat);
        let e1 = e + t;
        let a2 = strip_tz(a1);
        let e2 = e1 + tz_count(a1);
        if a2 == 0 {
            spec_zero()
        } else if e2 + n_digits(a2) - 1 < -323 {
            spec_zero()
        } else {
            Number { negative: sgn, mant: a2 as u64, exp: e2 as i64 }
        }
    }
}

/// Whether the normalized value of `a * 10^e` stays within `1e100`.
pub open spec fn spec_norm_fits(sgn: bool, a: nat, e: int) -> bool {
    let n = spec_norm(sgn, a, e);
    n.mant == 0 || le_bound(n.mant as nat, n.exp as int)
}

/// The text reported when a result exceeds the bound: the plain
/// rendering of the too-large value.
pub open spec fn spec_oor_text(sgn: bool, a: nat, e: int) -> Seq<char> {
    spec_plain(spec_norm(sgn, a, e).negative, spec_norm(sgn, a, e).mant as nat, spec_norm(
        sgn,
        a,
        e,
    ).exp as int)
}

/// The range check on canonical parts, stated through the decimal order.
proof fn lemma_range_check(m: nat, e1: int)
    requires
        1 <= m < p10(18),
        -4000 <= e1 <= 4100,
    ensures
        le_bound(m, e1) <==> {
            let order = e1 + n_digits(m) - 1;
            order < 100 || (order == 100 && m == p10((n_digits(m) - 1) as nat))
        },
{
    let nd = n_digits(m);
    lemma_n_digits_bounds(m);
    let order = e1 + nd - 1;
    let ee: nat = (e1 + 4000) as nat;
    lemma_p10_pos(ee);
    lemma_p10_adds((nd - 1) as nat, ee);
    lemma_p10_adds(nd, ee);
    if order < 100 {
        // m * p10(ee) < p10(nd + ee) <= p10(4100)
        assert(m * p10(ee) < p10(nd) * p10(ee)) by (nonlinear_arith)
            requires
                m < p10(nd),
                p10(ee) >= 1,
        ;
        lemma_p10_increases((nd + ee) as nat, 4100);
        assert(le_bound(m, e1));
    } else if order == 100 && m == p10((nd - 1) as nat) {
        assert(m * p10(ee) == p10((nd - 1 + ee) as nat));
        assert(le_bound(m, e1));
    } else if order == 100 {
        // m > p10(nd - 1), so m * p10(ee) > p10(4100)
        assert(m * p10(ee) >= (p10((nd - 1) as nat) + 1) * p10(ee)) by (nonlinear_arith)
            requires
                m >= p10((nd - 1) as nat) + 1,
                p10(ee) >= 1,
        ;
        assert((p10((nd - 1) as nat) + 1) * p10(ee) == p10((nd - 1 + ee) as nat) + p10(ee))
            by (nonlinear_arith)
            requires
                p10((nd - 1) as nat) * p10(ee) == p10((nd - 1 + ee) as nat),
        ;
        assert(!le_bound(m, e1));
    } else {
        // order >= 101
        assert(m * p10(ee) >= p10((nd - 1) as nat) * p10(ee)) by (nonlinear_arith)
            requires
                m >= p10((nd - 1) as nat),
                p10(ee) >= 1,
        ;
        lemma_p10_increases(4101, (nd - 1 + ee) as nat);
        lemma_p10_increases(4100, 4101);
        assert(p10((nd - 1 + ee) as nat) > p10(4100)) by {
            lemma_p10_pos(4100);
            assert(10 * p10(4100) <= p10(4101));
        }
        assert(!le_bound(m, e1));
    }
}

/// A canonical in-range value normalizes to itself.
pub proof fn lemma_norm_identity(n: Number)
    requires
        n.inv(),
    ensures
        spec_norm(n.negative, n.mant as nat, n.exp as int) == n,
{
    if n.mant == 0 {
    } else {
        lemma_p10_vals();
        lemma_n_digits_le(n.mant as nat, 18);
        assert(n_digits(n.mant as nat) <= 18);
        lemma_p10_pos(0);
        assert(p10(0) == 1) by {
            lemma_p10_vals();
        }
        assert((n.mant as nat) / (p10(0) as nat) == n.mant as nat) by {
            vstd::arithmetic::div_mod::lemma_div_by_self(1);
            assert((n.mant as nat) / 1nat == n.mant as nat);
        }
        assert(strip_tz(n.mant as nat) == n.mant as nat);
        assert(tz_count(n.mant as nat) == 0);
    }
}

/// Normalizes `(-1)^sgn * a * 10^e`, reporting a value above `1e100`
/// as a `NumberOutOfRange` error carrying its plain rendering.
pub(crate) fn norm_u128(sgn: bool, a: u128, e: i64) -> (r: Result<Number, CalculatorError>)
    requires
        (a as nat) < p10(37),
        -4000 <= e <= 4000,
    ensures
        r is Ok <==> spec_norm_fits(sgn, a as nat, e as int),
        r matches Ok(n) ==> n == spec_norm(sgn, a as nat, e as int) && n.inv(),
        r matches Err(ce) ==> ce matches CalculatorError::NumberOutOfRange(s) && s@
            == spec_oor_text(sgn, a as nat, e as int),
{
    proof {
        lemma_p10_vals();
    }
    if a == 0 {
        return Ok(Number::zero());
    }
    let nd = ndigits_u128(a);
    proof {
        lemma_n_digits_le(a as nat, 37);
        lemma_n_digits_bounds(a as nat);
    }
    let t: u64 = if nd > 18 {
        nd - 18
    } else {
        0
    };
    let pt = pow10_u128(t);
    proof {
        lemma_p10_pos(t as nat);
    }
    let a0: u128 = a / pt;
    let ghost ga1: nat = (a as nat) / (p10(t as nat) as nat);
    proof {
        lemma_p10_pos(t as nat);
        assert(a0 as nat == ga1);
        // a0 < p10(18)
        lemma_p10_adds(t as nat, 18);
        assert((a as nat) < p10(t as nat) * p10(18)) by {
            lemma_p10_increases(nd as nat, (t + 18) as nat);
        }
        vstd::arithmetic::div_mod::lemma_multiply_divide_lt(a as int, p10(t as nat), p10(18));
        // a0 >= 1
        if t > 0 {
            lemma_p10_div((nd - 1 - t) as nat, t as nat);
            vstd::arithmetic::div_mod::lemma_div_is_ordered(
                p10((nd - 1) as nat),
                a as int,
                p10(t as nat),
            );
            lemma_p10_pos((nd - 1 - t) as nat);
        } else {
            assert(p10(0) == 1);
            assert(ga1 == (a as nat) / 1nat);
        }
    }
    let mut a1: u128 = a0;
    let mut e1: i64 = e + t as i64;
    proof {
        lemma_tz_le_ndigits(a0 as nat);
        lemma_n_digits_le(a0 as nat, 18);
    }
    while a1 % 10 == 0
        invariant
            1 <= a1 as nat <= a0 as nat,
            (a0 as nat) < p10(18),
            tz_count(a0 as nat) <= 18,
            strip_tz(a1 as nat) == strip_tz(a0 as nat),
            e1 + tz_count(a1 as nat) == e + t + tz_count(a0 as nat),
            e1 >= e + t,
            e1 <= e + t + 18,
            -4000 <= e + t <= 4038,
        decreases a1,
    {
        proof {
            lemma_strip_tz(a1 as nat);
            assert(a1 as nat >= 10) by {
                if (a1 as nat) < 10 {
                    vstd::arithmetic::div_mod::lemma_small_mod(a1 as nat, 10);
                }
            }
            assert(tz_count(a1 as nat) <= 18) by {
                lemma_tz_le_ndigits(a1 as nat);
                lemma_n_digits_le(a1 as nat, 18);
            }
        }
        a1 = a1 / 10;
        e1 = e1 + 1;
    }
    proof {
        assert(strip_tz(a1 as nat) == a1 as nat);
        assert(tz_count(a1 as nat) == 0);
        lemma_strip_tz(a0 as nat);
        assert(a1 as nat == strip_tz(a0 as nat));
    }
    let m: u64 = a1 as u64;
    let nd2 = ndigits_u64(m);
    proof {
        lemma_n_digits_bounds(m as nat);
        lemma_n_digits_le(m as nat, 18);
    }
    let order: i64 = e1 + nd2 as i64 - 1;
    if order < -323 {
        return Ok(Number::zero());
    }
    proof {
        lemma_range_check(m as nat, e1 as int);
    }
    if order > 100 || (order == 100 && m != pow10_u64(nd2 - 1)) {
        let text = string_from_chars(&render_plain(sgn, m, e1));
        proof {
            assert(!le_bound(m as nat, e1 as int));
        }
        return Err(CalculatorError::NumberOutOfRange(text));
    }
    proof {
        assert(le_bound(m as nat, e1 as int));
    }
    Ok(Number { negative: sgn, mant: m, exp: e1 })
}

/// The negated value; zero stays zero.
pub open spec fn spec_neg(n: Number) -> Number {
    if n.mant == 0 {
        n
    } else {
        Number { negative: !n.negative, ..n }
    }
}

/// Sign, magnitude and exponent of the exact sum. An addend more than
/// eighteen orders of magnitude below the other operand is absorbed.
pub open spec fn spec_add_parts(a: Number, b: Number) -> (bool, nat, int) {
    if a.mant == 0 {
        (b.negative, b.mant as nat, b.exp as int)
    } else if b.mant == 0 {
        (a.negative, a.mant as nat, a.exp as int)
    } else if a.exp - b.exp > 18 {
        (a.negative, a.mant as nat, a.exp as int)
    } else if b.exp - a.exp > 18 {
        (b.negative, b.mant as nat, b.exp as int)
    } else {
        let e: int = if a.exp <= b.exp {
            a.exp as int
        } else {
            b.exp as int
        };
        let s = a.signed_mant() * p10((a.exp - e) as nat) + b.signed_mant() * p10(
            (b.exp - e) as nat,
        );
        (s < 0, (if s < 0 { -s } else { s }) as nat, e)
    }
}

/// The normalized sum.
pub open spec fn spec_add(a: Number, b: Number) -> Number {
    spec_norm(spec_add_parts(a, b).0, spec_add_parts(a, b).1, spec_add_parts(a, b).2)
}

/// The normalized difference.
pub open spec fn spec_sub(a: Number, b: Number) -> Number {
    spec_add(a, spec_neg(b))
}

/// Sign, magnitude and exponent of the exact product.
pub open spec fn spec_mul_parts(a: Number, b: Number) -> (bool, nat, int) {
    (a.negative != b.negative, (a.mant * b.mant) as nat, a.exp + b.exp)
}

/// The normalized product.
pub open spec fn spec_mul(a: Number, b: Number) -> Number {
    spec_norm(spec_mul_parts(a, b).0, spec_mul_parts(a, b).1, spec_mul_parts(a, b).2)
}

/// Sign, magnitude and exponent of the quotient: the dividend is scaled
/// so the integer quotient keeps at least eighteen significant digits,
/// then truncated toward zero.
pub open spec fn spec_div_parts(a: Number, b: Number) -> (bool, nat, int) {
    let k = 37 - n_digits(a.mant as nat);
    let q = (a.mant * p10(k as nat)) / (b.mant as int);
    (a.negative != b.negative, q as nat, a.exp - b.exp - k)
}

/// The normalized quotient (only meaningful for a nonzero divisor).
pub open spec fn spec_div(a: Number, b: Number) -> Number {
    spec_norm(spec_div_parts(a, b).0, spec_div_parts(a, b).1, spec_div_parts(a, b).2)
}

impl Number {
    /// The negation; the sign simply flips, nothing is recomputed.
    pub fn negated(&self) -> (r: Number)
        requires
            self.inv(),
        ensures
            r == spec_neg(*self),
            r.inv(),
    {
        if self.mant == 0 {
            *self
        } else {
            Number { negative: !self.negative, mant: self.mant, exp: self.exp }
        }
    }

    /// Addition, truncated to eighteen significant digits; fails with
    /// `NumberOutOfRange` when the sum's magnitude exceeds `1e100`.
    pub fn checked_add(&self, other: &Number) -> (r: Result<Number, CalculatorError>)
        requires
            self.inv(),
            other.inv(),
        ensures
            r is Ok <==> spec_norm_fits(
                spec_add_parts(*self, *other).0,
                spec_add_parts(*self, *other).1,
                spec_add_parts(*self, *other).2,
            ),
            r matches Ok(n) ==> n == spec_add(*self, *other) && n.inv(),
            r matches Err(ce) ==> ce matches CalculatorError::NumberOutOfRange(s) && s@
                == spec_oor_text(
                spec_add_parts(*self, *other).0,
                spec_add_parts(*self, *other).1,
                spec_add_parts(*self, *other).2,
            ),
    {
        if self.mant == 0 {
            proof {
                lemma_norm_identity(*other);
            }
            return Ok(*other);
        }
        if other.mant == 0 {
            proof {
                lemma_norm_identity(*self);
            }
            return Ok(*self);
        }
        if self.exp - other.exp > 18 {
            proof {
                lemma_norm_identity(*self);
            }
            return Ok(*self);
        }
        if other.exp - self.exp > 18 {
            proof {
                lemma_norm_identity(*other);
            }
            return Ok(*other);
        }
        let e: i64 = if self.exp <= other.exp {
            self.exp
        } else {
            other.exp
        };
        let da = (self.exp - e) as u64;
        let db = (other.exp - e) as u64;
        let pa = pow10_u128(da);
        let pb = pow10_u128(db);
        proof {
            lemma_p10_vals();
            lemma_p10_increases(da as nat, 18);
            lemma_p10_increases(db as nat, 18);
            lemma_p10_pos(da as nat);
            lemma_p10_pos(db as nat);
            lemma_mant_shift_bound(self.mant as nat, da as nat);
            lemma_mant_shift_bound(other.mant as nat, db as nat);
        }
        let ma: u128 = (self.mant as u128) * pa;
        let mb: u128 = (other.mant as u128) * pb;
        let sgn: bool;
        let mag: u128;
        if self.negative == other.negative {
            sgn = self.negative;
            mag = ma + mb;
        } else if ma >= mb {
            sgn = self.negative;
            mag = ma - mb;
        } else {
            sgn = other.negative;
            mag = mb - ma;
        }
        proof {
            lemma_p10_vals();
            assert(ma >= 1 && mb >= 1) by (nonlinear_arith)
                requires
                    ma == (self.mant as nat) * p10(da as nat),
                    mb == (other.mant as nat) * p10(db as nat),
                    self.mant >= 1,
                    other.mant >= 1,
                    p10(da as nat) >= 1,
                    p10(db as nat) >= 1,
            ;
            let sa = self.signed_mant() * p10(da as nat);
            let sb = other.signed_mant() * p10(db as nat);
            assert(sa == if self.negative { -(ma as int) } else { ma as int }) by (nonlinear_arith)
                requires
                    (ma as int) == (self.mant as int) * p10(da as nat),
                    sa == (if self.negative { -(self.mant as int) } else { self.mant as int })
                        * p10(da as nat),
            ;
            assert(sb == if other.negative { -(mb as int) } else { mb as int })
                by (nonlinear_arith)
                requires
                    (mb as int) == (other.mant as int) * p10(db as nat),
                    sb == (if other.negative { -(other.mant as int) } else { other.mant as int })
                        * p10(db as nat),
            ;
            let parts = spec_add_parts(*self, *other);
            assert(parts.2 == e as int);
            assert(sa + sb == (if parts.0 { -(parts.1 as int) } else { parts.1 as int }));
            assert(mag as nat == parts.1 && (mag != 0 ==> sgn == parts.0));
            if mag == 0 {
                assert(spec_norm(sgn, mag as nat, e as int) == spec_norm(
                    parts.0,
                    parts.1,
                    parts.2,
                ));
            }
            assert((mag as nat) < p10(37));
        }
        norm_u128(sgn, mag, e)
    }

    /// Subtraction: addition of the negated second operand.
    pub fn checked_sub(&self, other: &Number) -> (r: Result<Number, CalculatorError>)
        requires
            self.inv(),
            other.inv(),
        ensures
            r is Ok <==> spec_norm_fits(
                spec_add_parts(*self, spec_neg(*other)).0,
                spec_add_parts(*self, spec_neg(*other)).1,
                spec_add_parts(*self, spec_neg(*other)).2,
            ),
            r matches Ok(n) ==> n == spec_sub(*self, *other) && n.inv(),
            r matches Err(ce) ==> ce matches CalculatorError::NumberOutOfRange(s) && s@
                == spec_oor_text(
                spec_add_parts(*self, spec_neg(*other)).0,
                spec_add_parts(*self, spec_neg(*other)).1,
                spec_add_parts(*self, spec_neg(*other)).2,
            ),
    {
        let nb = other.negated();
        self.checked_add(&nb)
    }

    /// Multiplication, truncated to eighteen significant digits; fails
    /// with `NumberOutOfRange` when the product's magnitude exceeds `1e100`.
    pub fn checked_mul(&self, other: &Number) -> (r: Result<Number, CalculatorError>)
        requires
            self.inv(),
            other.inv(),
        ensures
            r is Ok <==> spec_norm_fits(
                spec_mul_parts(*self, *other).0,
                spec_mul_parts(*self, *other).1,
                spec_mul_parts(*self, *other).2,
            ),
            r matches Ok(n) ==> n == spec_mul(*self, *other) && n.inv(),
            r matches Err(ce) ==> ce matches CalculatorError::NumberOutOfRange(s) && s@
                == spec_oor_text(
                spec_mul_parts(*self, *other).0,
                spec_mul_parts(*self, *other).1,
                spec_mul_parts(*self, *other).2,
            ),
    {
        proof {
            lemma_p10_vals();
            assert((self.mant as nat) * (other.mant as nat) < p10(36)) by (nonlinear_arith)
                requires
                    (self.mant as nat) < p10(18),
                    (other.mant as nat) < p10(18),
                    p10(18) * p10(18) == p10(36),
                    self.mant == 0 || other.mant == 0 || true,
            ;
            lemma_p10_adds(18, 18);
            lemma_p10_increases(36, 37);
        }
        let mag: u128 = (self.mant as u128) * (other.mant as u128);
        let sgn = self.negative != other.negative;
        let e = self.exp + other.exp;
        norm_u128(sgn, mag, e)
    }

    /// Division by a nonzero divisor: the quotient is computed to at
    /// least eighteen significant digits and truncated toward zero;
    /// fails with `NumberOutOfRange` above `1e100`.
    pub fn checked_div(&self, other: &Number) -> (r: Result<Number, CalculatorError>)
        requires
            self.inv(),
            other.inv(),
            other.mant != 0,
        ensures
            r is Ok <==> spec_norm_fits(
                spec_div_parts(*self, *other).0,
                spec_div_parts(*self, *other).1,
                spec_div_parts(*self, *other).2,
            ),
            r matches Ok(n) ==> n == spec_div(*self, *other) && n.inv(),
            r matches Err(ce) ==> ce matches CalculatorError::NumberOutOfRange(s) && s@
                == spec_oor_text(
                spec_div_parts(*self, *other).0,
                spec_div_parts(*self, *other).1,
                spec_div_parts(*self, *other).2,
            ),
    {
        let nda = ndigits_u64(self.mant);
        proof {
            lemma_p10_vals();
            if self.mant != 0 {
                lemma_n_digits_bounds(self.mant as nat);
                lemma_n_digits_le(self.mant as nat, 18);
            }
        }
        let k: u64 = 37 - nda;
        let pk = pow10_u128(k);
        proof {
            lemma_p10_pos(k as nat);
            lemma_mant_shift_bound_37(self.mant as nat, k as nat);
        }
        let sh: u128 = (self.mant as u128) * pk;
        let q: u128 = sh / (other.mant as u128);
        proof {
            vstd::arithmetic::div_mod::lemma_div_is_ordered(
                q as int,
                sh as int,
                1,
            );
            assert(q as nat <= sh as nat) by {
                vstd::arithmetic::div_mod::lemma_remainder_upper(sh as int, other.mant as int);
                vstd::arithmetic::div_mod::lemma_div_is_ordered_by_denominator(
                    sh as int,
                    1,
                    other.mant as int,
                );
                vstd::arithmetic::div_mod::lemma_div_by_self(1);
            }
        }
        let e = self.exp - other.exp - k as i64;
        norm_u128(self.negative != other.negative, q, e)
    }

    /// One hundredth of the value; exact, never out of range.
    pub fn percent(&self) -> (r: Number)
        requires
            self.inv(),
        ensures
            r == spec_norm(self.negative, self.mant as nat, self.exp - 2),
            r.inv(),
    {
        proof {
            lemma_p10_vals();
        }
        match norm_u128(self.negative, self.mant as u128, self.exp - 2) {
            Ok(n) => n,
            Err(_) => {
                proof {
                    lemma_percent_fits(*self);
                    assert(false);
                }
                Number::zero()
            },
        }
    }
}

/// A significand shifted by at most eighteen places stays under `10^36`.
proof fn lemma_mant_shift_bound(m: nat, d: nat)
    requires
        m < p10(18),
        d <= 18,
    ensures
        m * p10(d) < p10(36),
        m * p10(d) < p10(37),
{
    lemma_p10_increases(d, 18);
    lemma_p10_adds(18, 18);
    lemma_p10_increases(36, 37);
    lemma_p10_pos(d);
    assert(m * p10(d) < p10(18) * p10(18)) by (nonlinear_arith)
        requires
            m < p10(18),
            1 <= p10(d) <= p10(18),
    ;
}

/// The scaled dividend stays under `10^37`.
proof fn lemma_mant_shift_bound_37(m: nat, k: nat)
    requires
        m == 0 || (p10((n_digits(m) - 1) as nat) <= m < p10(n_digits(m))),
        m < p10(18),
        k == 37 - n_digits(m),
        n_digits(m) <= 18,
    ensures
        m * p10(k) < p10(37),
{
    let nd = n_digits(m);
    lemma_p10_pos(k);
    lemma_p10_adds(nd, k);
    if m == 0 {
        lemma_p10_pos(37);
    } else {
        assert(m * p10(k) < p10(nd) * p10(k)) by (nonlinear_arith)
            requires
                m < p10(nd),
                p10(k) >= 1,
        ;
    }
}

/// Dividing a canonical value by one hundred never leaves the range.
proof fn lemma_percent_fits(n: Number)
    requires
        n.inv(),
    ensures
        spec_norm_fits(n.negative, n.mant as nat, n.exp - 2),
{
    if n.mant == 0 {
    } else {
        lemma_norm_identity(n);
        let m = n.mant as nat;
        let e = n.exp as int;
        lemma_p10_vals();
        lemma_n_digits_le(m, 18);
        // the normalization of (m, e - 2) keeps the significand
        assert((m as nat) / (p10(0) as nat) == m) by {
            lemma_p10_vals();
        }
        let nrm = spec_norm(n.negative, m, e - 2);
        if nrm.mant != 0 {
            assert(nrm.mant == n.mant && nrm.exp == e - 2);
            // le_bound(m, e - 2) follows from le_bound(m, e)
            lemma_p10_adds((e - 2 + 4000) as nat, 2);
            lemma_p10_pos((e - 2 + 4000) as nat);
            assert(m * p10((e - 2 + 4000) as nat) <= m * p10((e + 4000) as nat))
                by (nonlinear_arith)
                requires
                    m >= 0,
                    p10((e - 2 + 4000) as nat) * p10(2) == p10((e + 4000) as nat),
                    p10(2) >= 1,
                    p10((e - 2 + 4000) as nat) >= 1,
            ;
        }
    }
}

/// A value of at most eighteen digits whose order stays below one
/// hundred normalizes within the bound.
pub(crate) proof fn lemma_norm_fits_small(sgn: bool, a: nat, e: int)
    requires
        1 <= a < p10(18),
        -4000 <= e <= 4000,
        e + n_digits(a) - 1 < 100,
    ensures
        spec_norm_fits(sgn, a, e),
{
    lemma_p10_vals();
    lemma_n_digits_le(a, 18);
    vstd::arithmetic::div_mod::lemma_div_basics(a as int);
    assert(a / (p10(0) as nat) == a);
    let a2 = strip_tz(a);
    let tz = tz_count(a);
    lemma_strip_tz(a);
    lemma_n_digits_bounds(a2);
    let nd2 = n_digits(a2);
    // a == a2 * 10^tz, so n_digits(a) == nd2 + tz
    lemma_p10_adds((nd2 - 1) as nat, tz);
    lemma_p10_adds(nd2, tz);
    lemma_p10_pos(tz);
    assert(a >= p10((nd2 - 1 + tz) as nat)) by (nonlinear_arith)
        requires
            a == a2 * p10(tz),
            a2 >= p10((nd2 - 1) as nat),
            p10(tz) >= 1,
            p10((nd2 - 1) as nat) * p10(tz) == p10((nd2 - 1 + tz) as nat),
    ;
    assert(a < p10((nd2 + tz) as nat)) by (nonlinear_arith)
        requires
            a == a2 * p10(tz),
            a2 < p10(nd2),
            p10(tz) >= 1,
            p10(nd2) * p10(tz) == p10((nd2 + tz) as nat),
    ;
    lemma_n_digits_of_bounded(a, (nd2 + tz) as nat);
    let e2 = e + tz;
    let n = spec_norm(sgn, a, e);
    if e2 + nd2 - 1 < -323 {
    } else {
        assert(n == Number { negative: sgn, mant: a2 as u64, exp: e2 as i64 });
        lemma_range_check(a2, e2);
        assert(le_bound(a2, e2));
    }
}

proof fn lemma_tz_le_ndigits(a: nat)
    requires
        a >= 1,
    ensures
        tz_count(a) <= n_digits(a) - 1,
    decreases a,
{
    if a % 10 == 0 {
        vstd::arithmetic::div_mod::lemma_small_mod(a % 10 as nat, 10);
        assert(a >= 10) by {
            if a < 10 {
                vstd::arithmetic::div_mod::lemma_small_mod(a, 10);
            }
        }
        lemma_tz_le_ndigits(a / 10);
    }
}

} // verus!
