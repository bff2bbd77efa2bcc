//! Parsing of numeric literals: an optional sign, digits with at most
//! one decimal point, and an optional exponent part introduced by `e`
//! or `E` with its own optional sign. The value is truncated toward
//! zero to eighteen significant digits and bounds-checked.

use vstd::prelude::*;
use crate::chars::{spec_is_digit, spec_digit_val, char_is_digit, digit_val};
use crate::digits::{
    n_digits, ndigits_u64, p10, lemma_n_digits_bounds, lemma_n_digits_le,
    lemma_n_digits_of_bounded, lemma_p10_adds, lemma_p10_div, lemma_p10_increases, lemma_p10_pos,
    lemma_p10_vals, lemma_div_div_p10,
};
use crate::number::{
    Number, spec_zero, spec_norm, spec_norm_fits, norm_u128,
};

verus! {

/// What parsing a literal can produce.
#[derive(Debug, Clone, Copy, PartialEq, Eq, Structural)]
pub enum ParseOutcome {
    /// A value within bounds.
    Value(Number),
    /// Not a syntactically valid literal.
    Invalid,
    /// A valid literal whose magnitude exceeds `1e100`.
    OutOfRange,
}

/// Scan of the mantissa from index `i`: digits and at most one point,
/// ended by the end of the text (exponent position `-1`) or by an `e`
/// or `E` (exponent position just after it). Yields the digits' value,
/// the number of fraction digits, and that position; `None` when the
/// text is not a valid mantissa.
pub open spec fn scan_mant(
    s: Seq<char>,
    i: int,
    seen_digit: bool,
    seen_dot: bool,
    a: nat,
    frac: nat,
) -> Option<(nat, nat, int)>
    decreases s.len() - i,
{
    if i < 0 || i >= s.len() {
        if seen_digit {
            Option::Some((a, frac, -1))
        } else {
            Option::None
        }
    } else if spec_is_digit(s[i]) {
        scan_mant(
            s,
            i + 1,
            true,
            seen_dot,
            a * 10 + spec_digit_val(s[i]) as nat,
            if seen_dot {
                frac + 1
            } else {
                frac
            },
        )
    } else if s[i] == '.' {
        if seen_dot {
            Option::None
        } else {
            scan_mant(s, i + 1, seen_digit, true, a, frac)
        }
    } else if s[i] == 'e' || s[i] == 'E' {
        if seen_digit {
            Option::Some((a, frac, i + 1))
        } else {
            Option::None
        }
    } else {
        Option::None
    }
}

/// Scan of the exponent's digits from index `i`; at least one digit.
pub open spec fn scan_exp_digits(s: Seq<char>, i: int, acc: nat, any: bool) -> Option<nat>
    decreases s.len() - i,
{
    if i < 0 || i >= s.len() {
        if any {
            Option::Some(acc)
        } else {
            Option::None
        }
    } else if spec_is_digit(s[i]) {
        scan_exp_digits(s, i + 1, acc * 10 + spec_digit_val(s[i]) as nat, true)
    } else {
        Option::None
    }
}

/// The sign, magnitude digits' value and decimal exponent of a valid
/// literal; `None` when the text is not a valid literal.
pub open spec fn spec_lit(s: Seq<char>) -> Option<(bool, nat, int)> {
    let sgn = s.len() > 0 && s[0] == '-';
    let i0: int = if s.len() > 0 && (s[0] == '+' || s[0] == '-') {
        1
    } else {
        0
    };
    match scan_mant(s, i0, false, false, 0, 0) {
        Option::None => Option::None,
        Option::Some((a, frac, epos)) => {
            if epos < 0 {
                Option::Some((sgn, a, -(frac as int)))
            } else {
                let es = epos < s.len() && s[epos] == '-';
                let j: int = if epos < s.len() && (s[epos] == '+' || s[epos] == '-') {
                    epos + 1
                } else {
                    epos
                };
                match scan_exp_digits(s, j, 0, false) {
                    Option::None => Option::None,
                    Option::Some(ev) => Option::Some(
                        (
                            sgn,
                            a,
                            (if es {
                                -(ev as int)
                            } else {
                                ev as int
                            }) - frac,
                        ),
                    ),
                }
            }
        },
    }
}

/// The outcome of parsing a literal: invalid text is rejected, a zero
/// or vanishingly small value is zero, a magnitude beyond `1e100`
/// (after truncation to eighteen significant digits) is out of range,
/// and everything else is the normalized value.
pub open spec fn spec_parse(s: Seq<char>) -> ParseOutcome {
    match spec_lit(s) {
        Option::None => ParseOutcome::Invalid,
        Option::Some((sgn, a, e)) => {
            if a == 0 {
                ParseOutcome::Value(spec_zero())
            } else if e + n_digits(a) - 1 < -323 {
                ParseOutcome::Value(spec_zero())
            } else if e + n_digits(a) - 1 > 100 {
                ParseOutcome::OutOfRange
            } else if spec_norm_fits(sgn, a, e) {
                ParseOutcome::Value(spec_norm(sgn, a, e))
            } else {
                ParseOutcome::OutOfRange
            }
        },
    }
}

/// Exponent accumulation saturates here; far beyond any magnitude the
/// other parts of a literal can contribute.
const EXP_CAP: i128 = 1_000_000_000_000_000_000_000_000_000_000;

/// Raw parts of a valid literal: sign, the first eighteen significant
/// digits, how many further digits were cut, and the decimal order of
/// magnitude clamped to the window the callers' thresholds live in.
pub(crate) struct LitParts {
    pub sgn: bool,
    pub a: u64,
    pub t_drop: u64,
    pub ord: i64,
}

/// An order of magnitude clamped to `[-400, 400]`; every threshold the
/// library compares against lies strictly inside this window.
pub open spec fn clamp_ord(o: int) -> int {
    if o > 400 {
        400
    } else if o < -400 {
        -400
    } else {
        o
    }
}

/// How many digits truncation to eighteen significant digits drops.
pub open spec fn trunc_count(a: nat) -> nat {
    if n_digits(a) > 18 {
        (n_digits(a) - 18) as nat
    } else {
        0nat
    }
}

/// Scans a literal and returns its raw parts.
#[verifier::rlimit(100)]
#[verifier::loop_isolation(false)]
pub(crate) fn lit_parts(v: &Vec<char>) -> (r: Option<LitParts>)
    ensures
        r is Some <==> spec_lit(v@) is Some,
        (r matches Option::Some(p) ==> (spec_lit(v@) matches Option::Some(lp) && {
            &&& p.sgn == lp.0
            &&& ((p.a == 0) <==> (lp.1 == 0))
            &&& (lp.1 > 0 ==> {
                &&& (p.a as nat) == lp.1 / (p10(trunc_count(lp.1)) as nat)
                &&& (p.t_drop as nat) == trunc_count(lp.1)
                &&& p.ord == clamp_ord(lp.2 + n_digits(lp.1) - 1)
                &&& p.a > 0
                &&& (p.a as nat) < p10(18)
                &&& (p.t_drop > 0 ==> (p.a as nat) >= p10(17))
            })
        })),
{
    proof {
        lemma_p10_vals();
    }
    let len = v.len();
    let mut i: usize = 0;
    let mut sgn = false;
    if len > 0 {
        let c0 = v[0];
        if c0 == '+' || c0 == '-' {
            sgn = c0 == '-';
            i = 1;
        }
    }
    let ghost i0 = i as int;
    let mut a: u64 = 0;
    let ghost mut af: nat = 0nat;
    let mut t_drop: u64 = 0;
    let mut frac: usize = 0;
    let mut seen_digit = false;
    let mut seen_dot = false;
    let mut has_e = false;
    let ghost mut epos: int = 0;
    while i < len && !has_e
        invariant
            i0 <= i as int <= len as int,
            len == v@.len(),
            frac <= i,
            t_drop <= i as u64,
            sgn == (v@.len() > 0 && v@[0] == '-'),
            i0 == if v@.len() > 0 && (v@[0] == '+' || v@[0] == '-') {
                1int
            } else {
                0int
            },
            !has_e ==> scan_mant(v@, i0, false, false, 0, 0) == scan_mant(
                v@,
                i as int,
                seen_digit,
                seen_dot,
                af,
                frac as nat,
            ),
            has_e ==> scan_mant(v@, i0, false, false, 0, 0) == Option::Some(
                (af, frac as nat, epos),
            ) && epos == i as int && seen_digit,
            t_drop == 0 ==> af == (a as nat) && (a as nat) < p10(18),
            t_drop > 0 ==> p10(17) <= (a as nat) && (a as nat) < p10(18) && (a as nat) == af
                / (p10(t_drop as nat) as nat) && n_digits(af) == 18 + t_drop,
        decreases len - i,
    {
        let c = v[i];
        if char_is_digit(c) {
            let d = digit_val(c);
            proof {
                assert(scan_mant(v@, i as int, seen_digit, seen_dot, af, frac as nat)
                    == scan_mant(
                    v@,
                    i + 1,
                    true,
                    seen_dot,
                    af * 10 + spec_digit_val(v@[i as int]) as nat,
                    if seen_dot {
                        (frac + 1) as nat
                    } else {
                        frac as nat
                    },
                ));
            }
            if a < 100_000_000_000_000_000 {
                proof {
                    assert(t_drop == 0);
                }
                a = a * 10 + d;
                proof {
                    af = af * 10 + d as nat;
                }
            } else {
                proof {
                    if t_drop == 0 {
                        lemma_n_digits_of_bounded(af, 18);
                    }
                    lemma_drop_digit(af, d as nat, t_drop as nat);
                    lemma_ndigits_step(af, d as nat);
                    if t_drop == 0 {
                        vstd::arithmetic::div_mod::lemma_div_basics(af as int);
                    }
                    af = af * 10 + d as nat;
                }
                t_drop = t_drop + 1;
            }
            if seen_dot {
                frac = frac + 1;
            }
            seen_digit = true;
        } else if c == '.' {
            if seen_dot {
                return None;
            }
            seen_dot = true;
        } else if c == 'e' || c == 'E' {
            if !seen_digit {
                return None;
            }
            has_e = true;
            proof {
                epos = i + 1;
            }
        } else {
            return None;
        }
        i = i + 1;
    }
    if !has_e && !seen_digit {
        return None;
    }
    let mut es = false;
    let mut ev: i128 = 0;
    let ghost mut evf: nat = 0nat;
    let mut any = false;
    if has_e {
        if i < len {
            let c = v[i];
            if c == '+' || c == '-' {
                es = c == '-';
                i = i + 1;
            }
        }
        let ghost j0 = i as int;
        proof {
            assert(es == (epos < v@.len() && v@[epos] == '-'));
            assert(j0 == if epos < v@.len() && (v@[epos] == '+' || v@[epos] == '-') {
                epos + 1
            } else {
                epos
            });
        }
        while i < len
            invariant
                j0 <= i as int <= len as int,
                len == v@.len(),
                scan_exp_digits(v@, j0, 0, false) == scan_exp_digits(
                    v@,
                    i as int,
                    evf,
                    any,
                ),
                0 <= ev <= EXP_CAP,
                ev as int == if evf > EXP_CAP as nat {
                    EXP_CAP as int
                } else {
                    evf as int
                },
                any == (i as int > j0),
            decreases len - i,
        {
            let c = v[i];
            if !char_is_digit(c) {
                return None;
            }
            let d = digit_val(c);
            let nv: i128 = ev * 10 + d as i128;
            ev = if nv > EXP_CAP {
                EXP_CAP
            } else {
                nv
            };
            proof {
                evf = evf * 10 + d as nat;
            }
            any = true;
            i = i + 1;
        }
        if !any {
            return None;
        }
    }
    // the literal is valid; summarize it by its decimal order
    let ghost lit = spec_lit(v@);
    let ghost ee: int = (if has_e {
        if es {
            -(evf as int)
        } else {
            evf as int
        }
    } else {
        0
    }) - frac;
    proof {
        assert(lit == Option::Some((sgn, af, ee)));
    }
    if a == 0 {
        proof {
            assert(af == 0);
        }
        return Some(LitParts { sgn, a: 0, t_drop: 0, ord: 0 });
    }
    let nd2 = ndigits_u64(a);
    let nd_all: i128 = if t_drop > 0 {
        18 + t_drop as i128
    } else {
        nd2 as i128
    };
    proof {
        if t_drop > 0 {
            lemma_n_digits_of_bounded(a as nat, 18);
        }
        assert(nd_all == n_digits(af));
        lemma_n_digits_le(a as nat, 18);
        if t_drop == 0 {
            vstd::arithmetic::div_mod::lemma_div_basics(af as int);
        }
    }
    let evs: i128 = if has_e {
        if es {
            -ev
        } else {
            ev
        }
    } else {
        0
    };
    let ord: i128 = evs - (frac as i128) + nd_all - 1;
    let ghost ord_true: int = ee + n_digits(af) - 1;
    proof {
        assert(frac as int <= len as int && t_drop as int <= len as int);
        assert(len as int <= usize::MAX as int);
        if has_e && evf > EXP_CAP as nat {
            assert(ev == EXP_CAP);
            if es {
                assert(ord < -400 && ord_true < -400);
            } else {
                assert(ord > 400 && ord_true > 400);
            }
        } else {
            assert(ord == ord_true);
        }
    }
    let ordc: i64 = if ord > 400 {
        400
    } else if ord < -400 {
        -400
    } else {
        ord as i64
    };
    proof {
        assert(ordc == clamp_ord(ord_true));
    }
    Some(LitParts { sgn, a, t_drop, ord: ordc })
}

/// Parses the characters of a numeric literal.
pub(crate) fn parse_chars(v: &Vec<char>) -> (r: ParseOutcome)
    ensures
        r == spec_parse(v@),
        r matches ParseOutcome::Value(n) ==> n.inv(),
{
    proof {
        lemma_p10_vals();
    }
    let p = match lit_parts(v) {
        None => {
            return ParseOutcome::Invalid;
        },
        Some(p) => p,
    };
    let ghost lp = spec_lit(v@)->Some_0;
    let ghost ord_true: int = lp.2 + n_digits(lp.1) - 1;
    if p.a == 0 {
        return ParseOutcome::Value(Number::zero());
    }
    if p.ord < -323 {
        proof {
            assert(ord_true < -323);
        }
        return ParseOutcome::Value(Number::zero());
    }
    if p.ord > 100 {
        proof {
            assert(ord_true > 100);
        }
        return ParseOutcome::OutOfRange;
    }
    proof {
        assert(p.ord == ord_true);
    }
    let nd2 = ndigits_u64(p.a);
    let e1: i64 = p.ord - nd2 as i64 + 1;
    proof {
        lemma_n_digits_bounds(p.a as nat);
        if p.t_drop > 0 {
            lemma_n_digits_of_bounded(p.a as nat, 18);
        } else {
            vstd::arithmetic::div_mod::lemma_div_basics(lp.1 as int);
            assert((p.a as nat) == lp.1);
        }
        assert(n_digits(lp.1) == nd2 + p.t_drop);
        lemma_norm_compose(p.sgn, lp.1, lp.2, p.t_drop as nat);
        assert(e1 as int == lp.2 + p.t_drop);
        assert(spec_norm(p.sgn, lp.1, lp.2) == spec_norm(p.sgn, p.a as nat, e1 as int));
        lemma_p10_increases(18, 37);
    }
    match norm_u128(p.sgn, p.a as u128, e1) {
        Result::Ok(n) => ParseOutcome::Value(n),
        Result::Err(_) => ParseOutcome::OutOfRange,
    }
}

/// Appending a digit extends the truncated prefix consistently.
proof fn lemma_drop_digit(af: nat, d: nat, t: nat)
    requires
        d < 10,
    ensures
        (af * 10 + d) / (p10(t + 1) as nat) == af / (p10(t) as nat),
{
    lemma_p10_vals();
    vstd::arithmetic::div_mod::lemma_div_multiples_vanish_fancy(af as int, d as int, 10);
    assert((10 * af + d) / 10 == af as int);
    lemma_div_div_p10((af * 10 + d) as nat, 1, t);
    assert((af * 10 + d) / (p10(1) as nat) == af);
}

/// Appending a digit to a nonzero value adds one digit.
proof fn lemma_ndigits_step(af: nat, d: nat)
    requires
        af >= 1,
        d < 10,
    ensures
        n_digits(af * 10 + d) == n_digits(af) + 1,
{
    let k = n_digits(af);
    lemma_n_digits_bounds(af);
    lemma_p10_adds(k, 1);
    lemma_p10_adds((k - 1) as nat, 1);
    lemma_p10_vals();
    assert(af * 10 + d >= p10((k - 1) as nat) * 10) by (nonlinear_arith)
        requires
            af >= p10((k - 1) as nat),
    ;
    assert(af * 10 + d < p10(k) * 10) by (nonlinear_arith)
        requires
            af < p10(k),
            d < 10,
    ;
    lemma_n_digits_of_bounded((af * 10 + d) as nat, (k + 1) as nat);
}

/// Normalizing may equivalently start from the eighteen-digit prefix.
proof fn lemma_norm_compose(sgn: bool, a: nat, e: int, t: nat)
    requires
        a >= 1,
        t == if n_digits(a) > 18 {
            (n_digits(a) - 18) as nat
        } else {
            0nat
        },
    ensures
        spec_norm(sgn, a, e) == spec_norm(sgn, a / (p10(t) as nat), e + t),
{
    lemma_p10_vals();
    let nd = n_digits(a);
    lemma_n_digits_bounds(a);
    if t == 0 {
        vstd::arithmetic::div_mod::lemma_div_basics(a as int);
        assert(a / (p10(0) as nat) == a);
    } else {
        let a1 = a / (p10(t) as nat);
        lemma_p10_pos(t);
        lemma_p10_div(17, t);
        lemma_p10_adds(17, t);
        vstd::arithmetic::div_mod::lemma_div_is_ordered(
            p10((nd - 1) as nat),
            a as int,
            p10(t),
        );
        assert(p10((17 + t) as nat) / p10(t) == p10(17));
        assert(a1 >= p10(17));
        lemma_p10_adds(t, 18);
        assert(a < p10(t) * p10(18)) by {
            lemma_p10_increases(nd, (t + 18) as nat);
        }
        vstd::arithmetic::div_mod::lemma_multiply_divide_lt(a as int, p10(t), p10(18));
        assert(a1 < p10(18));
        lemma_n_digits_of_bounded(a1, 18);
        vstd::arithmetic::div_mod::lemma_div_basics(a1 as int);
        assert(a1 / (p10(0) as nat) == a1);
        assert(spec_norm(sgn, a1, e + t) == spec_norm(sgn, a, e));
    }
}

} // verus!
