//! Rendering of decimal values as character sequences: plain positional
//! notation and rounded scientific notation.

use vstd::prelude::*;
use crate::digits::{
    n_digits, ndigits_u64, p10, pow10_u64, lemma_n_digits_bounds, lemma_n_digits_of_bounded,
    lemma_p10_adds, lemma_p10_div, lemma_p10_increases, lemma_p10_pos, lemma_p10_vals,
};

verus! {

/// The character for a single decimal digit value.
pub open spec fn digit_char(d: int) -> char {
    if d == 0 {
        '0'
    } else if d == 1 {
        '1'
    } else if d == 2 {
        '2'
    } else if d == 3 {
        '3'
    } else if d == 4 {
        '4'
    } else if d == 5 {
        '5'
    } else if d == 6 {
        '6'
    } else if d == 7 {
        '7'
    } else if d == 8 {
        '8'
    } else {
        '9'
    }
}

/// Decimal digits of `m`, most significant first.
pub open spec fn digits_of(m: nat) -> Seq<char>
    decreases m,
{
    if m < 10 {
        seq![digit_char(m as int)]
    } else {
        digits_of(m / 10).push(digit_char((m % 10) as int))
    }
}

/// A run of `n` zero characters.
pub open spec fn zero_run(n: nat) -> Seq<char> {
    Seq::new(n, |i: int| '0')
}

/// Plain positional rendering of the value `m * 10^e`, with a leading
/// minus sign when `sgn` is set and `m` is not zero. This is the exact
/// shape in which results are stored back into the expression buffer.
pub open spec fn spec_plain(sgn: bool, m: nat, e: int) -> Seq<char> {
    if m == 0 {
        seq!['0']
    } else {
        let sign = if sgn {
            seq!['-']
        } else {
            Seq::<char>::empty()
        };
        let ds = digits_of(m);
        let nd = ds.len() as int;
        if e >= 0 {
            sign + ds + zero_run(e as nat)
        } else if nd + e > 0 {
            sign + ds.subrange(0, nd + e) + seq!['.'] + ds.subrange(nd + e, nd)
        } else {
            sign + seq!['0', '.'] + zero_run((-e - nd) as nat) + ds
        }
    }
}

/// Digits of an exponent with its sign, as scientific notation shows it.
pub open spec fn exp_digits(o: int) -> Seq<char> {
    if o < 0 {
        seq!['-'] + digits_of((-o) as nat)
    } else {
        digits_of(o as nat)
    }
}

/// Scientific rendering of `m * 10^e` with `d` digits after the point:
/// the leading digit, a point, `d` further digits rounded half away
/// from zero, then `e` and the decimal exponent.
pub open spec fn spec_sci(sgn: bool, m: nat, e: int, d: nat) -> Seq<char> {
    if m == 0 {
        (if sgn {
            seq!['-']
        } else {
            Seq::<char>::empty()
        }) + seq!['0', '.'] + zero_run(d) + seq!['e', '0']
    } else {
        let nd = n_digits(m) as int;
        let k = nd - 1 - d;
        let r0 = if k <= 0 {
            m * p10((-k) as nat)
        } else {
            (m + 5 * p10((k - 1) as nat)) / p10(k as nat)
        };
        let ord0 = e + nd - 1;
        let r = if r0 == p10((d + 1) as nat) {
            p10(d) as nat
        } else {
            r0 as nat
        };
        let ord = if r0 == p10((d + 1) as nat) {
            ord0 + 1
        } else {
            ord0
        };
        let ds = digits_of(r);
        let sign = if sgn {
            seq!['-']
        } else {
            Seq::<char>::empty()
        };
        sign + seq![ds[0], '.'] + ds.subrange(1, (d + 1) as int) + seq!['e'] + exp_digits(ord)
    }
}

pub proof fn lemma_digits_of_len(m: nat)
    ensures
        digits_of(m).len() == n_digits(m),
    decreases m,
{
    if m < 10 {
    } else {
        lemma_digits_of_len(m / 10);
    }
}

/// Executable digit character.
pub fn digit_char_of(d: u64) -> (c: char)
    requires
        d <= 9,
    ensures
        c == digit_char(d as int),
{
    if d == 0 {
        '0'
    } else if d == 1 {
        '1'
    } else if d == 2 {
        '2'
    } else if d == 3 {
        '3'
    } else if d == 4 {
        '4'
    } else if d == 5 {
        '5'
    } else if d == 6 {
        '6'
    } else if d == 7 {
        '7'
    } else if d == 8 {
        '8'
    } else {
        '9'
    }
}

/// Executable digit rendering, most significant digit first.
pub fn digits_vec(m: u64) -> (v: Vec<char>)
    ensures
        v@ == digits_of(m as nat),
        v@.len() == n_digits(m as nat),
    decreases m,
{
    proof {
        lemma_digits_of_len(m as nat);
    }
    if m < 10 {
        let mut v: Vec<char> = Vec::new();
        v.push(digit_char_of(m));
        v
    } else {
        let mut v = digits_vec(m / 10);
        v.push(digit_char_of(m % 10));
        v
    }
}

/// Appends `n` zero characters.
pub fn push_zero_run(v: &mut Vec<char>, n: usize)
    ensures
        final(v)@ == old(v)@ + zero_run(n as nat),
{
    let mut i: usize = 0;
    while i < n
        invariant
            i <= n,
            v@ == old(v)@ + zero_run(i as nat),
        decreases n - i,
    {
        v.push('0');
        proof {
            assert(v@ =~= old(v)@ + zero_run((i + 1) as nat));
        }
        i = i + 1;
    }
    proof {
        assert(v@ =~= old(v)@ + zero_run(n as nat));
    }
}

/// Appends `src[from..to]` to `dst`.
pub fn push_slice(dst: &mut Vec<char>, src: &Vec<char>, from: usize, to: usize)
    requires
        from <= to <= src@.len(),
    ensures
        final(dst)@ == old(dst)@ + src@.subrange(from as int, to as int),
{
    let mut i: usize = from;
    while i < to
        invariant
            from <= i <= to <= src@.len(),
            dst@ == old(dst)@ + src@.subrange(from as int, i as int),
        decreases to - i,
    {
        let c = src[i];
        dst.push(c);
        proof {
            assert(dst@ =~= old(dst)@ + src@.subrange(from as int, (i + 1) as int));
        }
        i = i + 1;
    }
    proof {
        assert(dst@ =~= old(dst)@ + src@.subrange(from as int, to as int));
    }
}

/// Executable plain rendering of `m * 10^e`.
pub fn render_plain(sgn: bool, m: u64, e: i64) -> (v: Vec<char>)
    requires
        -5000 <= e <= 5000,
    ensures
        v@ == spec_plain(sgn, m as nat, e as int),
{
    let mut v: Vec<char> = Vec::new();
    if m == 0 {
        v.push('0');
        return v;
    }
    if sgn {
        v.push('-');
    }
    let ds = digits_vec(m);
    let nd = ds.len();
    proof {
        lemma_p10_vals();
        lemma_p10_adds(19, 1);
        assert((m as nat) < p10(20));
        crate::digits::lemma_n_digits_le(m as nat, 20);
    }
    if e >= 0 {
        push_slice(&mut v, &ds, 0, nd);
        push_zero_run(&mut v, e as usize);
        proof {
            assert(ds@.subrange(0, nd as int) =~= ds@);
            assert(v@ =~= spec_plain(sgn, m as nat, e as int));
        }
    } else if nd as i64 + e > 0 {
        let cut = (nd as i64 + e) as usize;
        push_slice(&mut v, &ds, 0, cut);
        v.push('.');
        push_slice(&mut v, &ds, cut, nd);
        proof {
            assert(v@ =~= spec_plain(sgn, m as nat, e as int));
        }
    } else {
        v.push('0');
        v.push('.');
        push_zero_run(&mut v, ((-e) - nd as i64) as usize);
        push_slice(&mut v, &ds, 0, nd);
        proof {
            assert(ds@.subrange(0, nd as int) =~= ds@);
            assert(v@ =~= spec_plain(sgn, m as nat, e as int));
        }
    }
    v
}

/// Executable scientific rendering of `m * 10^e` with `d` decimals.
#[verifier::rlimit(100)]
pub fn render_sci(sgn: bool, m: u64, e: i64, d: u64) -> (v: Vec<char>)
    requires
        m < 1_000_000_000_000_000_000,
        1 <= d <= 8,
        -5000 <= e <= 5000,
    ensures
        v@ == spec_sci(sgn, m as nat, e as int, d as nat),
{
    let mut v: Vec<char> = Vec::new();
    proof {
        lemma_p10_vals();
    }
    if m == 0 {
        if sgn {
            v.push('-');
        }
        v.push('0');
        v.push('.');
        push_zero_run(&mut v, d as usize);
        v.push('e');
        v.push('0');
        proof {
            assert(v@ =~= spec_sci(sgn, m as nat, e as int, d as nat));
        }
        return v;
    }
    if sgn {
        v.push('-');
    }
    let nd = ndigits_u64(m);
    proof {
        crate::digits::lemma_n_digits_le(m as nat, 18);
        lemma_n_digits_bounds(m as nat);
    }
    let ki = nd as i64 - 1 - d as i64;
    let mut r: u64;
    let mut ord: i64 = e + nd as i64 - 1;
    let ghost k = ki as int;
    let ghost spec_r0 = if k <= 0 {
        (m as nat) * p10((-k) as nat)
    } else {
        ((m as nat) + 5 * p10((k - 1) as nat)) / p10(k as nat)
    };
    if ki <= 0 {
        let p = pow10_u64((-ki) as u64);
        proof {
            lemma_p10_adds((nd - 1) as nat, (-k) as nat);
            lemma_p10_adds(nd as nat, (-k) as nat);
            lemma_p10_increases((nd - k) as nat, 9);
            lemma_p10_pos((-k) as nat);
            assert((m as nat) * p10((-k) as nat) < p10((nd - k) as nat)) by (nonlinear_arith)
                requires
                    (m as nat) < p10(nd as nat),
                    p10((-k) as nat) >= 1,
                    p10(nd as nat) * p10((-k) as nat) == p10((nd - k) as nat),
            ;
            assert((m as nat) * p10((-k) as nat) >= p10((nd - 1 - k) as nat)) by (nonlinear_arith)
                requires
                    (m as nat) >= p10((nd - 1) as nat),
                    p10((-k) as nat) >= 1,
                    p10((nd - 1) as nat) * p10((-k) as nat) == p10((nd - 1 - k) as nat),
            ;
        }
        r = m * p;
        proof {
            assert(r == spec_r0);
            assert(r < p10((d + 1) as nat));
            assert(r >= p10(d as nat));
        }
    } else {
        let pk1 = pow10_u64((ki - 1) as u64);
        let pk = pow10_u64(ki as u64);
        proof {
            lemma_p10_increases((k - 1) as nat, 16);
            lemma_p10_pos((k - 1) as nat);
            lemma_p10_pos(k as nat);
            lemma_p10_adds((k - 1) as nat, 1);
            lemma_pow_one_is_ten();
        }
        let h = 5 * pk1;
        let r0 = (m + h) / pk;
        proof {
            // lower bound: r0 >= p10(d)
            lemma_p10_div(d as nat, k as nat);
            vstd::arithmetic::div_mod::lemma_div_is_ordered(
                p10((nd - 1) as nat),
                (m + h) as int,
                p10(k as nat),
            );
            assert(p10((nd - 1) as nat) / p10(k as nat) == p10(d as nat));
            // upper bound: r0 <= p10(d + 1)
            lemma_p10_adds(k as nat, (d + 1) as nat);
            assert((m + h) < p10(k as nat) * (p10((d + 1) as nat) + 1)) by (nonlinear_arith)
                requires
                    (m as nat) < p10(nd as nat),
                    h == 5 * p10((k - 1) as nat),
                    10 * p10((k - 1) as nat) == p10(k as nat),
                    p10((k - 1) as nat) >= 1,
                    p10(k as nat) * p10((d + 1) as nat) == p10((k + d + 1) as nat),
                    nd == k + d + 1,
            ;
            vstd::arithmetic::div_mod::lemma_multiply_divide_lt(
                (m + h) as int,
                p10(k as nat),
                p10((d + 1) as nat) + 1,
            );
            assert(r0 <= p10((d + 1) as nat));
            assert(r0 == spec_r0);
        }
        let pd1 = pow10_u64(d + 1);
        if r0 == pd1 {
            r = pow10_u64(d);
            ord = ord + 1;
            proof {
                lemma_p10_increases(d as nat, (d + 1) as nat);
            }
        } else {
            r = r0;
        }
    }
    proof {
        lemma_p10_pos(d as nat);
        lemma_p10_increases(d as nat, (d + 1) as nat);
        assert(p10(d as nat) <= r < p10((d + 1) as nat));
        lemma_n_digits_of_bounded(r as nat, (d + 1) as nat);
    }
    let ds = digits_vec(r);
    let c0 = ds[0];
    v.push(c0);
    v.push('.');
    let dl = ds.len();
    push_slice(&mut v, &ds, 1, dl);
    v.push('e');
    if ord < 0 {
        v.push('-');
        let os = digits_vec((-ord) as u64);
        let ol = os.len();
        push_slice(&mut v, &os, 0, ol);
        proof {
            assert(os@.subrange(0, ol as int) =~= os@);
            assert(v@ =~= spec_sci(sgn, m as nat, e as int, d as nat));
        }
    } else {
        let os = digits_vec(ord as u64);
        let ol = os.len();
        push_slice(&mut v, &os, 0, ol);
        proof {
            assert(os@.subrange(0, ol as int) =~= os@);
            assert(v@ =~= spec_sci(sgn, m as nat, e as int, d as nat));
        }
    }
    v
}

proof fn lemma_pow_one_is_ten()
    ensures
        p10(1) == 10,
{
    lemma_p10_vals();
}

} // verus!
