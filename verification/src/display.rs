//! Display formatting: numeric substrings of large or tiny magnitude
//! (or over-long digit strings) are rewritten in one-decimal scientific
//! notation, and a negative operand after an operator is parenthesized.

use vstd::prelude::*;
use crate::chars::{
    char_is_buf_op, char_is_digit, chars_from_str, spec_is_buf_op, spec_is_digit,
    string_from_chars,
};
use crate::digits::{n_digits, ndigits_u64, p10};
use crate::num_format::{push_slice, render_sci, spec_sci};
use crate::num_parse::{lit_parts, spec_lit, trunc_count};

verus! {

/// Whether a numeric run starts at `i`: a digit, a point, or a minus
/// sign directly before a digit.
pub open spec fn run_start(s: Seq<char>, i: int) -> bool {
    spec_is_digit(s[i]) || s[i] == '.' || (s[i] == '-' && i + 1 < s.len() && spec_is_digit(
        s[i + 1],
    ))
}

/// Whether a numeric run continues at `k`: a digit, a point, or an `e`
/// directly before a digit or a sign.
pub open spec fn run_body(s: Seq<char>, k: int) -> bool {
    spec_is_digit(s[k]) || s[k] == '.' || (s[k] == 'e' && k + 1 < s.len() && (spec_is_digit(
        s[k + 1],
    ) || s[k + 1] == '+' || s[k + 1] == '-'))
}

/// The index just past the numeric run continuing from `k`.
pub open spec fn run_end(s: Seq<char>, k: int) -> int
    decreases s.len() - k,
{
    if !(0 <= k < s.len()) {
        k
    } else if run_body(s, k) {
        run_end(s, k + 1)
    } else {
        k
    }
}

/// Whether the sequence holds the character anywhere.
pub open spec fn has_char(t: Seq<char>, c: char) -> bool {
    exists|k: int| 0 <= k < t.len() && t[k] == c
}

/// How one numeric run is rendered. Unparsable runs stay as they are.
/// A parsed value is rewritten in one-decimal scientific notation when
/// its magnitude is at least `1e9`, below `1` but not zero, or when its
/// plain-integer text runs over ten characters; a magnitude beyond what
/// a binary double could carry shows as `inf`. Everything else stays.
pub open spec fn spec_fmt_run(t: Seq<char>) -> Seq<char> {
    match spec_lit(t) {
        Option::None => t,
        Option::Some(lp) => {
            let sgn = lp.0;
            let a = lp.1;
            let e = lp.2;
            let ord = e + n_digits(a) - 1;
            let a_t = a / (p10(trunc_count(a)) as nat);
            let textual = t.len() > 10 && !has_char(t, '.') && !has_char(t, 'e');
            if a == 0 || ord < -323 {
                if textual {
                    spec_sci(sgn, 0, 0, 1)
                } else {
                    t
                }
            } else if ord >= 9 || ord <= -1 || textual {
                if ord > 308 || (ord == 308 && a_t > 179769313486231570) {
                    (if sgn {
                        seq!['-']
                    } else {
                        Seq::<char>::empty()
                    }) + "inf"@
                } else {
                    spec_sci(sgn, a_t, ord - n_digits(a_t) + 1, 1)
                }
            } else {
                t
            }
        },
    }
}

/// The whole text with each numeric run rendered by `spec_fmt_run`.
pub open spec fn spec_fmt_all(s: Seq<char>, i: int) -> Seq<char>
    decreases s.len() - i,
{
    if !(0 <= i < s.len()) {
        Seq::empty()
    } else if run_start(s, i) {
        let j = run_end(s, i + 1);
        if j <= i || j > s.len() {
            Seq::empty()
        } else {
            spec_fmt_run(s.subrange(i, j)) + spec_fmt_all(s, j)
        }
    } else {
        seq![s[i]] + spec_fmt_all(s, i + 1)
    }
}

/// The index just past a negative operand's characters from `k`.
pub open spec fn neg_tail_end(s: Seq<char>, k: int) -> int
    decreases s.len() - k,
{
    if !(0 <= k < s.len()) {
        k
    } else if spec_is_digit(s[k]) || s[k] == '.' || s[k] == 'e' || s[k] == '+' || s[k] == '-' {
        neg_tail_end(s, k + 1)
    } else {
        k
    }
}

/// The text with every `-` that directly follows an operator wrapped,
/// together with the characters after it, in parentheses.
pub open spec fn spec_parens(s: Seq<char>, i: int) -> Seq<char>
    decreases s.len() - i,
{
    if !(0 <= i < s.len()) {
        Seq::empty()
    } else if spec_is_buf_op(s[i]) && i + 1 < s.len() && s[i + 1] == '-' {
        let j = neg_tail_end(s, i + 2);
        if j < i + 2 || j > s.len() {
            Seq::empty()
        } else {
            seq![s[i], '('] + s.subrange(i + 1, j) + seq![')'] + spec_parens(s, j)
        }
    } else {
        seq![s[i]] + spec_parens(s, i + 1)
    }
}

/// What the display shows for an expression buffer.
pub open spec fn spec_display_string(s: Seq<char>) -> Seq<char> {
    spec_parens(spec_fmt_all(s, 0), 0)
}

pub proof fn lemma_run_end_ge_pub(s: Seq<char>, k: int)
    ensures
        run_end(s, k) >= k,
        run_end(s, k) <= s.len() || run_end(s, k) == k,
    decreases s.len() - k,
{
    if 0 <= k < s.len() && run_body(s, k) {
        lemma_run_end_ge_pub(s, k + 1);
    }
}

/// Whether a negative operand's characters continue at `k`.
fn neg_tail_cont(v: &Vec<char>, k: usize) -> (r: bool)
    requires
        k <= v@.len(),
    ensures
        r == (k < v@.len() && (spec_is_digit(v@[k as int]) || v@[k as int] == '.' || v@[k as int]
            == 'e' || v@[k as int] == '+' || v@[k as int] == '-')),
{
    if k >= v.len() {
        return false;
    }
    let nc = v[k];
    char_is_digit(nc) || nc == '.' || nc == 'e' || nc == '+' || nc == '-'
}

proof fn lemma_neg_tail_end_ge(s: Seq<char>, k: int)
    ensures
        neg_tail_end(s, k) >= k,
        neg_tail_end(s, k) <= s.len() || neg_tail_end(s, k) == k,
    decreases s.len() - k,
{
    if 0 <= k < s.len() && (spec_is_digit(s[k]) || s[k] == '.' || s[k] == 'e' || s[k] == '+'
        || s[k] == '-') {
        lemma_neg_tail_end_ge(s, k + 1);
    }
}

/// Finds the end of the numeric run continuing from `k`.
#[verifier::loop_isolation(false)]
fn run_end_exec(v: &Vec<char>, k: usize) -> (r: usize)
    requires
        k <= v@.len(),
    ensures
        r as int == run_end(v@, k as int),
        k <= r <= v@.len(),
{
    let len = v.len();
    let mut i = k;
    while i < len
        invariant
            k <= i <= len,
            run_end(v@, k as int) == run_end(v@, i as int),
        decreases len - i,
    {
        let c = v[i];
        let cont = if char_is_digit(c) || c == '.' {
            true
        } else if c == 'e' && i + 1 < len {
            let cn = v[i + 1];
            char_is_digit(cn) || cn == '+' || cn == '-'
        } else {
            false
        };
        if !cont {
            proof {
                assert(run_end(v@, i as int) == i as int);
            }
            return i;
        }
        proof {
            assert(run_end(v@, i as int) == run_end(v@, i + 1));
        }
        i = i + 1;
    }
    proof {
        assert(run_end(v@, len as int) == len as int);
    }
    len
}

/// Renders one numeric run.
#[verifier::loop_isolation(false)]
fn fmt_run(t: &Vec<char>) -> (r: Vec<char>)
    ensures
        r@ == spec_fmt_run(t@),
{
    let len = t.len();
    let mut has_dot = false;
    let mut has_e = false;
    let mut i: usize = 0;
    while i < len
        invariant
            i <= len,
            has_dot == (exists|k: int| 0 <= k < i && t@[k] == '.'),
            has_e == (exists|k: int| 0 <= k < i && t@[k] == 'e'),
        decreases len - i,
    {
        let c = t[i];
        if c == '.' {
            has_dot = true;
        }
        if c == 'e' {
            has_e = true;
        }
        i = i + 1;
    }
    let textual = len > 10 && !has_dot && !has_e;
    proof {
        assert(has_dot == has_char(t@, '.'));
        assert(has_e == has_char(t@, 'e'));
    }
    match lit_parts(t) {
        None => {
            let mut r: Vec<char> = Vec::new();
            push_slice(&mut r, t, 0, len);
            proof {
                assert(r@ =~= t@);
            }
            r
        },
        Some(p) => {
            let ghost lp = spec_lit(t@)->Some_0;
            let ghost ord_true: int = lp.2 + n_digits(lp.1) - 1;
            if p.a == 0 || p.ord < -323 {
                proof {
                    assert((lp.1 == 0 || ord_true < -323));
                }
                if textual {
                    render_sci(p.sgn, 0, 0, 1)
                } else {
                    let mut r: Vec<char> = Vec::new();
                    push_slice(&mut r, t, 0, len);
                    proof {
                        assert(r@ =~= t@);
                    }
                    r
                }
            } else if p.ord >= 9 || p.ord <= -1 || textual {
                proof {
                    assert(ord_true >= 9 || ord_true <= -1 || textual);
                    assert(!(lp.1 == 0 || ord_true < -323));
                }
                if p.ord > 308 || (p.ord == 308 && p.a > 179769313486231570) {
                    proof {
                        assert(ord_true > 308 || (ord_true == 308 && (p.a as nat)
                            > 179769313486231570));
                        reveal_strlit("inf");
                    }
                    let mut r: Vec<char> = Vec::new();
                    if p.sgn {
                        r.push('-');
                    }
                    r.push('i');
                    r.push('n');
                    r.push('f');
                    proof {
                        assert(r@ =~= spec_fmt_run(t@));
                    }
                    r
                } else {
                    proof {
                        assert(p.ord == ord_true);
                    }
                    let nd2 = ndigits_u64(p.a);
                    proof {
                        crate::digits::lemma_n_digits_le(p.a as nat, 18);
                        crate::digits::lemma_p10_vals();
                    }
                    let e1: i64 = p.ord - nd2 as i64 + 1;
                    render_sci(p.sgn, p.a, e1, 1)
                }
            } else {
                proof {
                    assert(!(ord_true >= 9 || ord_true <= -1 || textual));
                    assert(!(lp.1 == 0 || ord_true < -323));
                }
                let mut r: Vec<char> = Vec::new();
                push_slice(&mut r, t, 0, len);
                proof {
                    assert(r@ =~= t@);
                }
                r
            }
        },
    }
}

impl crate::calculator::Calculator {
    /// Formats large, tiny or over-long numbers in a string to
    /// one-decimal scientific notation.
    #[verifier::loop_isolation(false)]
    pub fn format_large_numbers(&self, expr: &str) -> (r: String)
        ensures
            r@ == spec_fmt_all(expr@, 0),
    {
        let v = chars_from_str(expr);
        let len = v.len();
        let mut out: Vec<char> = Vec::new();
        let mut i: usize = 0;
        proof {
            assert(out@ + spec_fmt_all(v@, 0) =~= spec_fmt_all(v@, 0));
        }
        while i < len
            invariant
                i <= len,
                out@ + spec_fmt_all(v@, i as int) == spec_fmt_all(v@, 0),
            decreases len - i,
        {
            let c = v[i];
            let start = if char_is_digit(c) || c == '.' {
                true
            } else if c == '-' && i + 1 < len {
                char_is_digit(v[i + 1])
            } else {
                false
            };
            if start {
                let j = run_end_exec(&v, i + 1);
                proof {
                    lemma_run_end_ge_pub(v@, i + 1);
                }
                let mut run: Vec<char> = Vec::new();
                push_slice(&mut run, &v, i, j);
                proof {
                    assert(run@ =~= v@.subrange(i as int, j as int));
                }
                let piece = fmt_run(&run);
                let ghost out0 = out@;
                let pl = piece.len();
                push_slice(&mut out, &piece, 0, pl);
                proof {
                    assert(piece@.subrange(0, pl as int) =~= piece@);
                    assert(spec_fmt_all(v@, i as int) == spec_fmt_run(
                        v@.subrange(i as int, j as int),
                    ) + spec_fmt_all(v@, j as int));
                    assert(out0 + (piece@ + spec_fmt_all(v@, j as int)) =~= (out0 + piece@)
                        + spec_fmt_all(v@, j as int));
                }
                i = j;
            } else {
                let ghost out0 = out@;
                out.push(c);
                proof {
                    assert(spec_fmt_all(v@, i as int) == seq![v@[i as int]] + spec_fmt_all(
                        v@,
                        i + 1,
                    ));
                    assert(out0 + (seq![v@[i as int]] + spec_fmt_all(v@, i + 1)) =~= (out0 + seq![
                        v@[i as int],
                    ]) + spec_fmt_all(v@, i + 1));
                    assert(out@ =~= out0 + seq![v@[i as int]]);
                }
                i = i + 1;
            }
        }
        proof {
            assert(out@ + Seq::<char>::empty() =~= out@);
        }
        string_from_chars(&out)
    }

    /// Adds parentheses around negative operands for display clarity:
    /// `"7+-9"` becomes `"7+(-9)"`.
    #[verifier::loop_isolation(false)]
    pub fn add_parentheses_to_negative_operands(&self, expr: &str) -> (r: String)
        ensures
            r@ == spec_parens(expr@, 0),
    {
        let v = chars_from_str(expr);
        let len = v.len();
        let mut out: Vec<char> = Vec::new();
        let mut i: usize = 0;
        proof {
            assert(out@ + spec_parens(v@, 0) =~= spec_parens(v@, 0));
        }
        while i < len
            invariant
                i <= len,
                out@ + spec_parens(v@, i as int) == spec_parens(v@, 0),
            decreases len - i,
        {
            let c = v[i];
            if char_is_buf_op(c) && i + 1 < len && v[i + 1] == '-' {
                let ghost out0 = out@;
                proof {
                    lemma_neg_tail_end_ge(v@, i + 2);
                }
                out.push(c);
                out.push('(');
                out.push('-');
                let mut k = i + 2;
                while neg_tail_cont(&v, k)
                    invariant
                        i + 2 <= k <= len,
                        neg_tail_end(v@, i + 2) == neg_tail_end(v@, k as int),
                        out@ == out0 + seq![v@[i as int], '('] + v@.subrange(i + 1, k as int),
                    decreases len - k,
                {
                    let nc = v[k];
                    out.push(nc);
                    proof {
                        assert(out@ =~= out0 + seq![v@[i as int], '('] + v@.subrange(
                            i + 1,
                            k + 1,
                        ));
                    }
                    k = k + 1;
                }
                proof {
                    assert(neg_tail_end(v@, k as int) == k as int);
                }
                out.push(')');
                proof {
                    assert(spec_parens(v@, i as int) == seq![v@[i as int], '('] + v@.subrange(
                        i + 1,
                        k as int,
                    ) + seq![')'] + spec_parens(v@, k as int));
                    assert(out@ =~= out0 + (seq![v@[i as int], '('] + v@.subrange(
                        i + 1,
                        k as int,
                    ) + seq![')']));
                    assert(out0 + (seq![v@[i as int], '('] + v@.subrange(i + 1, k as int) + seq![
                        ')',
                    ] + spec_parens(v@, k as int)) =~= (out0 + (seq![v@[i as int], '(']
                        + v@.subrange(i + 1, k as int) + seq![')'])) + spec_parens(v@, k as int));
                }
                i = k;
            } else {
                let ghost out0 = out@;
                out.push(c);
                proof {
                    assert(spec_parens(v@, i as int) == seq![v@[i as int]] + spec_parens(
                        v@,
                        i + 1,
                    ));
                    assert(out0 + (seq![v@[i as int]] + spec_parens(v@, i + 1)) =~= (out0 + seq![
                        v@[i as int],
                    ]) + spec_parens(v@, i + 1));
                    assert(out@ =~= out0 + seq![v@[i as int]]);
                }
                i = i + 1;
            }
        }
        proof {
            assert(out@ + Seq::<char>::empty() =~= out@);
        }
        string_from_chars(&out)
    }

    /// Returns the current expression formatted for display: scientific
    /// notation for long or extreme numbers, and parentheses around
    /// negative operands.
    pub fn display_string(&self) -> (r: String)
        ensures
            r@ == spec_display_string(self.expression@),
    {
        let formatted = self.format_large_numbers(self.expression.as_str());
        self.add_parentheses_to_negative_operands(formatted.as_str())
    }
}

} // verus!
