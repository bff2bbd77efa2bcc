//! Operand extraction around an operator position, in-place operation
//! replacement, and the simple left-to-right adder: the flat-expression
//! helpers that predate the shunting-yard evaluator.

use vstd::prelude::*;
use vstd::string::StringExecFns;
use crate::calculator::Calculator;
use crate::chars::{char_is_digit, chars_from_str, spec_is_digit, string_from_chars, trim_chars, spec_trim};
use crate::errors::CalculatorError;
use crate::num_format::push_slice;
use crate::num_parse::{parse_chars, spec_parse, ParseOutcome};
use crate::number::{
    Number, spec_add_parts, spec_neg, spec_norm, spec_norm_fits, spec_oor_text, spec_zero,
};

verus! {

/// The six operator characters these helpers split at.
pub open spec fn spec_is_seg_op(c: char) -> bool {
    c == '+' || c == '-' || c == 'x' || c == '*' || c == '÷' || c == '/'
}

/// Executable test for the segment operator characters.
fn char_is_seg_op(c: char) -> (r: bool)
    ensures
        r == spec_is_seg_op(c),
{
    c == '+' || c == '-' || c == 'x' || c == '*' || c == '÷' || c == '/'
}

/// The five operator characters `find_number_start` recognizes.
pub open spec fn spec_is_start_op(c: char) -> bool {
    c == '+' || c == '-' || c == 'x' || c == '÷' || c == '/'
}

/// Index after the rightmost operator before `from`, or zero.
pub open spec fn spec_left_start(s: Seq<char>, from: int, pred_star: bool) -> int
    decreases from,
{
    if from <= 0 {
        0
    } else if (pred_star && spec_is_seg_op(s[from - 1])) || (!pred_star && spec_is_start_op(
        s[from - 1],
    )) {
        from
    } else {
        spec_left_start(s, from - 1, pred_star)
    }
}

/// End of the number after the operator: digits and points extend it, a
/// minus extends it only before the first digit, an operator after a
/// digit ends it, anything else ends it.
pub open spec fn spec_right_end(s: Seq<char>, i: int, found_digit: bool, acc: int) -> int
    decreases s.len() - i,
{
    if !(0 <= i < s.len()) {
        acc
    } else {
        let c = s[i];
        if spec_is_digit(c) || c == '.' {
            spec_right_end(s, i + 1, true, i + 1)
        } else if c == '-' && !found_digit {
            spec_right_end(s, i + 1, found_digit, i + 1)
        } else {
            acc
        }
    }
}

/// End of a leading number: an optional sign or leading digit or point,
/// then digits and points.
pub open spec fn spec_digit_dot_end(s: Seq<char>, k: int) -> int
    decreases s.len() - k,
{
    if !(0 <= k < s.len()) {
        k
    } else if spec_is_digit(s[k]) || s[k] == '.' {
        spec_digit_dot_end(s, k + 1)
    } else {
        k
    }
}

/// Index after the rightmost `find_number_start` operator, or zero.
pub open spec fn spec_find_number_start(s: Seq<char>) -> int {
    spec_left_start(s, s.len() as int, false)
}

/// Extent of the leading number of `find_number_end`.
pub open spec fn spec_find_number_end(s: Seq<char>) -> int {
    if s.len() == 0 {
        0
    } else if s[0] == '-' || spec_is_digit(s[0]) || s[0] == '.' {
        spec_digit_dot_end(s, 1)
    } else {
        0
    }
}

impl Calculator {
    /// Finds the start position of the number before an operator.
    #[verifier::loop_isolation(false)]
    pub fn find_number_start(&self, s: &str) -> (r: usize)
        ensures
            r as int == spec_find_number_start(s@),
    {
        let v = chars_from_str(s);
        let mut i = v.len();
        while i > 0
            invariant
                i <= v@.len(),
                spec_left_start(v@, v@.len() as int, false) == spec_left_start(
                    v@,
                    i as int,
                    false,
                ),
            decreases i,
        {
            let c = v[i - 1];
            if c == '+' || c == '-' || c == 'x' || c == '÷' || c == '/' {
                return i;
            }
            i = i - 1;
        }
        0
    }

    /// Finds the end position of the number after an operator.
    #[verifier::loop_isolation(false)]
    pub fn find_number_end(&self, s: &str) -> (r: usize)
        ensures
            r as int == spec_find_number_end(s@),
    {
        let v = chars_from_str(s);
        let len = v.len();
        if len == 0 {
            return 0;
        }
        let c0 = v[0];
        if !(c0 == '-' || char_is_digit(c0) || c0 == '.') {
            return 0;
        }
        let mut i: usize = 1;
        while i < len
            invariant
                1 <= i <= len,
                spec_digit_dot_end(v@, 1) == spec_digit_dot_end(v@, i as int),
            decreases len - i,
        {
            let c = v[i];
            if !(char_is_digit(c) || c == '.') {
                return i;
            }
            i = i + 1;
        }
        len
    }
}

/// Scans left from `op_pos` for the start of the left operand.
#[verifier::loop_isolation(false)]
fn left_start_exec(v: &Vec<char>, op_pos: usize) -> (r: usize)
    requires
        op_pos <= v@.len(),
    ensures
        r as int == spec_left_start(v@, op_pos as int, true),
        r <= op_pos,
{
    let mut i = op_pos;
    while i > 0
        invariant
            i <= op_pos,
            spec_left_start(v@, op_pos as int, true) == spec_left_start(v@, i as int, true),
        decreases i,
    {
        if char_is_seg_op(v[i - 1]) {
            return i;
        }
        i = i - 1;
    }
    0
}

/// Scans right from just after `op_pos` for the end of the right operand.
#[verifier::loop_isolation(false)]
fn right_end_exec(v: &Vec<char>, op_pos: usize) -> (r: usize)
    requires
        op_pos < v@.len(),
    ensures
        r as int == spec_right_end(v@, op_pos + 1, false, op_pos + 1),
        op_pos < r <= v@.len(),
{
    let len = v.len();
    let mut i = op_pos + 1;
    let mut found_digit = false;
    let mut acc = op_pos + 1;
    while i < len
        invariant
            op_pos + 1 <= i <= len,
            op_pos + 1 <= acc <= i,
            spec_right_end(v@, op_pos + 1, false, op_pos + 1) == spec_right_end(
                v@,
                i as int,
                found_digit,
                acc as int,
            ),
        decreases len - i,
    {
        let c = v[i];
        if char_is_digit(c) || c == '.' {
            found_digit = true;
            acc = i + 1;
        } else if c == '-' && !found_digit {
            acc = i + 1;
        } else {
            return acc;
        }
        i = i + 1;
    }
    acc
}

impl Calculator {
    /// Extracts the operands around an operator position with bounds
    /// checking; each side must parse as a bounded number.
    pub fn extract_operands_safe(&self, expr: &str, op_pos: usize) -> (r: Result<
        Option<(Number, Number)>,
        CalculatorError,
    >)
        requires
            op_pos < expr@.len(),
        ensures
            (r matches Result::Ok(p) ==> {
                let t1 = expr@.subrange(spec_left_start(expr@, op_pos as int, true), op_pos as int);
                let t2 = expr@.subrange(
                    op_pos + 1,
                    spec_right_end(expr@, op_pos + 1, false, op_pos + 1),
                );
                &&& spec_parse(t1) is Value
                &&& spec_parse(t2) is Value
                &&& p == Option::Some(
                    (spec_parse(t1)->Value_0, spec_parse(t2)->Value_0),
                )
                &&& spec_parse(t1)->Value_0.inv()
                &&& spec_parse(t2)->Value_0.inv()
            }),
            (r matches Result::Err(_) ==> {
                let t1 = expr@.subrange(spec_left_start(expr@, op_pos as int, true), op_pos as int);
                let t2 = expr@.subrange(
                    op_pos + 1,
                    spec_right_end(expr@, op_pos + 1, false, op_pos + 1),
                );
                !(spec_parse(t1) is Value) || !(spec_parse(t2) is Value)
            }),
    {
        let v = chars_from_str(expr);
        let ls = left_start_exec(&v, op_pos);
        let re = right_end_exec(&v, op_pos);
        let mut n1v: Vec<char> = Vec::new();
        push_slice(&mut n1v, &v, ls, op_pos);
        let mut n2v: Vec<char> = Vec::new();
        push_slice(&mut n2v, &v, op_pos + 1, re);
        let a = match parse_chars(&n1v) {
            ParseOutcome::Value(n) => n,
            ParseOutcome::Invalid => {
                return Err(CalculatorError::InvalidNumber(string_from_chars(&n1v)));
            },
            ParseOutcome::OutOfRange => {
                return Err(CalculatorError::NumberOutOfRange(string_from_chars(&n1v)));
            },
        };
        let b = match parse_chars(&n2v) {
            ParseOutcome::Value(n) => n,
            ParseOutcome::Invalid => {
                return Err(CalculatorError::InvalidNumber(string_from_chars(&n2v)));
            },
            ParseOutcome::OutOfRange => {
                return Err(CalculatorError::NumberOutOfRange(string_from_chars(&n2v)));
            },
        };
        Ok(Some((a, b)))
    }

    /// Extracts the operands around an operator position, splitting at
    /// the nearest operators on either side.
    pub fn extract_operands(&self, expr: &str, op_pos: usize) -> (r: Option<(Number, Number)>)
        requires
            op_pos < expr@.len(),
        ensures
            (r matches Option::Some(p) ==> {
                let t1 = expr@.subrange(
                    spec_find_number_start(expr@.subrange(0, op_pos as int)),
                    op_pos as int,
                );
                let after = expr@.subrange(op_pos + 1, expr@.len() as int);
                let t2 = after.subrange(0, spec_find_number_end(after));
                &&& spec_parse(t1) is Value
                &&& spec_parse(t2) is Value
                &&& p == (spec_parse(t1)->Value_0, spec_parse(t2)->Value_0)
                &&& p.0.inv() && p.1.inv()
            }),
            (r is None ==> {
                let t1 = expr@.subrange(
                    spec_find_number_start(expr@.subrange(0, op_pos as int)),
                    op_pos as int,
                );
                let after = expr@.subrange(op_pos + 1, expr@.len() as int);
                let t2 = after.subrange(0, spec_find_number_end(after));
                !(spec_parse(t1) is Value) || !(spec_parse(t2) is Value)
            }),
    {
        let v = chars_from_str(expr);
        let mut beforev: Vec<char> = Vec::new();
        push_slice(&mut beforev, &v, 0, op_pos);
        let before = string_from_chars(&beforev);
        let mut afterv: Vec<char> = Vec::new();
        let vl = v.len();
        push_slice(&mut afterv, &v, op_pos + 1, vl);
        let after = string_from_chars(&afterv);
        let num1_start = self.find_number_start(before.as_str());
        let num2_end = self.find_number_end(after.as_str());
        proof {
            crate::segments::lemma_left_start_le(beforev@, beforev@.len() as int);
            crate::segments::lemma_digit_dot_end_le(afterv@);
        }
        let mut n1v: Vec<char> = Vec::new();
        let bl = beforev.len();
        push_slice(&mut n1v, &beforev, num1_start, bl);
        let mut n2v: Vec<char> = Vec::new();
        push_slice(&mut n2v, &afterv, 0, num2_end);
        proof {
            assert(beforev@ =~= expr@.subrange(0, op_pos as int));
            assert(afterv@ =~= expr@.subrange(op_pos + 1, expr@.len() as int));
            assert(n1v@ =~= expr@.subrange(
                spec_find_number_start(expr@.subrange(0, op_pos as int)),
                op_pos as int,
            ));
            assert(n2v@ =~= afterv@.subrange(0, spec_find_number_end(afterv@)));
        }
        let a = match parse_chars(&n1v) {
            ParseOutcome::Value(n) => n,
            _ => {
                return None;
            },
        };
        let b = match parse_chars(&n2v) {
            ParseOutcome::Value(n) => n,
            _ => {
                return None;
            },
        };
        Some((a, b))
    }

    /// Replaces an operation and its two operands with a result string.
    pub fn replace_operation(&self, expr: &mut String, op_pos: usize, result: &str)
        requires
            op_pos < old(expr)@.len(),
        ensures
            final(expr)@ == old(expr)@.subrange(0, spec_left_start(old(expr)@, op_pos as int, true))
                + result@ + old(expr)@.subrange(
                spec_right_end(old(expr)@, op_pos + 1, false, op_pos + 1),
                old(expr)@.len() as int,
            ),
    {
        let v = chars_from_str(expr.as_str());
        let ls = left_start_exec(&v, op_pos);
        let re = right_end_exec(&v, op_pos);
        let rv = chars_from_str(result);
        let mut out: Vec<char> = Vec::new();
        push_slice(&mut out, &v, 0, ls);
        let rl = rv.len();
        push_slice(&mut out, &rv, 0, rl);
        let vl = v.len();
        push_slice(&mut out, &v, re, vl);
        proof {
            assert(rv@.subrange(0, rl as int) =~= rv@);
        }
        *expr = string_from_chars(&out);
    }
}

/// The exact parts of adding (or subtracting) `n` onto `acc`.
pub open spec fn spec_step_parts(acc: Number, plus: bool, n: Number) -> (bool, nat, int) {
    if plus {
        spec_add_parts(acc, n)
    } else {
        spec_add_parts(acc, spec_neg(n))
    }
}

/// One flush of the pending chunk onto the accumulator, as a result.
pub open spec fn spec_flush(acc: Number, plus: bool, cur: Seq<char>, loose: bool) -> Result<
    Number,
    Seq<char>,
> {
    match spec_parse(cur) {
        ParseOutcome::Value(n) => {
            let parts = spec_step_parts(acc, plus, n);
            if spec_norm_fits(parts.0, parts.1, parts.2) {
                Result::Ok(spec_norm(parts.0, parts.1, parts.2))
            } else {
                Result::Err("Number out of range: "@ + spec_oor_text(parts.0, parts.1, parts.2))
            }
        },
        ParseOutcome::Invalid => {
            if loose {
                Result::Err("Invalid number"@)
            } else {
                Result::Err("Invalid number: "@ + cur)
            }
        },
        ParseOutcome::OutOfRange => Result::Err("Number out of range: "@ + cur),
    }
}

/// The lenient left-to-right adder: digits and points build a chunk,
/// a plus or minus flushes it, anything else is skipped.
pub open spec fn spec_add_sub_loose(
    s: Seq<char>,
    i: int,
    acc: Number,
    plus: bool,
    cur: Seq<char>,
) -> Result<Number, Seq<char>>
    decreases s.len() - i,
{
    if !(0 <= i < s.len()) {
        if cur.len() > 0 {
            spec_flush(acc, plus, cur, true)
        } else {
            Result::Ok(acc)
        }
    } else {
        let c = s[i];
        if spec_is_digit(c) || c == '.' {
            spec_add_sub_loose(s, i + 1, acc, plus, cur.push(c))
        } else if c == '+' || c == '-' {
            if cur.len() > 0 {
                match spec_flush(acc, plus, cur, true) {
                    Result::Ok(acc2) => spec_add_sub_loose(s, i + 1, acc2, c == '+', Seq::empty()),
                    Result::Err(m) => Result::Err(m),
                }
            } else {
                spec_add_sub_loose(s, i + 1, acc, c == '+', cur)
            }
        } else {
            spec_add_sub_loose(s, i + 1, acc, plus, cur)
        }
    }
}

/// The strict left-to-right adder: a leading minus joins the chunk, any
/// character outside the accepted set is an error.
pub open spec fn spec_add_sub_strict(
    s: Seq<char>,
    i: int,
    acc: Number,
    plus: bool,
    cur: Seq<char>,
) -> Result<Number, Seq<char>>
    decreases s.len() - i,
{
    if !(0 <= i < s.len()) {
        if cur.len() > 0 {
            spec_flush(acc, plus, cur, false)
        } else {
            Result::Ok(acc)
        }
    } else {
        let c = s[i];
        if spec_is_digit(c) || c == '.' || (c == '-' && cur.len() == 0) {
            spec_add_sub_strict(s, i + 1, acc, plus, cur.push(c))
        } else if c == '+' || c == '-' {
            if cur.len() > 0 {
                match spec_flush(acc, plus, cur, false) {
                    Result::Ok(acc2) => spec_add_sub_strict(s, i + 1, acc2, c == '+', Seq::empty()),
                    Result::Err(m) => Result::Err(m),
                }
            } else {
                spec_add_sub_strict(s, i + 1, acc, c == '+', cur)
            }
        } else {
            Result::Err("Invalid character '"@ + seq![c] + "' in expression"@)
        }
    }
}

/// What `evaluate_add_sub_safe` returns: a bare number parses directly,
/// anything else goes through the strict adder.
pub open spec fn spec_add_sub_safe(s: Seq<char>) -> Result<Number, Seq<char>> {
    if !seq_has_plus_minus(s) {
        let t = spec_trim(s);
        match spec_parse(t) {
            ParseOutcome::Value(n) => Result::Ok(n),
            ParseOutcome::Invalid => Result::Err("Invalid number: "@ + t),
            ParseOutcome::OutOfRange => Result::Err("Number out of range: "@ + t),
        }
    } else {
        spec_add_sub_strict(s, 0, spec_zero(), true, Seq::empty())
    }
}

/// Whether the text holds a plus or a minus.
pub open spec fn seq_has_plus_minus(s: Seq<char>) -> bool {
    exists|k: int| 0 <= k < s.len() && (s[k] == '+' || s[k] == '-')
}

impl Calculator {
    /// Evaluates addition and subtraction operations left to right,
    /// skipping unknown characters.
    #[verifier::loop_isolation(false)]
    pub fn evaluate_add_sub(&self, expr: &str) -> (r: Result<Number, String>)
        ensures
            (r matches Result::Ok(n) ==> spec_add_sub_loose(expr@, 0, spec_zero(), true, Seq::empty())
                == Result::<Number, Seq<char>>::Ok(n) && n.inv()),
            (r matches Result::Err(m) ==> (spec_add_sub_loose(
                expr@,
                0,
                spec_zero(),
                true,
                Seq::empty(),
            ) matches Result::Err(t) && t == m@)),
            r is Ok <==> spec_add_sub_loose(expr@, 0, spec_zero(), true, Seq::empty()) is Ok,
    {
        let v = chars_from_str(expr);
        let len = v.len();
        let mut acc = Number::zero();
        let mut plus = true;
        let mut cur: Vec<char> = Vec::new();
        let mut i: usize = 0;
        while i < len
            invariant
                i <= len,
                acc.inv(),
                spec_add_sub_loose(v@, 0, spec_zero(), true, Seq::empty()) == spec_add_sub_loose(
                    v@,
                    i as int,
                    acc,
                    plus,
                    cur@,
                ),
            decreases len - i,
        {
            let c = v[i];
            if char_is_digit(c) || c == '.' {
                cur.push(c);
            } else if c == '+' || c == '-' {
                if cur.len() > 0 {
                    match parse_chars(&cur) {
                        ParseOutcome::Value(n) => {
                            let stepped = if plus {
                                acc.checked_add(&n)
                            } else {
                                acc.checked_sub(&n)
                            };
                            match stepped {
                                Ok(a2) => {
                                    acc = a2;
                                },
                                Err(e) => {
                                    return Err(e.message());
                                },
                            }
                        },
                        ParseOutcome::Invalid => {
                            return Err(String::from_str("Invalid number"));
                        },
                        ParseOutcome::OutOfRange => {
                            let m = CalculatorError::NumberOutOfRange(
                                string_from_chars(&cur),
                            ).message();
                            return Err(m);
                        },
                    }
                    plus = c == '+';
                    cur = Vec::new();
                } else {
                    plus = c == '+';
                }
            }
            i = i + 1;
        }
        if cur.len() > 0 {
            match parse_chars(&cur) {
                ParseOutcome::Value(n) => {
                    let stepped = if plus {
                        acc.checked_add(&n)
                    } else {
                        acc.checked_sub(&n)
                    };
                    match stepped {
                        Ok(a2) => Ok(a2),
                        Err(e) => Err(e.message()),
                    }
                },
                ParseOutcome::Invalid => Err(String::from_str("Invalid number")),
                ParseOutcome::OutOfRange => {
                    Err(CalculatorError::NumberOutOfRange(string_from_chars(&cur)).message())
                },
            }
        } else {
            Ok(acc)
        }
    }

    /// Evaluates addition and subtraction operations with bounds
    /// checking; a bare number is parsed directly.
    #[verifier::loop_isolation(false)]
    pub fn evaluate_add_sub_safe(&self, expr: &str) -> (r: Result<Number, String>)
        ensures
            (r matches Result::Ok(n) ==> spec_add_sub_safe(expr@) == Result::<
                Number,
                Seq<char>,
            >::Ok(n) && n.inv()),
            (r matches Result::Err(m) ==> (spec_add_sub_safe(expr@) matches Result::Err(t) && t
                == m@)),
            r is Ok <==> spec_add_sub_safe(expr@) is Ok,
    {
        let v = chars_from_str(expr);
        let len = v.len();
        let mut any_pm = false;
        let mut k: usize = 0;
        while k < len
            invariant
                k <= len,
                any_pm == (exists|j: int| 0 <= j < k && (v@[j] == '+' || v@[j] == '-')),
            decreases len - k,
        {
            let c = v[k];
            if c == '+' || c == '-' {
                any_pm = true;
            }
            k = k + 1;
        }
        if !any_pm {
            let t = trim_chars(&v);
            match parse_chars(&t) {
                ParseOutcome::Value(n) => {
                    return Ok(n);
                },
                ParseOutcome::Invalid => {
                    return Err(CalculatorError::InvalidNumber(string_from_chars(&t)).message());
                },
                ParseOutcome::OutOfRange => {
                    return Err(
                        CalculatorError::NumberOutOfRange(string_from_chars(&t)).message(),
                    );
                },
            }
        }
        let mut acc = Number::zero();
        let mut plus = true;
        let mut cur: Vec<char> = Vec::new();
        let mut i: usize = 0;
        while i < len
            invariant
                i <= len,
                acc.inv(),
                spec_add_sub_strict(v@, 0, spec_zero(), true, Seq::empty()) == spec_add_sub_strict(
                    v@,
                    i as int,
                    acc,
                    plus,
                    cur@,
                ),
            decreases len - i,
        {
            let c = v[i];
            if char_is_digit(c) || c == '.' || (c == '-' && cur.len() == 0) {
                cur.push(c);
            } else if c == '+' || c == '-' {
                if cur.len() > 0 {
                    match parse_chars(&cur) {
                        ParseOutcome::Value(n) => {
                            let stepped = if plus {
                                acc.checked_add(&n)
                            } else {
                                acc.checked_sub(&n)
                            };
                            match stepped {
                                Ok(a2) => {
                                    acc = a2;
                                },
                                Err(e) => {
                                    return Err(e.message());
                                },
                            }
                        },
                        ParseOutcome::Invalid => {
                            return Err(
                                CalculatorError::InvalidNumber(string_from_chars(&cur)).message(),
                            );
                        },
                        ParseOutcome::OutOfRange => {
                            return Err(
                                CalculatorError::NumberOutOfRange(
                                    string_from_chars(&cur),
                                ).message(),
                            );
                        },
                    }
                    plus = c == '+';
                    cur = Vec::new();
                } else {
                    plus = c == '+';
                }
            } else {
                let mut body: Vec<char> = Vec::new();
                body.push(c);
                body.push('\'');
                let m = String::from_str("Invalid character '").concat(
                    string_from_chars(&body).as_str(),
                ).concat(" in expression");
                proof {
                    reveal_strlit("' in expression");
                    reveal_strlit("'");
                    reveal_strlit(" in expression");
                    assert(m@ =~= "Invalid character '"@ + seq![v@[i as int]]
                        + "' in expression"@);
                }
                return Err(m);
            }
            i = i + 1;
        }
        if cur.len() > 0 {
            match parse_chars(&cur) {
                ParseOutcome::Value(n) => {
                    let stepped = if plus {
                        acc.checked_add(&n)
                    } else {
                        acc.checked_sub(&n)
                    };
                    match stepped {
                        Ok(a2) => Ok(a2),
                        Err(e) => Err(e.message()),
                    }
                },
                ParseOutcome::Invalid => {
                    Err(CalculatorError::InvalidNumber(string_from_chars(&cur)).message())
                },
                ParseOutcome::OutOfRange => {
                    Err(CalculatorError::NumberOutOfRange(string_from_chars(&cur)).message())
                },
            }
        } else {
            Ok(acc)
        }
    }
}

pub(crate) proof fn lemma_left_start_le(s: Seq<char>, from: int)
    requires
        0 <= from <= s.len(),
    ensures
        0 <= spec_left_start(s, from, false) <= from,
        0 <= spec_left_start(s, from, true) <= from,
    decreases from,
{
    if from > 0 {
        lemma_left_start_le(s, from - 1);
    }
}

pub(crate) proof fn lemma_digit_dot_end_le(s: Seq<char>)
    ensures
        0 <= spec_find_number_end(s) <= s.len(),
{
    if s.len() > 0 {
        lemma_digit_dot_end_le_rec(s, 1);
    }
}

proof fn lemma_digit_dot_end_le_rec(s: Seq<char>, k: int)
    requires
        0 <= k <= s.len(),
    ensures
        k <= spec_digit_dot_end(s, k) <= s.len(),
    decreases s.len() - k,
{
    if k < s.len() && (spec_is_digit(s[k]) || s[k] == '.') {
        lemma_digit_dot_end_le_rec(s, k + 1);
    }
}

} // verus!
