//! The incremental input state machine: one handler per key, each an
//! exact transformation of the expression buffer, the display text and
//! the `new_input` flag.

use vstd::prelude::*;
use vstd::string::{StringExecFns, StrSliceExecFns};
use crate::calculator::{Calculator, Operation, spec_evaluate};
use crate::chars::{char_is_buf_op, chars_from_str, spec_is_buf_op, string_from_chars};
use crate::digits::{n_digits, ndigits_u64, p10, pow10_u64};
use crate::display::spec_display_string;
use crate::num_format::{digits_of, digits_vec, render_plain, render_sci, spec_plain, spec_sci};
use crate::number::{Number, norm_u128, spec_neg, spec_norm};
use crate::num_parse::{parse_chars, spec_parse, ParseOutcome};

verus! {

/// Whether one sequence begins with another.
pub open spec fn spec_starts_with(s: Seq<char>, p: Seq<char>) -> bool {
    p.len() <= s.len() && s.subrange(0, p.len() as int) == p
}

/// Whether the display shows an error message.
pub open spec fn is_error_display(d: Seq<char>) -> bool {
    ||| d == "Error"@
    ||| spec_starts_with(d, "Invalid"@)
    ||| spec_starts_with(d, "Division"@)
    ||| spec_starts_with(d, "Number out of range"@)
}

/// Whether the buffer holds any operator character.
pub open spec fn has_buf_op(s: Seq<char>) -> bool {
    exists|k: int| 0 <= k < s.len() && spec_is_buf_op(s[k])
}

/// Whether the sequence holds the character anywhere.
pub open spec fn seq_has_char(s: Seq<char>, c: char) -> bool {
    exists|k: int| 0 <= k < s.len() && s[k] == c
}

/// The digit-key transition: an error display or a bare result is
/// replaced; mid-expression the digit extends the buffer.
pub open spec fn spec_number_input(e0: Seq<char>, d0: Seq<char>, ni0: bool, digit: u8) -> (
    Seq<char>,
    Seq<char>,
    bool,
) {
    let dd = digits_of(digit as nat);
    if is_error_display(d0) {
        (dd, dd, false)
    } else if ni0 && !has_buf_op(e0) {
        (dd, dd, false)
    } else if ni0 {
        (e0 + dd, spec_display_string(e0 + dd), false)
    } else if d0 == "0"@ {
        (dd, dd, ni0)
    } else {
        (e0 + dd, d0 + dd, ni0)
    }
}

/// The decimal-key transition: like a digit, except that a second point
/// within the displayed operand is ignored.
pub open spec fn spec_decimal_input(e0: Seq<char>, d0: Seq<char>, ni0: bool) -> (
    Seq<char>,
    Seq<char>,
    bool,
) {
    if is_error_display(d0) {
        ("0."@, "0."@, false)
    } else if ni0 && !has_buf_op(e0) {
        ("0."@, "0."@, false)
    } else if ni0 {
        (e0 + "0."@, spec_display_string(e0 + "0."@), false)
    } else if d0 == "0"@ {
        ("0."@, "0."@, ni0)
    } else if !seq_has_char(d0, '.') {
        (e0 + seq!['.'], d0 + seq!['.'], ni0)
    } else {
        (e0, d0, ni0)
    }
}

/// The operator character each operation writes into the buffer.
pub open spec fn spec_op_char(operation: Operation) -> char {
    match operation {
        Operation::Add => '+',
        Operation::Subtract => '-',
        Operation::Multiply => 'x',
        Operation::Divide => '÷',
    }
}

/// The operator-key transition: a trailing operator is replaced, else
/// the operator is appended; the display shows the full expression.
pub open spec fn spec_operation_input(
    e0: Seq<char>,
    d0: Seq<char>,
    ni0: bool,
    operation: Operation,
) -> (Seq<char>, Seq<char>, bool) {
    if d0 == "Error"@ {
        (e0, d0, ni0)
    } else {
        let base = if e0.len() > 0 && spec_is_buf_op(e0.last()) {
            e0.drop_last()
        } else {
            e0
        };
        let e1 = base + seq![spec_op_char(operation)];
        (e1, spec_display_string(e1), true)
    }
}

/// How a result is shown after the equals key: four-decimal scientific
/// notation for magnitudes at or above `1e6` or below `1e-4`, otherwise
/// fixed-point rounded to eight decimals with trailing zeros trimmed.
pub open spec fn spec_equals_display(n: Number) -> Seq<char> {
    let ord = n.exp + n_digits(n.mant as nat) - 1;
    if n.mant != 0 && (ord >= 6 || ord <= -5) {
        spec_sci(n.negative, n.mant as nat, n.exp as int, 4)
    } else if n.exp >= -8 {
        spec_plain(n.negative, n.mant as nat, n.exp as int)
    } else {
        let k = (-8 - n.exp) as nat;
        let a2 = ((n.mant + 5 * p10((k - 1) as nat)) / p10(k)) as nat;
        let m = spec_norm(n.negative, a2, -8);
        spec_plain(m.negative, m.mant as nat, m.exp as int)
    }
}

/// The equals-key transition: the expression is evaluated; on success
/// the display shows the formatted result and the buffer holds its full
/// plain rendering, on failure the error text is shown and the buffer
/// resets.
pub open spec fn spec_equals_input(e0: Seq<char>, d0: Seq<char>, ni0: bool) -> (
    Seq<char>,
    Seq<char>,
    bool,
) {
    if d0 == "Error"@ {
        (e0, d0, ni0)
    } else {
        match spec_evaluate(e0) {
            Result::Ok(n) => (
                spec_plain(n.negative, n.mant as nat, n.exp as int),
                spec_equals_display(n),
                true,
            ),
            Result::Err(m) => ("0"@, m, ni0),
        }
    }
}

/// The backspace transition: the last character is removed and the
/// display recomputed; an error or a spent buffer resets to `"0"`.
pub open spec fn spec_backspace_input(e0: Seq<char>, d0: Seq<char>, ni0: bool) -> (
    Seq<char>,
    Seq<char>,
    bool,
) {
    if is_error_display(d0) {
        ("0"@, "0"@, false)
    } else if e0.len() > 1 {
        let e1 = e0.drop_last();
        if spec_is_buf_op(e0.last()) {
            (e1, spec_display_string(e1), true)
        } else {
            (e1, spec_display_string(e1), !(e1.len() == 0 || e1 == "0"@))
        }
    } else if e0 == "0"@ {
        (e0, d0, ni0)
    } else {
        ("0"@, "0"@, false)
    }
}

/// The clear transition: back to the initial state.
pub open spec fn spec_clear_input() -> (Seq<char>, Seq<char>, bool) {
    ("0"@, "0"@, false)
}

/// Compares two character vectors.
fn chars_eq(v: &Vec<char>, p: &Vec<char>) -> (r: bool)
    ensures
        r == (v@ == p@),
{
    if v.len() != p.len() {
        proof {
            assert(v@ != p@);
        }
        return false;
    }
    let n = v.len();
    let mut i: usize = 0;
    while i < n
        invariant
            i <= n,
            n == v@.len() == p@.len(),
            forall|k: int| 0 <= k < i ==> v@[k] == p@[k],
        decreases n - i,
    {
        if v[i] != p[i] {
            proof {
                assert(v@ != p@);
            }
            return false;
        }
        i = i + 1;
    }
    proof {
        assert(v@ =~= p@);
    }
    true
}

/// Whether one vector starts with another.
fn chars_start_with(v: &Vec<char>, p: &Vec<char>) -> (r: bool)
    ensures
        r == spec_starts_with(v@, p@),
{
    if p.len() > v.len() {
        return false;
    }
    let n = p.len();
    let mut i: usize = 0;
    while i < n
        invariant
            i <= n,
            n == p@.len() <= v@.len(),
            forall|k: int| 0 <= k < i ==> v@[k] == p@[k],
        decreases n - i,
    {
        if v[i] != p[i] {
            proof {
                assert(v@.subrange(0, n as int)[i as int] != p@[i as int]);
            }
            return false;
        }
        i = i + 1;
    }
    proof {
        assert(v@.subrange(0, n as int) =~= p@);
    }
    true
}

/// Whether the display shows an error message.
fn display_is_error(d: &String) -> (r: bool)
    ensures
        r == is_error_display(d@),
{
    let dv = chars_from_str(d.as_str());
    let err = chars_from_str("Error");
    if chars_eq(&dv, &err) {
        return true;
    }
    let p1 = chars_from_str("Invalid");
    if chars_start_with(&dv, &p1) {
        return true;
    }
    let p2 = chars_from_str("Division");
    if chars_start_with(&dv, &p2) {
        return true;
    }
    let p3 = chars_from_str("Number out of range");
    chars_start_with(&dv, &p3)
}

/// Whether the text holds an operator character.
fn string_has_buf_op(s: &String) -> (r: bool)
    ensures
        r == has_buf_op(s@),
{
    let v = chars_from_str(s.as_str());
    let n = v.len();
    let mut i: usize = 0;
    while i < n
        invariant
            i <= n,
            n == v@.len(),
            v@ == s@,
            forall|k: int| 0 <= k < i ==> !spec_is_buf_op(s@[k]),
        decreases n - i,
    {
        if char_is_buf_op(v[i]) {
            return true;
        }
        i = i + 1;
    }
    false
}

/// Whether the text holds the character.
fn string_has_char(s: &String, c: char) -> (r: bool)
    ensures
        r == seq_has_char(s@, c),
{
    let v = chars_from_str(s.as_str());
    let n = v.len();
    let mut i: usize = 0;
    while i < n
        invariant
            i <= n,
            n == v@.len(),
            v@ == s@,
            forall|k: int| 0 <= k < i ==> s@[k] != c,
        decreases n - i,
    {
        if v[i] == c {
            return true;
        }
        i = i + 1;
    }
    false
}

impl Calculator {
    /// Handles number input for the calculator.
    pub fn handle_number_input(&mut self, digit: u8)
        ensures
            (final(self).expression@, final(self).display@, final(self).new_input)
                == spec_number_input(
                old(self).expression@,
                old(self).display@,
                old(self).new_input,
                digit,
            ),
    {
        let ds = string_from_chars(&digits_vec(digit as u64));
        if display_is_error(&self.display) {
            self.expression = ds.clone();
            self.display = ds;
            self.new_input = false;
        } else if self.new_input && !string_has_buf_op(&self.expression) {
            self.expression = ds.clone();
            self.display = ds;
            self.new_input = false;
        } else if self.new_input {
            self.expression.append(ds.as_str());
            self.display = self.display_string();
            self.new_input = false;
        } else {
            let zero = String::from_str("0");
            if self.display.eq(&zero) {
                self.expression = ds.clone();
                self.display = ds;
            } else {
                self.expression.append(ds.as_str());
                self.display.append(ds.as_str());
            }
        }
    }

    /// Handles operation input for the calculator.
    pub fn handle_operation_input(&mut self, operation: Operation)
        ensures
            (final(self).expression@, final(self).display@, final(self).new_input)
                == spec_operation_input(
                old(self).expression@,
                old(self).display@,
                old(self).new_input,
                operation,
            ),
    {
        let err = String::from_str("Error");
        if self.display.eq(&err) {
            return ;
        }
        let op_char: char = match operation {
            Operation::Add => '+',
            Operation::Subtract => '-',
            Operation::Multiply => 'x',
            Operation::Divide => '÷',
        };
        let mut ev = chars_from_str(self.expression.as_str());
        if ev.len() > 0 {
            let last = ev[ev.len() - 1];
            if char_is_buf_op(last) {
                proof {
                    assert(ev@.drop_last() =~= ev@.take(ev@.len() - 1));
                }
                let _popped = ev.pop();
            }
        }
        ev.push(op_char);
        proof {
            let base = if old(self).expression@.len() > 0 && spec_is_buf_op(
                old(self).expression@.last(),
            ) {
                old(self).expression@.drop_last()
            } else {
                old(self).expression@
            };
            assert(ev@ =~= base + seq![spec_op_char(operation)]);
        }
        self.expression = string_from_chars(&ev);
        self.display = self.display_string();
        self.new_input = true;
    }

    /// Handles decimal point input for the calculator.
    pub fn handle_decimal_input(&mut self)
        ensures
            (final(self).expression@, final(self).display@, final(self).new_input)
                == spec_decimal_input(
                old(self).expression@,
                old(self).display@,
                old(self).new_input,
            ),
    {
        if display_is_error(&self.display) {
            self.expression = String::from_str("0.");
            self.display = String::from_str("0.");
            self.new_input = false;
        } else if self.new_input && !string_has_buf_op(&self.expression) {
            self.expression = String::from_str("0.");
            self.display = String::from_str("0.");
            self.new_input = false;
        } else if self.new_input {
            self.expression.append("0.");
            self.display = self.display_string();
            self.new_input = false;
        } else {
            let zero = String::from_str("0");
            if self.display.eq(&zero) {
                self.expression = String::from_str("0.");
                self.display = String::from_str("0.");
            } else if !string_has_char(&self.display, '.') {
                self.expression.append(".");
                self.display.append(".");
                proof {
                    reveal_strlit(".");
                    assert(old(self).expression@ + "."@ =~= old(self).expression@ + seq!['.']);
                    assert(old(self).display@ + "."@ =~= old(self).display@ + seq!['.']);
                }
            }
        }
    }

    /// Handles clear input for the calculator.
    pub fn handle_clear_input(&mut self)
        ensures
            (final(self).expression@, final(self).display@, final(self).new_input)
                == spec_clear_input(),
    {
        self.expression = String::from_str("0");
        self.display = String::from_str("0");
        self.new_input = false;
    }

    /// Handles backspace input for the calculator.
    pub fn handle_backspace_input(&mut self)
        ensures
            (final(self).expression@, final(self).display@, final(self).new_input)
                == spec_backspace_input(
                old(self).expression@,
                old(self).display@,
                old(self).new_input,
            ),
    {
        if display_is_error(&self.display) {
            self.expression = String::from_str("0");
            self.display = String::from_str("0");
            self.new_input = false;
            return ;
        }
        let mut ev = chars_from_str(self.expression.as_str());
        if ev.len() > 1 {
            proof {
                assert(ev@.drop_last() =~= ev@.take(ev@.len() - 1));
            }
            let last_char = ev.pop().unwrap();
            self.expression = string_from_chars(&ev);
            if char_is_buf_op(last_char) {
                self.display = self.display_string();
                self.new_input = true;
            } else {
                self.display = self.display_string();
                let zero = String::from_str("0");
                self.new_input = !(self.expression.as_str().unicode_len() == 0
                    || self.expression.eq(&zero));
            }
        } else {
            let zero = String::from_str("0");
            if self.expression.eq(&zero) {
                // already at minimum
            } else {
                self.expression = String::from_str("0");
                self.display = String::from_str("0");
                self.new_input = false;
            }
        }
    }
}

/// The index of the last occurrence of a character, if any.
pub open spec fn spec_rfind_char(s: Seq<char>, c: char) -> Option<int>
    decreases s.len(),
{
    if s.len() == 0 {
        Option::None
    } else if s.last() == c {
        Option::Some(s.len() - 1)
    } else {
        spec_rfind_char(s.drop_last(), c)
    }
}

/// The index of the last operator character, if any.
pub open spec fn spec_rfind_buf_op(s: Seq<char>) -> Option<int>
    decreases s.len(),
{
    if s.len() == 0 {
        Option::None
    } else if spec_is_buf_op(s.last()) {
        Option::Some(s.len() - 1)
    } else {
        spec_rfind_buf_op(s.drop_last())
    }
}

/// The text after the last operator; the whole text when there is none.
pub open spec fn spec_after_last_op(e: Seq<char>) -> Seq<char> {
    match spec_rfind_buf_op(e) {
        Option::Some(p) => e.subrange(p + 1, e.len() as int),
        Option::None => e,
    }
}

/// The percent-key transition: the display, if it parses as a number,
/// is divided by one hundred and spliced back into the buffer.
pub open spec fn spec_percentage_input(e0: Seq<char>, d0: Seq<char>, ni0: bool) -> (
    Seq<char>,
    Seq<char>,
    bool,
) {
    match spec_parse(d0) {
        ParseOutcome::Value(n) => {
            let p = spec_norm(n.negative, n.mant as nat, n.exp - 2);
            let ps = spec_plain(p.negative, p.mant as nat, p.exp as int);
            let e1 = match spec_rfind_char(e0, ' ') {
                Option::Some(idx) => e0.subrange(0, idx + 1) + ps,
                Option::None => ps,
            };
            (e1, ps, ni0)
        },
        _ => (e0, d0, ni0),
    }
}

/// The position of the last operator that separates operands at the top
/// parenthesis level, scanning right to left; a `-` that is itself a
/// sign (at the start, or right after another operator) is skipped.
pub open spec fn spec_find_last_op(s: Seq<char>, i: int, depth: int) -> Option<int>
    decreases i + 1,
{
    if i < 0 {
        Option::None
    } else {
        let c = s[i];
        if c == ')' {
            spec_find_last_op(s, i - 1, depth + 1)
        } else if c == '(' {
            spec_find_last_op(s, i - 1, depth - 1)
        } else if depth == 0 && spec_is_buf_op(c) {
            if c == '-' && (i == 0 || spec_is_buf_op(s[i - 1])) {
                spec_find_last_op(s, i - 1, depth)
            } else {
                Option::Some(i)
            }
        } else {
            spec_find_last_op(s, i - 1, depth)
        }
    }
}

/// The value the sign toggle reads from the text after the last
/// operator: a plain number, a parenthesized negative `"(-N)"`, or a
/// negated parenthesized negative `"-(-N)"`.
pub open spec fn spec_toggle_value(part: Seq<char>) -> Option<Number> {
    if spec_parse(part) is Value {
        Option::Some(spec_parse(part)->Value_0)
    } else if spec_starts_with(part, "(-"@) && part.len() > 0 && part.last() == ')' {
        match spec_parse(part.subrange(2, part.len() - 1)) {
            ParseOutcome::Value(m) => Option::Some(spec_neg(m)),
            _ => Option::None,
        }
    } else if part.len() > 3 && part[0] == '-' && spec_starts_with(
        part.subrange(1, part.len() as int),
        "(-"@,
    ) && part.last() == ')' {
        match spec_parse(part.subrange(3, part.len() - 1)) {
            ParseOutcome::Value(m) => Option::Some(m),
            _ => Option::None,
        }
    } else {
        Option::None
    }
}

/// The sign-toggle transition. Within an expression the operand after
/// the last separating operator is negated, positive values becoming
/// parenthesized negatives; a bare value is negated the same way. An
/// unreadable operand leaves everything unchanged.
pub open spec fn spec_sign_toggle_input(e0: Seq<char>, d0: Seq<char>, ni0: bool) -> (
    Seq<char>,
    Seq<char>,
    bool,
) {
    let has_ops = (exists|k: int|
        0 <= k < e0.len() && (e0[k] == '+' || e0[k] == 'x' || e0[k] == '÷')) || (seq_has_char(
        e0,
        '-',
    ) && spec_find_last_op(e0, e0.len() - 1, 0) is Some);
    if has_ops {
        match spec_find_last_op(e0, e0.len() - 1, 0) {
            Option::None => (e0, d0, ni0),
            Option::Some(pos) => {
                let part = e0.subrange(pos + 1, e0.len() as int);
                match spec_toggle_value(part) {
                    Option::None => (e0, d0, ni0),
                    Option::Some(n) => {
                        let rep = if n.mant != 0 && !n.negative {
                            seq!['(', '-'] + spec_plain(false, n.mant as nat, n.exp as int)
                                + seq![')']
                        } else {
                            spec_plain(false, n.mant as nat, n.exp as int)
                        };
                        let e1 = e0.subrange(0, pos + 1) + rep;
                        (e1, spec_display_string(e1), false)
                    },
                }
            },
        }
    } else {
        let dv: Option<Number> = if spec_starts_with(d0, "(-"@) && d0.len() > 0 && d0.last()
            == ')' {
            match spec_parse(d0.subrange(1, d0.len() - 1)) {
                ParseOutcome::Value(m) => Option::Some(m),
                _ => Option::None,
            }
        } else {
            match spec_parse(d0) {
                ParseOutcome::Value(m) => Option::Some(m),
                _ => Option::None,
            }
        };
        match dv {
            Option::None => (e0, d0, ni0),
            Option::Some(v) => {
                if v.mant != 0 && !v.negative {
                    let ps = spec_plain(false, v.mant as nat, v.exp as int);
                    (seq!['-'] + ps, seq!['(', '-'] + ps + seq![')'], ni0)
                } else {
                    let ps = spec_plain(false, v.mant as nat, v.exp as int);
                    (ps, ps, ni0)
                }
            },
        }
    }
}

/// Renders a result for the display after the equals key.
#[verifier::loop_isolation(false)]
fn equals_display(n: &Number) -> (r: Vec<char>)
    requires
        n.inv(),
    ensures
        r@ == spec_equals_display(*n),
{
    proof {
        crate::digits::lemma_p10_vals();
    }
    let nd = ndigits_u64(n.mant);
    proof {
        crate::digits::lemma_n_digits_le(n.mant as nat, 18);
    }
    if n.mant != 0 {
        let ord: i64 = n.exp + nd as i64 - 1;
        if ord >= 6 || ord <= -5 {
            return render_sci(n.negative, n.mant, n.exp, 4);
        }
    }
    if n.exp >= -8 {
        render_plain(n.negative, n.mant, n.exp)
    } else {
        proof {
            crate::digits::lemma_n_digits_bounds(n.mant as nat);
        }
        let k: u64 = ((-8) - n.exp) as u64;
        proof {
            assert(k <= 14);
            crate::digits::lemma_p10_pos(k as nat);
            crate::digits::lemma_p10_increases((k - 1) as nat, 16);
            crate::digits::lemma_p10_increases(1, k as nat);
            crate::digits::lemma_p10_adds(18, 1);
        }
        let half = 5 * pow10_u64(k - 1);
        let pk = pow10_u64(k);
        let a2 = (n.mant + half) / pk;
        proof {
            assert((n.mant + half) < p10(18) * p10(k as nat)) by (nonlinear_arith)
                requires
                    (n.mant as nat) < p10(18),
                    half <= 5 * p10(16),
                    p10(k as nat) >= 10,
                    p10(16) < p10(18),
                    p10(18) * 10 <= p10(18) * p10(k as nat),
                    p10(18) * p10(1) == p10(19),
                    p10(1) == 10,
                    p10(19) == 10_000_000_000_000_000_000,
            ;
            vstd::arithmetic::div_mod::lemma_multiply_divide_lt(
                (n.mant + half) as int,
                p10(k as nat),
                p10(18),
            );
            assert((a2 as nat) < p10(18));
            if a2 > 0 {
                crate::digits::lemma_n_digits_le(a2 as nat, 18);
                crate::number::lemma_norm_fits_small(n.negative, a2 as nat, -8);
            }
            crate::digits::lemma_p10_increases(18, 37);
        }
        let m = match norm_u128(n.negative, a2 as u128, -8) {
            Result::Ok(x) => x,
            Result::Err(_) => {
                proof {
                    assert(false);
                }
                Number::zero()
            },
        };
        render_plain(m.negative, m.mant, m.exp)
    }
}

impl Calculator {
    /// Handles equals input for the calculator.
    pub fn handle_equals_input(&mut self)
        ensures
            (final(self).expression@, final(self).display@, final(self).new_input)
                == spec_equals_input(
                old(self).expression@,
                old(self).display@,
                old(self).new_input,
            ),
    {
        let err = String::from_str("Error");
        if self.display.eq(&err) {
            return ;
        }
        let res = self.evaluate(self.expression.as_str());
        match res {
            Ok(result) => {
                let d = equals_display(&result);
                self.display = string_from_chars(&d);
                self.expression = string_from_chars(
                    &render_plain(result.negative, result.mant, result.exp),
                );
                self.new_input = true;
            },
            Err(error) => {
                self.display = error;
                self.expression = String::from_str("0");
            },
        }
    }

    /// Extracts the last number from the expression (before the last operator)
    #[verifier::loop_isolation(false)]
    pub fn extract_last_number(&self) -> (r: String)
        ensures
            r@ == spec_after_last_op(self.expression@),
    {
        let v = chars_from_str(self.expression.as_str());
        let mut i = v.len();
        proof {
            assert(v@.subrange(0, i as int) =~= v@);
        }
        while i > 0
            invariant
                i <= v@.len(),
                spec_rfind_buf_op(v@) == spec_rfind_buf_op(v@.subrange(0, i as int)),
                forall|k: int| i <= k < v@.len() ==> !spec_is_buf_op(v@[k]),
            decreases i,
        {
            proof {
                assert(v@.subrange(0, i as int).drop_last() =~= v@.subrange(0, i - 1));
            }
            if char_is_buf_op(v[i - 1]) {
                proof {
                    assert(spec_rfind_buf_op(v@) == Option::Some(i - 1));
                }
                let mut out: Vec<char> = Vec::new();
                let vl = v.len();
                crate::num_format::push_slice(&mut out, &v, i, vl);
                proof {
                    assert(out@ =~= v@.subrange(i as int, v@.len() as int));
                }
                return string_from_chars(&out);
            }
            i = i - 1;
        }
        proof {
            assert(v@.subrange(0, 0int) =~= Seq::<char>::empty());
            assert(spec_rfind_buf_op(v@) is None);
        }
        let mut out: Vec<char> = Vec::new();
        let vl = v.len();
        crate::num_format::push_slice(&mut out, &v, 0, vl);
        proof {
            assert(out@ =~= v@);
        }
        string_from_chars(&out)
    }

    /// Extracts the current number being entered (after the last operator)
    #[verifier::loop_isolation(false)]
    pub fn extract_current_number(&self) -> (r: String)
        ensures
            r@ == spec_after_last_op(self.expression@),
    {
        let v = chars_from_str(self.expression.as_str());
        let mut i = v.len();
        proof {
            assert(v@.subrange(0, i as int) =~= v@);
        }
        while i > 0
            invariant
                i <= v@.len(),
                spec_rfind_buf_op(v@) == spec_rfind_buf_op(v@.subrange(0, i as int)),
                forall|k: int| i <= k < v@.len() ==> !spec_is_buf_op(v@[k]),
            decreases i,
        {
            proof {
                assert(v@.subrange(0, i as int).drop_last() =~= v@.subrange(0, i - 1));
            }
            if char_is_buf_op(v[i - 1]) {
                proof {
                    assert(spec_rfind_buf_op(v@) == Option::Some(i - 1));
                }
                let mut out: Vec<char> = Vec::new();
                let vl = v.len();
                crate::num_format::push_slice(&mut out, &v, i, vl);
                proof {
                    assert(out@ =~= v@.subrange(i as int, v@.len() as int));
                }
                return string_from_chars(&out);
            }
            i = i - 1;
        }
        proof {
            assert(v@.subrange(0, 0int) =~= Seq::<char>::empty());
            assert(spec_rfind_buf_op(v@) is None);
        }
        let mut out: Vec<char> = Vec::new();
        let vl = v.len();
        crate::num_format::push_slice(&mut out, &v, 0, vl);
        proof {
            assert(out@ =~= v@);
        }
        string_from_chars(&out)
    }

    /// Handles percentage input for the calculator.
    #[verifier::loop_isolation(false)]
    pub fn handle_percentage_input(&mut self)
        ensures
            (final(self).expression@, final(self).display@, final(self).new_input)
                == spec_percentage_input(
                old(self).expression@,
                old(self).display@,
                old(self).new_input,
            ),
    {
        let dv = chars_from_str(self.display.as_str());
        match crate::num_parse::parse_chars(&dv) {
            ParseOutcome::Value(n) => {
                let p = n.percent();
                let ps = render_plain(p.negative, p.mant, p.exp);
                let pstr = string_from_chars(&ps);
                let ev = chars_from_str(self.expression.as_str());
                let mut i = ev.len();
                proof {
                    assert(ev@.subrange(0, i as int) =~= ev@);
                }
                while i > 0
                    invariant
                        i <= ev@.len(),
                        spec_rfind_char(ev@, ' ') == spec_rfind_char(
                            ev@.subrange(0, i as int),
                            ' ',
                        ),
                        self.expression@ == old(self).expression@,
                        self.display@ == old(self).display@,
                        self.new_input == old(self).new_input,
                    decreases i,
                {
                    proof {
                        assert(ev@.subrange(0, i as int).drop_last() =~= ev@.subrange(0, i - 1));
                    }
                    if ev[i - 1] == ' ' {
                        proof {
                            assert(spec_rfind_char(ev@, ' ') == Option::Some(i - 1));
                        }
                        let mut out: Vec<char> = Vec::new();
                        crate::num_format::push_slice(&mut out, &ev, 0, i);
                        proof {
                            assert(out@ =~= ev@.subrange(0, i as int));
                        }
                        let mut head = string_from_chars(&out);
                        head.append(pstr.as_str());
                        self.expression = head;
                        self.display = pstr;
                        return ;
                    }
                    i = i - 1;
                }
                proof {
                    assert(ev@.subrange(0, 0int) =~= Seq::<char>::empty());
                    assert(spec_rfind_char(ev@, ' ') is None);
                }
                self.expression = pstr.clone();
                self.display = pstr;
            },
            _ => {
            },
        }
    }
}

/// Reads the value the sign toggle works on from the text after the
/// last separating operator.
fn toggle_value(part: &Vec<char>) -> (r: Option<Number>)
    ensures
        r == spec_toggle_value(part@),
        (r matches Option::Some(n) ==> n.inv()),
{
    match parse_chars(part) {
        ParseOutcome::Value(n) => {
            return Some(n);
        },
        _ => {
        },
    }
    let n = part.len();
    proof {
        reveal_strlit("(-");
    }
    let open_neg = chars_from_str("(-");
    if chars_start_with(part, &open_neg) && n > 0 && part[n - 1] == ')' {
        proof {
            assert(part@.len() >= 2);
            assert(part@.subrange(0, 2)[1] == part@[1]);
            assert(part@[1] == '-');
            assert(part@.len() >= 3) by {
                if part@.len() == 2 {
                    assert(part@[1] == ')');
                }
            }
        }
        let mut inner: Vec<char> = Vec::new();
        crate::num_format::push_slice(&mut inner, part, 2, n - 1);
        match parse_chars(&inner) {
            ParseOutcome::Value(m) => Some(m.negated()),
            _ => None,
        }
    } else if n > 3 && part[0] == '-' && part[1] == '(' && part[2] == '-' && part[n - 1] == ')' {
        proof {
            reveal_strlit("(-");
            assert(spec_starts_with(part@.subrange(1, part@.len() as int), "(-"@)) by {
                assert(part@.subrange(1, part@.len() as int).subrange(0, 2) =~= "(-"@);
            }
        }
        let mut inner: Vec<char> = Vec::new();
        crate::num_format::push_slice(&mut inner, part, 3, n - 1);
        match parse_chars(&inner) {
            ParseOutcome::Value(m) => Some(m),
            _ => None,
        }
    } else {
        proof {
            reveal_strlit("(-");
            if part@.len() > 3 && part@[0] == '-' && spec_starts_with(
                part@.subrange(1, part@.len() as int),
                "(-"@,
            ) && part@.last() == ')' {
                let sub = part@.subrange(1, part@.len() as int);
                assert(sub.subrange(0, 2)[0] == sub[0]);
                assert(sub.subrange(0, 2)[1] == sub[1]);
                assert(sub[0] == part@[1]);
                assert(sub[1] == part@[2]);
                assert(part@[1] == '(' && part@[2] == '-');
                assert(false);
            }
        }
        None
    }
}

impl Calculator {
    /// Finds the position of the last operator that separates operands
    /// at the top parenthesis level; operators inside parentheses and a
    /// `-` that is a negative sign are skipped.
    #[verifier::loop_isolation(false)]
    pub fn find_last_operator_position(&self, expr: &str) -> (r: Option<usize>)
        ensures
            (r matches Option::Some(p) ==> spec_find_last_op(expr@, expr@.len() - 1, 0)
                == Option::Some(p as int) && p < expr@.len()),
            (r is None ==> spec_find_last_op(expr@, expr@.len() - 1, 0) is None),
    {
        let v = chars_from_str(expr);
        let len = v.len();
        let mut i: usize = len;
        let mut depth: i128 = 0;
        while i > 0
            invariant
                i <= len,
                -((len - i) as i128) <= depth <= (len - i) as i128,
                spec_find_last_op(v@, len - 1, 0) == spec_find_last_op(
                    v@,
                    i - 1,
                    depth as int,
                ),
            decreases i,
        {
            let c = v[i - 1];
            if c == ')' {
                depth = depth + 1;
            } else if c == '(' {
                depth = depth - 1;
            } else if depth == 0 && char_is_buf_op(c) {
                let is_negative_sign = if c == '-' {
                    if i - 1 == 0 {
                        true
                    } else {
                        char_is_buf_op(v[i - 2])
                    }
                } else {
                    false
                };
                if !is_negative_sign {
                    return Some(i - 1);
                }
            }
            i = i - 1;
        }
        None
    }

    /// Handles sign toggle input for the calculator: negates the
    /// operand after the last separating operator, or the whole value
    /// when there is none.
    #[verifier::loop_isolation(false)]
    #[verifier::rlimit(100)]
    pub fn handle_sign_toggle_input(&mut self)
        ensures
            (final(self).expression@, final(self).display@, final(self).new_input)
                == spec_sign_toggle_input(
                old(self).expression@,
                old(self).display@,
                old(self).new_input,
            ),
    {
        let ev = chars_from_str(self.expression.as_str());
        let elen = ev.len();
        let mut has_plus_mul_div = false;
        let mut has_minus = false;
        let mut k: usize = 0;
        while k < elen
            invariant
                k <= elen == ev@.len(),
                ev@ == old(self).expression@,
                has_plus_mul_div == (exists|j: int|
                    0 <= j < k && (ev@[j] == '+' || ev@[j] == 'x' || ev@[j] == '÷')),
                has_minus == (exists|j: int| 0 <= j < k && ev@[j] == '-'),
                self.expression@ == old(self).expression@,
                self.display@ == old(self).display@,
                self.new_input == old(self).new_input,
            decreases elen - k,
        {
            let c = ev[k];
            if c == '+' || c == 'x' || c == '÷' {
                has_plus_mul_div = true;
            }
            if c == '-' {
                has_minus = true;
            }
            k = k + 1;
        }
        let last_op = self.find_last_operator_position(self.expression.as_str());
        let has_operators = has_plus_mul_div || (has_minus && last_op.is_some());
        if has_operators {
            match last_op {
                Some(pos) => {
                    let mut part: Vec<char> = Vec::new();
                    crate::num_format::push_slice(&mut part, &ev, pos + 1, elen);
                    proof {
                        assert(part@ =~= old(self).expression@.subrange(
                            pos + 1,
                            old(self).expression@.len() as int,
                        ));
                    }
                    match toggle_value(&part) {
                        Some(nv) => {
                            let mut head: Vec<char> = Vec::new();
                            crate::num_format::push_slice(&mut head, &ev, 0, pos + 1);
                            if nv.mant != 0 && !nv.negative {
                                head.push('(');
                                head.push('-');
                                let body = render_plain(false, nv.mant, nv.exp);
                                let bl = body.len();
                                crate::num_format::push_slice(&mut head, &body, 0, bl);
                                head.push(')');
                                proof {
                                    assert(body@.subrange(0, bl as int) =~= body@);
                                    assert(head@ =~= old(self).expression@.subrange(0, pos + 1)
                                        + (seq!['(', '-'] + spec_plain(
                                        false,
                                        nv.mant as nat,
                                        nv.exp as int,
                                    ) + seq![')']));
                                }
                            } else {
                                let body = render_plain(false, nv.mant, nv.exp);
                                let bl = body.len();
                                crate::num_format::push_slice(&mut head, &body, 0, bl);
                                proof {
                                    assert(body@.subrange(0, bl as int) =~= body@);
                                    assert(head@ =~= old(self).expression@.subrange(0, pos + 1)
                                        + spec_plain(false, nv.mant as nat, nv.exp as int));
                                }
                            }
                            self.expression = string_from_chars(&head);
                            self.display = self.display_string();
                            self.new_input = false;
                        },
                        None => {
                        },
                    }
                },
                None => {
                },
            }
        } else {
            let dv = chars_from_str(self.display.as_str());
            let dlen = dv.len();
            let open_neg = chars_from_str("(-");
            let parenthesized = chars_start_with(&dv, &open_neg) && dlen > 0 && dv[dlen - 1]
                == ')';
            let value: Option<Number> = if parenthesized {
                proof {
                    reveal_strlit("(-");
                }
                let mut inner: Vec<char> = Vec::new();
                crate::num_format::push_slice(&mut inner, &dv, 1, dlen - 1);
                match parse_chars(&inner) {
                    ParseOutcome::Value(m) => Some(m),
                    _ => None,
                }
            } else {
                match parse_chars(&dv) {
                    ParseOutcome::Value(m) => Some(m),
                    _ => None,
                }
            };
            match value {
                Some(v) => {
                    let body = render_plain(false, v.mant, v.exp);
                    let bl = body.len();
                    if v.mant != 0 && !v.negative {
                        let mut e1: Vec<char> = Vec::new();
                        e1.push('-');
                        crate::num_format::push_slice(&mut e1, &body, 0, bl);
                        let mut d1: Vec<char> = Vec::new();
                        d1.push('(');
                        d1.push('-');
                        crate::num_format::push_slice(&mut d1, &body, 0, bl);
                        d1.push(')');
                        proof {
                            assert(body@.subrange(0, bl as int) =~= body@);
                            assert(e1@ =~= seq!['-'] + spec_plain(false, v.mant as nat, v.exp as int));
                            assert(d1@ =~= seq!['(', '-'] + spec_plain(
                                false,
                                v.mant as nat,
                                v.exp as int,
                            ) + seq![')']);
                        }
                        self.expression = string_from_chars(&e1);
                        self.display = string_from_chars(&d1);
                    } else {
                        proof {
                            assert(body@.subrange(0, bl as int) =~= body@);
                        }
                        self.expression = string_from_chars(&body);
                        self.display = string_from_chars(&body);
                    }
                },
                None => {
                },
            }
        }
    }
}

} // verus!
