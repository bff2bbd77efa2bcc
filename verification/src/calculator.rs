//! The calculator type: input validation, bounded number parsing, and
//! the basic two-operand operations.

use vstd::prelude::*;
use vstd::string::StringExecFns;
use crate::chars::{
    char_is_valid, chars_from_str, spec_is_valid_char, string_from_chars,
};
use crate::errors::CalculatorError;
use crate::num_parse::{parse_chars, spec_parse, ParseOutcome};
use crate::number::{
    Number, spec_add_parts, spec_div_parts, spec_mul_parts, spec_neg, spec_norm, spec_norm_fits,
    spec_oor_text,
};

verus! {

/// A basic calculator with expression evaluation capabilities.
#[derive(Debug, Clone, Default)]
pub struct Calculator {
    /// The current expression being built
    pub expression: String,
    /// The current display value
    pub display: String,
    /// Whether the next input should start a new number
    pub new_input: bool,
}

/// Mathematical operations supported by the calculator.
#[derive(Debug, Clone, Copy, PartialEq, Eq, Structural)]
pub enum Operation {
    /// Addition operation
    Add,
    /// Subtraction operation
    Subtract,
    /// Multiplication operation
    Multiply,
    /// Division operation
    Divide,
}

/// The characters of the input that the validator rejects, in order,
/// duplicates included.
pub open spec fn spec_invalid_chars(s: Seq<char>) -> Seq<char> {
    s.filter(|c: char| !spec_is_valid_char(c))
}

/// Sign, magnitude and exponent of the exact result of a basic operation.
pub open spec fn spec_calc_parts(operation: Operation, a: Number, b: Number) -> (bool, nat, int) {
    match operation {
        Operation::Add => spec_add_parts(a, b),
        Operation::Subtract => spec_add_parts(a, spec_neg(b)),
        Operation::Multiply => spec_mul_parts(a, b),
        Operation::Divide => spec_div_parts(a, b),
    }
}

impl Calculator {
    /// Maximum allowed input length (in characters): a resource guard.
    pub const MAX_INPUT_LENGTH: usize = 1000;

    /// Creates a new calculator instance with `"0"` on the display.
    pub fn new() -> (c: Calculator)
        ensures
            c.expression@ == "0"@,
            c.display@ == "0"@,
            !c.new_input,
    {
        Calculator {
            expression: String::from_str("0"),
            display: String::from_str("0"),
            new_input: false,
        }
    }

    /// Rejects input that is longer than `MAX_INPUT_LENGTH` characters
    /// or holds any character outside the accepted set; the offending
    /// characters are reported in encounter order, duplicates included.
    pub fn validate_input(input: &str) -> (r: Result<(), CalculatorError>)
        ensures
            r is Ok <==> (input@.len() <= 1000 && spec_invalid_chars(input@).len() == 0),
            input@.len() > 1000 ==> r == Result::<(), CalculatorError>::Err(
                CalculatorError::InputTooLong,
            ),
            input@.len() <= 1000 && spec_invalid_chars(input@).len() > 0 ==> (r matches
            Result::Err(e) && e matches CalculatorError::InvalidCharacters(t) && t@
                == spec_invalid_chars(input@)),
    {
        let v = chars_from_str(input);
        if v.len() > Self::MAX_INPUT_LENGTH {
            return Err(CalculatorError::InputTooLong);
        }
        let ghost pred = |c: char| !spec_is_valid_char(c);
        let mut bad: Vec<char> = Vec::new();
        let mut i: usize = 0;
        proof {
            assert(v@.subrange(0, 0).filter(pred) =~= Seq::<char>::empty()) by {
                reveal(Seq::filter);
            }
        }
        while i < v.len()
            invariant
                i <= v@.len(),
                v@ == input@,
                bad@ == v@.subrange(0, i as int).filter(pred),
                pred == (|c: char| !spec_is_valid_char(c)),
            decreases v@.len() - i,
        {
            let c = v[i];
            proof {
                assert(v@.subrange(0, i + 1).drop_last() =~= v@.subrange(0, i as int));
                reveal(Seq::filter);
            }
            if !char_is_valid(c) {
                bad.push(c);
            }
            i = i + 1;
        }
        proof {
            assert(v@.subrange(0, v@.len() as int) =~= v@);
        }
        if bad.len() > 0 {
            Err(CalculatorError::InvalidCharacters(string_from_chars(&bad)))
        } else {
            Ok(())
        }
    }

    /// Parses a number, truncating to eighteen significant digits, and
    /// rejects a magnitude beyond `1e100` with `NumberOutOfRange`.
    pub fn safe_parse_number(s: &str) -> (r: Result<Number, CalculatorError>)
        ensures
            r is Ok <==> spec_parse(s@) is Value,
            spec_parse(s@) matches ParseOutcome::Value(n) ==> (r matches Result::Ok(m) && m == n
                && m.inv()),
            spec_parse(s@) == ParseOutcome::Invalid ==> (r matches Result::Err(e) && e matches
                CalculatorError::InvalidNumber(t) && t@ == s@),
            spec_parse(s@) == ParseOutcome::OutOfRange ==> (r matches Result::Err(e) && e matches
                CalculatorError::NumberOutOfRange(t) && t@ == s@),
    {
        let v = chars_from_str(s);
        match parse_chars(&v) {
            ParseOutcome::Value(n) => Ok(n),
            ParseOutcome::Invalid => Err(CalculatorError::InvalidNumber(s.to_owned())),
            ParseOutcome::OutOfRange => Err(CalculatorError::NumberOutOfRange(s.to_owned())),
        }
    }

    /// Performs a basic calculation between two numbers. Division by
    /// zero reports `"Error"`; a result beyond `1e100` reports the
    /// out-of-range message.
    pub fn calculate(&self, operation: Operation, a: Number, b: Number) -> (r: Result<
        Number,
        String,
    >)
        requires
            a.inv(),
            b.inv(),
        ensures
            operation == Operation::Divide && b.mant == 0 ==> (r matches Result::Err(s) && s@
                == "Error"@),
            operation != Operation::Divide || b.mant != 0 ==> {
                &&& (r is Ok <==> spec_norm_fits(
                    spec_calc_parts(operation, a, b).0,
                    spec_calc_parts(operation, a, b).1,
                    spec_calc_parts(operation, a, b).2,
                ))
                &&& (r matches Result::Ok(n) ==> n == spec_norm(
                    spec_calc_parts(operation, a, b).0,
                    spec_calc_parts(operation, a, b).1,
                    spec_calc_parts(operation, a, b).2,
                ) && n.inv())
                &&& (r matches Result::Err(s) ==> s@ == "Number out of range: "@ + spec_oor_text(
                    spec_calc_parts(operation, a, b).0,
                    spec_calc_parts(operation, a, b).1,
                    spec_calc_parts(operation, a, b).2,
                ))
            },
    {
        let res: Result<Number, CalculatorError> = match operation {
            Operation::Add => a.checked_add(&b),
            Operation::Subtract => a.checked_sub(&b),
            Operation::Multiply => a.checked_mul(&b),
            Operation::Divide => {
                if b.is_zero() {
                    return Err(String::from_str("Error"));
                }
                a.checked_div(&b)
            },
        };
        match res {
            Ok(n) => Ok(n),
            Err(e) => Err(e.message()),
        }
    }
}

/// The outcome of evaluating an expression, from validation through
/// trimming, the single-literal fast path, and otherwise tokenization,
/// the shunting yard and postfix evaluation; the error is the display
/// message.
pub open spec fn spec_evaluate(s: Seq<char>) -> Result<Number, Seq<char>> {
    if s.len() > 1000 {
        Result::Err("Input too long"@)
    } else if spec_invalid_chars(s).len() > 0 {
        Result::Err("Invalid characters: "@ + spec_invalid_chars(s))
    } else {
        let t = crate::chars::spec_trim(s);
        if t.len() == 0 || t == "0"@ {
            Result::Ok(crate::number::spec_zero())
        } else if forall|k: int| 0 <= k < t.len() ==> !crate::chars::spec_is_structural(
            #[trigger] t[k],
        ) {
            match spec_parse(t) {
                ParseOutcome::Value(n) => Result::Ok(n),
                ParseOutcome::Invalid => Result::Err("Invalid number: "@ + t),
                ParseOutcome::OutOfRange => Result::Err("Number out of range: "@ + t),
            }
        } else {
            match crate::tokenizer::spec_tokenize(t, 0, true, false) {
                Result::Err(m) => Result::Err(m),
                Result::Ok(toks) => match crate::postfix::spec_shunt(
                    toks,
                    0,
                    Seq::empty(),
                    Seq::empty(),
                ) {
                    Result::Err(_) => Result::Err("Mismatched parentheses"@),
                    Result::Ok(post) => crate::postfix::spec_eval_postfix(post, 0, Seq::empty()),
                },
            }
        }
    }
}

impl Calculator {
    /// Evaluates a mathematical expression with operator precedence and
    /// input validation: validation, trimming, a fast path for a single
    /// literal, and otherwise tokenizer, shunting yard and postfix
    /// evaluation in sequence, failing fast on the first error.
    #[verifier::loop_isolation(false)]
    pub fn evaluate(&self, expr: &str) -> (r: Result<Number, String>)
        ensures
            r is Ok <==> spec_evaluate(expr@) is Ok,
            (r matches Result::Ok(n) ==> spec_evaluate(expr@) == Result::<Number, Seq<char>>::Ok(n)
                && n.inv()),
            (r matches Result::Err(m) ==> (spec_evaluate(expr@) matches Result::Err(t) && t
                == m@)),
    {
        if let Err(e) = Self::validate_input(expr) {
            return Err(e.message());
        }
        let v = chars_from_str(expr);
        let t = crate::chars::trim_chars(&v);
        proof {
            reveal_strlit("0");
        }
        if t.len() == 0 || (t.len() == 1 && t[0] == '0') {
            proof {
                if t@.len() == 1 && t@[0] == '0' {
                    assert(t@ =~= "0"@);
                }
            }
            return Ok(Number::zero());
        }
        proof {
            assert(t@ != "0"@);
        }
        let len = t.len();
        let mut has_struct = false;
        let mut i: usize = 0;
        while i < len && !has_struct
            invariant
                i <= len,
                !has_struct ==> (forall|k: int|
                    0 <= k < i ==> !crate::chars::spec_is_structural(#[trigger] t@[k])),
                has_struct ==> !(forall|k: int|
                    0 <= k < t@.len() ==> !crate::chars::spec_is_structural(#[trigger] t@[k])),
            decreases len - i,
        {
            if crate::chars::char_is_structural(t[i]) {
                has_struct = true;
            }
            i = i + 1;
        }
        if !has_struct {
            match parse_chars(&t) {
                ParseOutcome::Value(n) => Ok(n),
                ParseOutcome::Invalid => Err(
                    CalculatorError::InvalidNumber(string_from_chars(&t)).message(),
                ),
                ParseOutcome::OutOfRange => Err(
                    CalculatorError::NumberOutOfRange(string_from_chars(&t)).message(),
                ),
            }
        } else {
            let toks = match Self::tokenize(&t) {
                Ok(ts) => ts,
                Err(m) => {
                    return Err(m);
                },
            };
            let post = match Self::shunting_yard(toks) {
                Ok(p) => p,
                Err(m) => {
                    return Err(m);
                },
            };
            Self::evaluate_postfix(post)
        }
    }
}

} // verus!
