//! The precedence resolver (shunting-yard) and the postfix evaluator.

use vstd::prelude::*;
use vstd::string::StringExecFns;
use crate::errors::CalculatorError;
use crate::number::{
    Number, spec_add_parts, spec_div_parts, spec_mul_parts, spec_neg, spec_norm, spec_norm_fits,
    spec_oor_text,
};
use crate::tokenizer::{spec_operator_info, Token, tokens_wf};

verus! {

/// Pops operators that bind at least as tightly as the incoming one:
/// strictly higher rank, or equal rank when the incoming operator is
/// left-associative; a left parenthesis stops the popping.
pub open spec fn spec_pop_ops(stack: Seq<Token>, out: Seq<Token>, inc: crate::tokenizer::OperatorInfo) -> (
    Seq<Token>,
    Seq<Token>,
)
    decreases stack.len(),
{
    if stack.len() == 0 {
        (stack, out)
    } else {
        let top = stack.last();
        if top == Token::LeftParen {
            (stack, out)
        } else {
            match spec_operator_info(top) {
                Option::None => (stack, out),
                Option::Some(ti) => {
                    if ti.precedence > inc.precedence || (ti.precedence == inc.precedence
                        && inc.left_associative) {
                        spec_pop_ops(stack.drop_last(), out.push(top), inc)
                    } else {
                        (stack, out)
                    }
                },
            }
        }
    }
}

/// Pops and emits operators until a matching left parenthesis, which is
/// discarded; `None` when there is none.
pub open spec fn spec_pop_until_lparen(stack: Seq<Token>, out: Seq<Token>) -> Option<
    (Seq<Token>, Seq<Token>),
>
    decreases stack.len(),
{
    if stack.len() == 0 {
        Option::None
    } else {
        let top = stack.last();
        if top == Token::LeftParen {
            Option::Some((stack.drop_last(), out))
        } else {
            spec_pop_until_lparen(stack.drop_last(), out.push(top))
        }
    }
}

/// Emits the remaining operators at the end of input; a remaining left
/// parenthesis means the parentheses were mismatched.
pub open spec fn spec_drain(stack: Seq<Token>, out: Seq<Token>) -> Result<Seq<Token>, ()>
    decreases stack.len(),
{
    if stack.len() == 0 {
        Result::Ok(out)
    } else if stack.last() == Token::LeftParen {
        Result::Err(())
    } else {
        spec_drain(stack.drop_last(), out.push(stack.last()))
    }
}

/// The shunting-yard algorithm over the tokens from index `i`, with the
/// operator stack and the output built so far.
pub open spec fn spec_shunt(ts: Seq<Token>, i: int, stack: Seq<Token>, out: Seq<Token>) -> Result<
    Seq<Token>,
    (),
>
    decreases ts.len() - i,
{
    if i < 0 || i >= ts.len() {
        spec_drain(stack, out)
    } else {
        match ts[i] {
            Token::Number(_) => spec_shunt(ts, i + 1, stack, out.push(ts[i])),
            Token::UnaryMinus => spec_shunt(ts, i + 1, stack.push(ts[i]), out),
            Token::Plus | Token::Minus | Token::Multiply | Token::Divide => {
                let popped = spec_pop_ops(stack, out, spec_operator_info(ts[i])->Some_0);
                spec_shunt(ts, i + 1, popped.0.push(ts[i]), popped.1)
            },
            Token::LeftParen => spec_shunt(ts, i + 1, stack.push(ts[i]), out),
            Token::RightParen => match spec_pop_until_lparen(stack, out) {
                Option::None => Result::Err(()),
                Option::Some(popped) => spec_shunt(ts, i + 1, popped.0, popped.1),
            },
        }
    }
}

/// The postfix evaluation over the tokens from index `i` with the value
/// stack so far; the error is the message text. Division by zero and a
/// result beyond `1e100` fail; at the end exactly one value must remain.
pub open spec fn spec_eval_postfix(ts: Seq<Token>, i: int, stack: Seq<Number>) -> Result<
    Number,
    Seq<char>,
>
    decreases ts.len() - i,
{
    if i < 0 || i >= ts.len() {
        if stack.len() != 1 {
            Result::Err("Invalid expression: too many operands"@)
        } else {
            Result::Ok(stack[0])
        }
    } else {
        match ts[i] {
            Token::Number(n) => spec_eval_postfix(ts, i + 1, stack.push(n)),
            Token::UnaryMinus => {
                if stack.len() == 0 {
                    Result::Err("Invalid expression: missing operand"@)
                } else {
                    spec_eval_postfix(ts, i + 1, stack.drop_last().push(spec_neg(stack.last())))
                }
            },
            Token::LeftParen | Token::RightParen => Result::Err(
                "Unexpected token in postfix evaluation"@,
            ),
            _ => {
                if stack.len() < 2 {
                    Result::Err("Invalid expression: missing operand"@)
                } else {
                    let b = stack.last();
                    let a = stack[stack.len() - 2];
                    if ts[i] == Token::Divide && b.mant == 0 {
                        Result::Err("Division by zero"@)
                    } else {
                        let parts = spec_binop_parts(ts[i], a, b);
                        if spec_norm_fits(parts.0, parts.1, parts.2) {
                            spec_eval_postfix(
                                ts,
                                i + 1,
                                stack.drop_last().drop_last().push(
                                    spec_norm(parts.0, parts.1, parts.2),
                                ),
                            )
                        } else {
                            Result::Err(
                                "Number out of range: "@ + spec_oor_text(
                                    parts.0,
                                    parts.1,
                                    parts.2,
                                ),
                            )
                        }
                    }
                }
            },
        }
    }
}

/// Exact result parts of a binary operator token.
pub open spec fn spec_binop_parts(t: Token, a: Number, b: Number) -> (bool, nat, int) {
    match t {
        Token::Plus => spec_add_parts(a, b),
        Token::Minus => spec_add_parts(a, spec_neg(b)),
        Token::Multiply => spec_mul_parts(a, b),
        Token::Divide => spec_div_parts(a, b),
        _ => (false, 0nat, 0int),
    }
}

/// All stack values are well-formed.
pub open spec fn nums_wf(stack: Seq<Number>) -> bool {
    forall|k: int| 0 <= k < stack.len() ==> (#[trigger] stack[k]).inv()
}

/// Whether the incoming operator pops the stack top.
fn should_pop(stack: &Vec<Token>, inc: crate::tokenizer::OperatorInfo) -> (r: bool)
    ensures
        r == (stack@.len() > 0 && stack@.last() != Token::LeftParen && (spec_operator_info(
            stack@.last(),
        ) matches Option::Some(ti) && (ti.precedence > inc.precedence || (ti.precedence
            == inc.precedence && inc.left_associative)))),
{
    if stack.len() == 0 {
        return false;
    }
    let top = stack[stack.len() - 1];
    if top.is_left_paren() {
        return false;
    }
    match top.operator_info() {
        None => false,
        Some(ti) => ti.precedence > inc.precedence || (ti.precedence == inc.precedence
            && inc.left_associative),
    }
}

/// Whether the stack still has entries above a left parenthesis.
fn above_lparen(stack: &Vec<Token>) -> (r: bool)
    ensures
        r == (stack@.len() > 0 && stack@.last() != Token::LeftParen),
{
    if stack.len() == 0 {
        return false;
    }
    let top = stack[stack.len() - 1];
    !top.is_left_paren()
}

impl crate::calculator::Calculator {
    /// Converts infix tokens to postfix notation using the
    /// shunting-yard algorithm.
    #[verifier::loop_isolation(false)]
    pub(crate) fn shunting_yard(tokens: Vec<Token>) -> (r: Result<Vec<Token>, String>)
        ensures
            (r matches Result::Ok(out) ==> spec_shunt(tokens@, 0, Seq::empty(), Seq::empty())
                == Result::<Seq<Token>, ()>::Ok(out@) && (tokens_wf(tokens@) ==> tokens_wf(out@))),
            (r matches Result::Err(m) ==> spec_shunt(tokens@, 0, Seq::empty(), Seq::empty())
                == Result::<Seq<Token>, ()>::Err(()) && m@ == "Mismatched parentheses"@),
    {
        let ghost ts = tokens@;
        let len = tokens.len();
        let mut output: Vec<Token> = Vec::new();
        let mut operator_stack: Vec<Token> = Vec::new();
        let mut i: usize = 0;
        while i < len
            invariant
                i <= len,
                spec_shunt(ts, 0, Seq::empty(), Seq::empty()) == spec_shunt(
                    ts,
                    i as int,
                    operator_stack@,
                    output@,
                ),
                tokens_wf(ts) ==> tokens_wf(output@) && tokens_wf(operator_stack@),
            decreases len - i,
        {
            let token = tokens[i];
            match token {
                Token::Number(_) => {
                    output.push(token);
                },
                Token::UnaryMinus => {
                    operator_stack.push(token);
                },
                Token::Plus | Token::Minus | Token::Multiply | Token::Divide => {
                    let inc = token.operator_info().unwrap();
                    let ghost st0 = operator_stack@;
                    let ghost out0 = output@;
                    while should_pop(&operator_stack, inc)
                        invariant
                            spec_pop_ops(st0, out0, inc) == spec_pop_ops(
                                operator_stack@,
                                output@,
                                inc,
                            ),
                            tokens_wf(ts) ==> tokens_wf(output@) && tokens_wf(operator_stack@),
                        decreases operator_stack@.len(),
                    {
                        proof {
                            assert(operator_stack@.drop_last() =~= operator_stack@.take(
                                operator_stack@.len() - 1,
                            ));
                        }
                        let popped = operator_stack.pop().unwrap();
                        output.push(popped);
                    }
                    proof {
                        assert(spec_pop_ops(st0, out0, inc) == (operator_stack@, output@));
                    }
                    operator_stack.push(token);
                },
                Token::LeftParen => {
                    operator_stack.push(token);
                },
                Token::RightParen => {
                    let ghost st0 = operator_stack@;
                    let ghost out0 = output@;
                    while above_lparen(&operator_stack)
                        invariant
                            spec_pop_until_lparen(st0, out0) == spec_pop_until_lparen(
                                operator_stack@,
                                output@,
                            ),
                            tokens_wf(ts) ==> tokens_wf(output@) && tokens_wf(operator_stack@),
                        decreases operator_stack@.len(),
                    {
                        proof {
                            assert(operator_stack@.drop_last() =~= operator_stack@.take(
                                operator_stack@.len() - 1,
                            ));
                        }
                        let op = operator_stack.pop().unwrap();
                        output.push(op);
                    }
                    if operator_stack.len() == 0 {
                        proof {
                            assert(spec_pop_until_lparen(st0, out0) is None);
                        }
                        return Err(String::from_str("Mismatched parentheses"));
                    }
                    proof {
                        assert(operator_stack@.drop_last() =~= operator_stack@.take(
                            operator_stack@.len() - 1,
                        ));
                        assert(spec_pop_until_lparen(st0, out0) == Option::Some(
                            (operator_stack@.drop_last(), output@),
                        ));
                    }
                    let _discarded = operator_stack.pop().unwrap();
                },
            }
            i = i + 1;
        }
        // pop remaining operators
        let ghost st0 = operator_stack@;
        let ghost out0 = output@;
        while operator_stack.len() > 0
            invariant
                spec_drain(st0, out0) == spec_drain(operator_stack@, output@),
                tokens_wf(ts) ==> tokens_wf(output@) && tokens_wf(operator_stack@),
            decreases operator_stack@.len(),
        {
            proof {
                assert(operator_stack@.drop_last() =~= operator_stack@.take(
                    operator_stack@.len() - 1,
                ));
            }
            let op = operator_stack.pop().unwrap();
            if op.is_left_paren() {
                return Err(String::from_str("Mismatched parentheses"));
            }
            output.push(op);
        }
        Ok(output)
    }

    /// Evaluates postfix notation tokens with an explicit value stack.
    /// The final bounds check of the result is subsumed here by the
    /// per-operation checks: every intermediate already stays within
    /// `1e100`.
    #[verifier::loop_isolation(false)]
    pub(crate) fn evaluate_postfix(tokens: Vec<Token>) -> (r: Result<Number, String>)
        requires
            tokens_wf(tokens@),
        ensures
            (r matches Result::Ok(n) ==> spec_eval_postfix(tokens@, 0, Seq::empty()) == Result::<
                Number,
                Seq<char>,
            >::Ok(n) && n.inv()),
            (r matches Result::Err(m) ==> spec_eval_postfix(tokens@, 0, Seq::empty()) matches
                Result::Err(t) && t == m@),
            r is Ok <==> spec_eval_postfix(tokens@, 0, Seq::empty()) is Ok,
    {
        let ghost ts = tokens@;
        let len = tokens.len();
        let mut stack: Vec<Number> = Vec::new();
        let mut i: usize = 0;
        while i < len
            invariant
                i <= len,
                spec_eval_postfix(ts, 0, Seq::empty()) == spec_eval_postfix(
                    ts,
                    i as int,
                    stack@,
                ),
                nums_wf(stack@),
            decreases len - i,
        {
            let token = tokens[i];
            match token {
                Token::Number(n) => {
                    stack.push(n);
                },
                Token::UnaryMinus => {
                    if stack.len() == 0 {
                        return Err(String::from_str("Invalid expression: missing operand"));
                    }
                    proof {
                        assert(stack@.drop_last() =~= stack@.take(stack@.len() - 1));
                    }
                    let a = stack.pop().unwrap();
                    stack.push(a.negated());
                },
                Token::LeftParen | Token::RightParen => {
                    return Err(String::from_str("Unexpected token in postfix evaluation"));
                },
                _ => {
                    if stack.len() < 2 {
                        return Err(String::from_str("Invalid expression: missing operand"));
                    }
                    proof {
                        assert(stack@.drop_last() =~= stack@.take(stack@.len() - 1));
                        assert(stack@.drop_last().drop_last() =~= stack@.take(
                            stack@.len() - 2,
                        ));
                    }
                    let b = stack.pop().unwrap();
                    let a = stack.pop().unwrap();
                    let computed: Result<Number, CalculatorError> = match token {
                        Token::Plus => a.checked_add(&b),
                        Token::Minus => a.checked_sub(&b),
                        Token::Multiply => a.checked_mul(&b),
                        _ => {
                            if b.is_zero() {
                                return Err(CalculatorError::DivisionByZero.message());
                            }
                            a.checked_div(&b)
                        },
                    };
                    match computed {
                        Ok(n) => {
                            stack.push(n);
                        },
                        Err(e) => {
                            return Err(e.message());
                        },
                    }
                },
            }
            i = i + 1;
        }
        if stack.len() != 1 {
            return Err(String::from_str("Invalid expression: too many operands"));
        }
        let result = stack[0];
        Ok(result)
    }
}

} // verus!
