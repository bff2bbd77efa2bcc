//! Tokenization of expression text: numbers (with scientific notation),
//! the four operators in all their spellings, parentheses, and the
//! unary-minus disambiguation driven by two state flags.

use vstd::prelude::*;
use vstd::string::StringExecFns;
use crate::chars::{char_is_digit, spec_is_digit, string_from_chars};
use crate::errors::CalculatorError;
use crate::num_format::push_slice;
use crate::num_parse::{parse_chars, spec_parse, ParseOutcome};
use crate::number::Number;

verus! {

/// Tokens used in expression parsing for the shunting-yard algorithm.
#[derive(Debug, Clone, Copy, PartialEq, Eq, Structural)]
pub enum Token {
    /// Numeric value
    Number(Number),
    /// Addition operator
    Plus,
    /// Binary subtraction operator
    Minus,
    /// Unary negation operator
    UnaryMinus,
    /// Multiplication operator
    Multiply,
    /// Division operator
    Divide,
    /// Left parenthesis
    LeftParen,
    /// Right parenthesis
    RightParen,
}

/// Represents operator precedence and associativity.
#[derive(Debug, Clone, Copy, PartialEq, Eq, Structural)]
pub struct OperatorInfo {
    /// Rank; higher binds tighter.
    pub precedence: u8,
    /// Whether equal ranks group to the left.
    pub left_associative: bool,
}

/// Precedence and associativity per token: addition and subtraction at
/// rank one, multiplication and division at rank two, unary minus at
/// rank three and right-associative; other tokens are not operators.
pub open spec fn spec_operator_info(t: Token) -> Option<OperatorInfo> {
    match t {
        Token::Plus | Token::Minus => Option::Some(
            OperatorInfo { precedence: 1, left_associative: true },
        ),
        Token::Multiply | Token::Divide => Option::Some(
            OperatorInfo { precedence: 2, left_associative: true },
        ),
        Token::UnaryMinus => Option::Some(
            OperatorInfo { precedence: 3, left_associative: false },
        ),
        _ => Option::None,
    }
}

impl Token {
    /// Returns operator information for tokens that are operators.
    pub fn operator_info(&self) -> (r: Option<OperatorInfo>)
        ensures
            r == spec_operator_info(*self),
    {
        match self {
            Token::Plus | Token::Minus => Some(
                OperatorInfo { precedence: 1, left_associative: true },
            ),
            Token::Multiply | Token::Divide => Some(
                OperatorInfo { precedence: 2, left_associative: true },
            ),
            Token::UnaryMinus => Some(OperatorInfo { precedence: 3, left_associative: false }),
            _ => None,
        }
    }

    /// Checks if this token is a left parenthesis.
    pub fn is_left_paren(&self) -> (r: bool)
        ensures
            r == (*self == Token::LeftParen),
    {
        matches!(self, Token::LeftParen)
    }
}

/// Extent of a number literal starting at `i`: digits, at most one
/// point, at most one `e`/`E` which may absorb one following sign.
/// `Ok` carries the index after the literal; `Err` carries whether the
/// offense was a second point (else a second `e`) and its position.
pub open spec fn scan_num(s: Seq<char>, i: int, has_dot: bool, has_e: bool) -> Result<
    int,
    (bool, int),
>
    decreases s.len() - i, 0int,
{
    if i < 0 || i >= s.len() {
        Result::Ok(i)
    } else if spec_is_digit(s[i]) {
        scan_num(s, i + 1, has_dot, has_e)
    } else if s[i] == '.' {
        if has_dot {
            Result::Err((true, i))
        } else {
            scan_num(s, i + 1, true, has_e)
        }
    } else if s[i] == 'e' || s[i] == 'E' {
        if has_e {
            Result::Err((false, i))
        } else {
            scan_num_after_e(s, i + 1, has_dot)
        }
    } else {
        Result::Ok(i)
    }
}

/// Continuation after an `e`: one sign is absorbed if present.
pub open spec fn scan_num_after_e(s: Seq<char>, i: int, has_dot: bool) -> Result<
    int,
    (bool, int),
>
    decreases s.len() - i, 1int,
{
    if 0 <= i < s.len() && (s[i] == '+' || s[i] == '-') {
        scan_num(s, i + 1, has_dot, true)
    } else {
        scan_num(s, i, has_dot, true)
    }
}

proof fn lemma_scan_num_ge(s: Seq<char>, i: int, has_dot: bool, has_e: bool)
    ensures
        scan_num(s, i, has_dot, has_e) matches Result::Ok(j) ==> j >= i,
        scan_num(s, i, has_dot, has_e) matches Result::Err(e) ==> e.1 >= i,
    decreases s.len() - i, 0int,
{
    if i < 0 || i >= s.len() {
    } else if spec_is_digit(s[i]) {
        lemma_scan_num_ge(s, i + 1, has_dot, has_e);
    } else if s[i] == '.' {
        if !has_dot {
            lemma_scan_num_ge(s, i + 1, true, has_e);
        }
    } else if s[i] == 'e' || s[i] == 'E' {
        if !has_e {
            lemma_scan_num_after_e_ge(s, i + 1, has_dot);
        }
    } else {
    }
}

proof fn lemma_scan_num_after_e_ge(s: Seq<char>, i: int, has_dot: bool)
    ensures
        scan_num_after_e(s, i, has_dot) matches Result::Ok(j) ==> j >= i,
        scan_num_after_e(s, i, has_dot) matches Result::Err(e) ==> e.1 >= i,
    decreases s.len() - i, 1int,
{
    if 0 <= i < s.len() && (s[i] == '+' || s[i] == '-') {
        lemma_scan_num_ge(s, i + 1, has_dot, true);
    } else {
        lemma_scan_num_ge(s, i, has_dot, true);
    }
}

/// Prepends a token to a tokenization result.
pub open spec fn cons_tok(t: Token, r: Result<Seq<Token>, Seq<char>>) -> Result<
    Seq<Token>,
    Seq<char>,
> {
    match r {
        Result::Ok(ts) => Result::Ok(seq![t] + ts),
        Result::Err(m) => Result::Err(m),
    }
}

/// The tokenization of `s` from index `i`. `expect_operand` is true at
/// the start, after an operator and after `(`; `prev_bin` immediately
/// after a binary `+`, `x` or `÷` - not after a binary minus, whose
/// double duty as a sign lets `2--3` read as `2-(-3)` while `2+-3`
/// stays rejected. The error is the message text.
pub open spec fn spec_tokenize(s: Seq<char>, i: int, expect_operand: bool, prev_bin: bool)
    -> Result<Seq<Token>, Seq<char>>
    decreases s.len() - i,
{
    if i < 0 || i >= s.len() {
        Result::Ok(Seq::empty())
    } else {
        let c = s[i];
        if spec_is_digit(c) || c == '.' {
            match scan_num(s, i, false, false) {
                Result::Err((isdot, p)) => Result::Err(
                    if isdot {
                        "Invalid number format: multiple decimal points in '"@ + s.subrange(
                            i,
                            p,
                        ).push('.').push('\'')
                    } else {
                        "Invalid number format: multiple 'e' in '"@ + s.subrange(i, p).push(
                            'e',
                        ).push('\'')
                    },
                ),
                Result::Ok(j) => {
                    if j <= i || j > s.len() {
                        Result::Err(Seq::empty())
                    } else {
                        let t = s.subrange(i, j);
                        match spec_parse(t) {
                            ParseOutcome::Invalid => Result::Err("Invalid number: "@ + t),
                            ParseOutcome::OutOfRange => Result::Err("Number out of range: "@ + t),
                            ParseOutcome::Value(n) => cons_tok(
                                Token::Number(n),
                                spec_tokenize(s, j, false, false),
                            ),
                        }
                    }
                },
            }
        } else if c == '+' {
            if expect_operand {
                Result::Err("Unexpected '+' operator"@)
            } else if prev_bin {
                Result::Err("Consecutive operators"@)
            } else {
                cons_tok(Token::Plus, spec_tokenize(s, i + 1, true, true))
            }
        } else if c == '-' {
            if expect_operand && !prev_bin {
                cons_tok(Token::UnaryMinus, spec_tokenize(s, i + 1, true, false))
            } else if expect_operand && prev_bin {
                Result::Err("Consecutive operators"@)
            } else if prev_bin {
                Result::Err("Consecutive operators"@)
            } else {
                cons_tok(Token::Minus, spec_tokenize(s, i + 1, true, false))
            }
        } else if c == 'x' || c == 'X' || c == '*' {
            if expect_operand {
                Result::Err("Unexpected multiplication operator"@)
            } else if prev_bin {
                Result::Err("Consecutive operators"@)
            } else {
                cons_tok(Token::Multiply, spec_tokenize(s, i + 1, true, true))
            }
        } else if c == '/' || c == '÷' {
            if expect_operand {
                Result::Err("Unexpected division operator"@)
            } else if prev_bin {
                Result::Err("Consecutive operators"@)
            } else {
                cons_tok(Token::Divide, spec_tokenize(s, i + 1, true, true))
            }
        } else if c == '(' {
            cons_tok(Token::LeftParen, spec_tokenize(s, i + 1, true, false))
        } else if c == ')' {
            if expect_operand {
                Result::Err("Unexpected ')' - missing operand"@)
            } else {
                cons_tok(Token::RightParen, spec_tokenize(s, i + 1, false, false))
            }
        } else if c == ' ' {
            spec_tokenize(s, i + 1, expect_operand, prev_bin)
        } else {
            Result::Err("Invalid character: "@ + seq![c])
        }
    }
}

/// All number tokens of a sequence hold well-formed values.
pub open spec fn tokens_wf(ts: Seq<Token>) -> bool {
    forall|k: int|
        0 <= k < ts.len() ==> (#[trigger] ts[k] matches Token::Number(n) ==> n.inv())
}

/// Finds the extent of the number literal starting at `start`.
#[verifier::loop_isolation(false)]
fn scan_number(v: &Vec<char>, start: usize) -> (r: Result<usize, (bool, usize)>)
    requires
        start < v@.len(),
        spec_is_digit(v@[start as int]) || v@[start as int] == '.',
    ensures
        (r matches Result::Ok(j) ==> scan_num(v@, start as int, false, false) == Result::<
            int,
            (bool, int),
        >::Ok(j as int) && start < j <= v@.len()),
        (r matches Result::Err(e) ==> scan_num(v@, start as int, false, false) == Result::<
            int,
            (bool, int),
        >::Err((e.0, e.1 as int)) && start <= e.1 < v@.len()),
{
    let len = v.len();
    let mut i: usize = start;
    let mut hd = false;
    let mut he = false;
    // consume the first character, a digit or a point
    let c0 = v[i];
    if c0 == '.' {
        hd = true;
    }
    i = i + 1;
    while i < len
        invariant
            start < i <= len,
            scan_num(v@, start as int, false, false) == scan_num(v@, i as int, hd, he),
        decreases len - i,
    {
        let c = v[i];
        if char_is_digit(c) {
            proof {
                assert(scan_num(v@, i as int, hd, he) == scan_num(v@, i + 1, hd, he));
            }
            i = i + 1;
        } else if c == '.' {
            if hd {
                proof {
                    assert(scan_num(v@, i as int, hd, he) == Result::<int, (bool, int)>::Err(
                        (true, i as int),
                    ));
                }
                return Err((true, i));
            }
            proof {
                assert(scan_num(v@, i as int, hd, he) == scan_num(v@, i + 1, true, he));
            }
            hd = true;
            i = i + 1;
        } else if c == 'e' || c == 'E' {
            if he {
                proof {
                    assert(scan_num(v@, i as int, hd, he) == Result::<int, (bool, int)>::Err(
                        (false, i as int),
                    ));
                }
                return Err((false, i));
            }
            proof {
                assert(scan_num(v@, i as int, hd, he) == scan_num_after_e(v@, i + 1, hd));
            }
            if i + 1 < len {
                let cn = v[i + 1];
                if cn == '+' || cn == '-' {
                    proof {
                        assert(scan_num_after_e(v@, i + 1, hd) == scan_num(v@, i + 2, hd, true));
                    }
                    i = i + 2;
                } else {
                    proof {
                        assert(scan_num_after_e(v@, i + 1, hd) == scan_num(v@, i + 1, hd, true));
                    }
                    i = i + 1;
                }
            } else {
                proof {
                    assert(scan_num_after_e(v@, i + 1, hd) == scan_num(v@, i + 1, hd, true));
                }
                i = i + 1;
            }
            he = true;
        } else {
            proof {
                assert(scan_num(v@, i as int, hd, he) == Result::<int, (bool, int)>::Ok(i as int));
            }
            return Ok(i);
        }
    }
    proof {
        assert(scan_num(v@, len as int, hd, he) == Result::<int, (bool, int)>::Ok(len as int));
    }
    Ok(len)
}

/// One tokenization step: consuming a token and moving on extends the
/// accumulated output.
proof fn lemma_tok_step(
    whole: Result<Seq<Token>, Seq<char>>,
    pre: Seq<Token>,
    t: Token,
    r1: Result<Seq<Token>, Seq<char>>,
    r2: Result<Seq<Token>, Seq<char>>,
)
    requires
        whole == (match r1 {
            Result::Ok(rest) => Result::<Seq<Token>, Seq<char>>::Ok(pre + rest),
            Result::Err(m) => Result::<Seq<Token>, Seq<char>>::Err(m),
        }),
        r1 == cons_tok(t, r2),
    ensures
        whole == (match r2 {
            Result::Ok(rest) => Result::<Seq<Token>, Seq<char>>::Ok(pre.push(t) + rest),
            Result::Err(m) => Result::<Seq<Token>, Seq<char>>::Err(m),
        }),
{
    match r2 {
        Result::Ok(rest) => {
            assert(pre + (seq![t] + rest) =~= pre.push(t) + rest);
        },
        Result::Err(_) => {},
    }
}

impl crate::calculator::Calculator {
    /// Tokenizes an input expression into tokens for the shunting-yard
    /// algorithm. Handles numbers, operators, and parentheses, and
    /// distinguishes unary from binary minus.
    #[verifier::loop_isolation(false)]
    #[verifier::rlimit(100)]
    pub(crate) fn tokenize(v: &Vec<char>) -> (r: Result<Vec<Token>, String>)
        ensures
            (r matches Result::Ok(ts) ==> spec_tokenize(v@, 0, true, false) == Result::<
                Seq<Token>,
                Seq<char>,
            >::Ok(ts@) && tokens_wf(ts@)),
            (r matches Result::Err(m) ==> spec_tokenize(v@, 0, true, false) == Result::<
                Seq<Token>,
                Seq<char>,
            >::Err(m@)),
    {
        let len = v.len();
        let mut toks: Vec<Token> = Vec::new();
        let mut i: usize = 0;
        let mut eo = true;
        let mut pb = false;
        proof {
            assert(toks@ + spec_tokenize(v@, 0, true, false)->Ok_0 =~= spec_tokenize(
                v@,
                0,
                true,
                false,
            )->Ok_0);
        }
        while i < len
            invariant
                i <= len,
                tokens_wf(toks@),
                spec_tokenize(v@, 0, true, false) == (match spec_tokenize(v@, i as int, eo, pb) {
                    Result::Ok(rest) => Result::<Seq<Token>, Seq<char>>::Ok(toks@ + rest),
                    Result::Err(m) => Result::<Seq<Token>, Seq<char>>::Err(m),
                }),
            decreases len - i,
        {
            let ghost whole = spec_tokenize(v@, 0, true, false);
            let ghost cur = spec_tokenize(v@, i as int, eo, pb);
            let c = v[i];
            if char_is_digit(c) || c == '.' {
                match scan_number(v, i) {
                    Err((isdot, p)) => {
                        let mut body: Vec<char> = Vec::new();
                        push_slice(&mut body, v, i, p);
                        if isdot {
                            body.push('.');
                            body.push('\'');
                            let m = String::from_str(
                                "Invalid number format: multiple decimal points in '",
                            ).concat(string_from_chars(&body).as_str());
                            proof {
                                assert(body@ =~= v@.subrange(i as int, p as int).push('.').push(
                                    '\'',
                                ));
                                assert(m@ =~= "Invalid number format: multiple decimal points in '"@
                                    + v@.subrange(i as int, p as int).push('.').push('\''));
                                assert(cur == Result::<Seq<Token>, Seq<char>>::Err(m@));
                            }
                            return Err(m);
                        } else {
                            body.push('e');
                            body.push('\'');
                            let m = String::from_str(
                                "Invalid number format: multiple 'e' in '",
                            ).concat(string_from_chars(&body).as_str());
                            proof {
                                assert(body@ =~= v@.subrange(i as int, p as int).push('e').push(
                                    '\'',
                                ));
                                assert(m@ =~= "Invalid number format: multiple 'e' in '"@
                                    + v@.subrange(i as int, p as int).push('e').push('\''));
                                assert(cur == Result::<Seq<Token>, Seq<char>>::Err(m@));
                            }
                            return Err(m);
                        }
                    },
                    Ok(j) => {
                        let mut num: Vec<char> = Vec::new();
                        push_slice(&mut num, v, i, j);
                        proof {
                            assert(num@ =~= v@.subrange(i as int, j as int));
                        }
                        match parse_chars(&num) {
                            ParseOutcome::Invalid => {
                                let m = CalculatorError::InvalidNumber(
                                    string_from_chars(&num),
                                ).message();
                                proof {
                                    assert(cur == Result::<Seq<Token>, Seq<char>>::Err(m@));
                                }
                                return Err(m);
                            },
                            ParseOutcome::OutOfRange => {
                                let m = CalculatorError::NumberOutOfRange(
                                    string_from_chars(&num),
                                ).message();
                                proof {
                                    assert(cur == Result::<Seq<Token>, Seq<char>>::Err(m@));
                                }
                                return Err(m);
                            },
                            ParseOutcome::Value(n) => {
                                proof {
                                    assert(cur == cons_tok(
                                        Token::Number(n),
                                        spec_tokenize(v@, j as int, false, false),
                                    ));
                                    lemma_tok_step(
                                        whole,
                                        toks@,
                                        Token::Number(n),
                                        cur,
                                        spec_tokenize(v@, j as int, false, false),
                                    );
                                }
                                toks.push(Token::Number(n));
                                i = j;
                                eo = false;
                                pb = false;
                            },
                        }
                    },
                }
            } else if c == '+' {
                if eo {
                    let m = String::from_str("Unexpected '+' operator");
                    proof {
                        assert(cur == Result::<Seq<Token>, Seq<char>>::Err(m@));
                    }
                    return Err(m);
                }
                if pb {
                    let m = String::from_str("Consecutive operators");
                    proof {
                        assert(cur == Result::<Seq<Token>, Seq<char>>::Err(m@));
                    }
                    return Err(m);
                }
                proof {
                    assert(cur == cons_tok(Token::Plus, spec_tokenize(v@, i + 1, true, true)));
                    lemma_tok_step(whole, toks@, Token::Plus, cur, spec_tokenize(
                        v@,
                        i + 1,
                        true,
                        true,
                    ));
                }
                toks.push(Token::Plus);
                i = i + 1;
                eo = true;
                pb = true;
            } else if c == '-' {
                if eo && !pb {
                    proof {
                        assert(cur == cons_tok(
                            Token::UnaryMinus,
                            spec_tokenize(v@, i + 1, true, false),
                        ));
                        lemma_tok_step(whole, toks@, Token::UnaryMinus, cur, spec_tokenize(
                            v@,
                            i + 1,
                            true,
                            false,
                        ));
                    }
                    toks.push(Token::UnaryMinus);
                    i = i + 1;
                    eo = true;
                    pb = false;
                } else if eo && pb {
                    let m = String::from_str("Consecutive operators");
                    proof {
                        assert(cur == Result::<Seq<Token>, Seq<char>>::Err(m@));
                    }
                    return Err(m);
                } else if pb {
                    let m = String::from_str("Consecutive operators");
                    proof {
                        assert(cur == Result::<Seq<Token>, Seq<char>>::Err(m@));
                    }
                    return Err(m);
                } else {
                    proof {
                        assert(cur == cons_tok(
                            Token::Minus,
                            spec_tokenize(v@, i + 1, true, false),
                        ));
                        lemma_tok_step(whole, toks@, Token::Minus, cur, spec_tokenize(
                            v@,
                            i + 1,
                            true,
                            false,
                        ));
                    }
                    toks.push(Token::Minus);
                    i = i + 1;
                    eo = true;
                    pb = false;
                }
            } else if c == 'x' || c == 'X' || c == '*' {
                if eo {
                    let m = String::from_str("Unexpected multiplication operator");
                    proof {
                        assert(cur == Result::<Seq<Token>, Seq<char>>::Err(m@));
                    }
                    return Err(m);
                }
                if pb {
                    let m = String::from_str("Consecutive operators");
                    proof {
                        assert(cur == Result::<Seq<Token>, Seq<char>>::Err(m@));
                    }
                    return Err(m);
                }
                proof {
                    assert(cur == cons_tok(Token::Multiply, spec_tokenize(v@, i + 1, true, true)));
                    lemma_tok_step(whole, toks@, Token::Multiply, cur, spec_tokenize(
                        v@,
                        i + 1,
                        true,
                        true,
                    ));
                }
                toks.push(Token::Multiply);
                i = i + 1;
                eo = true;
                pb = true;
            } else if c == '/' || c == '÷' {
                if eo {
                    let m = String::from_str("Unexpected division operator");
                    proof {
                        assert(cur == Result::<Seq<Token>, Seq<char>>::Err(m@));
                    }
                    return Err(m);
                }
                if pb {
                    let m = String::from_str("Consecutive operators");
                    proof {
                        assert(cur == Result::<Seq<Token>, Seq<char>>::Err(m@));
                    }
                    return Err(m);
                }
                proof {
                    assert(cur == cons_tok(Token::Divide, spec_tokenize(v@, i + 1, true, true)));
                    lemma_tok_step(whole, toks@, Token::Divide, cur, spec_tokenize(
                        v@,
                        i + 1,
                        true,
                        true,
                    ));
                }
                toks.push(Token::Divide);
                i = i + 1;
                eo = true;
                pb = true;
            } else if c == '(' {
                proof {
                    assert(cur == cons_tok(Token::LeftParen, spec_tokenize(v@, i + 1, true, false)));
                    lemma_tok_step(whole, toks@, Token::LeftParen, cur, spec_tokenize(
                        v@,
                        i + 1,
                        true,
                        false,
                    ));
                }
                toks.push(Token::LeftParen);
                i = i + 1;
                eo = true;
                pb = false;
            } else if c == ')' {
                if eo {
                    let m = String::from_str("Unexpected ')' - missing operand");
                    proof {
                        assert(cur == Result::<Seq<Token>, Seq<char>>::Err(m@));
                    }
                    return Err(m);
                }
                proof {
                    assert(cur == cons_tok(
                        Token::RightParen,
                        spec_tokenize(v@, i + 1, false, false),
                    ));
                    lemma_tok_step(whole, toks@, Token::RightParen, cur, spec_tokenize(
                        v@,
                        i + 1,
                        false,
                        false,
                    ));
                }
                toks.push(Token::RightParen);
                i = i + 1;
                eo = false;
                pb = false;
            } else if c == ' ' {
                proof {
                    assert(cur == spec_tokenize(v@, i + 1, eo, pb));
                }
                i = i + 1;
            } else {
                let mut body: Vec<char> = Vec::new();
                body.push(c);
                let m = String::from_str("Invalid character: ").concat(
                    string_from_chars(&body).as_str(),
                );
                proof {
                    assert(body@ =~= seq![v@[i as int]]);
                    assert(cur == Result::<Seq<Token>, Seq<char>>::Err(m@));
                }
                return Err(m);
            }
        }
        proof {
            assert(spec_tokenize(v@, len as int, eo, pb) == Result::<Seq<Token>, Seq<char>>::Ok(
                Seq::empty(),
            ));
            assert(toks@ + Seq::<Token>::empty() =~= toks@);
        }
        Ok(toks)
    }
}

} // verus!
