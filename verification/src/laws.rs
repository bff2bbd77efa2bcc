//! Library-wide laws: statements that relate several functions, proved
//! once and for all inputs.

use vstd::prelude::*;
use crate::calculator::spec_evaluate;
use crate::chars::spec_is_buf_op;
use crate::digits::n_digits;
use crate::display::{
    run_end, run_start, spec_display_string, spec_fmt_all, spec_fmt_run, spec_parens,
};
use crate::num_parse::{spec_lit, spec_parse};
use crate::number::{Number, spec_norm, spec_norm_fits, spec_zero};
use crate::postfix::{spec_binop_parts, spec_eval_postfix};
use crate::tokenizer::{spec_operator_info, Token};

verus! {

/// Division by zero always fails, wherever it stands: the moment the
/// postfix evaluator pops a zero divisor, the outcome is the
/// division-by-zero error, whatever tokens remain.
pub proof fn lemma_division_by_zero_fails(ts: Seq<Token>, i: int, stack: Seq<Number>)
    requires
        0 <= i < ts.len(),
        ts[i] == Token::Divide,
        stack.len() >= 2,
        stack.last() == spec_zero(),
    ensures
        spec_eval_postfix(ts, i, stack) == Result::<Number, Seq<char>>::Err("Division by zero"@),
{
}

/// Bounds: a syntactically valid literal parses to a value exactly when
/// it denotes zero, vanishes below the smallest kept order, or stays
/// within `1e100` after truncation to the kept significand; otherwise
/// it is out of range, never invalid.
pub proof fn lemma_literal_bound(s: Seq<char>)
    requires
        spec_lit(s) is Some,
    ensures
        ({
            let lp = spec_lit(s)->Some_0;
            let ord = lp.2 + n_digits(lp.1) - 1;
            &&& ((spec_parse(s) is Value) <==> (lp.1 == 0 || ord < -323 || (ord <= 100
                && spec_norm_fits(lp.0, lp.1, lp.2))))
            &&& ((spec_parse(s) is OutOfRange) <==> !(spec_parse(s) is Value))
        }),
{
}

/// The input-length guard: any input longer than one thousand
/// characters is rejected before any parsing or evaluation occurs.
pub proof fn lemma_long_input_rejected(s: Seq<char>)
    requires
        s.len() > 1000,
    ensures
        spec_evaluate(s) == Result::<Number, Seq<char>>::Err("Input too long"@),
{
}

/// Precedence and associativity at the resolver, over all operand
/// values and every pair of binary operators: in `a o1 b o2 c` without
/// parentheses, the second operator groups first exactly when it binds
/// strictly tighter; at equal rank the grouping is left-to-right.
pub proof fn lemma_precedence_three_operands(
    a: Number,
    b: Number,
    c: Number,
    o1: Token,
    o2: Token,
)
    requires
        o1 == Token::Plus || o1 == Token::Minus || o1 == Token::Multiply || o1 == Token::Divide,
        o2 == Token::Plus || o2 == Token::Minus || o2 == Token::Multiply || o2 == Token::Divide,
    ensures
        crate::postfix::spec_shunt(
            seq![Token::Number(a), o1, Token::Number(b), o2, Token::Number(c)],
            0,
            Seq::empty(),
            Seq::empty(),
        ) == Result::<Seq<Token>, ()>::Ok(
            if spec_operator_info(o2)->Some_0.precedence
                > spec_operator_info(o1)->Some_0.precedence {
                seq![Token::Number(a), Token::Number(b), Token::Number(c), o2, o1]
            } else {
                seq![Token::Number(a), Token::Number(b), o1, Token::Number(c), o2]
            },
        ),
{
    let ts = seq![Token::Number(a), o1, Token::Number(b), o2, Token::Number(c)];
    let e: Seq<Token> = Seq::empty();
    let out1 = e.push(ts[0]);
    assert(crate::postfix::spec_shunt(ts, 0, e, e) == crate::postfix::spec_shunt(ts, 1, e, out1));
    let i1 = spec_operator_info(o1)->Some_0;
    let i2 = spec_operator_info(o2)->Some_0;
    assert(crate::postfix::spec_pop_ops(e, out1, i1) == (e, out1));
    let st1 = e.push(o1);
    assert(crate::postfix::spec_shunt(ts, 1, e, out1) == crate::postfix::spec_shunt(
        ts,
        2,
        st1,
        out1,
    ));
    let out2 = out1.push(ts[2]);
    assert(crate::postfix::spec_shunt(ts, 2, st1, out1) == crate::postfix::spec_shunt(
        ts,
        3,
        st1,
        out2,
    ));
    if i2.precedence > i1.precedence {
        // the incoming operator binds tighter; nothing pops
        assert(crate::postfix::spec_pop_ops(st1, out2, i2) == (st1, out2));
        let st2 = st1.push(o2);
        assert(crate::postfix::spec_shunt(ts, 3, st1, out2) == crate::postfix::spec_shunt(
            ts,
            4,
            st2,
            out2,
        ));
        let out3 = out2.push(ts[4]);
        assert(crate::postfix::spec_shunt(ts, 4, st2, out2) == crate::postfix::spec_shunt(
            ts,
            5,
            st2,
            out3,
        ));
        assert(crate::postfix::spec_shunt(ts, 5, st2, out3) == crate::postfix::spec_drain(
            st2,
            out3,
        ));
        assert(st2.drop_last() =~= st1);
        assert(st1.drop_last() =~= e);
        assert(crate::postfix::spec_drain(st2, out3) == crate::postfix::spec_drain(
            st1,
            out3.push(o2),
        ));
        assert(crate::postfix::spec_drain(st1, out3.push(o2)) == crate::postfix::spec_drain(
            e,
            out3.push(o2).push(o1),
        ));
        assert(crate::postfix::spec_drain(e, out3.push(o2).push(o1)) == Result::<
            Seq<Token>,
            (),
        >::Ok(out3.push(o2).push(o1)));
        assert(out3.push(o2).push(o1) =~= seq![
            Token::Number(a),
            Token::Number(b),
            Token::Number(c),
            o2,
            o1,
        ]);
    } else {
        // equal or lower rank: the earlier operator pops first
        assert(st1.last() == o1);
        assert(st1.drop_last() =~= e);
        assert(crate::postfix::spec_pop_ops(st1, out2, i2) == crate::postfix::spec_pop_ops(
            e,
            out2.push(o1),
            i2,
        ));
        assert(crate::postfix::spec_pop_ops(e, out2.push(o1), i2) == (e, out2.push(o1)));
        let out3 = out2.push(o1);
        let st2 = e.push(o2);
        assert(crate::postfix::spec_shunt(ts, 3, st1, out2) == crate::postfix::spec_shunt(
            ts,
            4,
            st2,
            out3,
        ));
        let out4 = out3.push(ts[4]);
        assert(crate::postfix::spec_shunt(ts, 4, st2, out3) == crate::postfix::spec_shunt(
            ts,
            5,
            st2,
            out4,
        ));
        assert(crate::postfix::spec_shunt(ts, 5, st2, out4) == crate::postfix::spec_drain(
            st2,
            out4,
        ));
        assert(st2.drop_last() =~= e);
        assert(crate::postfix::spec_drain(st2, out4) == crate::postfix::spec_drain(
            e,
            out4.push(o2),
        ));
        assert(crate::postfix::spec_drain(e, out4.push(o2)) == Result::<Seq<Token>, ()>::Ok(
            out4.push(o2),
        ));
        assert(out4.push(o2) =~= seq![
            Token::Number(a),
            Token::Number(b),
            o1,
            Token::Number(c),
            o2,
        ]);
    }
}

/// Whether a token is one of the four binary operators.
pub open spec fn is_binop(t: Token) -> bool {
    t == Token::Plus || t == Token::Minus || t == Token::Multiply || t == Token::Divide
}

/// `ts[i..]` continues an operator chain - alternating binary
/// operators of rank `p` and numbers - to the end.
pub open spec fn rank_chain(ts: Seq<Token>, i: int, p: u8) -> bool
    decreases ts.len() - i,
{
    i >= ts.len() || (is_binop(ts[i]) && spec_operator_info(ts[i])->Some_0.precedence == p && i + 1
        < ts.len() && (ts[i + 1] matches Token::Number(_)) && rank_chain(ts, i + 2, p))
}

/// The postfix the resolver owes a left-to-right chain from `i` on,
/// with `pend` the operator still waiting on the stack: each incoming
/// operator first flushes its predecessor.
pub open spec fn left_rest(ts: Seq<Token>, i: int, pend: Token) -> Seq<Token>
    decreases ts.len() - i,
{
    if i < 0 || i + 1 >= ts.len() {
        seq![pend]
    } else {
        seq![pend, ts[i + 1]] + left_rest(ts, i + 2, ts[i])
    }
}

proof fn lemma_rank_chain_rest(ts: Seq<Token>, i: int, p: u8, stack: Seq<Token>, out: Seq<Token>)
    requires
        0 <= i,
        rank_chain(ts, i, p),
        stack.len() == 1,
        is_binop(stack[0]),
        spec_operator_info(stack[0])->Some_0.precedence == p,
    ensures
        crate::postfix::spec_shunt(ts, i, stack, out) == Result::<Seq<Token>, ()>::Ok(
            out + left_rest(ts, i, stack[0]),
        ),
    decreases ts.len() - i,
{
    let pend = stack[0];
    if i >= ts.len() {
        assert(stack.drop_last() =~= Seq::<Token>::empty());
        assert(crate::postfix::spec_drain(stack, out) == crate::postfix::spec_drain(
            Seq::empty(),
            out.push(pend),
        ));
        assert(out.push(pend) =~= out + seq![pend]);
    } else {
        let op = ts[i];
        let n = ts[i + 1];
        let inc = spec_operator_info(op)->Some_0;
        assert(stack.drop_last() =~= Seq::<Token>::empty());
        // the incoming operator has equal rank and is left-associative,
        // so the pending operator pops first
        assert(crate::postfix::spec_pop_ops(stack, out, inc) == crate::postfix::spec_pop_ops(
            Seq::empty(),
            out.push(pend),
            inc,
        ));
        assert(crate::postfix::spec_pop_ops(Seq::empty(), out.push(pend), inc) == (
            Seq::<Token>::empty(),
            out.push(pend),
        ));
        let st2 = Seq::<Token>::empty().push(op);
        assert(crate::postfix::spec_shunt(ts, i, stack, out) == crate::postfix::spec_shunt(
            ts,
            i + 1,
            st2,
            out.push(pend),
        ));
        assert(crate::postfix::spec_shunt(ts, i + 1, st2, out.push(pend))
            == crate::postfix::spec_shunt(ts, i + 2, st2, out.push(pend).push(n)));
        lemma_rank_chain_rest(ts, i + 2, p, st2, out.push(pend).push(n));
        assert(out.push(pend).push(n) + left_rest(ts, i + 2, op) =~= out + (seq![pend, n]
            + left_rest(ts, i + 2, op)));
    }
}

/// Left-to-right association over chains of any length: when every
/// operator of `n0 o1 n1 o2 n2 ...` has the same rank, each operator
/// flushes its predecessor, so the postfix output applies them
/// strictly left to right.
pub proof fn lemma_equal_rank_associates_left(ts: Seq<Token>, p: u8)
    requires
        ts.len() >= 3,
        ts[0] matches Token::Number(_),
        rank_chain(ts, 1, p),
    ensures
        crate::postfix::spec_shunt(ts, 0, Seq::empty(), Seq::empty()) == Result::<
            Seq<Token>,
            (),
        >::Ok(seq![ts[0], ts[2]] + left_rest(ts, 3, ts[1])),
{
    let e: Seq<Token> = Seq::empty();
    let o1 = ts[1];
    let inc = spec_operator_info(o1)->Some_0;
    let out1 = e.push(ts[0]);
    assert(crate::postfix::spec_shunt(ts, 0, e, e) == crate::postfix::spec_shunt(ts, 1, e, out1));
    assert(crate::postfix::spec_pop_ops(e, out1, inc) == (e, out1));
    let st1 = e.push(o1);
    assert(crate::postfix::spec_shunt(ts, 1, e, out1) == crate::postfix::spec_shunt(
        ts,
        2,
        st1,
        out1,
    ));
    let out2 = out1.push(ts[2]);
    assert(crate::postfix::spec_shunt(ts, 2, st1, out1) == crate::postfix::spec_shunt(
        ts,
        3,
        st1,
        out2,
    ));
    lemma_rank_chain_rest(ts, 3, p, st1, out2);
    assert(out2 + left_rest(ts, 3, o1) =~= seq![ts[0], ts[2]] + left_rest(ts, 3, ts[1]));
}

/// The right-grouped postfix ordering computes `a o1 (b o2 c)`: the
/// evaluator applies the inner operator first and feeds its normalized
/// result to the outer one, whenever both steps divide by nonzero and
/// stay within range.
pub proof fn lemma_right_grouping_evaluates(
    a: Number,
    b: Number,
    c: Number,
    o1: Token,
    o2: Token,
)
    requires
        o1 == Token::Plus || o1 == Token::Minus || o1 == Token::Multiply || o1 == Token::Divide,
        o2 == Token::Plus || o2 == Token::Minus || o2 == Token::Multiply || o2 == Token::Divide,
        !(o2 == Token::Divide && c.mant == 0),
        spec_norm_fits(
            spec_binop_parts(o2, b, c).0,
            spec_binop_parts(o2, b, c).1,
            spec_binop_parts(o2, b, c).2,
        ),
        ({
            let m = spec_norm(
                spec_binop_parts(o2, b, c).0,
                spec_binop_parts(o2, b, c).1,
                spec_binop_parts(o2, b, c).2,
            );
            &&& !(o1 == Token::Divide && m.mant == 0)
            &&& spec_norm_fits(
                spec_binop_parts(o1, a, m).0,
                spec_binop_parts(o1, a, m).1,
                spec_binop_parts(o1, a, m).2,
            )
        }),
    ensures
        ({
            let m = spec_norm(
                spec_binop_parts(o2, b, c).0,
                spec_binop_parts(o2, b, c).1,
                spec_binop_parts(o2, b, c).2,
            );
            spec_eval_postfix(
                seq![Token::Number(a), Token::Number(b), Token::Number(c), o2, o1],
                0,
                Seq::empty(),
            ) == Result::<Number, Seq<char>>::Ok(
                spec_norm(
                    spec_binop_parts(o1, a, m).0,
                    spec_binop_parts(o1, a, m).1,
                    spec_binop_parts(o1, a, m).2,
                ),
            )
        }),
{
    let ts = seq![Token::Number(a), Token::Number(b), Token::Number(c), o2, o1];
    let e: Seq<Number> = Seq::empty();
    let s1 = e.push(a);
    let s2 = s1.push(b);
    let s3 = s2.push(c);
    assert(spec_eval_postfix(ts, 0, e) == spec_eval_postfix(ts, 1, s1));
    assert(spec_eval_postfix(ts, 1, s1) == spec_eval_postfix(ts, 2, s2));
    assert(spec_eval_postfix(ts, 2, s2) == spec_eval_postfix(ts, 3, s3));
    let m = spec_norm(
        spec_binop_parts(o2, b, c).0,
        spec_binop_parts(o2, b, c).1,
        spec_binop_parts(o2, b, c).2,
    );
    assert(s3.last() == c && s3[s3.len() - 2] == b);
    let s4 = s3.drop_last().drop_last().push(m);
    assert(spec_eval_postfix(ts, 3, s3) == spec_eval_postfix(ts, 4, s4));
    assert(s4 =~= s1.push(m));
    assert(s4.last() == m && s4[s4.len() - 2] == a);
    let n = spec_norm(
        spec_binop_parts(o1, a, m).0,
        spec_binop_parts(o1, a, m).1,
        spec_binop_parts(o1, a, m).2,
    );
    let s5 = s4.drop_last().drop_last().push(n);
    assert(spec_eval_postfix(ts, 4, s4) == spec_eval_postfix(ts, 5, s5));
    assert(s5 =~= e.push(n));
    assert(spec_eval_postfix(ts, 5, s5) == Result::<Number, Seq<char>>::Ok(n));
}

/// The left-grouped postfix ordering computes `(a o1 b) o2 c` the same
/// way: the earlier operator applies first.
pub proof fn lemma_left_grouping_evaluates(
    a: Number,
    b: Number,
    c: Number,
    o1: Token,
    o2: Token,
)
    requires
        o1 == Token::Plus || o1 == Token::Minus || o1 == Token::Multiply || o1 == Token::Divide,
        o2 == Token::Plus || o2 == Token::Minus || o2 == Token::Multiply || o2 == Token::Divide,
        !(o1 == Token::Divide && b.mant == 0),
        spec_norm_fits(
            spec_binop_parts(o1, a, b).0,
            spec_binop_parts(o1, a, b).1,
            spec_binop_parts(o1, a, b).2,
        ),
        ({
            let m = spec_norm(
                spec_binop_parts(o1, a, b).0,
                spec_binop_parts(o1, a, b).1,
                spec_binop_parts(o1, a, b).2,
            );
            &&& !(o2 == Token::Divide && c.mant == 0)
            &&& spec_norm_fits(
                spec_binop_parts(o2, m, c).0,
                spec_binop_parts(o2, m, c).1,
                spec_binop_parts(o2, m, c).2,
            )
        }),
    ensures
        ({
            let m = spec_norm(
                spec_binop_parts(o1, a, b).0,
                spec_binop_parts(o1, a, b).1,
                spec_binop_parts(o1, a, b).2,
            );
            spec_eval_postfix(
                seq![Token::Number(a), Token::Number(b), o1, Token::Number(c), o2],
                0,
                Seq::empty(),
            ) == Result::<Number, Seq<char>>::Ok(
                spec_norm(
                    spec_binop_parts(o2, m, c).0,
                    spec_binop_parts(o2, m, c).1,
                    spec_binop_parts(o2, m, c).2,
                ),
            )
        }),
{
    let ts = seq![Token::Number(a), Token::Number(b), o1, Token::Number(c), o2];
    let e: Seq<Number> = Seq::empty();
    let s1 = e.push(a);
    let s2 = s1.push(b);
    assert(spec_eval_postfix(ts, 0, e) == spec_eval_postfix(ts, 1, s1));
    assert(spec_eval_postfix(ts, 1, s1) == spec_eval_postfix(ts, 2, s2));
    let m = spec_norm(
        spec_binop_parts(o1, a, b).0,
        spec_binop_parts(o1, a, b).1,
        spec_binop_parts(o1, a, b).2,
    );
    assert(s2.last() == b && s2[s2.len() - 2] == a);
    let s3 = s2.drop_last().drop_last().push(m);
    assert(spec_eval_postfix(ts, 2, s2) == spec_eval_postfix(ts, 3, s3));
    assert(s3 =~= e.push(m));
    let s4 = s3.push(c);
    assert(spec_eval_postfix(ts, 3, s3) == spec_eval_postfix(ts, 4, s4));
    assert(s4.last() == c && s4[s4.len() - 2] == m);
    let n = spec_norm(
        spec_binop_parts(o2, m, c).0,
        spec_binop_parts(o2, m, c).1,
        spec_binop_parts(o2, m, c).2,
    );
    let s5 = s4.drop_last().drop_last().push(n);
    assert(spec_eval_postfix(ts, 4, s4) == spec_eval_postfix(ts, 5, s5));
    assert(s5 =~= e.push(n));
    assert(spec_eval_postfix(ts, 5, s5) == Result::<Number, Seq<char>>::Ok(n));
}

/// Parentheses override precedence, over all operand values and every
/// pair of binary operators: in `a o1 (b o2 c)` the parenthesized part
/// groups first even when the outer operator binds tighter.
pub proof fn lemma_parentheses_override_precedence(
    a: Number,
    b: Number,
    c: Number,
    o1: Token,
    o2: Token,
)
    requires
        o1 == Token::Plus || o1 == Token::Minus || o1 == Token::Multiply || o1 == Token::Divide,
        o2 == Token::Plus || o2 == Token::Minus || o2 == Token::Multiply || o2 == Token::Divide,
    ensures
        crate::postfix::spec_shunt(
            seq![
                Token::Number(a),
                o1,
                Token::LeftParen,
                Token::Number(b),
                o2,
                Token::Number(c),
                Token::RightParen,
            ],
            0,
            Seq::empty(),
            Seq::empty(),
        ) == Result::<Seq<Token>, ()>::Ok(
            seq![Token::Number(a), Token::Number(b), Token::Number(c), o2, o1],
        ),
{
    let ts = seq![
        Token::Number(a),
        o1,
        Token::LeftParen,
        Token::Number(b),
        o2,
        Token::Number(c),
        Token::RightParen,
    ];
    let e: Seq<Token> = Seq::empty();
    let i1 = spec_operator_info(o1)->Some_0;
    let i2 = spec_operator_info(o2)->Some_0;
    let out1 = e.push(ts[0]);
    assert(crate::postfix::spec_shunt(ts, 0, e, e) == crate::postfix::spec_shunt(ts, 1, e, out1));
    assert(crate::postfix::spec_pop_ops(e, out1, i1) == (e, out1));
    let st1 = e.push(o1);
    assert(crate::postfix::spec_shunt(ts, 1, e, out1) == crate::postfix::spec_shunt(
        ts,
        2,
        st1,
        out1,
    ));
    let st2 = st1.push(Token::LeftParen);
    assert(crate::postfix::spec_shunt(ts, 2, st1, out1) == crate::postfix::spec_shunt(
        ts,
        3,
        st2,
        out1,
    ));
    let out2 = out1.push(ts[3]);
    assert(crate::postfix::spec_shunt(ts, 3, st2, out1) == crate::postfix::spec_shunt(
        ts,
        4,
        st2,
        out2,
    ));
    assert(st2.last() == Token::LeftParen);
    assert(crate::postfix::spec_pop_ops(st2, out2, i2) == (st2, out2));
    let st3 = st2.push(o2);
    assert(crate::postfix::spec_shunt(ts, 4, st2, out2) == crate::postfix::spec_shunt(
        ts,
        5,
        st3,
        out2,
    ));
    let out3 = out2.push(ts[5]);
    assert(crate::postfix::spec_shunt(ts, 5, st3, out2) == crate::postfix::spec_shunt(
        ts,
        6,
        st3,
        out3,
    ));
    // the closing parenthesis pops the inner operator and discards `(`
    assert(st3.last() == o2);
    assert(st3.drop_last() =~= st2);
    assert(st2.drop_last() =~= st1);
    let out4 = out3.push(o2);
    assert(crate::postfix::spec_pop_until_lparen(st3, out3)
        == crate::postfix::spec_pop_until_lparen(st2, out4));
    assert(crate::postfix::spec_pop_until_lparen(st2, out4) == Option::Some((st1, out4)));
    assert(crate::postfix::spec_shunt(ts, 6, st3, out3) == crate::postfix::spec_shunt(
        ts,
        7,
        st1,
        out4,
    ));
    assert(crate::postfix::spec_shunt(ts, 7, st1, out4) == crate::postfix::spec_drain(
        st1,
        out4,
    ));
    assert(st1.drop_last() =~= e);
    assert(crate::postfix::spec_drain(st1, out4) == crate::postfix::spec_drain(
        e,
        out4.push(o1),
    ));
    assert(crate::postfix::spec_drain(e, out4.push(o1)) == Result::<Seq<Token>, ()>::Ok(
        out4.push(o1),
    ));
    assert(out4.push(o1) =~= seq![
        Token::Number(a),
        Token::Number(b),
        Token::Number(c),
        o2,
        o1,
    ]);
}

/// A numeric run the display formatter leaves as it stands: it does
/// not parse at all, or it parses to a value whose order of magnitude
/// sits between one and a billion (exclusive) and whose text either
/// keeps within ten characters or carries a point or an exponent.
pub open spec fn run_stays_short(t: Seq<char>) -> bool {
    match spec_lit(t) {
        Option::None => true,
        Option::Some(lp) => {
            let ord = lp.2 + n_digits(lp.1) - 1;
            &&& (t.len() <= 10 || crate::display::has_char(t, '.') || crate::display::has_char(
                t,
                'e',
            ))
            &&& (lp.1 > 0 ==> 0 <= ord <= 8)
        },
    }
}

proof fn lemma_fmt_run_identity(t: Seq<char>)
    requires
        run_stays_short(t),
    ensures
        spec_fmt_run(t) == t,
{
}

proof fn lemma_fmt_all_identity(s: Seq<char>, i: int)
    requires
        0 <= i <= s.len(),
        forall|j: int|
            0 <= j < s.len() && run_start(s, j) ==> run_stays_short(
                #[trigger] s.subrange(j, run_end(s, j + 1)),
            ),
    ensures
        spec_fmt_all(s, i) == s.subrange(i, s.len() as int),
    decreases s.len() - i,
{
    if i >= s.len() {
        assert(s.subrange(i, s.len() as int) =~= Seq::<char>::empty());
    } else if run_start(s, i) {
        crate::display::lemma_run_end_ge_pub(s, i + 1);
        let j = run_end(s, i + 1);
        lemma_fmt_run_identity(s.subrange(i, j));
        lemma_fmt_all_identity(s, j);
        assert(s.subrange(i, j) + s.subrange(j, s.len() as int) =~= s.subrange(
            i,
            s.len() as int,
        ));
    } else {
        lemma_fmt_all_identity(s, i + 1);
        assert(seq![s[i]] + s.subrange(i + 1, s.len() as int) =~= s.subrange(i, s.len() as int));
    }
}

proof fn lemma_parens_identity(s: Seq<char>, i: int)
    requires
        0 <= i <= s.len(),
        forall|j: int|
            0 <= j < s.len() - 1 ==> !(spec_is_buf_op(#[trigger] s[j]) && s[j + 1] == '-'),
    ensures
        spec_parens(s, i) == s.subrange(i, s.len() as int),
    decreases s.len() - i,
{
    if i < s.len() {
        lemma_parens_identity(s, i + 1);
        assert(seq![s[i]] + s.subrange(i + 1, s.len() as int) =~= s.subrange(i, s.len() as int));
    } else {
        assert(s.subrange(i, s.len() as int) =~= Seq::<char>::empty());
    }
}

/// Round-trip idempotence of display formatting: an expression whose
/// numeric runs all stay below the length and magnitude thresholds,
/// and in which no operator is directly followed by a minus sign, is
/// displayed exactly as it stands.
pub proof fn lemma_display_round_trip(s: Seq<char>)
    requires
        forall|j: int|
            0 <= j < s.len() && run_start(s, j) ==> run_stays_short(
                #[trigger] s.subrange(j, run_end(s, j + 1)),
            ),
        forall|j: int|
            0 <= j < s.len() - 1 ==> !(spec_is_buf_op(#[trigger] s[j]) && s[j + 1] == '-'),
    ensures
        spec_display_string(s) == s,
{
    lemma_fmt_all_identity(s, 0);
    assert(s.subrange(0, s.len() as int) =~= s);
    lemma_parens_identity(s, 0);
}

} // verus!
