use vstd::prelude::*;

use crate::eval::{
    apply, defined, exact, fits_i32, op_of, rpn_value, run, step, steps, trunc_div, trunc_rem,
    Op, RpnCalculator,
};
use crate::lexer::{literal_value, parse_i32, tokens_of};

verus! {

/// An arithmetic expression over integer literals, as a tree.
pub enum Expr {
    /// A literal, written as its token.
    Lit(Seq<char>),
    /// An operator applied to a left and a right operand.
    Bin(Op, Box<Expr>, Box<Expr>),
}

/// The token that writes `op`.
pub open spec fn op_token(op: Op) -> Seq<char> {
    match op {
        Op::Add => seq!['+'],
        Op::Sub => seq!['-'],
        Op::Mul => seq!['*'],
        Op::Div => seq!['/'],
        Op::Rem => seq!['%'],
    }
}

/// The tokens of `e` in postfix order: both operands, then the operator.
pub open spec fn postfix(e: Expr) -> Seq<Seq<char>>
    decreases e,
{
    match e {
        Expr::Lit(t) => seq![t],
        Expr::Bin(op, l, r) => postfix(*l) + postfix(*r) + seq![op_token(op)],
    }
}

/// The exact value of `e` over the integers, dividing with truncation toward zero.
pub open spec fn value(e: Expr) -> int
    decreases e,
{
    match e {
        Expr::Lit(t) => match literal_value(t) {
            Some(v) => v,
            None => 0,
        },
        Expr::Bin(op, l, r) => exact(op, value(*l), value(*r)),
    }
}

/// Whether every literal of `e` is an `i32`, no divisor is zero and no operation
/// leaves `i32`.
pub open spec fn computable(e: Expr) -> bool
    decreases e,
{
    match e {
        Expr::Lit(t) => parse_i32(t) is Some,
        Expr::Bin(op, l, r) => computable(*l) && computable(*r) && defined(op, value(*l), value(*r)),
    }
}

proof fn lemma_rem_fits(x: int, y: int)
    requires
        fits_i32(x),
        fits_i32(y),
        y != 0,
    ensures
        fits_i32(trunc_rem(x, y)),
{
    let ax = vstd::math::abs(x) as int;
    let ay = vstd::math::abs(y) as int;
    let q = ax / ay;
    assert(0 <= ax - ay * q < ay) by (nonlinear_arith)
        requires
            q == ax / ay,
            ay > 0,
            ax >= 0,
    ;
    if x >= 0 && y > 0 {
        assert(trunc_rem(x, y) == ax - ay * q);
    } else if x >= 0 {
        assert(trunc_rem(x, y) == ax - ay * q) by (nonlinear_arith)
            requires
                trunc_div(x, y) == -q,
                ay == -y,
                ax == x,
        ;
    } else if y > 0 {
        assert(trunc_rem(x, y) == -(ax - ay * q)) by (nonlinear_arith)
            requires
                trunc_div(x, y) == -q,
                ay == y,
                ax == -x,
        ;
    } else {
        assert(trunc_rem(x, y) == -(ax - ay * q)) by (nonlinear_arith)
            requires
                trunc_div(x, y) == q,
                ay == -y,
                ax == -x,
        ;
    }
}

proof fn lemma_op_token(op: Op)
    ensures
        parse_i32(op_token(op)) is None,
        op_of(op_token(op)) == Some(op),
{
    let t = op_token(op);
    assert(t.len() == 1);
    if !(t[0] == '-' || t[0] == '+') {
        assert(!crate::lexer::is_digit(t[0]));
        assert(!crate::lexer::all_digits(t));
    }
}

proof fn lemma_run_postfix(e: Expr, stack: Seq<i32>, rest: Seq<Seq<char>>)
    requires
        computable(e),
    ensures
        fits_i32(value(e)),
        run(stack, postfix(e) + rest) == run(stack.push(value(e) as i32), rest),
    decreases e,
{
    match e {
        Expr::Lit(t) => {
            let toks = seq![t] + rest;
            assert(toks[0] == t);
            assert(toks.drop_first() == rest);
        },
        Expr::Bin(op, l, r) => {
            let tok = op_token(op);
            let tail = seq![tok] + rest;
            assert(postfix(e) + rest == postfix(*l) + (postfix(*r) + tail));
            lemma_run_postfix(*l, stack, postfix(*r) + tail);
            let vl = value(*l) as i32;
            lemma_run_postfix(*r, stack.push(vl), tail);
            let vr = value(*r) as i32;
            let s2 = stack.push(vl).push(vr);
            lemma_op_token(op);
            if op == Op::Rem {
                lemma_rem_fits(value(*l), value(*r));
            }
            assert(apply(op, vl, vr) == Some(value(e) as i32));
            assert(s2.take(s2.len() - 2) == stack);
            assert(step(s2, tok) == Ok::<Seq<i32>, crate::eval::EvalError>(stack.push(value(e) as i32)));
            assert(tail[0] == tok);
            assert(tail.drop_first() == rest);
        },
    }
}

/// A formula whose tokens are the postfix form of an expression evaluates to the
/// exact value of that expression, with division and remainder truncated toward
/// zero, whenever every literal and every intermediate result fits in `i32` and no
/// divisor is zero.
pub proof fn postfix_evaluates_to_value(s: Seq<char>, e: Expr)
    requires
        tokens_of(s) == postfix(e),
        computable(e),
    ensures
        fits_i32(value(e)),
        rpn_value(s) == Ok::<i32, crate::eval::EvalError>(value(e) as i32),
{
    lemma_run_postfix(e, seq![], seq![]);
    assert(postfix(e) + seq![] == postfix(e));
    assert(seq![].push(value(e) as i32)[0] == value(e) as i32);
}

proof fn lemma_steps_follow_run(stack: Seq<i32>, toks: Seq<Seq<char>>)
    ensures
        match run(stack, toks) {
            Ok(fin) => steps(stack, toks).len() == toks.len() && (toks.len() > 0 ==> steps(
                stack,
                toks,
            ).last() == (0int, fin)),
            Err(_) => steps(stack, toks).len() < toks.len(),
        },
    decreases toks.len(),
{
    if toks.len() > 0 {
        if let Ok(next) = step(stack, toks[0]) {
            lemma_steps_follow_run(next, toks.drop_first());
        }
    }
}

/// Tracing is observation only. What a calculator returns for a formula is its
/// `rpn_value`, whether the calculator traces or not. A quiet calculator records
/// nothing; a verbose one, where the formula has a value, records one step per token,
/// the last of which has no token left and that value alone on the stack.
pub proof fn tracing_is_observation_only(loud: RpnCalculator, quiet: RpnCalculator, s: Seq<char>)
    requires
        loud.verbose(),
        !quiet.verbose(),
    ensures
        quiet.trace_of(s).len() == 0,
        match rpn_value(s) {
            Ok(v) => loud.trace_of(s).len() == tokens_of(s).len() && loud.trace_of(s).last() == (
            0int,
            seq![v],
            ),
            Err(_) => true,
        },
{
    let toks = tokens_of(s);
    lemma_steps_follow_run(seq![], toks);
    if let Ok(v) = rpn_value(s) {
        let fin = run(seq![], toks)->Ok_0;
        assert(fin =~= seq![v]);
        assert(toks.len() > 0);
    }
}

/// Evaluation keeps no state from one call to the next: two calculators made with the
/// same flag give, for the same formula, the same value or error and the same trace,
/// whatever either of them evaluated before.
pub proof fn evaluation_is_repeatable(first: RpnCalculator, second: RpnCalculator, s: Seq<char>)
    requires
        first.verbose() == second.verbose(),
    ensures
        first.trace_of(s) == second.trace_of(s),
{
}

} // verus!
