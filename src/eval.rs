use vstd::prelude::*;

use crate::lexer::{parse_i32, parse_int, token_views, tokenize, tokens_of};

verus! {

/// Why the evaluation of one formula failed.
#[derive(Clone, Copy, Debug, PartialEq, Eq, Structural)]
pub enum EvalError {
    /// A token is neither an integer literal nor one of `+ - * / %`.
    InvalidToken,
    /// An operator found fewer than two values on the stack.
    InsufficientOperands,
    /// Division or remainder by zero, or a result that does not fit in `i32`.
    ArithmeticError,
    /// After the last token the stack does not hold exactly one value.
    InvalidSyntax,
}

/// The five binary operators.
#[derive(Clone, Copy, Debug, PartialEq, Eq, Structural)]
pub enum Op {
    /// `+`
    Add,
    /// `-`
    Sub,
    /// `*`
    Mul,
    /// `/`, truncating toward zero
    Div,
    /// `%`, with the sign of the dividend
    Rem,
}

/// The operator that the token `t` names, if any.
pub open spec fn op_of(t: Seq<char>) -> Option<Op> {
    if t == seq!['+'] {
        Some(Op::Add)
    } else if t == seq!['-'] {
        Some(Op::Sub)
    } else if t == seq!['*'] {
        Some(Op::Mul)
    } else if t == seq!['/'] {
        Some(Op::Div)
    } else if t == seq!['%'] {
        Some(Op::Rem)
    } else {
        None
    }
}

/// The quotient of `x` by `y`, rounded toward zero.
pub open spec fn trunc_div(x: int, y: int) -> int {
    let q: int = vstd::math::abs(x) as int / vstd::math::abs(y) as int;
    if (x < 0) == (y < 0) {
        q
    } else {
        -q
    }
}

/// The remainder left by `trunc_div`; its sign is that of `x`.
pub open spec fn trunc_rem(x: int, y: int) -> int {
    x - y * trunc_div(x, y)
}

/// Whether `v` fits in `i32`.
pub open spec fn fits_i32(v: int) -> bool {
    i32::MIN <= v <= i32::MAX
}

/// Whether `op` can be applied to `x` and `y` within `i32`: no division by zero, and
/// neither the result nor the quotient that it is computed from overflows.
pub open spec fn defined(op: Op, x: int, y: int) -> bool {
    match op {
        Op::Add => fits_i32(x + y),
        Op::Sub => fits_i32(x - y),
        Op::Mul => fits_i32(x * y),
        Op::Div | Op::Rem => y != 0 && fits_i32(trunc_div(x, y)),
    }
}

/// The exact value of `x op y`.
pub open spec fn exact(op: Op, x: int, y: int) -> int {
    match op {
        Op::Add => x + y,
        Op::Sub => x - y,
        Op::Mul => x * y,
        Op::Div => trunc_div(x, y),
        Op::Rem => trunc_rem(x, y),
    }
}

/// `x op y` in `i32`, or `None` where that is not defined.
pub open spec fn apply(op: Op, x: i32, y: i32) -> Option<i32> {
    if defined(op, x as int, y as int) {
        Some(exact(op, x as int, y as int) as i32)
    } else {
        None
    }
}

/// The stack after the token `t`, or the error that `t` raises.
pub open spec fn step(stack: Seq<i32>, t: Seq<char>) -> Result<Seq<i32>, EvalError> {
    match parse_i32(t) {
        Some(v) => Ok(stack.push(v)),
        None => match op_of(t) {
            None => Err(EvalError::InvalidToken),
            Some(op) => if stack.len() < 2 {
                Err(EvalError::InsufficientOperands)
            } else {
                match apply(op, stack[stack.len() - 2], stack[stack.len() - 1]) {
                    None => Err(EvalError::ArithmeticError),
                    Some(r) => Ok(stack.take(stack.len() - 2).push(r)),
                }
            },
        },
    }
}

/// The stack after the tokens `toks`, taken left to right from `stack`, or the
/// first error.
pub open spec fn run(stack: Seq<i32>, toks: Seq<Seq<char>>) -> Result<Seq<i32>, EvalError>
    decreases toks.len(),
{
    if toks.len() == 0 {
        Ok(stack)
    } else {
        match step(stack, toks[0]) {
            Err(e) => Err(e),
            Ok(next) => run(next, toks.drop_first()),
        }
    }
}

/// For each token that `run` takes without error: how many tokens are left after
/// it, and the stack after it.
pub open spec fn steps(stack: Seq<i32>, toks: Seq<Seq<char>>) -> Seq<(int, Seq<i32>)>
    decreases toks.len(),
{
    if toks.len() == 0 {
        seq![]
    } else {
        match step(stack, toks[0]) {
            Err(_) => seq![],
            Ok(next) => seq![(toks.len() - 1, next)] + steps(next, toks.drop_first()),
        }
    }
}

/// The value of a formula given as tokens.
pub open spec fn value_of_tokens(toks: Seq<Seq<char>>) -> Result<i32, EvalError> {
    match run(seq![], toks) {
        Err(e) => Err(e),
        Ok(s) => if s.len() == 1 {
            Ok(s[0])
        } else {
            Err(EvalError::InvalidSyntax)
        },
    }
}

/// The value of the formula `s`.
pub open spec fn rpn_value(s: Seq<char>) -> Result<i32, EvalError> {
    value_of_tokens(tokens_of(s))
}

/// The state after one token: how many tokens are still to come, and the stack.
pub struct TraceStep {
    pub remaining: usize,
    pub stack: Vec<i32>,
}

/// The trace steps as tokens left and stack contents.
pub open spec fn trace_views(v: Seq<TraceStep>) -> Seq<(int, Seq<i32>)> {
    v.map_values(|t: TraceStep| (t.remaining as int, t.stack@))
}

/// The operator that `t` names.
pub fn operator(t: &Vec<char>) -> (r: Option<Op>)
    ensures
        r == op_of(t@),
{
    if t.len() != 1 {
        return None;
    }
    let c = t[0];
    assert(t@ == seq![c]);
    if c == '+' {
        Some(Op::Add)
    } else if c == '-' {
        Some(Op::Sub)
    } else if c == '*' {
        Some(Op::Mul)
    } else if c == '/' {
        Some(Op::Div)
    } else if c == '%' {
        Some(Op::Rem)
    } else {
        None
    }
}

/// The quotient of `x` by a non-zero `y`, rounded toward zero.
fn quotient(x: i32, y: i32) -> (q: i64)
    requires
        y != 0,
    ensures
        q == trunc_div(x as int, y as int),
{
    let xa: u64 = if x < 0 { (-(x as i64)) as u64 } else { x as u64 };
    let ya: u64 = if y < 0 { (-(y as i64)) as u64 } else { y as u64 };
    let m: u64 = xa / ya;
    assert(m <= xa) by (nonlinear_arith)
        requires
            m == xa / ya,
            ya > 0,
    ;
    if (x < 0) == (y < 0) {
        m as i64
    } else {
        -(m as i64)
    }
}

/// `x op y` in `i32`, or `None` on division by zero or overflow.
pub fn apply_op(op: Op, x: i32, y: i32) -> (r: Option<i32>)
    ensures
        r == apply(op, x, y),
{
    match op {
        Op::Add => x.checked_add(y),
        Op::Sub => x.checked_sub(y),
        Op::Mul => x.checked_mul(y),
        Op::Div | Op::Rem => {
            if y == 0 {
                return None;
            }
            let q = quotient(x, y);
            if q < i32::MIN as i64 || q > i32::MAX as i64 {
                None
            } else if op == Op::Div {
                Some(q as i32)
            } else {
                assert(-2147483648 <= y * q <= 2147483648) by (nonlinear_arith)
                    requires
                        fits_i32(q as int),
                        fits_i32(y as int),
                        q == trunc_div(x as int, y as int),
                        y != 0,
                ;
                Some((x as i64 - y as i64 * q) as i32)
            }
        },
    }
}

/// Takes the token `t` onto `stack`: pushes a literal, or applies an operator to the
/// two values on top.
pub fn push_token(stack: &mut Vec<i32>, t: &Vec<char>) -> (r: Result<(), EvalError>)
    ensures
        match step(old(stack)@, t@) {
            Ok(next) => r is Ok && final(stack)@ == next,
            Err(e) => r == Err::<(), EvalError>(e),
        },
{
    if let Some(v) = parse_int(t) {
        stack.push(v);
        return Ok(());
    }
    let op = match operator(t) {
        Some(op) => op,
        None => return Err(EvalError::InvalidToken),
    };
    let n = stack.len();
    if n < 2 {
        return Err(EvalError::InsufficientOperands);
    }
    let x = stack[n - 2];
    let y = stack[n - 1];
    match apply_op(op, x, y) {
        Some(v) => {
            stack.truncate(n - 2);
            stack.push(v);
            assert(stack@ == old(stack)@.take(n - 2).push(v));
            Ok(())
        },
        None => Err(EvalError::ArithmeticError),
    }
}

/// A Reverse Polish Notation calculator; it holds only whether it traces.
pub struct RpnCalculator(pub bool);

impl RpnCalculator {
    /// Whether this calculator records a trace.
    pub open spec fn verbose(self) -> bool {
        self.0
    }

    /// What a calculator records while it evaluates the tokens `toks`.
    pub open spec fn trace_of_tokens(self, toks: Seq<Seq<char>>) -> Seq<(int, Seq<i32>)> {
        if self.0 {
            steps(seq![], toks)
        } else {
            seq![]
        }
    }

    /// What a calculator records while it evaluates the formula `s`.
    pub open spec fn trace_of(self, s: Seq<char>) -> Seq<(int, Seq<i32>)> {
        self.trace_of_tokens(tokens_of(s))
    }

    /// A calculator that records a trace step after each token when `verbose` is set.
    pub fn new(verbose: bool) -> (r: Self)
        ensures
            r.verbose() == verbose,
    {
        RpnCalculator(verbose)
    }

    /// Whether this calculator records a trace.
    pub fn is_verbose(&self) -> (r: bool)
        ensures
            r == self.verbose(),
    {
        self.0
    }

    /// Evaluates a formula given as tokens, left to right; returns its value or the
    /// first error, with the trace when this calculator is verbose.
    pub fn eval_tokens(&self, tokens: &Vec<Vec<char>>) -> (r: (Result<i32, EvalError>, Vec<TraceStep>))
        ensures
            r.0 == value_of_tokens(token_views(tokens@)),
            trace_views(r.1@) == self.trace_of_tokens(token_views(tokens@)),
    {
        let ghost toks = token_views(tokens@);
        let mut stack: Vec<i32> = Vec::new();
        let mut trace: Vec<TraceStep> = Vec::new();
        let n = tokens.len();
        let mut i: usize = 0;
        assert(toks.skip(0) == toks);
        while i < n
            invariant
                n == tokens@.len(),
                toks == token_views(tokens@),
                i <= n,
                run(seq![], toks) == run(stack@, toks.skip(i as int)),
                self.0 ==> steps(seq![], toks) == trace_views(trace@) + steps(stack@, toks.skip(i as int)),
                !self.0 ==> trace@.len() == 0,
            decreases n - i,
        {
            let ghost before = stack@;
            let ghost rest = toks.skip(i as int);
            assert(rest[0] == tokens@[i as int]@);
            assert(rest.drop_first() == toks.skip(i + 1));
            match push_token(&mut stack, &tokens[i]) {
                Ok(()) => {},
                Err(e) => {
                    return (Err(e), trace);
                },
            }
            if self.0 {
                let ghost seen = trace_views(trace@);
                trace.push(TraceStep { remaining: n - i - 1, stack: stack.clone() });
                assert(trace_views(trace@) == seen.push(((n - i - 1) as int, stack@)));
                assert(seen.push(((n - i - 1) as int, stack@)) + steps(stack@, toks.skip(i + 1))
                    == seen + steps(before, rest));
            }
            i = i + 1;
        }
        assert(toks.skip(n as int).len() == 0);
        if stack.len() == 1 {
            (Ok(stack[0]), trace)
        } else {
            (Err(EvalError::InvalidSyntax), trace)
        }
    }

    /// Evaluates the formula: its value, or the first error.
    pub fn eval(&self, formula: &str) -> (r: Result<i32, EvalError>)
        ensures
            r == rpn_value(formula@),
    {
        self.eval_traced(formula).0
    }

    /// Evaluates the formula, and returns with its value or first error the state
    /// after each token when this calculator is verbose.
    pub fn eval_traced(&self, formula: &str) -> (r: (Result<i32, EvalError>, Vec<TraceStep>))
        ensures
            r.0 == rpn_value(formula@),
            trace_views(r.1@) == self.trace_of(formula@),
    {
        let tokens = tokenize(formula);
        self.eval_tokens(&tokens)
    }
}

} // verus!
