use samplecli::eval::{apply_op, EvalError, Op, RpnCalculator};
use samplecli::lexer::{parse_int, space, tokenize};

fn eval(formula: &str) -> Result<i32, EvalError> {
    RpnCalculator::new(false).eval(formula)
}

fn chars(s: &str) -> Vec<char> {
    s.chars().collect()
}

#[test]
fn adds_two_numbers() {
    assert_eq!(eval("3 4 +"), Ok(7));
}

#[test]
fn evaluates_nested_formula() {
    assert_eq!(eval("5 1 2 + 4 * + 3 -"), Ok(14));
}

#[test]
fn divides_with_truncation() {
    assert_eq!(eval("10 2 /"), Ok(5));
    assert_eq!(eval("7 2 /"), Ok(3));
    assert_eq!(eval("-7 2 /"), Ok(-3));
    assert_eq!(eval("7 -2 /"), Ok(-3));
    assert_eq!(eval("-7 -2 /"), Ok(3));
}

#[test]
fn remainder_follows_dividend() {
    assert_eq!(eval("7 2 %"), Ok(1));
    assert_eq!(eval("-7 2 %"), Ok(-1));
    assert_eq!(eval("7 -2 %"), Ok(1));
    assert_eq!(eval("-7 -2 %"), Ok(-1));
}

#[test]
fn division_by_zero_is_arithmetic_error() {
    assert_eq!(eval("10 0 /"), Err(EvalError::ArithmeticError));
    assert_eq!(eval("10 0 %"), Err(EvalError::ArithmeticError));
}

#[test]
fn overflow_is_arithmetic_error() {
    assert_eq!(eval("2147483647 1 +"), Err(EvalError::ArithmeticError));
    assert_eq!(eval("-2147483648 1 -"), Err(EvalError::ArithmeticError));
    assert_eq!(eval("65536 65536 *"), Err(EvalError::ArithmeticError));
    assert_eq!(eval("-2147483648 -1 /"), Err(EvalError::ArithmeticError));
    assert_eq!(eval("-2147483648 -1 %"), Err(EvalError::ArithmeticError));
    assert_eq!(eval("2147483646 1 +"), Ok(2147483647));
}

#[test]
fn missing_operand_is_insufficient() {
    assert_eq!(eval("1 +"), Err(EvalError::InsufficientOperands));
    assert_eq!(eval("-"), Err(EvalError::InsufficientOperands));
}

#[test]
fn leftover_values_are_invalid_syntax() {
    assert_eq!(eval("1 2"), Err(EvalError::InvalidSyntax));
}

#[test]
fn unknown_token_is_invalid_token() {
    assert_eq!(eval("1 x +"), Err(EvalError::InvalidToken));
    assert_eq!(eval("2147483648"), Err(EvalError::InvalidToken));
    assert_eq!(eval("1 2 ^"), Err(EvalError::InvalidToken));
}

#[test]
fn empty_formula_is_invalid_syntax() {
    assert_eq!(eval(""), Err(EvalError::InvalidSyntax));
    assert_eq!(eval("   \t "), Err(EvalError::InvalidSyntax));
}

#[test]
fn first_error_stops_evaluation() {
    assert_eq!(eval("1 0 / x"), Err(EvalError::ArithmeticError));
    assert_eq!(eval("+ x"), Err(EvalError::InsufficientOperands));
}

#[test]
fn evaluating_twice_gives_same_result() {
    let calc = RpnCalculator::new(true);
    for f in ["3 4 +", "1 +", "5 1 2 + 4 * + 3 -", ""] {
        assert_eq!(calc.eval(f), calc.eval(f));
        let (r1, t1) = calc.eval_traced(f);
        let (r2, t2) = calc.eval_traced(f);
        assert_eq!(r1, r2);
        assert_eq!(t1.len(), t2.len());
    }
}

#[test]
fn verbose_mode_keeps_result() {
    let loud = RpnCalculator::new(true);
    let quiet = RpnCalculator::new(false);
    for f in ["3 4 +", "10 0 /", "1 +", "1 2", "1 x +", "", "-7 2 /"] {
        assert_eq!(loud.eval(f), quiet.eval(f));
        assert_eq!(loud.eval_traced(f).0, quiet.eval_traced(f).0);
    }
}

#[test]
fn verbose_mode_records_each_step() {
    let (r, trace) = RpnCalculator::new(true).eval_traced("3 4 +");
    assert_eq!(r, Ok(7));
    assert_eq!(trace.len(), 3);
    assert_eq!(trace[0].remaining, 2);
    assert_eq!(trace[0].stack, vec![3]);
    assert_eq!(trace[1].remaining, 1);
    assert_eq!(trace[1].stack, vec![3, 4]);
    assert_eq!(trace[2].remaining, 0);
    assert_eq!(trace[2].stack, vec![7]);
    let (_, quiet) = RpnCalculator::new(false).eval_traced("3 4 +");
    assert!(quiet.is_empty());
}

#[test]
fn trace_stops_at_error() {
    let (r, trace) = RpnCalculator::new(true).eval_traced("1 2 + x 3");
    assert_eq!(r, Err(EvalError::InvalidToken));
    assert_eq!(trace.len(), 3);
    assert_eq!(trace[2].stack, vec![3]);
    assert_eq!(trace[2].remaining, 2);
}

#[test]
fn postfix_of_expression_gives_its_value() {
    // (2 - 9) * (17 / -4) + 5 % 3 = (-7) * (-4) + 2 = 30
    assert_eq!(eval("2 9 - 17 -4 / * 5 3 % +"), Ok(30));
}

#[test]
fn splits_on_any_white_space() {
    assert_eq!(eval("  3\t4\n+  "), Ok(7));
    assert_eq!(eval("3\u{3000}4\u{a0}+"), Ok(7));
    assert_eq!(
        tokenize(" 12  +3\t-x "),
        vec![chars("12"), chars("+3"), chars("-x")]
    );
    assert!(tokenize("").is_empty());
    assert!(space('\u{2028}'));
    assert!(!space('x'));
}

#[test]
fn reads_integer_literals() {
    assert_eq!(parse_int(&chars("42")), Some(42));
    assert_eq!(parse_int(&chars("+5")), Some(5));
    assert_eq!(parse_int(&chars("-0")), Some(0));
    assert_eq!(parse_int(&chars("007")), Some(7));
    assert_eq!(parse_int(&chars("-2147483648")), Some(i32::MIN));
    assert_eq!(parse_int(&chars("2147483647")), Some(i32::MAX));
    assert_eq!(parse_int(&chars("2147483648")), None);
    assert_eq!(parse_int(&chars("99999999999999999999")), None);
    assert_eq!(parse_int(&chars("-")), None);
    assert_eq!(parse_int(&chars("+")), None);
    assert_eq!(parse_int(&chars("")), None);
    assert_eq!(parse_int(&chars("1a")), None);
    assert_eq!(parse_int(&chars("--1")), None);
}

#[test]
fn applies_each_operator() {
    assert_eq!(apply_op(Op::Add, 2, 3), Some(5));
    assert_eq!(apply_op(Op::Sub, 2, 3), Some(-1));
    assert_eq!(apply_op(Op::Mul, -2, 3), Some(-6));
    assert_eq!(apply_op(Op::Div, -9, 2), Some(-4));
    assert_eq!(apply_op(Op::Rem, -9, 2), Some(-1));
    assert_eq!(apply_op(Op::Div, 1, 0), None);
}

#[test]
fn new_keeps_flag() {
    assert!(RpnCalculator::new(true).is_verbose());
    assert!(!RpnCalculator::new(false).is_verbose());
}
