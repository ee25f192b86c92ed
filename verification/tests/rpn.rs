use rpn_calc::EvalError;
use rpn_calc::RpnCalculator;

#[test]
fn test_add() {
    assert_eq!(0, rpn_calc::add(0, 0));
    assert_eq!(1, rpn_calc::add(1, 0));
    assert_eq!(1, rpn_calc::add(0, 1));
    assert_eq!(2, rpn_calc::add(1, 1));
}

#[test]
fn test_ok() {
    let calc = RpnCalculator::new(false);
    assert_eq!(calc.eval("5"), Ok(5));
    assert_eq!(calc.eval("50"), Ok(50));
    assert_eq!(calc.eval("-50"), Ok(-50));

    assert_eq!(calc.eval("2 3 +"), Ok(5));
    assert_eq!(calc.eval("2 3 *"), Ok(6));
    assert_eq!(calc.eval("2 3 -"), Ok(-1));
    assert_eq!(calc.eval("2 3 /"), Ok(0));
    assert_eq!(calc.eval("2 3 %"), Ok(2));
}

#[test]
#[should_panic]
fn test_ng() {
    let calc = RpnCalculator::new(false);
    calc.eval("1 1 ^").unwrap();
}

#[test]
fn invalid_tokens() {
    let calc = RpnCalculator::new(false);
    assert_eq!(calc.eval("1 1 ^"), Err(EvalError::InvalidToken));
    assert_eq!(calc.eval("abc"), Err(EvalError::InvalidToken));
    assert_eq!(calc.eval("1.5"), Err(EvalError::InvalidToken));
    assert_eq!(calc.eval("--5"), Err(EvalError::InvalidToken));
    assert_eq!(calc.eval("2x"), Err(EvalError::InvalidToken));
    // only a leading `-` is accepted on a literal, no `+`
    assert_eq!(calc.eval("+5"), Err(EvalError::InvalidToken));
}

#[test]
fn stack_underflow() {
    let calc = RpnCalculator::new(false);
    assert_eq!(calc.eval("1 +"), Err(EvalError::StackUnderflow));
    assert_eq!(calc.eval("+"), Err(EvalError::StackUnderflow));
    assert_eq!(calc.eval("-"), Err(EvalError::StackUnderflow));
    assert_eq!(calc.eval("1 2 + *"), Err(EvalError::StackUnderflow));
}

#[test]
fn malformed_expressions() {
    let calc = RpnCalculator::new(false);
    assert_eq!(calc.eval("1 1"), Err(EvalError::MalformedExpression));
    assert_eq!(calc.eval(""), Err(EvalError::MalformedExpression));
    assert_eq!(calc.eval("   "), Err(EvalError::MalformedExpression));
    assert_eq!(calc.eval("1 2 3 +"), Err(EvalError::MalformedExpression));
}

#[test]
fn division_by_zero() {
    let calc = RpnCalculator::new(false);
    assert_eq!(calc.eval("1 0 /"), Err(EvalError::DivisionByZero));
    assert_eq!(calc.eval("1 0 %"), Err(EvalError::DivisionByZero));
    assert_eq!(calc.eval("0 0 /"), Err(EvalError::DivisionByZero));
}

#[test]
fn truncating_division() {
    let calc = RpnCalculator::new(false);
    assert_eq!(calc.eval("-7 2 /"), Ok(-3));
    assert_eq!(calc.eval("7 -2 /"), Ok(-3));
    assert_eq!(calc.eval("-7 -2 /"), Ok(3));
    assert_eq!(calc.eval("-7 2 %"), Ok(-1));
    assert_eq!(calc.eval("7 -2 %"), Ok(1));
    assert_eq!(calc.eval("-7 -2 %"), Ok(-1));
}

#[test]
fn overflow() {
    let calc = RpnCalculator::new(false);
    assert_eq!(calc.eval("2147483647 1 +"), Err(EvalError::Overflow));
    assert_eq!(calc.eval("-2147483648 1 -"), Err(EvalError::Overflow));
    assert_eq!(calc.eval("-2147483648 -1 *"), Err(EvalError::Overflow));
    assert_eq!(calc.eval("-2147483648 -1 /"), Err(EvalError::Overflow));
}

#[test]
fn i32_edges() {
    let calc = RpnCalculator::new(false);
    assert_eq!(calc.eval("2147483647"), Ok(i32::MAX));
    assert_eq!(calc.eval("-2147483648"), Ok(i32::MIN));
    assert_eq!(calc.eval("-2147483648 1 /"), Ok(i32::MIN));
    assert_eq!(calc.eval("-2147483648 -1 %"), Ok(0));
    // a literal outside the i32 range is no operand
    assert_eq!(calc.eval("2147483648"), Err(EvalError::InvalidToken));
    assert_eq!(calc.eval("-2147483649"), Err(EvalError::InvalidToken));
    assert_eq!(calc.eval("99999999999999999999"), Err(EvalError::InvalidToken));
}

#[test]
fn leading_zeros() {
    let calc = RpnCalculator::new(false);
    assert_eq!(calc.eval("007"), Ok(7));
    assert_eq!(calc.eval("-007"), Ok(-7));
    assert_eq!(calc.eval("0000000000000000000005"), Ok(5));
}

#[test]
fn whitespace_runs() {
    let calc = RpnCalculator::new(false);
    assert_eq!(calc.eval("  2 \t 3 \r +  "), Ok(5));
    assert_eq!(calc.eval("\t2  3 +"), Ok(5));
}

#[test]
fn longer_expressions() {
    let calc = RpnCalculator::new(false);
    assert_eq!(calc.eval("1 2 + 3 *"), Ok(9));
    assert_eq!(calc.eval("15 7 1 1 + - /"), Ok(3));
}

#[test]
fn verbose_flag_does_not_change_results() {
    let verbose = RpnCalculator::new(true);
    let quiet = RpnCalculator::new(false);
    assert_eq!(verbose.eval("2 3 +"), quiet.eval("2 3 +"));
    assert_eq!(verbose.eval("2 3 +"), Ok(5));
    assert_eq!(verbose.eval("1 1 ^"), Err(EvalError::InvalidToken));
}

#[test]
fn error_descriptions() {
    assert_eq!(EvalError::InvalidToken.describe(), "invalid token");
    assert_eq!(EvalError::StackUnderflow.describe(), "stack underflow");
    assert_eq!(EvalError::DivisionByZero.describe(), "division by zero");
    assert_eq!(EvalError::MalformedExpression.describe(), "malformed expression");
    assert_eq!(EvalError::Overflow.describe(), "overflow");
}
