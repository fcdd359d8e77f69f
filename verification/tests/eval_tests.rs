use rpn_calculator::{apply_op_exec, EvalError, Op, RpnCalculator, Token};

#[test]
fn adds_two_operands() {
    let calc = RpnCalculator::new(false);
    assert_eq!(calc.eval("3 4 +"), Ok(7));
}

#[test]
fn evaluates_nested_formula() {
    let calc = RpnCalculator::new(false);
    assert_eq!(calc.eval("5 1 2 + 4 * + 3 -"), Ok(14));
}

#[test]
fn divides() {
    let calc = RpnCalculator::new(false);
    assert_eq!(calc.eval("10 2 /"), Ok(5));
}

#[test]
fn division_by_zero_fails() {
    let calc = RpnCalculator::new(false);
    assert_eq!(calc.eval("10 0 /"), Err(EvalError::DivisionByZeroError));
}

#[test]
fn remainder() {
    let calc = RpnCalculator::new(false);
    assert_eq!(calc.eval("10 3 %"), Ok(1));
}

#[test]
fn remainder_by_zero_fails() {
    let calc = RpnCalculator::new(false);
    assert_eq!(calc.eval("10 0 %"), Err(EvalError::DivisionByZeroError));
}

#[test]
fn leftover_operand_is_a_syntax_error() {
    let calc = RpnCalculator::new(false);
    assert_eq!(calc.eval("1 2"), Err(EvalError::SyntaxError));
}

#[test]
fn missing_operand_is_a_syntax_error() {
    let calc = RpnCalculator::new(false);
    assert_eq!(calc.eval("1 +"), Err(EvalError::SyntaxError));
}

#[test]
fn unknown_word_is_a_syntax_error() {
    let calc = RpnCalculator::new(false);
    assert_eq!(calc.eval("a b +"), Err(EvalError::SyntaxError));
}

#[test]
fn empty_line_is_a_syntax_error() {
    let calc = RpnCalculator::new(false);
    assert_eq!(calc.eval(""), Err(EvalError::SyntaxError));
    assert_eq!(calc.eval("   "), Err(EvalError::SyntaxError));
}

#[test]
fn operand_order_matters() {
    let calc = RpnCalculator::new(false);
    assert_eq!(calc.eval("6 2 -"), Ok(4));
    assert_eq!(calc.eval("2 6 -"), Ok(-4));
}

#[test]
fn same_formula_twice_gives_the_same_result() {
    let calc = RpnCalculator::new(false);
    let first = calc.eval("5 1 2 + 4 * + 3 -");
    let second = calc.eval("5 1 2 + 4 * + 3 -");
    assert_eq!(first, second);
    assert_eq!(first, Ok(14));
}

#[test]
fn verbose_mode_does_not_change_the_result() {
    let quiet = RpnCalculator::new(false);
    let verbose = RpnCalculator::new(true);
    for formula in ["3 4 +", "10 0 /", "1 +", "a b +", "5 1 2 + 4 * + 3 -"] {
        assert_eq!(quiet.eval(formula), verbose.eval(formula));
        let (qr, qt) = quiet.eval_with_trace(formula);
        let (vr, vt) = verbose.eval_with_trace(formula);
        assert_eq!(qr, vr);
        assert_eq!(qr, quiet.eval(formula));
        assert!(qt.is_empty());
        assert!(vt.len() >= qt.len());
    }
}

#[test]
fn verbose_trace_shows_each_step() {
    let calc = RpnCalculator::new(true);
    let (r, trace) = calc.eval_with_trace("3 4 +");
    assert_eq!(r, Ok(7));
    assert_eq!(trace.len(), 3);
    assert_eq!(trace[0].consumed, 1);
    assert_eq!(trace[0].stack, vec![3]);
    assert_eq!(trace[1].consumed, 2);
    assert_eq!(trace[1].stack, vec![3, 4]);
    assert_eq!(trace[2].consumed, 3);
    assert_eq!(trace[2].stack, vec![7]);
}

#[test]
fn trace_stops_at_the_failing_token() {
    let calc = RpnCalculator::new(true);
    let (r, trace) = calc.eval_with_trace("1 0 / 2");
    assert_eq!(r, Err(EvalError::DivisionByZeroError));
    assert_eq!(trace.len(), 2);
    assert_eq!(trace[1].stack, vec![1, 0]);
}

#[test]
fn single_operand_is_its_own_result() {
    let calc = RpnCalculator::new(false);
    assert_eq!(calc.eval("42"), Ok(42));
    assert_eq!(calc.eval("-5"), Ok(-5));
    assert_eq!(calc.eval("+5"), Ok(5));
    assert_eq!(calc.eval("007"), Ok(7));
}

#[test]
fn whitespace_between_tokens_is_flexible() {
    let calc = RpnCalculator::new(false);
    assert_eq!(calc.eval("  3   4  +  "), Ok(7));
    assert_eq!(calc.eval("\t3\t4\t+\t"), Ok(7));
}

#[test]
fn addition_wraps_like_the_machine_word() {
    let calc = RpnCalculator::new(false);
    assert_eq!(calc.eval("2147483647 1 +"), Ok(-2147483648));
    assert_eq!(calc.eval("-2147483648 -1 +"), Ok(2147483647));
}

#[test]
fn multiplication_wraps_like_the_machine_word() {
    let calc = RpnCalculator::new(false);
    assert_eq!(calc.eval("65536 65536 *"), Ok(0));
    assert_eq!(calc.eval("65536 32768 *"), Ok(-2147483648));
}

#[test]
fn the_one_overflowing_quotient_wraps() {
    let calc = RpnCalculator::new(false);
    assert_eq!(calc.eval("-2147483648 -1 /"), Ok(-2147483648));
    assert_eq!(calc.eval("-2147483648 -1 %"), Ok(0));
}

#[test]
fn division_truncates_toward_zero() {
    let calc = RpnCalculator::new(false);
    assert_eq!(calc.eval("-7 2 /"), Ok(-3));
    assert_eq!(calc.eval("7 -2 /"), Ok(-3));
    assert_eq!(calc.eval("-7 -2 /"), Ok(3));
}

#[test]
fn remainder_sign_follows_the_dividend() {
    let calc = RpnCalculator::new(false);
    assert_eq!(calc.eval("-7 2 %"), Ok(-1));
    assert_eq!(calc.eval("7 -2 %"), Ok(1));
    assert_eq!(calc.eval("-7 -2 %"), Ok(-1));
}

#[test]
fn out_of_range_literal_is_a_syntax_error() {
    let calc = RpnCalculator::new(false);
    assert_eq!(calc.eval("2147483648"), Err(EvalError::SyntaxError));
    assert_eq!(calc.eval("-2147483649"), Err(EvalError::SyntaxError));
    assert_eq!(calc.eval("2147483647"), Ok(2147483647));
    assert_eq!(calc.eval("-2147483648"), Ok(-2147483648));
}

#[test]
fn malformed_numbers_are_syntax_errors() {
    let calc = RpnCalculator::new(false);
    assert_eq!(calc.eval("+"), Err(EvalError::SyntaxError));
    assert_eq!(calc.eval("1 2 ++"), Err(EvalError::SyntaxError));
    assert_eq!(calc.eval("1 2 3-"), Err(EvalError::SyntaxError));
    assert_eq!(calc.eval("1.5 2 +"), Err(EvalError::SyntaxError));
}

#[test]
fn tokenize_splits_on_whitespace() {
    let toks = rpn_calculator::tokenize_line("  3  44 +\tx ");
    assert_eq!(toks, vec!["3", "44", "+", "x"]);
    let none = rpn_calculator::tokenize_line("   ");
    assert!(none.is_empty());
}

#[test]
fn classify_reads_numbers_before_operators() {
    assert_eq!(rpn_calculator::classify_token("12"), Token::Operand(12));
    assert_eq!(rpn_calculator::classify_token("-12"), Token::Operand(-12));
    assert!(matches!(rpn_calculator::classify_token("*"), Token::Operator(_)));
    assert_eq!(rpn_calculator::classify_token("twelve"), Token::Unknown);
    assert_eq!(rpn_calculator::classify_token("+-"), Token::Unknown);
}

#[test]
fn parse_token_matches_integer_literals() {
    assert_eq!(rpn_calculator::parse_token("0"), Some(0));
    assert_eq!(rpn_calculator::parse_token("-0"), Some(0));
    assert_eq!(rpn_calculator::parse_token("2147483647"), Some(2147483647));
    assert_eq!(rpn_calculator::parse_token("-2147483648"), Some(-2147483648));
    assert_eq!(rpn_calculator::parse_token("2147483648"), None);
    assert_eq!(rpn_calculator::parse_token("99999999999999999999"), None);
    assert_eq!(rpn_calculator::parse_token(""), None);
    assert_eq!(rpn_calculator::parse_token("-"), None);
    assert_eq!(rpn_calculator::parse_token("+"), None);
    assert_eq!(rpn_calculator::parse_token("1 2"), None);
    assert_eq!(rpn_calculator::parse_token("12a"), None);
}

#[test]
fn apply_op_exec_follows_the_operator_table() {
    assert_eq!(apply_op_exec(Op::Add, 2, 3), Ok(5));
    assert_eq!(apply_op_exec(Op::Sub, 6, 2), Ok(4));
    assert_eq!(apply_op_exec(Op::Mul, -4, 5), Ok(-20));
    assert_eq!(apply_op_exec(Op::Div, 7, -2), Ok(-3));
    assert_eq!(apply_op_exec(Op::Rem, -7, 2), Ok(-1));
    assert_eq!(apply_op_exec(Op::Div, -2147483648, -1), Ok(-2147483648));
    assert_eq!(apply_op_exec(Op::Rem, -2147483648, -1), Ok(0));
    assert_eq!(apply_op_exec(Op::Div, 1, 0), Err(EvalError::DivisionByZeroError));
    assert_eq!(apply_op_exec(Op::Rem, 1, 0), Err(EvalError::DivisionByZeroError));
}

#[test]
fn run_tokens_reports_result_and_trace() {
    let mut work = vec!["+", "4", "3"];
    let (r, trace) = rpn_calculator::run_tokens(&mut work);
    assert_eq!(r, Ok(7));
    assert_eq!(trace.len(), 3);
    assert!(work.is_empty());
}

#[test]
fn eval_inner_consumes_a_reversed_work_list() {
    let calc = RpnCalculator::new(false);
    let mut work = vec!["+", "4", "3"];
    assert_eq!(calc.eval_inner(&mut work), Ok(7));
    assert!(work.is_empty());
}

#[test]
fn eval_inner_stops_at_the_failing_token() {
    let calc = RpnCalculator::new(false);
    let mut work = vec!["5", "/", "0", "1"];
    assert_eq!(calc.eval_inner(&mut work), Err(EvalError::DivisionByZeroError));
    assert_eq!(work, vec!["5"]);
}
