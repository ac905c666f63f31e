use rsc::computer::{ComputeError, Computer, Num};
use rsc::parser::{parse, BinOperator, Expr, ParserError};
use rsc::fixed::Fixed;
use rsc::lexer::{tokenize, LexerError, Token};
use rsc::EvalError;

fn fx(text: &str) -> Fixed {
    <Fixed as Num>::from_literal(text).unwrap()
}

fn calc() -> Computer<Fixed> {
    Computer::new(fx("3.141592"), fx("2.718281"))
}

#[test]
fn literal_round_trip_integer() {
    let tokens = tokenize::<Fixed>("42").unwrap();
    assert_eq!(tokens.len(), 1);
    match &tokens[0] {
        Token::Number(n) => assert_eq!(n.mant(), 42_000_000),
        _ => panic!("expected a number token"),
    }
}

#[test]
fn literal_round_trip_decimal() {
    let tokens = tokenize::<Fixed>("3.25").unwrap();
    assert_eq!(tokens.len(), 1);
    match &tokens[0] {
        Token::Number(n) => assert_eq!(n.mant(), 3_250_000),
        _ => panic!("expected a number token"),
    }
}

#[test]
fn literal_round_trip_fraction_only() {
    let tokens = tokenize::<Fixed>(".5").unwrap();
    assert_eq!(tokens.len(), 1);
    match &tokens[0] {
        Token::Number(n) => assert_eq!(n.mant(), 500_000),
        _ => panic!("expected a number token"),
    }
}

#[test]
fn precedence_mul_before_add() {
    assert_eq!(calc().eval("2 + 3 * 4").unwrap(), Fixed::from_int(14));
}

#[test]
fn precedence_parens_first() {
    assert_eq!(calc().eval("(2 + 3) * 4").unwrap(), Fixed::from_int(20));
}

#[test]
fn power_right_associative() {
    assert_eq!(calc().eval("2 ^ 3 ^ 2").unwrap(), Fixed::from_int(512));
}

#[test]
fn unary_minus_binds_looser_than_power() {
    assert_eq!(calc().eval("-2 ^ 2").unwrap(), Fixed::from_int(-4));
}

#[test]
fn factorial_of_negative_fails() {
    let r = calc().eval("(-1)!");
    assert!(matches!(
        r,
        Err(EvalError::ComputeError(ComputeError::InvalidFactorial))
    ));
}

#[test]
fn factorial_of_fraction_fails() {
    let r = calc().eval("1.5!");
    assert!(matches!(
        r,
        Err(EvalError::ComputeError(ComputeError::InvalidFactorial))
    ));
}

#[test]
fn factorial_of_zero_and_one() {
    assert_eq!(calc().eval("0!").unwrap(), Fixed::from_int(1));
    assert_eq!(calc().eval("1!").unwrap(), Fixed::from_int(1));
}

#[test]
fn factorial_of_five() {
    assert_eq!(calc().eval("5!").unwrap(), Fixed::from_int(120));
}

#[test]
fn factorial_twice() {
    assert_eq!(calc().eval("3!!").unwrap(), Fixed::from_int(720));
}

#[test]
fn constant_pi_protected() {
    let mut c = calc();
    let before = c.get_variable("pi").unwrap();
    let r = c.eval("pi = 4");
    assert!(matches!(
        r,
        Err(EvalError::ComputeError(ComputeError::VariableIsConstant(ref n))) if n == "pi"
    ));
    assert_eq!(c.get_variable("pi").unwrap(), before);
}

#[test]
fn user_variables_are_mutable() {
    let mut c = calc();
    assert_eq!(c.eval("a = 2").unwrap(), Fixed::from_int(2));
    assert_eq!(c.eval("a = 3").unwrap(), Fixed::from_int(3));
    assert_eq!(c.eval("a * 2").unwrap(), Fixed::from_int(6));
}

#[test]
fn ans_updates_after_success() {
    let mut c = calc();
    assert_eq!(c.eval("3 + 4").unwrap(), Fixed::from_int(7));
    assert_eq!(c.eval("ans * 2").unwrap(), Fixed::from_int(14));
    let (v, constant) = c.get_variable("ans").unwrap();
    assert_eq!(v, Fixed::from_int(14));
    assert!(constant);
}

#[test]
fn ans_rejects_direct_assignment() {
    let mut c = calc();
    c.eval("1 + 1").unwrap();
    let r = c.eval("ans = 5");
    assert!(matches!(
        r,
        Err(EvalError::ComputeError(ComputeError::VariableIsConstant(ref n))) if n == "ans"
    ));
}

#[test]
fn unrecognized_identifier_names_it() {
    let r = calc().eval("z");
    assert!(matches!(
        r,
        Err(EvalError::ComputeError(ComputeError::UnrecognizedIdentifier(ref n))) if n == "z"
    ));
}

#[test]
fn trailing_tokens_are_an_error() {
    let r = calc().eval("2 + 3 4");
    assert!(matches!(
        r,
        Err(EvalError::ParserError(ParserError::TrailingToken(_)))
    ));
}

#[test]
fn parse_is_deterministic() {
    let tokens = tokenize::<Fixed>("1 + 2 * sin(x)").unwrap();
    let first = parse(&tokens).unwrap();
    let second = parse(&tokens).unwrap();
    assert_eq!(first, second);
}

#[test]
fn lexer_rejects_invalid_character() {
    let r = calc().eval("2 $ 2");
    assert!(matches!(
        r,
        Err(EvalError::LexerError(LexerError::InvalidCharacter('$')))
    ));
}

#[test]
fn lexer_rejects_double_dot_literal() {
    let r = calc().eval("1.2.3");
    assert!(matches!(
        r,
        Err(EvalError::LexerError(LexerError::InvalidNumber(ref s))) if s == "1.2.3"
    ));
}

#[test]
fn unmatched_paren_is_an_error() {
    let r = calc().eval("(2 + 3");
    assert!(matches!(
        r,
        Err(EvalError::ParserError(ParserError::UnmatchedParen))
    ));
}

#[test]
fn missing_operand_is_an_error() {
    let r = calc().eval("2 +");
    assert!(matches!(
        r,
        Err(EvalError::ParserError(ParserError::UnexpectedEnd))
    ));
}

#[test]
fn unknown_function_is_an_error() {
    let r = calc().eval("foo(2)");
    assert!(matches!(
        r,
        Err(EvalError::ParserError(ParserError::UnknownFunction(ref n))) if n == "foo"
    ));
}

#[test]
fn stray_operator_is_an_error() {
    let r = calc().eval("* 2");
    assert!(matches!(
        r,
        Err(EvalError::ParserError(ParserError::UnexpectedToken(_)))
    ));
}

#[test]
fn chained_assignment_assigns_right_to_left() {
    let mut c = calc();
    assert_eq!(c.eval("a = b = 3").unwrap(), Fixed::from_int(3));
    assert_eq!(c.get_variable("a").unwrap().0, Fixed::from_int(3));
    assert_eq!(c.get_variable("b").unwrap().0, Fixed::from_int(3));
}

#[test]
fn partial_assignments_commit_before_a_failure() {
    let mut c = calc();
    let r = c.eval("(a = 1) + (-1)!");
    assert!(matches!(
        r,
        Err(EvalError::ComputeError(ComputeError::InvalidFactorial))
    ));
    assert_eq!(c.get_variable("a").unwrap().0, Fixed::from_int(1));
}

#[test]
fn unary_plus_is_a_no_op() {
    assert_eq!(calc().eval("+5").unwrap(), Fixed::from_int(5));
}

#[test]
fn decimal_arithmetic_is_exact() {
    assert_eq!(calc().eval("1.5 + 2.25").unwrap(), fx("3.75"));
    assert_eq!(calc().eval("1.5 * 1.5").unwrap(), fx("2.25"));
}

#[test]
fn division_truncates_to_millionths() {
    assert_eq!(calc().eval("1 / 2").unwrap(), fx("0.5"));
    assert_eq!(calc().eval("1 / 3").unwrap().mant(), 333_333);
}

#[test]
fn division_by_zero_yields_zero() {
    assert_eq!(calc().eval("5 / 0").unwrap(), Fixed::from_int(0));
}

#[test]
fn negative_exponent_is_a_reciprocal() {
    assert_eq!(calc().eval("2 ^ -1").unwrap(), fx("0.5"));
}

#[test]
fn sqrt_truncates_toward_zero() {
    assert_eq!(calc().eval("sqrt(4)").unwrap(), Fixed::from_int(2));
    assert_eq!(calc().eval("sqrt(2)").unwrap().mant(), 1_414_213);
}

#[test]
fn abs_of_a_negative() {
    assert_eq!(calc().eval("abs(-5)").unwrap(), Fixed::from_int(5));
}

#[test]
fn transcendental_capabilities_yield_zero() {
    assert_eq!(calc().eval("sin(1)").unwrap(), Fixed::from_int(0));
    assert_eq!(calc().eval("cos(1) + tan(1) + log(1)").unwrap(), Fixed::from_int(0));
}

#[test]
fn arithmetic_saturates_at_the_range_edge() {
    let r = calc().eval("5000000000000 * 5000000000000").unwrap();
    assert_eq!(r.mant(), 18_446_744_073_709_551_615);
}

#[test]
fn literal_beyond_range_is_rejected() {
    let r = calc().eval("99999999999999999999");
    assert!(matches!(r, Err(EvalError::LexerError(LexerError::InvalidNumber(_)))));
}

#[test]
fn literal_with_seven_fraction_digits_is_rejected() {
    let r = calc().eval("1.2345678");
    assert!(matches!(r, Err(EvalError::LexerError(LexerError::InvalidNumber(_)))));
}

#[test]
fn seeded_constants_are_readable() {
    let c = calc();
    assert_eq!(c.get_variable("pi").unwrap(), (fx("3.141592"), true));
    assert_eq!(c.get_variable("e").unwrap(), (fx("2.718281"), true));
    assert_eq!(c.get_variable("nope"), None);
}

#[test]
fn compute_walks_a_hand_built_tree() {
    let mut c = calc();
    let tree = Expr::BinOp(
        BinOperator::Plus,
        Box::new(Expr::Constant(Fixed::from_int(2))),
        Box::new(Expr::Constant(Fixed::from_int(3))),
    );
    assert_eq!(c.compute(&tree).unwrap(), Fixed::from_int(5));
    assert_eq!(c.get_variable("ans").unwrap(), (Fixed::from_int(5), true));
}

#[test]
fn whitespace_separates_tokens() {
    assert_eq!(calc().eval("  2   +\t3\n").unwrap(), Fixed::from_int(5));
}
