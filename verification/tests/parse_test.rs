//! Structural tests: the trees the parser builds, and the error type.

use rustcalc::error::Error;
use rustcalc::expression::{Constant, Expression};
use rustcalc::parser::{parse, Parser};

fn num(s: &str) -> Box<Expression> {
    Box::new(Expression::Number(s.to_string()))
}

#[test]
fn number_keeps_literal_text() {
    assert_eq!(parse("3.14e+2").unwrap(), Expression::Number("3.14e+2".to_string()));
}

#[test]
fn constant_resolves_case_insensitively() {
    assert_eq!(parse("NaN").unwrap(), Expression::Constant(Constant::NaN));
    assert_eq!(parse("E").unwrap(), Expression::Constant(Constant::E));
    assert_eq!(parse("\u{3c0}").unwrap(), Expression::Constant(Constant::Pi));
}

#[test]
fn exponent_is_right_associative() {
    let expected = Expression::Exponentiate {
        lhs: num("2"),
        rhs: Box::new(Expression::Exponentiate { lhs: num("3"), rhs: num("2") }),
    };
    assert_eq!(parse("2^3^2").unwrap(), expected);
}

#[test]
fn addition_is_left_associative() {
    let expected = Expression::Add {
        lhs: Box::new(Expression::Subtract { lhs: num("7"), rhs: num("4") }),
        rhs: num("2"),
    };
    assert_eq!(parse("7 - 4 + 2").unwrap(), expected);
}

#[test]
fn postfix_binds_tighter_than_exponent() {
    let expected = Expression::Exponentiate {
        lhs: num("2"),
        rhs: Box::new(Expression::Factorial(num("3"))),
    };
    assert_eq!(parse("2 ^ 3!").unwrap(), expected);
}

#[test]
fn multiplication_binds_tighter_than_addition() {
    let expected = Expression::Add {
        lhs: num("1"),
        rhs: Box::new(Expression::Multiply { lhs: num("2"), rhs: num("3") }),
    };
    assert_eq!(parse("1 + 2 * 3").unwrap(), expected);
}

#[test]
fn prefix_operators_nest() {
    let expected = Expression::Negate(Box::new(Expression::Negate(Box::new(
        Expression::Negate(num("1")),
    ))));
    assert_eq!(parse("-+-+-1").unwrap(), expected);
}

#[test]
fn square_root_glyph_is_prefix() {
    assert_eq!(parse("\u{221a}4").unwrap(), Expression::SquareRoot(num("4")));
}

#[test]
fn parens_override_precedence() {
    let expected = Expression::Factorial(Box::new(Expression::Add {
        lhs: num("2"),
        rhs: num("3"),
    }));
    assert_eq!(parse("(2 + 3)!").unwrap(), expected);
}

#[test]
fn round_defaults_to_zero_decimals() {
    let expected = Expression::Round { value: num("3.14"), decimals: num("0") };
    assert_eq!(parse("round(3.14)").unwrap(), expected);
}

#[test]
fn round_keeps_both_arguments() {
    let expected = Expression::Round { value: num("3.14"), decimals: num("1") };
    assert_eq!(parse("round(3.14, 1)").unwrap(), expected);
}

#[test]
fn function_names_resolve_case_insensitively() {
    assert_eq!(parse("SQRT(4)").unwrap(), Expression::SquareRoot(num("4")));
    assert_eq!(parse("Cos(0)").unwrap(), Expression::Cosine(num("0")));
}

#[test]
fn errors_compare_by_kind_and_message() {
    assert_eq!(
        Parser::new("x").parse(),
        Err(Error::Parse("Unknown constant x".to_string()))
    );
    assert_ne!(
        Error::Parse("a".to_string()),
        Error::IO("a".to_string())
    );
}

#[test]
fn error_message_accessor() {
    let e = Parser::new("sqrt()").parse().unwrap_err();
    assert_eq!(e.message(), "Missing argument for sqrt()");
}

#[test]
fn parse_is_deterministic() {
    let a = parse("2 ^ 3! - round(cos(pi), 2)").unwrap();
    let b = parse("2 ^ 3! - round(cos(pi), 2)").unwrap();
    assert_eq!(a, b);
}

#[test]
fn parser_struct_and_free_function_agree() {
    let a = Parser::new("1 + 2").parse().unwrap();
    let b = parse("1 + 2").unwrap();
    assert_eq!(a, b);
}
