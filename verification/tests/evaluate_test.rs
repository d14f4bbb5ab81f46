//! End-to-end tests: parse an input and fold the tree into a 64-bit float.
//!
//! The numeric fold mirrors the evaluator of the surrounding shell, which
//! stays outside the library because it is floating-point arithmetic.

use rustcalc::expression::{Constant, Expression};
use rustcalc::parser::Parser;

fn evaluate(expr: &Expression) -> f64 {
    match expr {
        Expression::Add { lhs, rhs } => evaluate(lhs) + evaluate(rhs),
        Expression::Constant(c) => match c {
            Constant::E => std::f64::consts::E,
            Constant::Infinity => f64::INFINITY,
            Constant::NaN => f64::NAN,
            Constant::Pi => std::f64::consts::PI,
        },
        Expression::Cosine(e) => evaluate(e).cos(),
        Expression::Degrees(e) => evaluate(e).to_degrees(),
        Expression::Divide { lhs, rhs } => evaluate(lhs) / evaluate(rhs),
        Expression::Exponentiate { lhs, rhs } => evaluate(lhs).powf(evaluate(rhs)),
        Expression::Factorial(e) => {
            let n = evaluate(e);
            if n == f64::INFINITY {
                n
            } else if n < 0.0 || n.fract() != 0.0 {
                f64::NAN
            } else {
                (1..=n.trunc() as i64).fold(1.0, |a, b| a * b as f64)
            }
        }
        Expression::Modulo { lhs, rhs } => {
            let l = evaluate(lhs);
            let r = evaluate(rhs);
            ((l % r) + r) % r
        }
        Expression::Multiply { lhs, rhs } => evaluate(lhs) * evaluate(rhs),
        Expression::Negate(e) => -evaluate(e),
        Expression::Number(s) => s.parse::<f64>().unwrap_or(f64::NAN),
        Expression::Radians(e) => evaluate(e).to_radians(),
        Expression::Round { value, decimals } => {
            let n = evaluate(value);
            let d = evaluate(decimals);
            if d < 0.0 || d.fract() != 0.0 {
                return f64::NAN;
            }
            let scale = 10_f64.powf(d);
            (scale * n).round() / scale
        }
        Expression::Sine(e) => evaluate(e).sin(),
        Expression::SquareRoot(e) => evaluate(e).sqrt(),
        Expression::Subtract { lhs, rhs } => evaluate(lhs) - evaluate(rhs),
        Expression::Tangent(e) => evaluate(e).tan(),
    }
}

fn eval_str(input: &str) -> Result<f64, String> {
    match Parser::new(input).parse() {
        Ok(expr) => Ok(evaluate(&expr)),
        Err(e) => Err(e.message().to_string()),
    }
}

fn check_ok(input: &str, expect: f64) {
    let v = eval_str(input).unwrap();
    if expect.is_nan() {
        assert!(v.is_nan(), "{}: expected NaN, got {}", input, v);
    } else {
        assert_eq!(v, expect, "{}", input);
    }
}

fn check_err(input: &str, msg: &str) {
    assert_eq!(eval_str(input), Err(msg.to_string()), "{}", input);
}

#[test]
fn constant_e() {
    check_ok("e", std::f64::consts::E);
}

#[test]
fn constant_e_uppercase() {
    check_ok("E", std::f64::consts::E);
}

#[test]
fn constant_pi() {
    check_ok("pi", std::f64::consts::PI);
}

#[test]
fn constant_pi_utf8() {
    check_ok("\u{3c0}", std::f64::consts::PI);
}

#[test]
fn constant_inf() {
    check_ok("inf", f64::INFINITY);
}

#[test]
fn constant_nan() {
    check_ok("nan", f64::NAN);
}

#[test]
fn constant_nan_mixedcase() {
    check_ok("NaN", f64::NAN);
}

#[test]
fn number() {
    check_ok("1", 1.0);
}

#[test]
fn number_decimal() {
    check_ok("3.14", 3.14);
}

#[test]
fn number_decimal_nodec() {
    check_ok("3.", 3.0);
}

#[test]
fn number_sci() {
    check_ok("3e2", 300.0);
}

#[test]
fn number_sci_zero() {
    check_ok("3e0", 3.0);
}

#[test]
fn number_sci_capital() {
    check_ok("3E2", 300.0);
}

#[test]
fn number_sci_dec_base() {
    check_ok("3.14e1", 31.4);
}

#[test]
fn number_sci_neg_base() {
    check_ok("-3.14e1", -31.4);
}

#[test]
fn number_sci_neg_exp() {
    check_ok("3.14e-2", 0.0314);
}

#[test]
fn number_sci_exp_plus() {
    check_ok("3.14e+2", 314.0);
}

#[test]
fn prefix_multi() {
    check_ok("-+-+-1", -1.0);
}

#[test]
fn identity() {
    check_ok("+1", 1.0);
}

#[test]
fn identity_decimal() {
    check_ok("+3.14", 3.14);
}

#[test]
fn identity_infinity() {
    check_ok("+inf", f64::INFINITY);
}

#[test]
fn identity_nan() {
    check_ok("+nan", f64::NAN);
}

#[test]
fn negate() {
    check_ok("-1", -1.0);
}

#[test]
fn negate_decimal() {
    check_ok("-3.14", -3.14);
}

#[test]
fn negate_infinity() {
    check_ok("-inf", f64::NEG_INFINITY);
}

#[test]
fn negate_nan() {
    check_ok("-nan", f64::NAN);
}

#[test]
fn sqrt_glyph() {
    check_ok("\u{221a}4", 2.0);
}

#[test]
fn sqrt_glyph_negative() {
    check_ok("\u{221a}-4", f64::NAN);
}

#[test]
fn sqrt_glyph_decimal() {
    check_ok("\u{221a}4.84", 2.2);
}

#[test]
fn sqrt_glyph_zero() {
    check_ok("\u{221a}0", 0.0);
}

#[test]
fn sqrt_glyph_infinity() {
    check_ok("\u{221a}inf", f64::INFINITY);
}

#[test]
fn factorial() {
    check_ok("5!", 120.0);
}

#[test]
fn factorial_multi() {
    check_ok("3!!", 720.0);
}

#[test]
fn factorial_zero() {
    check_ok("0!", 1.0);
}

#[test]
fn factorial_decimal() {
    check_ok("3.14!", f64::NAN);
}

#[test]
fn factorial_negative() {
    check_ok("-1!", f64::NAN);
}

#[test]
fn factorial_precedence() {
    check_ok("2 ^ 3!", 64.0);
}

#[test]
fn factorial_infinity() {
    check_ok("inf!", f64::INFINITY);
}

#[test]
fn factorial_infinity_neg() {
    check_ok("-inf!", f64::NAN);
}

#[test]
fn factorial_nan() {
    check_ok("nan!", f64::NAN);
}

#[test]
fn add() {
    check_ok("1 + 2", 3.0);
}

#[test]
fn add_decimals() {
    check_ok("3.1 + 3.3", 6.4);
}

#[test]
fn add_negative() {
    check_ok("1 + -2", -1.0);
}

#[test]
fn add_assoc() {
    check_ok("2 + 5 - 3", 4.0);
}

#[test]
fn add_inf_opposite() {
    check_ok("inf + -inf", f64::NAN);
}

#[test]
fn add_nan_lhs() {
    check_ok("nan + 1", f64::NAN);
}

#[test]
fn divide() {
    check_ok("6 / 2", 3.0);
}

#[test]
fn divide_decimals() {
    check_ok("6.594 / 3.14", 2.1);
}

#[test]
fn divide_fraction() {
    check_ok("7 / 3", 2.3333333333333335);
}

#[test]
fn divide_negative() {
    check_ok("6 / -2", -3.0);
}

#[test]
fn divide_zero() {
    check_ok("1 / 0", f64::INFINITY);
}

#[test]
fn divide_zero_negative() {
    check_ok("-1 / 0", f64::NEG_INFINITY);
}

#[test]
fn divide_precedence_add() {
    check_ok("5 + 6 / 3", 7.0);
}

#[test]
fn divide_precedence_sub() {
    check_ok("5 - 6 / 3", 3.0);
}

#[test]
fn divide_precedence_mult() {
    check_ok("3 * 4 / 2", 6.0);
}

#[test]
fn divide_precedence_mod() {
    check_ok("5 % 3 / 2", 1.0);
}

#[test]
fn divide_inf_both() {
    check_ok("inf / inf", f64::NAN);
}

#[test]
fn exp() {
    check_ok("2 ^ 3", 8.0);
}

#[test]
fn exp_decimals() {
    check_ok("6.25 ^ 0.5", 2.5);
}

#[test]
fn exp_fraction() {
    check_ok("8 ^ (1/3)", 2.0);
}

#[test]
fn exp_negative() {
    check_ok("2 ^ -3", 0.125);
}

#[test]
fn exp_zero() {
    check_ok("2 ^ 0", 1.0);
}

#[test]
fn exp_zero_zero() {
    check_ok("0 ^ 0", 1.0);
}

#[test]
fn exp_assoc() {
    check_ok("2 ^ 3 ^ 2", 512.0);
}

#[test]
fn exp_prec_multiply() {
    check_ok("4 * 2 ^ 3", 32.0);
}

#[test]
fn exp_prec_divide() {
    check_ok("4 / 2 ^ 3", 0.5);
}

#[test]
fn exp_prec_modulo() {
    check_ok("5 % 2 ^ 3", 5.0);
}

#[test]
fn modulo() {
    check_ok("5 % 3", 2.0);
}

#[test]
fn modulo_divisible() {
    check_ok("4 % 2", 0.0);
}

#[test]
fn modulo_negative() {
    check_ok("-5 % 3", 1.0);
}

#[test]
fn modulo_negative2() {
    check_ok("5 % -3", -1.0);
}

#[test]
fn modulo_decimals() {
    check_ok("6.28 % 2.2", 1.88);
}

#[test]
fn modulo_zero() {
    check_ok("1 % 0", f64::NAN);
}

#[test]
fn modulo_assoc() {
    check_ok("7 % 4 % 2", 1.0);
}

#[test]
fn modulo_prec_add() {
    check_ok("2 + 7 % 3", 3.0);
}

#[test]
fn modulo_prec_subtract() {
    check_ok("2 - 7 % 3", 1.0);
}

#[test]
fn modulo_prec_divide() {
    check_ok("6 / 2 % 3", 0.0);
}

#[test]
fn modulo_prec_multiply() {
    check_ok("5 * 2 % 3", 1.0);
}

#[test]
fn modulo_inf_lhs() {
    check_ok("inf % 1", f64::NAN);
}

#[test]
fn modulo_inf_rhs() {
    check_ok("1 % inf", f64::NAN);
}

#[test]
fn multiply() {
    check_ok("2 * 3", 6.0);
}

#[test]
fn multiply_negative() {
    check_ok("2 * -3", -6.0);
}

#[test]
fn multiply_zero() {
    check_ok("2 * 0", 0.0);
}

#[test]
fn multiply_decimal() {
    check_ok("3.14 * 2.1", 6.594);
}

#[test]
fn multiply_prec_add() {
    check_ok("1 + 2 * 3", 7.0);
}

#[test]
fn multiply_prec_subtract() {
    check_ok("1 - 2 * 3", -5.0);
}

#[test]
fn multiply_prec_divide() {
    check_ok("4 / 2 * 3", 6.0);
}

#[test]
fn multiply_prec_modulo() {
    check_ok("7 % 4 * 2", 6.0);
}

#[test]
fn subtract() {
    check_ok("1 - 2", -1.0);
}

#[test]
fn subtract_negative() {
    check_ok("1 - -2", 3.0);
}

#[test]
fn subtract_decimal() {
    check_ok("3.14 - 2.1", 1.04);
}

#[test]
fn subtract_assoc() {
    check_ok("5 - 2 + 4", 7.0);
}

#[test]
fn subtract_inf_both() {
    check_ok("inf - inf", f64::NAN);
}

#[test]
fn paren_precedence() {
    check_ok("(2 + 3)!", 120.0);
}

#[test]
fn func_args() {
    check_ok("sqrt(1)", 1.0);
}

#[test]
fn func_varargs_1() {
    check_ok("round(1)", 1.0);
}

#[test]
fn func_varargs_2() {
    check_ok("round(1, 2)", 1.0);
}

#[test]
fn func_space() {
    check_ok("sqrt (1)", 1.0);
}

#[test]
fn cos_zero() {
    check_ok("round(cos(0), 2)", 1.0);
}

#[test]
fn cos_1_2pi() {
    check_ok("round(cos(1/2*pi), 2)", 0.0);
}

#[test]
fn cos_pi() {
    check_ok("round(cos(pi), 2)", -1.0);
}

#[test]
fn cos_2pi() {
    check_ok("round(cos(2*pi), 2)", 1.0);
}

#[test]
fn cos_inf() {
    check_ok("cos(inf)", f64::NAN);
}

#[test]
fn cos_nan() {
    check_ok("cos(nan)", f64::NAN);
}

#[test]
fn degrees() {
    check_ok("degrees(pi)", 180.0);
}

#[test]
fn degrees_2pi() {
    check_ok("degrees(2*pi)", 360.0);
}

#[test]
fn degrees_zero() {
    check_ok("degrees(0)", 0.0);
}

#[test]
fn degrees_negative() {
    check_ok("degrees(-pi)", -180.0);
}

#[test]
fn degrees_inf() {
    check_ok("degrees(inf)", f64::INFINITY);
}

#[test]
fn radians() {
    check_ok("radians(180)", std::f64::consts::PI);
}

#[test]
fn radians_zero() {
    check_ok("radians(0)", 0.0);
}

#[test]
fn radians_negative() {
    check_ok("radians(-180)", -std::f64::consts::PI);
}

#[test]
fn radians_inf() {
    check_ok("radians(inf)", f64::INFINITY);
}

#[test]
fn sin_zero() {
    check_ok("round(sin(0), 2)", 0.0);
}

#[test]
fn sin_1_2pi() {
    check_ok("round(sin(1/2*pi), 2)", 1.0);
}

#[test]
fn sin_pi() {
    check_ok("round(sin(pi), 2)", 0.0);
}

#[test]
fn sin_3_2pi() {
    check_ok("round(sin(3/2*pi), 2)", -1.0);
}

#[test]
fn round_default() {
    check_ok("round(3.14)", 3.0);
}

#[test]
fn round_0_5() {
    check_ok("round(0.5)", 1.0);
}

#[test]
fn round_minus_0_5() {
    check_ok("round(-0.5)", -1.0);
}

#[test]
fn round_precision() {
    check_ok("round(3.14, 1)", 3.1);
}

#[test]
fn round_precision_zero() {
    check_ok("round(3.14, 0)", 3.0);
}

#[test]
fn round_precision_high() {
    check_ok("round(3.14, 3)", 3.14);
}

#[test]
fn round_precision_neg() {
    check_ok("round(3.14, -1)", f64::NAN);
}

#[test]
fn round_precision_dec() {
    check_ok("round(3.14, 1.1)", f64::NAN);
}

#[test]
fn round_precision_inf() {
    check_ok("round(3.14, inf)", f64::NAN);
}

#[test]
fn round_precision_nan() {
    check_ok("round(3.14, nan)", f64::NAN);
}

#[test]
fn round_inf() {
    check_ok("round(inf)", f64::INFINITY);
}

#[test]
fn round_nan() {
    check_ok("round(nan)", f64::NAN);
}

#[test]
fn sqrt_function() {
    check_ok("sqrt(4)", 2.0);
}

#[test]
fn sqrt_negative_function() {
    check_ok("sqrt(-4)", f64::NAN);
}

#[test]
fn tan_zero() {
    check_ok("round(tan(0), 2)", 0.0);
}

#[test]
fn tan_1_4pi() {
    check_ok("round(tan(1/4*pi), 2)", 1.0);
}

#[test]
fn tan_inf() {
    check_ok("tan(inf)", f64::NAN);
}

#[test]
fn empty() {
    check_err("", "Unexpected end of input");
}

#[test]
fn constant_unknown() {
    check_err("x", "Unknown constant x");
}

#[test]
fn constant_unknown_full() {
    check_err("a_LoNg_1", "Unknown constant a_LoNg_1");
}

#[test]
fn constant_unknown_hyphen() {
    check_err("a-constant", "Unknown constant a");
}

#[test]
fn constant_unknown_utf8() {
    check_err("\u{92b9}", "Unknown constant \u{92b9}");
}

#[test]
fn constant_unknown_emoji() {
    check_err("\u{1f44b}", "Unexpected character \u{1f44b}");
}

#[test]
fn constant_unknown_num() {
    check_err("1pi", "Unexpected token pi");
}

#[test]
fn constant_pi_utf8_capital() {
    check_err("\u{3a0}", "Unknown constant \u{3a0}");
}

#[test]
fn number_decimal_comma() {
    check_err("3,14", "Unexpected token ,");
}

#[test]
fn number_decimal_multi() {
    check_err("3.14.15", "Unexpected character .");
}

#[test]
fn number_repeated() {
    check_err("1 2", "Unexpected token 2");
}

#[test]
fn number_sci_dec_exp() {
    check_err("3e2.1", "Unexpected character .");
}

#[test]
fn number_sci_no_exp() {
    check_err("3e", "invalid float literal");
}

#[test]
fn number_sci_exp_signs() {
    check_err("3.14e--2", "invalid float literal");
}

#[test]
fn prefix_bare() {
    check_err("+", "Unexpected end of input");
}

#[test]
fn prefix_bare_multi() {
    check_err("-+", "Unexpected end of input");
}

#[test]
fn infix_multi() {
    check_err("1 * / 2", "Expected value, found /");
}

#[test]
fn infix_bare() {
    check_err("*", "Expected value, found *");
}

#[test]
fn infix_pre() {
    check_err("* 2", "Expected value, found *");
}

#[test]
fn infix_post() {
    check_err("2 *", "Unexpected end of input");
}

#[test]
fn paren_noclose() {
    check_err("(1 + 2", "Unexpected end of input");
}

#[test]
fn paren_noopen() {
    check_err("1 + 2 )", "Unexpected token )");
}

#[test]
fn paren_wrong_close() {
    check_err("(1 + 2,", "Expected token ), found ,");
}

#[test]
fn func_args_comma() {
    check_err("sqrt(,)", "Expected value, found ,");
}

#[test]
fn func_args_trail_comma() {
    check_err("sqrt(1,)", "Expected value, found )");
}

#[test]
fn func_args_missing() {
    check_err("sqrt()", "Missing argument for sqrt()");
}

#[test]
fn func_args_many() {
    check_err("sqrt(1, 2)", "Unexpected argument for sqrt()");
}

#[test]
fn func_args_tight() {
    check_err("sqrt(1,2)", "Unexpected argument for sqrt()");
}

#[test]
fn func_args_no_comma() {
    check_err("round(1 2)", "Expected token ,, found 2");
}

#[test]
fn func_varargs_missing() {
    check_err("round()", "Missing argument for round()");
}

#[test]
fn func_varargs_many() {
    check_err("round(1, 2, 3)", "Unexpected argument for round()");
}

#[test]
fn func_missing_close() {
    check_err("sqrt (1", "Unexpected end of input");
}

#[test]
fn func_no_parens() {
    check_err("sqrt 1", "Unknown constant sqrt");
}

#[test]
fn func_unknown() {
    check_err("foo(1)", "Unknown function foo");
}

#[test]
fn func_unknown_constant() {
    check_err("foo", "Unknown constant foo");
}
#[test]
fn evaluation_is_deterministic_bitwise() {
    let expr = Parser::new("2 ^ 3! - round(cos(pi), 2) + 7 / 3").parse().unwrap();
    let a = evaluate(&expr);
    let b = evaluate(&expr);
    assert_eq!(a.to_bits(), b.to_bits());
}
