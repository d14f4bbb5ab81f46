//! Tests of the lexer alone: token boundaries, whitespace, and scan errors.

use rustcalc::lexer::{Lexer, Token};

fn tokens_of(input: &str) -> Vec<Token> {
    let mut lexer = Lexer::new(input);
    let mut out = Vec::new();
    while let Some(item) = lexer.next() {
        out.push(item.expect("scan error"));
    }
    out
}

#[test]
fn scans_every_token_kind() {
    let toks = tokens_of("1 + 2.5e-3 * (pi) / x ^ 2 % 3 ! , - \u{221a}");
    assert_eq!(
        toks,
        vec![
            Token::Number("1".to_string()),
            Token::Plus,
            Token::Number("2.5e-3".to_string()),
            Token::Asterisk,
            Token::OpenParen,
            Token::Ident("pi".to_string()),
            Token::CloseParen,
            Token::Slash,
            Token::Ident("x".to_string()),
            Token::Caret,
            Token::Number("2".to_string()),
            Token::Percent,
            Token::Number("3".to_string()),
            Token::Exclamation,
            Token::Comma,
            Token::Minus,
            Token::SquareRoot,
        ]
    );
}

#[test]
fn skips_whitespace_between_tokens() {
    let toks = tokens_of(" \t 1 \u{a0} 2 ");
    assert_eq!(
        toks,
        vec![Token::Number("1".to_string()), Token::Number("2".to_string())]
    );
}

#[test]
fn empty_input_yields_no_tokens() {
    assert_eq!(tokens_of(""), Vec::new());
    assert_eq!(tokens_of("   "), Vec::new());
}

#[test]
fn number_with_trailing_dot() {
    assert_eq!(tokens_of("3."), vec![Token::Number("3.".to_string())]);
}

#[test]
fn number_with_bare_exponent_is_kept_as_text() {
    // the lexer keeps the malformed literal; the parser rejects it later
    assert_eq!(tokens_of("3e"), vec![Token::Number("3e".to_string())]);
}

#[test]
fn identifier_continues_with_digits_and_underscores() {
    assert_eq!(tokens_of("a_LoNg_1"), vec![Token::Ident("a_LoNg_1".to_string())]);
}

#[test]
fn identifier_does_not_start_with_digit() {
    assert_eq!(
        tokens_of("1pi"),
        vec![Token::Number("1".to_string()), Token::Ident("pi".to_string())]
    );
}

#[test]
fn unexpected_character_is_reported_without_being_consumed() {
    let mut lexer = Lexer::new("#");
    let first = lexer.next().unwrap().unwrap_err();
    assert_eq!(first.message(), "Unexpected character #");
    // the lexer does not resynchronize: the same error is reported again
    let second = lexer.next().unwrap().unwrap_err();
    assert_eq!(second.message(), "Unexpected character #");
}

#[test]
fn tokens_resume_after_valid_prefix() {
    let mut lexer = Lexer::new("3.14.15");
    assert_eq!(
        lexer.next().unwrap().unwrap(),
        Token::Number("3.14".to_string())
    );
    let err = lexer.next().unwrap().unwrap_err();
    assert_eq!(err.message(), "Unexpected character .");
}

#[test]
fn token_text_round_trips() {
    assert_eq!(Token::Plus.text(), "+");
    assert_eq!(Token::SquareRoot.text(), "\u{221a}");
    assert_eq!(Token::Number("3.5".to_string()).text(), "3.5");
    assert_eq!(Token::Ident("cos".to_string()).text(), "cos");
}
