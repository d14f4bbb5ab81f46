//! An arithmetic-expression front end: a tokenizer, an operator-precedence
//! parser, and the expression trees they build.
//!
//! `parser::parse` turns a text such as `"round(cos(1/2*pi), 2)"` into an
//! [`expression::Expression`] tree, or reports the first scan or parse error.
//! Numeric leaves keep their literal text; folding a tree into a 64-bit float
//! is the caller's concern, since floating-point arithmetic stays outside the
//! verified core.

pub mod error;
pub mod expression;
pub mod lexer;
pub mod parser;
pub mod text;
