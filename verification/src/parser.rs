//! The parser: builds an expression tree from the token stream, by
//! precedence climbing.
//!
//! Operators fall in three classes, each with a fixed precedence and
//! associativity: prefix (`-`, `+`, the square-root sign; precedence 5,
//! right), infix (`+ -` at 1, `* / %` at 2, both left; `^` at 3, right), and
//! postfix (`!` at 4, left). An atom is a number, a constant name, a function
//! call, or a parenthesized subexpression.
//!
//! The whole parse is pinned by [`spec_parse`]: a spec-level interpreter over
//! the token stream that yields exactly the tree, or exactly the error
//! message, that [`parse`] returns.

use vstd::prelude::*;
use vstd::string::StringExecFns;

use crate::error::Error;
use crate::error::ErrorV;
use crate::expression::exprs_view;
use crate::expression::valid_tree;
use crate::expression::valid_number_literal;
use crate::expression::Constant;
use crate::expression::ExprV;
use crate::expression::Expression;
use crate::lexer::msg_unexpected_char;
use crate::lexer::spec_next;
use crate::lexer::token_text;
use crate::lexer::Lexer;
use crate::lexer::Token;
use crate::lexer::TokenV;
use crate::text::ascii_lower;

verus! {

// ---------------------------------------------------------------------------
// Error messages
// ---------------------------------------------------------------------------
/// Message reported when a token is needed and the input has ended.
pub open spec fn msg_unexpected_end() -> Seq<char> {
    "Unexpected end of input"@
}

/// Message reported when `want` was required but `found` was next.
pub open spec fn msg_expected_found(want: TokenV, found: TokenV) -> Seq<char> {
    "Expected token "@ + token_text(want) + ", found "@ + token_text(found)
}

/// Message reported when input remains after a complete expression.
pub open spec fn msg_unexpected_token(t: TokenV) -> Seq<char> {
    "Unexpected token "@ + token_text(t)
}

/// Message reported when an atom was needed and `t` cannot start one.
pub open spec fn msg_expected_value(t: TokenV) -> Seq<char> {
    "Expected value, found "@ + token_text(t)
}

/// Message reported for an identifier that names no constant.
pub open spec fn msg_unknown_constant(name: Seq<char>) -> Seq<char> {
    "Unknown constant "@ + name
}

/// Message reported for a call of an identifier that names no function.
pub open spec fn msg_unknown_function(name: Seq<char>) -> Seq<char> {
    "Unknown function "@ + name
}

/// Message reported when a function call has too few arguments.
pub open spec fn msg_missing_argument(name: Seq<char>) -> Seq<char> {
    "Missing argument for "@ + name + "()"@
}

/// Message reported when a function call has too many arguments.
pub open spec fn msg_unexpected_argument(name: Seq<char>) -> Seq<char> {
    "Unexpected argument for "@ + name + "()"@
}

/// Message reported for a number token that is no valid float literal.
pub open spec fn msg_invalid_number() -> Seq<char> {
    "invalid float literal"@
}

// ---------------------------------------------------------------------------
// The token-stream model
// ---------------------------------------------------------------------------
/// How a token stream ends: at the end of the input, or at a character no
/// token can start with.
pub enum TailV {
    End,
    Bad(char),
}

/// Spec-level model of the parser's input: the tokens not yet consumed, and
/// what the stream ends in after them.
pub struct StreamV {
    pub toks: Seq<TokenV>,
    pub tail: TailV,
}

/// One lexer step consumes input: if it yields a token, strictly so.
pub proof fn lemma_spec_next_consumes(s: Seq<char>)
    ensures
        ({
            let step = spec_next(s);
            match step.0 {
                Some(r) => match r {
                    Ok(_) => step.1.len() < s.len(),
                    Err(_) => true,
                },
                None => true,
            }
        }),
{
    crate::lexer::lemma_prefix_len(crate::lexer::whitespace_p(), s);
    let w = crate::lexer::prefix_len(crate::lexer::whitespace_p(), s);
    let t = s.skip(w as int);
    assert(t.len() == s.len() - w);
    if t.len() > 0 {
        if t.len() > 0 && crate::text::alphabetic_char(t[0]) {
            crate::lexer::lemma_prefix_len(crate::lexer::ident_cont_p(), t.skip(1));
            let n = 1 + crate::lexer::prefix_len(crate::lexer::ident_cont_p(), t.skip(1));
            assert(n <= t.len());
            assert(t.skip(n as int).len() == t.len() - n);
        } else if crate::lexer::num_int_end(t) != 0 {
            crate::lexer::lemma_num_end_bounds(t);
            assert(1 <= crate::lexer::num_end(t) <= t.len());
            assert(t.skip(crate::lexer::num_end(t) as int).len() == t.len() - crate::lexer::num_end(
                t,
            ));
        } else {
            assert(t.skip(1).len() == t.len() - 1);
        }
    }
}

/// The token stream of a character sequence: the tokens [`spec_next`] yields
/// in order, ended by the end of input or by the first unscannable character.
pub open spec fn spec_tokens(s: Seq<char>) -> StreamV
    decreases s.len(),
        via spec_tokens_decreases
{
    let step = spec_next(s);
    match step.0 {
        None => StreamV { toks: Seq::empty(), tail: TailV::End },
        Some(r) => match r {
            Err(c) => StreamV { toks: Seq::empty(), tail: TailV::Bad(c) },
            Ok(t) => {
                let rest = spec_tokens(step.1);
                StreamV { toks: seq![t] + rest.toks, tail: rest.tail }
            },
        },
    }
}

#[via_fn]
proof fn spec_tokens_decreases(s: Seq<char>) {
    lemma_spec_next_consumes(s);
}

/// What the parser sees when it peeks at a stream: a token, the end, or the
/// scan error (carrying its message).
pub open spec fn stream_peek(sv: StreamV) -> Option<Result<TokenV, Seq<char>>> {
    if sv.toks.len() > 0 {
        Some(Ok(sv.toks[0]))
    } else {
        match sv.tail {
            TailV::End => None,
            TailV::Bad(c) => Some(Err(msg_unexpected_char(c))),
        }
    }
}

/// The stream after consuming its first token.
pub open spec fn stream_pop(sv: StreamV) -> StreamV {
    StreamV { toks: sv.toks.drop_first(), tail: sv.tail }
}

// ---------------------------------------------------------------------------
// Operators
// ---------------------------------------------------------------------------
/// Associativity adjustment of a left-associative operator: the right-hand
/// side is parsed one precedence level higher.
pub const ASSOC_LEFT: u8 = 1;

/// Associativity adjustment of a right-associative operator: the right-hand
/// side is parsed at the operator's own precedence.
pub const ASSOC_RIGHT: u8 = 0;

/// Prefix operators, e.g. -(1 + 2).
#[derive(Clone, Copy, Debug, PartialEq, Eq, Structural)]
pub enum PrefixOperator {
    Minus,
    Plus,
    SquareRoot,
}

/// The prefix operator a token denotes, if any.
pub open spec fn prefix_op_of(t: TokenV) -> Option<PrefixOperator> {
    match t {
        TokenV::Minus => Some(PrefixOperator::Minus),
        TokenV::Plus => Some(PrefixOperator::Plus),
        TokenV::SquareRoot => Some(PrefixOperator::SquareRoot),
        _ => None,
    }
}

/// The node a prefix operator builds: negation, identity, or square root.
pub open spec fn spec_prefix_build(op: PrefixOperator, operand: ExprV) -> ExprV {
    match op {
        PrefixOperator::Minus => ExprV::Negate(Box::new(operand)),
        PrefixOperator::Plus => operand,
        PrefixOperator::SquareRoot => ExprV::SquareRoot(Box::new(operand)),
    }
}

impl PrefixOperator {
    /// The prefix operator for a token, if the token is one.
    fn from(token: &Token) -> (r: Option<PrefixOperator>)
        ensures
            r == prefix_op_of(token@),
    {
        match token {
            Token::Minus => Some(PrefixOperator::Minus),
            Token::Plus => Some(PrefixOperator::Plus),
            Token::SquareRoot => Some(PrefixOperator::SquareRoot),
            _ => None,
        }
    }

    /// Prefix operators are right-associative.
    fn assoc(&self) -> (r: u8)
        ensures
            r == ASSOC_RIGHT,
    {
        ASSOC_RIGHT
    }

    /// Prefix operators bind at precedence 5.
    fn prec(&self) -> (r: u8)
        ensures
            r == 5,
    {
        5
    }

    /// Builds the expression node for the prefix operator.
    fn build(&self, operand: Expression) -> (r: Expression)
        ensures
            r@ == spec_prefix_build(*self, operand@),
    {
        match self {
            PrefixOperator::Minus => Expression::Negate(Box::new(operand)),
            PrefixOperator::Plus => operand,
            PrefixOperator::SquareRoot => Expression::SquareRoot(Box::new(operand)),
        }
    }
}

/// Infix operators, e.g. 1 + 2.
#[derive(Clone, Copy, Debug, PartialEq, Eq, Structural)]
pub enum InfixOperator {
    Add,
    Divide,
    Exponentiate,
    Modulo,
    Multiply,
    Subtract,
}

/// The infix operator a token denotes, if any.
pub open spec fn infix_op_of(t: TokenV) -> Option<InfixOperator> {
    match t {
        TokenV::Plus => Some(InfixOperator::Add),
        TokenV::Minus => Some(InfixOperator::Subtract),
        TokenV::Asterisk => Some(InfixOperator::Multiply),
        TokenV::Slash => Some(InfixOperator::Divide),
        TokenV::Percent => Some(InfixOperator::Modulo),
        TokenV::Caret => Some(InfixOperator::Exponentiate),
        _ => None,
    }
}

/// The precedence of an infix operator.
pub open spec fn infix_prec(op: InfixOperator) -> u8 {
    match op {
        InfixOperator::Add => 1,
        InfixOperator::Subtract => 1,
        InfixOperator::Multiply => 2,
        InfixOperator::Divide => 2,
        InfixOperator::Modulo => 2,
        InfixOperator::Exponentiate => 3,
    }
}

/// The associativity adjustment of an infix operator: only `^` is
/// right-associative.
pub open spec fn infix_assoc(op: InfixOperator) -> u8 {
    match op {
        InfixOperator::Exponentiate => ASSOC_RIGHT,
        _ => ASSOC_LEFT,
    }
}

/// The node an infix operator builds.
pub open spec fn spec_infix_build(op: InfixOperator, lhs: ExprV, rhs: ExprV) -> ExprV {
    match op {
        InfixOperator::Add => ExprV::Add { lhs: Box::new(lhs), rhs: Box::new(rhs) },
        InfixOperator::Divide => ExprV::Divide { lhs: Box::new(lhs), rhs: Box::new(rhs) },
        InfixOperator::Exponentiate => ExprV::Exponentiate {
            lhs: Box::new(lhs),
            rhs: Box::new(rhs),
        },
        InfixOperator::Modulo => ExprV::Modulo { lhs: Box::new(lhs), rhs: Box::new(rhs) },
        InfixOperator::Multiply => ExprV::Multiply { lhs: Box::new(lhs), rhs: Box::new(rhs) },
        InfixOperator::Subtract => ExprV::Subtract { lhs: Box::new(lhs), rhs: Box::new(rhs) },
    }
}

impl InfixOperator {
    /// The infix operator for a token, if the token is one.
    fn from(token: &Token) -> (r: Option<InfixOperator>)
        ensures
            r == infix_op_of(token@),
    {
        match token {
            Token::Plus => Some(InfixOperator::Add),
            Token::Minus => Some(InfixOperator::Subtract),
            Token::Asterisk => Some(InfixOperator::Multiply),
            Token::Slash => Some(InfixOperator::Divide),
            Token::Percent => Some(InfixOperator::Modulo),
            Token::Caret => Some(InfixOperator::Exponentiate),
            _ => None,
        }
    }

    /// The associativity adjustment of the operator.
    fn assoc(&self) -> (r: u8)
        ensures
            r == infix_assoc(*self),
    {
        match self {
            InfixOperator::Exponentiate => ASSOC_RIGHT,
            _ => ASSOC_LEFT,
        }
    }

    /// The precedence of the operator.
    fn prec(&self) -> (r: u8)
        ensures
            r == infix_prec(*self),
    {
        match self {
            InfixOperator::Add | InfixOperator::Subtract => 1,
            InfixOperator::Multiply | InfixOperator::Divide | InfixOperator::Modulo => 2,
            InfixOperator::Exponentiate => 3,
        }
    }

    /// Builds the expression node for the infix operator.
    fn build(&self, lhs: Expression, rhs: Expression) -> (r: Expression)
        ensures
            r@ == spec_infix_build(*self, lhs@, rhs@),
    {
        match self {
            InfixOperator::Add => Expression::Add { lhs: Box::new(lhs), rhs: Box::new(rhs) },
            InfixOperator::Divide => Expression::Divide {
                lhs: Box::new(lhs),
                rhs: Box::new(rhs),
            },
            InfixOperator::Exponentiate => Expression::Exponentiate {
                lhs: Box::new(lhs),
                rhs: Box::new(rhs),
            },
            InfixOperator::Modulo => Expression::Modulo { lhs: Box::new(lhs), rhs: Box::new(rhs) },
            InfixOperator::Multiply => Expression::Multiply {
                lhs: Box::new(lhs),
                rhs: Box::new(rhs),
            },
            InfixOperator::Subtract => Expression::Subtract {
                lhs: Box::new(lhs),
                rhs: Box::new(rhs),
            },
        }
    }
}

/// Postfix operators, e.g. 5!.
#[derive(Clone, Copy, Debug, PartialEq, Eq, Structural)]
pub enum PostfixOperator {
    Factorial,
}

/// The postfix operator a token denotes, if any.
pub open spec fn postfix_op_of(t: TokenV) -> Option<PostfixOperator> {
    match t {
        TokenV::Exclamation => Some(PostfixOperator::Factorial),
        _ => None,
    }
}

/// The node a postfix operator builds.
pub open spec fn spec_postfix_build(op: PostfixOperator, operand: ExprV) -> ExprV {
    match op {
        PostfixOperator::Factorial => ExprV::Factorial(Box::new(operand)),
    }
}

impl PostfixOperator {
    /// The postfix operator for a token, if the token is one.
    fn from(token: &Token) -> (r: Option<PostfixOperator>)
        ensures
            r == postfix_op_of(token@),
    {
        match token {
            Token::Exclamation => Some(PostfixOperator::Factorial),
            _ => None,
        }
    }

    /// Postfix operators are left-associative.
    fn assoc(&self) -> (r: u8)
        ensures
            r == ASSOC_LEFT,
    {
        ASSOC_LEFT
    }

    /// Postfix operators bind at precedence 4.
    fn prec(&self) -> (r: u8)
        ensures
            r == 4,
    {
        4
    }

    /// Builds the expression node for the postfix operator.
    fn build(&self, operand: Expression) -> (r: Expression)
        ensures
            r@ == spec_postfix_build(*self, operand@),
    {
        match self {
            PostfixOperator::Factorial => Expression::Factorial(Box::new(operand)),
        }
    }
}

// ---------------------------------------------------------------------------
// The spec-level parser
// ---------------------------------------------------------------------------
/// The constant an identifier resolves to: `e`, `inf`, `nan` and `pi` are
/// matched after ASCII lowercasing, and the literal lowercase pi character is
/// a further alias for `pi`.
pub open spec fn sp_build_constant(name: Seq<char>) -> Result<ExprV, Seq<char>> {
    let lower = ascii_lower(name);
    if lower == "e"@ {
        Ok(ExprV::Constant(Constant::E))
    } else if lower == "inf"@ {
        Ok(ExprV::Constant(Constant::Infinity))
    } else if lower == "nan"@ {
        Ok(ExprV::Constant(Constant::NaN))
    } else if lower == "pi"@ {
        Ok(ExprV::Constant(Constant::Pi))
    } else if lower == "\u{3c0}"@ {
        Ok(ExprV::Constant(Constant::Pi))
    } else {
        Err(msg_unknown_constant(name))
    }
}

/// The numeric leaf a number token builds: the literal is kept as text when
/// it is valid, and rejected otherwise.
pub open spec fn sp_build_number(lit: Seq<char>) -> Result<ExprV, Seq<char>> {
    if valid_number_literal(lit) {
        Ok(ExprV::Number(lit))
    } else {
        Err(msg_invalid_number())
    }
}

/// The node a function call builds. Names are matched after ASCII
/// lowercasing; each function has a fixed arity (`round` takes one or two
/// arguments, the decimal count defaulting to zero).
pub open spec fn sp_build_function(name: Seq<char>, args: Seq<ExprV>) -> Result<
    ExprV,
    Seq<char>,
> {
    let lower = ascii_lower(name);
    if lower == "cos"@ || lower == "degrees"@ || lower == "radians"@ || lower == "sin"@ || lower
        == "sqrt"@ || lower == "tan"@ {
        if args.len() == 0 {
            Err(msg_missing_argument(name))
        } else if args.len() > 1 {
            Err(msg_unexpected_argument(name))
        } else if lower == "cos"@ {
            Ok(ExprV::Cosine(Box::new(args[0])))
        } else if lower == "degrees"@ {
            Ok(ExprV::Degrees(Box::new(args[0])))
        } else if lower == "radians"@ {
            Ok(ExprV::Radians(Box::new(args[0])))
        } else if lower == "sin"@ {
            Ok(ExprV::Sine(Box::new(args[0])))
        } else if lower == "sqrt"@ {
            Ok(ExprV::SquareRoot(Box::new(args[0])))
        } else {
            Ok(ExprV::Tangent(Box::new(args[0])))
        }
    } else if lower == "round"@ {
        if args.len() == 0 {
            Err(msg_missing_argument(name))
        } else if args.len() == 1 {
            Ok(
                ExprV::Round {
                    value: Box::new(args[0]),
                    decimals: Box::new(ExprV::Number("0"@)),
                },
            )
        } else if args.len() == 2 {
            Ok(ExprV::Round { value: Box::new(args[0]), decimals: Box::new(args[1]) })
        } else {
            Err(msg_unexpected_argument(name))
        }
    } else {
        Err(msg_unknown_function(name))
    }
}

/// The prefix operator at the head of the stream, if the next item is a
/// token denoting one.
pub open spec fn peek_prefix(sv: StreamV) -> Option<PrefixOperator> {
    match stream_peek(sv) {
        Some(r) => match r {
            Ok(t) => prefix_op_of(t),
            Err(_) => None,
        },
        None => None,
    }
}

/// The infix operator at the head of the stream, if the next item is a token
/// denoting one.
pub open spec fn peek_infix(sv: StreamV) -> Option<InfixOperator> {
    match stream_peek(sv) {
        Some(r) => match r {
            Ok(t) => infix_op_of(t),
            Err(_) => None,
        },
        None => None,
    }
}

/// The postfix operator at the head of the stream, if the next item is a
/// token denoting one.
pub open spec fn peek_postfix(sv: StreamV) -> Option<PostfixOperator> {
    match stream_peek(sv) {
        Some(r) => match r {
            Ok(t) => postfix_op_of(t),
            Err(_) => None,
        },
        None => None,
    }
}

/// Parses an atom: a number, a constant name, a function call, or a
/// parenthesized subexpression. Yields the tree or the error message,
/// together with the stream that remains.
pub open spec fn sp_atom(sv: StreamV) -> (Result<ExprV, Seq<char>>, StreamV)
    decreases sv.toks.len(), 0int,
{
    match stream_peek(sv) {
        None => (Err(msg_unexpected_end()), sv),
        Some(pr) => match pr {
            Err(m) => (Err(m), sv),
            Ok(t) => {
                let sv1 = stream_pop(sv);
                match t {
                    TokenV::Ident(name) => {
                        if stream_peek(sv1) == Some(Ok::<TokenV, Seq<char>>(TokenV::OpenParen)) {
                            let (ar, sv2) = sp_args(stream_pop(sv1), Seq::empty());
                            match ar {
                                Ok(args) => (sp_build_function(name, args), sv2),
                                Err(m) => (Err(m), sv2),
                            }
                        } else {
                            (sp_build_constant(name), sv1)
                        }
                    },
                    TokenV::Number(lit) => (sp_build_number(lit), sv1),
                    TokenV::OpenParen => {
                        let (r1, sv2) = sp_expression(sv1, 0);
                        match r1 {
                            Ok(e) => match stream_peek(sv2) {
                                Some(pr2) => match pr2 {
                                    Ok(t2) => if t2 == TokenV::CloseParen {
                                        (Ok(e), stream_pop(sv2))
                                    } else {
                                        (
                                            Err(msg_expected_found(TokenV::CloseParen, t2)),
                                            stream_pop(sv2),
                                        )
                                    },
                                    Err(m) => (Err(m), sv2),
                                },
                                None => (Err(msg_unexpected_end()), sv2),
                            },
                            Err(m) => (Err(m), sv2),
                        }
                    },
                    _ => (Err(msg_expected_value(t)), sv1),
                }
            },
        },
    }
}

/// Parses the argument list of a function call, after the opening
/// parenthesis: expressions separated by commas, ended by a closing
/// parenthesis. `args` holds the arguments parsed so far.
pub open spec fn sp_args(sv: StreamV, args: Seq<ExprV>) -> (Result<Seq<ExprV>, Seq<char>>, StreamV)
    decreases sv.toks.len(), 4int,
{
    if stream_peek(sv) == Some(Ok::<TokenV, Seq<char>>(TokenV::CloseParen)) {
        (Ok(args), stream_pop(sv))
    } else if args.len() > 0 {
        // a separating comma is required before every argument but the first
        match stream_peek(sv) {
            None => (Err(msg_unexpected_end()), sv),
            Some(pr) => match pr {
                Err(m) => (Err(m), sv),
                Ok(t) => {
                    if t == TokenV::Comma {
                        let (r1, sv2) = sp_expression(stream_pop(sv), 0);
                        match r1 {
                            Ok(e) => {
                                if sv2.toks.len() < sv.toks.len() {
                                    sp_args(sv2, args.push(e))
                                } else {
                                    (Ok(args.push(e)), sv2)
                                }
                            },
                            Err(m) => (Err(m), sv2),
                        }
                    } else {
                        (Err(msg_expected_found(TokenV::Comma, t)), stream_pop(sv))
                    }
                },
            },
        }
    } else {
        let (r1, sv2) = sp_expression(sv, 0);
        match r1 {
            Ok(e) => {
                if sv2.toks.len() < sv.toks.len() {
                    sp_args(sv2, args.push(e))
                } else {
                    (Ok(args.push(e)), sv2)
                }
            },
            Err(m) => (Err(m), sv2),
        }
    }
}

/// Wraps the accumulated left-hand side in every postfix operator at
/// precedence at least `min_prec`, then continues with the infix operators.
pub open spec fn sp_postfix_loop(lhs: ExprV, sv: StreamV, min_prec: u8) -> (
    Result<ExprV, Seq<char>>,
    StreamV,
)
    decreases sv.toks.len(), 2int,
{
    let post = peek_postfix(sv);
    if post is Some && 4 >= min_prec {
        sp_postfix_loop(spec_postfix_build(post->0, lhs), stream_pop(sv), min_prec)
    } else {
        sp_infix_loop(lhs, sv, min_prec)
    }
}

/// Folds every infix operator at precedence at least `min_prec` into the
/// accumulated left-hand side, parsing each right-hand side at the
/// operator's precedence adjusted by its associativity.
pub open spec fn sp_infix_loop(lhs: ExprV, sv: StreamV, min_prec: u8) -> (
    Result<ExprV, Seq<char>>,
    StreamV,
)
    decreases sv.toks.len(), 1int,
{
    let inf = peek_infix(sv);
    if inf is Some && infix_prec(inf->0) >= min_prec {
        let op = inf->0;
        let (r1, sv1) = sp_expression(stream_pop(sv), (infix_prec(op) + infix_assoc(op)) as u8);
        match r1 {
            Ok(rhs) => {
                let lhs2 = spec_infix_build(op, lhs, rhs);
                if sv1.toks.len() < sv.toks.len() {
                    sp_infix_loop(lhs2, sv1, min_prec)
                } else {
                    (Ok(lhs2), sv1)
                }
            },
            Err(m) => (Err(m), sv1),
        }
    } else {
        (Ok(lhs), sv)
    }
}

/// Parses an expression by precedence climbing: a prefix operator (parsing
/// its operand at its own precedence) or an atom, then the postfix and infix
/// operators that bind at least as tightly as `min_prec`.
pub open spec fn sp_expression(sv: StreamV, min_prec: u8) -> (Result<ExprV, Seq<char>>, StreamV)
    decreases sv.toks.len(), 3int,
{
    let pre = peek_prefix(sv);
    if pre is Some && 5 >= min_prec {
        let (r1, sv1) = sp_expression(stream_pop(sv), 5);
        match r1 {
            Ok(operand) => {
                let lhs = spec_prefix_build(pre->0, operand);
                if sv1.toks.len() < sv.toks.len() {
                    sp_postfix_loop(lhs, sv1, min_prec)
                } else {
                    (Ok(lhs), sv1)
                }
            },
            Err(m) => (Err(m), sv1),
        }
    } else {
        let (r1, sv1) = sp_atom(sv);
        match r1 {
            Ok(lhs) => {
                if sv1.toks.len() < sv.toks.len() {
                    sp_postfix_loop(lhs, sv1, min_prec)
                } else {
                    (Ok(lhs), sv1)
                }
            },
            Err(m) => (Err(m), sv1),
        }
    }
}

/// Parses a whole token stream: one expression, after which the stream must
/// be exhausted.
pub open spec fn sp_parse(sv: StreamV) -> Result<ExprV, Seq<char>> {
    let (r1, sv1) = sp_expression(sv, 0);
    match r1 {
        Err(m) => Err(m),
        Ok(e) => match stream_peek(sv1) {
            None => Ok(e),
            Some(pr) => match pr {
                Ok(t) => Err(msg_unexpected_token(t)),
                Err(m) => Err(m),
            },
        },
    }
}

/// What parsing an input text yields: the expression tree, or the message of
/// the first scan or parse error.
pub open spec fn spec_parse(input: Seq<char>) -> Result<ExprV, Seq<char>> {
    sp_parse(spec_tokens(input))
}

/// Whether an executable parse outcome is the one the spec-level parser
/// gives: the same tree on success, an `Error::Parse` with the same message
/// on failure.
pub open spec fn res_matches(r: Result<Expression, Error>, s: Result<ExprV, Seq<char>>) -> bool {
    match (r, s) {
        (Ok(e), Ok(v)) => e@ == v,
        (Err(e), Err(m)) => e@ == ErrorV::Parse(m),
        _ => false,
    }
}


// ---------------------------------------------------------------------------
// The executable parser
// ---------------------------------------------------------------------------
/// The function a call resolves to.
#[derive(Clone, Copy, Debug, PartialEq, Eq, Structural)]
enum FnKind {
    Cos,
    Degrees,
    Radians,
    Sin,
    Sqrt,
    Tan,
    Round,
}

/// Parses an input string into an expression.
pub struct Parser {
    lexer: Lexer,
    peeked: Option<Option<Result<Token, Error>>>,
}

impl Parser {
    /// Structural validity: the lexer is valid, and a buffered end or scan
    /// error agrees with what the lexer yields for its remaining input.
    pub closed spec fn wf(&self) -> bool {
        &&& self.lexer.wf()
        &&& match self.peeked {
            None => true,
            Some(item) => match item {
                None => spec_next(self.lexer.remaining()).0 is None,
                Some(res) => match res {
                    Ok(_) => true,
                    Err(e) => match spec_next(self.lexer.remaining()).0 {
                        Some(step) => match step {
                            Err(c) => e@ == ErrorV::Parse(msg_unexpected_char(c)),
                            Ok(_) => false,
                        },
                        None => false,
                    },
                },
            },
        }
    }

    /// The tokens not yet consumed, as a stream model: a buffered token
    /// stands before whatever the lexer still holds; a buffered end or scan
    /// error is what the lexer would report again anyway.
    pub closed spec fn stream(&self) -> StreamV {
        match self.peeked {
            Some(item) => match item {
                Some(res) => match res {
                    Ok(t) => (StreamV {
                        toks: seq![t@] + spec_tokens(self.lexer.remaining()).toks,
                        tail: spec_tokens(self.lexer.remaining()).tail,
                    }),
                    Err(_) => spec_tokens(self.lexer.remaining()),
                },
                None => spec_tokens(self.lexer.remaining()),
            },
            None => spec_tokens(self.lexer.remaining()),
        }
    }

    /// Creates a new parser for the given input string.
    pub fn new(input: &str) -> (p: Parser)
        ensures
            p.wf(),
            p.stream() == spec_tokens(input@),
    {
        Parser { lexer: Lexer::new(input), peeked: None }
    }

    /// Buffers one lexer item, leaving the stream as it was.
    fn fill(&mut self)
        requires
            old(self).wf(),
        ensures
            final(self).wf(),
            final(self).stream() == old(self).stream(),
            final(self).peeked is Some,
    {
        if self.peeked.is_none() {
            let ghost rem0 = self.lexer.remaining();
            let item = self.lexer.next();
            proof {
                crate::lexer::lemma_prefix_len(crate::lexer::whitespace_p(), rem0);
                let w = crate::lexer::prefix_len(crate::lexer::whitespace_p(), rem0);
                let t = rem0.skip(w as int);
                let rem1 = self.lexer.remaining();
                match spec_next(rem0).0 {
                    None => {
                        assert(rem1 == t && t.len() == 0);
                        assert(crate::lexer::prefix_len(crate::lexer::whitespace_p(), rem1)
                            == 0);
                        assert(rem1.skip(0) =~= rem1);
                        assert(spec_next(rem1).0 is None);
                    },
                    Some(step) => match step {
                        Ok(_) => {},
                        Err(c) => {
                            assert(rem1 == t);
                            assert(t[0] == rem0[w as int]);
                            assert(!crate::text::whitespace_char(t[0]));
                            assert(crate::lexer::prefix_len(
                                crate::lexer::whitespace_p(),
                                rem1,
                            ) == 0);
                            assert(rem1.skip(0) =~= rem1);
                            assert(spec_next(rem1).0 == Some(Err::<TokenV, char>(c)));
                            assert(spec_next(rem1).1 == rem1);
                        },
                    },
                }
            }
            self.peeked = Some(item);
        }
    }

    /// Grabs the next lexer token, or reports an error if none is found: the
    /// buffered scan error, or an unexpected end of input.
    fn next(&mut self) -> (r: Result<Token, Error>)
        requires
            old(self).wf(),
        ensures
            final(self).wf(),
            ({
                match stream_peek(old(self).stream()) {
                    Some(pr) => match pr {
                        Ok(tv) => r matches Ok(t) && t@ == tv && final(self).stream()
                            == stream_pop(old(self).stream()),
                        Err(m) => r matches Err(e) && e@ == ErrorV::Parse(m) && final(self).stream() == old(self).stream(),
                    },
                    None => r matches Err(e) && e@ == ErrorV::Parse(msg_unexpected_end())
                        && final(self).stream() == old(self).stream(),
                }
            }),
    {
        self.fill();
        match self.peeked.take() {
            Some(item) => match item {
                Some(res) => match res {
                    Ok(t) => {
                        proof {
                            assert((seq![t@] + spec_tokens(self.lexer.remaining()).toks)
                                .drop_first() =~= spec_tokens(self.lexer.remaining()).toks);
                            assert((seq![t@] + spec_tokens(self.lexer.remaining()).toks)[0]
                                == t@);
                        }
                        Ok(t)
                    },
                    Err(e) => Err(e),
                },
                None => {
                    self.peeked = Some(None);
                    Err(Error::Parse(String::from_str("Unexpected end of input")))
                },
            },
            None => unreached(),
        }
    }

    /// Grabs the next token as a prefix operator, if it is one of at least
    /// the given precedence.
    fn next_if_prefix(&mut self, min_prec: u8) -> (r: Option<PrefixOperator>)
        requires
            old(self).wf(),
        ensures
            final(self).wf(),
            ({
                let pre = peek_prefix(old(self).stream());
                if pre is Some && 5 >= min_prec {
                    r == pre && final(self).stream() == stream_pop(old(self).stream())
                } else {
                    r is None && final(self).stream() == old(self).stream()
                }
            }),
    {
        self.fill();
        let found = match &self.peeked {
            Some(item) => match item {
                Some(res) => match res {
                    Ok(t) => {
                        proof {
                            assert((seq![t@] + spec_tokens(self.lexer.remaining()).toks)[0]
                                == t@);
                        }
                        PrefixOperator::from(t)
                    },
                    Err(_) => None,
                },
                None => None,
            },
            None => None,
        };
        match found {
            Some(op) => {
                if op.prec() >= min_prec {
                    proof {
                        let toks = self.stream().toks;
                        assert(toks.drop_first() =~= spec_tokens(
                            self.lexer.remaining(),
                        ).toks);
                    }
                    self.peeked = None;
                    Some(op)
                } else {
                    None
                }
            },
            None => None,
        }
    }

    /// Grabs the next token as a postfix operator, if it is one of at least
    /// the given precedence.
    fn next_if_postfix(&mut self, min_prec: u8) -> (r: Option<PostfixOperator>)
        requires
            old(self).wf(),
        ensures
            final(self).wf(),
            ({
                let post = peek_postfix(old(self).stream());
                if post is Some && 4 >= min_prec {
                    r == post && final(self).stream() == stream_pop(old(self).stream())
                } else {
                    r is None && final(self).stream() == old(self).stream()
                }
            }),
    {
        self.fill();
        let found = match &self.peeked {
            Some(item) => match item {
                Some(res) => match res {
                    Ok(t) => {
                        proof {
                            assert((seq![t@] + spec_tokens(self.lexer.remaining()).toks)[0]
                                == t@);
                        }
                        PostfixOperator::from(t)
                    },
                    Err(_) => None,
                },
                None => None,
            },
            None => None,
        };
        match found {
            Some(op) => {
                if op.prec() >= min_prec {
                    proof {
                        let toks = self.stream().toks;
                        assert(toks.drop_first() =~= spec_tokens(
                            self.lexer.remaining(),
                        ).toks);
                    }
                    self.peeked = None;
                    Some(op)
                } else {
                    None
                }
            },
            None => None,
        }
    }

    /// Grabs the next token as an infix operator, if it is one of at least
    /// the given precedence.
    fn next_if_infix(&mut self, min_prec: u8) -> (r: Option<InfixOperator>)
        requires
            old(self).wf(),
        ensures
            final(self).wf(),
            ({
                let inf = peek_infix(old(self).stream());
                if inf is Some && infix_prec(inf->0) >= min_prec {
                    r == inf && final(self).stream() == stream_pop(old(self).stream())
                } else {
                    r is None && final(self).stream() == old(self).stream()
                }
            }),
    {
        self.fill();
        let found = match &self.peeked {
            Some(item) => match item {
                Some(res) => match res {
                    Ok(t) => {
                        proof {
                            assert((seq![t@] + spec_tokens(self.lexer.remaining()).toks)[0]
                                == t@);
                        }
                        InfixOperator::from(t)
                    },
                    Err(_) => None,
                },
                None => None,
            },
            None => None,
        };
        match found {
            Some(op) => {
                if op.prec() >= min_prec {
                    proof {
                        let toks = self.stream().toks;
                        assert(toks.drop_first() =~= spec_tokens(
                            self.lexer.remaining(),
                        ).toks);
                    }
                    self.peeked = None;
                    Some(op)
                } else {
                    None
                }
            },
            None => None,
        }
    }

    /// Consumes the next token if it is an opening parenthesis.
    fn next_if_open_paren(&mut self) -> (r: bool)
        requires
            old(self).wf(),
        ensures
            final(self).wf(),
            ({
                if stream_peek(old(self).stream()) == Some(
                    Ok::<TokenV, Seq<char>>(TokenV::OpenParen),
                ) {
                    r && final(self).stream() == stream_pop(old(self).stream())
                } else {
                    !r && final(self).stream() == old(self).stream()
                }
            }),
    {
        self.fill();
        let is_open = match &self.peeked {
            Some(item) => match item {
                Some(res) => match res {
                    Ok(t) => {
                        proof {
                            assert((seq![t@] + spec_tokens(self.lexer.remaining()).toks)[0]
                                == t@);
                        }
                        match t {
                            Token::OpenParen => true,
                            _ => false,
                        }
                    },
                    Err(_) => false,
                },
                None => false,
            },
            None => false,
        };
        if is_open {
            proof {
                let toks = self.stream().toks;
                assert(toks.drop_first() =~= spec_tokens(self.lexer.remaining()).toks);
            }
            self.peeked = None;
            true
        } else {
            false
        }
    }

    /// Consumes the next token if it is a closing parenthesis.
    fn next_if_close_paren(&mut self) -> (r: bool)
        requires
            old(self).wf(),
        ensures
            final(self).wf(),
            ({
                if stream_peek(old(self).stream()) == Some(
                    Ok::<TokenV, Seq<char>>(TokenV::CloseParen),
                ) {
                    r && final(self).stream() == stream_pop(old(self).stream())
                } else {
                    !r && final(self).stream() == old(self).stream()
                }
            }),
    {
        self.fill();
        let is_close = match &self.peeked {
            Some(item) => match item {
                Some(res) => match res {
                    Ok(t) => {
                        proof {
                            assert((seq![t@] + spec_tokens(self.lexer.remaining()).toks)[0]
                                == t@);
                        }
                        match t {
                            Token::CloseParen => true,
                            _ => false,
                        }
                    },
                    Err(_) => false,
                },
                None => false,
            },
            None => false,
        };
        if is_close {
            proof {
                let toks = self.stream().toks;
                assert(toks.drop_first() =~= spec_tokens(self.lexer.remaining()).toks);
            }
            self.peeked = None;
            true
        } else {
            false
        }
    }

    /// With `Some(t)`: consumes the next token, which must equal `t`. With
    /// `None`: requires the input to be exhausted, reporting any leftover
    /// token.
    fn next_expect(&mut self, expect: Option<Token>) -> (r: Result<Option<Token>, Error>)
        requires
            old(self).wf(),
        ensures
            final(self).wf(),
            ({
                match expect {
                    Some(t) => match stream_peek(old(self).stream()) {
                        Some(pr) => match pr {
                            Ok(tv) => if tv == t@ {
                                r matches Ok(o) && o matches Some(t2) && t2@ == tv && final(self).stream() == stream_pop(old(self).stream())
                            } else {
                                r matches Err(e) && e@ == ErrorV::Parse(
                                    msg_expected_found(t@, tv),
                                ) && final(self).stream() == stream_pop(old(self).stream())
                            },
                            Err(m) => r matches Err(e) && e@ == ErrorV::Parse(m) && final(self).stream() == old(self).stream(),
                        },
                        None => r matches Err(e) && e@ == ErrorV::Parse(msg_unexpected_end())
                            && final(self).stream() == old(self).stream(),
                    },
                    None => match stream_peek(old(self).stream()) {
                        Some(pr) => match pr {
                            Ok(tv) => r matches Err(e) && e@ == ErrorV::Parse(
                                msg_unexpected_token(tv),
                            ) && final(self).stream() == old(self).stream(),
                            Err(m) => r matches Err(e) && e@ == ErrorV::Parse(m) && final(self).stream() == old(self).stream(),
                        },
                        None => r matches Ok(o) && o is None && final(self).stream() == old(
                            self,
                        ).stream(),
                    },
                }
            }),
    {
        match expect {
            Some(t) => {
                let token = match self.next() {
                    Ok(tok) => tok,
                    Err(e) => {
                        return Err(e);
                    },
                };
                if token == t {
                    Ok(Some(token))
                } else {
                    let mut m = String::from_str("Expected token ");
                    let want_text = t.text();
                    m.append(want_text.as_str());
                    m.append(", found ");
                    let found_text = token.text();
                    m.append(found_text.as_str());
                    Err(Error::Parse(m))
                }
            },
            None => {
                self.fill();
                let at_end = match &self.peeked {
                    Some(item) => item.is_none(),
                    None => false,
                };
                if at_end {
                    return Ok(None);
                }
                let msg = match &self.peeked {
                    Some(item) => match item {
                        Some(res) => match res {
                            Ok(t2) => {
                                proof {
                                    assert((seq![t2@] + spec_tokens(
                                        self.lexer.remaining(),
                                    ).toks)[0] == t2@);
                                }
                                let mut m = String::from_str("Unexpected token ");
                                let found_text = t2.text();
                                m.append(found_text.as_str());
                                Some(m)
                            },
                            Err(_) => None,
                        },
                        None => None,
                    },
                    None => None,
                };
                match msg {
                    Some(m) => Err(Error::Parse(m)),
                    None => {
                        match self.peeked.take() {
                            Some(item) => match item {
                                Some(res) => match res {
                                    Err(e) => Err(e),
                                    Ok(_) => unreached(),
                                },
                                None => unreached(),
                            },
                            None => unreached(),
                        }
                    },
                }
            },
        }
    }

    /// Builds an expression node from a constant name.
    fn build_constant(&self, name: String) -> (r: Result<Expression, Error>)
        ensures
            res_matches(r, sp_build_constant(name@)),
    {
        let lower = crate::text::ascii_lower_string(&name);
        if crate::text::str_eq_lit(&lower, "e") {
            Ok(Expression::Constant(Constant::E))
        } else if crate::text::str_eq_lit(&lower, "inf") {
            Ok(Expression::Constant(Constant::Infinity))
        } else if crate::text::str_eq_lit(&lower, "nan") {
            Ok(Expression::Constant(Constant::NaN))
        } else if crate::text::str_eq_lit(&lower, "pi") {
            Ok(Expression::Constant(Constant::Pi))
        } else if crate::text::str_eq_lit(&lower, "\u{3c0}") {
            Ok(Expression::Constant(Constant::Pi))
        } else {
            let mut m = String::from_str("Unknown constant ");
            m.append(name.as_str());
            Err(Error::Parse(m))
        }
    }

    /// Builds a number node from a number literal.
    fn build_number(&self, literal: String) -> (r: Result<Expression, Error>)
        ensures
            res_matches(r, sp_build_number(literal@)),
    {
        if crate::expression::check_number_literal(&literal) {
            Ok(Expression::Number(literal))
        } else {
            Err(Error::Parse(String::from_str("invalid float literal")))
        }
    }

    /// Builds an expression node from a function call.
    #[verifier::rlimit(100)]
    fn build_function(&self, name: String, args: Vec<Expression>) -> (r: Result<
        Expression,
        Error,
    >)
        ensures
            res_matches(r, sp_build_function(name@, exprs_view(args@))),
    {
        let ghost argsv = exprs_view(args@);
        let mut args = args;
        let lower = crate::text::ascii_lower_string(&name);
        let kind = if crate::text::str_eq_lit(&lower, "cos") {
            Some(FnKind::Cos)
        } else if crate::text::str_eq_lit(&lower, "degrees") {
            Some(FnKind::Degrees)
        } else if crate::text::str_eq_lit(&lower, "radians") {
            Some(FnKind::Radians)
        } else if crate::text::str_eq_lit(&lower, "sin") {
            Some(FnKind::Sin)
        } else if crate::text::str_eq_lit(&lower, "sqrt") {
            Some(FnKind::Sqrt)
        } else if crate::text::str_eq_lit(&lower, "tan") {
            Some(FnKind::Tan)
        } else if crate::text::str_eq_lit(&lower, "round") {
            Some(FnKind::Round)
        } else {
            None
        };
        match kind {
            None => {
                let mut m = String::from_str("Unknown function ");
                m.append(name.as_str());
                proof {
                    assert(sp_build_function(name@, argsv) == Err::<ExprV, Seq<char>>(
                        msg_unknown_function(name@),
                    ));
                }
                Err(Error::Parse(m))
            },
            Some(k) => {
                if args.len() == 0 {
                    let mut m = String::from_str("Missing argument for ");
                    m.append(name.as_str());
                    m.append("()");
                    proof {
                        assert(argsv.len() == 0);
                        assert(sp_build_function(name@, argsv) == Err::<ExprV, Seq<char>>(
                            msg_missing_argument(name@),
                        ));
                    }
                    return Err(Error::Parse(m));
                }
                let first = args.remove(0);
                proof {
                    assert(argsv[0] == first@);
                    assert(exprs_view(args@) =~= argsv.drop_first());
                }
                match k {
                    FnKind::Round => {
                        let had_two = args.len() > 0;
                        let decimals = if args.len() > 0 {
                            let d = args.remove(0);
                            proof {
                                assert(argsv[1] == d@);
                            }
                            d
                        } else {
                            Expression::Number(String::from_str("0"))
                        };
                        if args.len() > 0 {
                            let mut m = String::from_str("Unexpected argument for ");
                            m.append(name.as_str());
                            m.append("()");
                            proof {
                                assert(argsv.len() > 2);
                                assert(sp_build_function(name@, argsv) == Err::<
                                    ExprV,
                                    Seq<char>,
                                >(msg_unexpected_argument(name@)));
                            }
                            Err(Error::Parse(m))
                        } else {
                            proof {
                                if had_two {
                                    assert(argsv.len() == 2);
                                } else {
                                    assert(argsv.len() == 1);
                                }
                                assert(sp_build_function(name@, argsv) matches Ok(v)
                                    && v == (ExprV::Round {
                                    value: Box::new(argsv[0]),
                                    decimals: Box::new(decimals@),
                                }));
                            }
                            Ok(
                                Expression::Round {
                                    value: Box::new(first),
                                    decimals: Box::new(decimals),
                                },
                            )
                        }
                    },
                    _ => {
                        if args.len() > 0 {
                            let mut m = String::from_str("Unexpected argument for ");
                            m.append(name.as_str());
                            m.append("()");
                            proof {
                                assert(argsv.len() > 1);
                                assert(sp_build_function(name@, argsv) == Err::<
                                    ExprV,
                                    Seq<char>,
                                >(msg_unexpected_argument(name@)));
                            }
                            Err(Error::Parse(m))
                        } else {
                            proof {
                                assert(argsv.len() == 1);
                                assert(argsv[0] == first@);
                            }
                            Ok(
                                match k {
                                    FnKind::Cos => Expression::Cosine(Box::new(first)),
                                    FnKind::Degrees => Expression::Degrees(Box::new(first)),
                                    FnKind::Radians => Expression::Radians(Box::new(first)),
                                    FnKind::Sin => Expression::Sine(Box::new(first)),
                                    FnKind::Sqrt => Expression::SquareRoot(Box::new(first)),
                                    FnKind::Tan => Expression::Tangent(Box::new(first)),
                                    FnKind::Round => unreached(),
                                },
                            )
                        }
                    },
                }
            },
        }
    }

    /// Parses an atom: a number, a constant, a function call, or a
    /// parenthesized subexpression.
    #[verifier::loop_isolation(false)]
    fn parse_atom(&mut self) -> (r: Result<Expression, Error>)
        requires
            old(self).wf(),
        ensures
            final(self).wf(),
            res_matches(r, sp_atom(old(self).stream()).0),
            r is Ok ==> final(self).stream() == sp_atom(old(self).stream()).1 && final(self).stream().toks.len() < old(self).stream().toks.len(),
        decreases self.stream().toks.len(), 0int,
    {
        let tok = match self.next() {
            Ok(t) => t,
            Err(e) => {
                return Err(e);
            },
        };
        match tok {
            Token::Ident(name) => {
                if self.next_if_open_paren() {
                    let ghost s_args0 = self.stream();
                    let ghost goal_args = sp_args(s_args0, Seq::<ExprV>::empty());
                    proof {
                        assert(old(self).stream().toks.len() >= 1);
                        assert(s_args0.toks.len() <= old(self).stream().toks.len() - 2);
                    }
                    let mut args: Vec<Expression> = Vec::new();
                    proof {
                        assert(exprs_view(args@) =~= Seq::<ExprV>::empty());
                    }
                    loop
                        invariant
                            self.wf(),
                            sp_args(self.stream(), exprs_view(args@)) == goal_args,
                            self.stream().toks.len() <= s_args0.toks.len(),
                        decreases self.stream().toks.len(),
                    {
                        let ghost cur = self.stream();
                        let ghost cur_args = exprs_view(args@);
                        proof {
                            assert(cur_args.len() == args@.len());
                        }
                        if self.next_if_close_paren() {
                            proof {
                                assert(goal_args == (
                                    Ok::<Seq<ExprV>, Seq<char>>(cur_args),
                                    self.stream(),
                                ));
                            }
                            return self.build_function(name, args);
                        }
                        if args.len() > 0 {
                            match self.next_expect(Some(Token::Comma)) {
                                Ok(_) => {},
                                Err(e) => {
                                    proof {
                                        assert(sp_args(cur, cur_args).0 is Err);
                                    }
                                    return Err(e);
                                },
                            }
                        }
                        match self.parse_expression(0) {
                            Ok(e) => {
                                args.push(e);
                                proof {
                                    assert(exprs_view(args@) =~= cur_args.push(e@));
                                }
                            },
                            Err(e) => {
                                proof {
                                    assert(sp_args(cur, cur_args).0 is Err);
                                }
                                return Err(e);
                            },
                        }
                    }
                } else {
                    self.build_constant(name)
                }
            },
            Token::Number(lit) => self.build_number(lit),
            Token::OpenParen => {
                let expr = match self.parse_expression(0) {
                    Ok(e) => e,
                    Err(e) => {
                        return Err(e);
                    },
                };
                match self.next_expect(Some(Token::CloseParen)) {
                    Ok(_) => {},
                    Err(e) => {
                        return Err(e);
                    },
                }
                Ok(expr)
            },
            t => {
                let mut m = String::from_str("Expected value, found ");
                let found_text = t.text();
                m.append(found_text.as_str());
                Err(Error::Parse(m))
            },
        }
    }

    /// Parses an expression consisting of at least one atom operated on by
    /// any number of operators, by precedence climbing.
    #[verifier::loop_isolation(false)]
    fn parse_expression(&mut self, min_prec: u8) -> (r: Result<Expression, Error>)
        requires
            old(self).wf(),
        ensures
            final(self).wf(),
            res_matches(r, sp_expression(old(self).stream(), min_prec).0),
            r is Ok ==> final(self).stream() == sp_expression(old(self).stream(), min_prec).1
                && final(self).stream().toks.len() < old(self).stream().toks.len(),
        decreases self.stream().toks.len(), 3int,
    {
        let ghost goal = sp_expression(old(self).stream(), min_prec);
        let mut lhs: Expression;
        match self.next_if_prefix(min_prec) {
            Some(op) => {
                let prec = op.prec();
                let assoc = op.assoc();
                let sub = match self.parse_expression(prec + assoc) {
                    Ok(e) => e,
                    Err(e) => {
                        return Err(e);
                    },
                };
                lhs = op.build(sub);
            },
            None => {
                lhs = match self.parse_atom() {
                    Ok(e) => e,
                    Err(e) => {
                        return Err(e);
                    },
                };
            },
        }
        proof {
            assert(sp_postfix_loop(lhs@, self.stream(), min_prec) == goal);
        }
        loop
            invariant
                self.wf(),
                self.stream().toks.len() < old(self).stream().toks.len(),
                sp_postfix_loop(lhs@, self.stream(), min_prec) == goal,
            decreases self.stream().toks.len(),
        {
            match self.next_if_postfix(min_prec) {
                Some(op) => {
                    lhs = op.build(lhs);
                },
                None => {
                    break ;
                },
            }
        }
        proof {
            assert(sp_infix_loop(lhs@, self.stream(), min_prec) == goal);
        }
        loop
            invariant
                self.wf(),
                self.stream().toks.len() < old(self).stream().toks.len(),
                sp_infix_loop(lhs@, self.stream(), min_prec) == goal,
            decreases self.stream().toks.len(),
        {
            let ghost cur = self.stream();
            match self.next_if_infix(min_prec) {
                Some(op) => {
                    let prec = op.prec();
                    let assoc = op.assoc();
                    proof {
                        assert(prec + assoc == (infix_prec(op) + infix_assoc(op)) as u8);
                    }
                    let rhs = match self.parse_expression(prec + assoc) {
                        Ok(e) => e,
                        Err(e) => {
                            proof {
                                assert(sp_infix_loop(lhs@, cur, min_prec).0 is Err);
                            }
                            return Err(e);
                        },
                    };
                    lhs = op.build(lhs, rhs);
                },
                None => {
                    break ;
                },
            }
        }
        proof {
            assert(goal == (Ok::<ExprV, Seq<char>>(lhs@), self.stream()));
        }
        Ok(lhs)
    }

    /// Parses the input into an expression, requiring the whole input to be
    /// consumed.
    pub fn parse(&mut self) -> (r: Result<Expression, Error>)
        requires
            old(self).wf(),
        ensures
            final(self).wf(),
            res_matches(r, sp_parse(old(self).stream())),
            (match r {
                Ok(e) => valid_tree(e@),
                Err(_) => true,
            }),
    {
        proof {
            lemma_sp_expression_valid(old(self).stream(), 0);
        }
        let expr = match self.parse_expression(0) {
            Ok(e) => e,
            Err(e) => {
                return Err(e);
            },
        };
        match self.next_expect(None) {
            Ok(_) => {},
            Err(e) => {
                return Err(e);
            },
        }
        Ok(expr)
    }
}

/// Parses the input string into an expression: the one-call form of
/// [`Parser::new`] followed by [`Parser::parse`].
pub fn parse(input: &str) -> (r: Result<Expression, Error>)
    ensures
        res_matches(r, spec_parse(input@)),
        (match r {
            Ok(e) => valid_tree(e@),
            Err(_) => true,
        }),
{
    proof {
        lemma_parse_valid(input@);
    }
    let mut parser = Parser::new(input);
    parser.parse()
}

/// The default decimal count of a one-argument `round` call is a valid
/// literal.
proof fn lemma_zero_literal_valid()
    ensures
        valid_number_literal("0"@),
{
    reveal_strlit("0");
    assert("0"@.len() == 1);
    assert("0"@[0] == '0');
    assert(crate::text::digit_char("0"@[0]));
    assert(crate::lexer::prefix_len(crate::lexer::digit_p(), "0"@.drop_first()) == 0);
    assert(crate::lexer::num_int_end("0"@) == 1);
}

/// A built function node is well formed when its arguments are.
proof fn lemma_sp_build_function_valid(name: Seq<char>, args: Seq<ExprV>)
    requires
        forall|i: int| 0 <= i < args.len() ==> valid_tree(#[trigger] args[i]),
    ensures
        (match sp_build_function(name, args) {
            Ok(e) => valid_tree(e),
            Err(_) => true,
        }),
{
    lemma_zero_literal_valid();
    assert(valid_tree(ExprV::Number("0"@)));
    if args.len() >= 1 {
        assert(valid_tree(args[0]));
    }
    if args.len() >= 2 {
        assert(valid_tree(args[1]));
    }
}

/// Every tree an atom parse yields is well formed.
proof fn lemma_sp_atom_valid(sv: StreamV)
    ensures
        (match sp_atom(sv).0 {
            Ok(e) => valid_tree(e),
            Err(_) => true,
        }),
    decreases sv.toks.len(), 0int,
{
    match stream_peek(sv) {
        None => {},
        Some(pr) => match pr {
            Err(_) => {},
            Ok(t) => {
                let sv1 = stream_pop(sv);
                match t {
                    TokenV::Ident(name) => {
                        if stream_peek(sv1) == Some(Ok::<TokenV, Seq<char>>(TokenV::OpenParen)) {
                            lemma_sp_args_valid(stream_pop(sv1), Seq::empty());
                            let (ar, _sv2) = sp_args(stream_pop(sv1), Seq::empty());
                            match ar {
                                Ok(args) => {
                                    lemma_sp_build_function_valid(name, args);
                                },
                                Err(_) => {},
                            }
                        }
                    },
                    TokenV::OpenParen => {
                        lemma_sp_expression_valid(sv1, 0);
                    },
                    _ => {},
                }
            },
        },
    }
}

/// Every argument list an argument parse yields consists of well-formed
/// trees, provided the arguments collected so far are.
proof fn lemma_sp_args_valid(sv: StreamV, args: Seq<ExprV>)
    requires
        forall|i: int| 0 <= i < args.len() ==> valid_tree(#[trigger] args[i]),
    ensures
        (match sp_args(sv, args).0 {
            Ok(out) => forall|i: int| 0 <= i < out.len() ==> valid_tree(#[trigger] out[i]),
            Err(_) => true,
        }),
    decreases sv.toks.len(), 4int,
{
    if stream_peek(sv) == Some(Ok::<TokenV, Seq<char>>(TokenV::CloseParen)) {
    } else if args.len() > 0 {
        match stream_peek(sv) {
            None => {},
            Some(pr) => match pr {
                Err(_) => {},
                Ok(t) => {
                    if t == TokenV::Comma {
                        lemma_sp_expression_valid(stream_pop(sv), 0);
                        let (r1, sv2) = sp_expression(stream_pop(sv), 0);
                        match r1 {
                            Ok(e) => {
                                if sv2.toks.len() < sv.toks.len() {
                                    lemma_sp_args_valid(sv2, args.push(e));
                                }
                            },
                            Err(_) => {},
                        }
                    }
                },
            },
        }
    } else {
        lemma_sp_expression_valid(sv, 0);
        let (r1, sv2) = sp_expression(sv, 0);
        match r1 {
            Ok(e) => {
                if sv2.toks.len() < sv.toks.len() {
                    lemma_sp_args_valid(sv2, args.push(e));
                }
            },
            Err(_) => {},
        }
    }
}

/// The postfix fold preserves well-formedness.
proof fn lemma_sp_postfix_valid(lhs: ExprV, sv: StreamV, min_prec: u8)
    requires
        valid_tree(lhs),
    ensures
        (match sp_postfix_loop(lhs, sv, min_prec).0 {
            Ok(e) => valid_tree(e),
            Err(_) => true,
        }),
    decreases sv.toks.len(), 2int,
{
    let post = peek_postfix(sv);
    if post is Some && 4 >= min_prec {
        lemma_sp_postfix_valid(spec_postfix_build(post->0, lhs), stream_pop(sv), min_prec);
    } else {
        lemma_sp_infix_valid(lhs, sv, min_prec);
    }
}

/// The infix fold preserves well-formedness.
proof fn lemma_sp_infix_valid(lhs: ExprV, sv: StreamV, min_prec: u8)
    requires
        valid_tree(lhs),
    ensures
        (match sp_infix_loop(lhs, sv, min_prec).0 {
            Ok(e) => valid_tree(e),
            Err(_) => true,
        }),
    decreases sv.toks.len(), 1int,
{
    let inf = peek_infix(sv);
    if inf is Some && infix_prec(inf->0) >= min_prec {
        let op = inf->0;
        lemma_sp_expression_valid(stream_pop(sv), (infix_prec(op) + infix_assoc(op)) as u8);
        let (r1, sv1) = sp_expression(stream_pop(sv), (infix_prec(op) + infix_assoc(op)) as u8);
        match r1 {
            Ok(rhs) => {
                if sv1.toks.len() < sv.toks.len() {
                    lemma_sp_infix_valid(spec_infix_build(op, lhs, rhs), sv1, min_prec);
                }
            },
            Err(_) => {},
        }
    }
}

/// Every tree an expression parse yields is well formed.
proof fn lemma_sp_expression_valid(sv: StreamV, min_prec: u8)
    ensures
        (match sp_expression(sv, min_prec).0 {
            Ok(e) => valid_tree(e),
            Err(_) => true,
        }),
    decreases sv.toks.len(), 3int,
{
    let pre = peek_prefix(sv);
    if pre is Some && 5 >= min_prec {
        lemma_sp_expression_valid(stream_pop(sv), 5);
        let (r1, sv1) = sp_expression(stream_pop(sv), 5);
        match r1 {
            Ok(operand) => {
                if sv1.toks.len() < sv.toks.len() {
                    lemma_sp_postfix_valid(spec_prefix_build(pre->0, operand), sv1, min_prec);
                }
            },
            Err(_) => {},
        }
    } else {
        lemma_sp_atom_valid(sv);
        let (r1, sv1) = sp_atom(sv);
        match r1 {
            Ok(lhs) => {
                if sv1.toks.len() < sv.toks.len() {
                    lemma_sp_postfix_valid(lhs, sv1, min_prec);
                }
            },
            Err(_) => {},
        }
    }
}

/// Construction either fully succeeds or fails: every tree that parsing
/// yields is well formed, so each of its numeric leaves holds a literal that
/// converts to a 64-bit float.
pub proof fn lemma_parse_valid(input: Seq<char>)
    ensures
        (match spec_parse(input) {
            Ok(e) => valid_tree(e),
            Err(_) => true,
        }),
{
    lemma_sp_expression_valid(spec_tokens(input), 0);
}

/// Parsing is deterministic: the result is a function of the input text
/// alone, so parsing the same text twice yields equal outcomes.
pub proof fn lemma_parse_deterministic(a: Seq<char>, b: Seq<char>)
    requires
        a == b,
    ensures
        spec_parse(a) == spec_parse(b),
{
}

} // verus!
