//! Expression trees.
//!
//! An [`Expression`] is an immutable tree built once by the parser and read
//! thereafter. Leaves are numbers and named constants; interior nodes own
//! their children. A numeric leaf keeps the literal text exactly as scanned;
//! the parser only builds such a leaf after checking the text against
//! [`valid_number_literal`], so every leaf of a parsed tree can be converted
//! to a 64-bit float by the caller. The floating-point fold itself stays
//! outside the verified core.

use vstd::prelude::*;

use crate::lexer::digit_p;
use crate::lexer::lemma_prefix_len;
use crate::lexer::lemma_prefix_len_is;
use crate::lexer::num_frac_end;
use crate::lexer::num_int_end;
use crate::lexer::prefix_len;
use crate::text::digit_char;
use crate::text::is_digit_char;

verus! {

/// Mathematical constants.
#[derive(Clone, Copy, Debug, PartialEq, Eq, Structural)]
pub enum Constant {
    /// The base of the natural logarithm
    E,
    /// The IEEE 754 special value infinity
    Infinity,
    /// The IEEE 754 special value not-a-number (NaN)
    NaN,
    /// The ratio of a circle's circumference to its diameter
    Pi,
}

/// Spec-level model of an [`Expression`]: the same tree, with the numeric
/// literal text as a character sequence.
pub enum ExprV {
    Add { lhs: Box<ExprV>, rhs: Box<ExprV> },
    Constant(Constant),
    Cosine(Box<ExprV>),
    Degrees(Box<ExprV>),
    Divide { lhs: Box<ExprV>, rhs: Box<ExprV> },
    Exponentiate { lhs: Box<ExprV>, rhs: Box<ExprV> },
    Factorial(Box<ExprV>),
    Modulo { lhs: Box<ExprV>, rhs: Box<ExprV> },
    Multiply { lhs: Box<ExprV>, rhs: Box<ExprV> },
    Negate(Box<ExprV>),
    Number(Seq<char>),
    Radians(Box<ExprV>),
    Round { value: Box<ExprV>, decimals: Box<ExprV> },
    Sine(Box<ExprV>),
    SquareRoot(Box<ExprV>),
    Subtract { lhs: Box<ExprV>, rhs: Box<ExprV> },
    Tangent(Box<ExprV>),
}

/// A mathematical operation or entity over 64-bit floats.
#[derive(Debug)]
pub enum Expression {
    /// Adds two terms
    Add { lhs: Box<Expression>, rhs: Box<Expression> },
    /// A named mathematical constant
    Constant(Constant),
    /// The cosine of the argument angle in radians
    Cosine(Box<Expression>),
    /// The argument converted from radians to degrees
    Degrees(Box<Expression>),
    /// Divides two values
    Divide { lhs: Box<Expression>, rhs: Box<Expression> },
    /// Raises the LHS value to the power of the RHS
    Exponentiate { lhs: Box<Expression>, rhs: Box<Expression> },
    /// The factorial value of the argument
    Factorial(Box<Expression>),
    /// The modulo of the arguments, with the sign of the RHS and magnitude
    /// less than the RHS
    Modulo { lhs: Box<Expression>, rhs: Box<Expression> },
    /// Multiplies the LHS by the RHS
    Multiply { lhs: Box<Expression>, rhs: Box<Expression> },
    /// Negates the argument
    Negate(Box<Expression>),
    /// A numerical value, kept as its literal source text
    Number(String),
    /// The argument converted from degrees to radians
    Radians(Box<Expression>),
    /// A value rounded to a given number of decimals; the evaluation is NaN
    /// for negative or fractional decimals
    Round { value: Box<Expression>, decimals: Box<Expression> },
    /// The sine of the argument angle in radians
    Sine(Box<Expression>),
    /// The square root of the argument
    SquareRoot(Box<Expression>),
    /// Subtracts the RHS from the LHS
    Subtract { lhs: Box<Expression>, rhs: Box<Expression> },
    /// The tangent of the argument angle in radians
    Tangent(Box<Expression>),
}

/// The spec-level model of an expression tree.
pub open spec fn expr_view(e: Expression) -> ExprV
    decreases e,
{
    match e {
        Expression::Add { lhs, rhs } => ExprV::Add {
            lhs: Box::new(expr_view(*lhs)),
            rhs: Box::new(expr_view(*rhs)),
        },
        Expression::Constant(c) => ExprV::Constant(c),
        Expression::Cosine(e1) => ExprV::Cosine(Box::new(expr_view(*e1))),
        Expression::Degrees(e1) => ExprV::Degrees(Box::new(expr_view(*e1))),
        Expression::Divide { lhs, rhs } => ExprV::Divide {
            lhs: Box::new(expr_view(*lhs)),
            rhs: Box::new(expr_view(*rhs)),
        },
        Expression::Exponentiate { lhs, rhs } => ExprV::Exponentiate {
            lhs: Box::new(expr_view(*lhs)),
            rhs: Box::new(expr_view(*rhs)),
        },
        Expression::Factorial(e1) => ExprV::Factorial(Box::new(expr_view(*e1))),
        Expression::Modulo { lhs, rhs } => ExprV::Modulo {
            lhs: Box::new(expr_view(*lhs)),
            rhs: Box::new(expr_view(*rhs)),
        },
        Expression::Multiply { lhs, rhs } => ExprV::Multiply {
            lhs: Box::new(expr_view(*lhs)),
            rhs: Box::new(expr_view(*rhs)),
        },
        Expression::Negate(e1) => ExprV::Negate(Box::new(expr_view(*e1))),
        Expression::Number(s) => ExprV::Number(s@),
        Expression::Radians(e1) => ExprV::Radians(Box::new(expr_view(*e1))),
        Expression::Round { value, decimals } => ExprV::Round {
            value: Box::new(expr_view(*value)),
            decimals: Box::new(expr_view(*decimals)),
        },
        Expression::Sine(e1) => ExprV::Sine(Box::new(expr_view(*e1))),
        Expression::SquareRoot(e1) => ExprV::SquareRoot(Box::new(expr_view(*e1))),
        Expression::Subtract { lhs, rhs } => ExprV::Subtract {
            lhs: Box::new(expr_view(*lhs)),
            rhs: Box::new(expr_view(*rhs)),
        },
        Expression::Tangent(e1) => ExprV::Tangent(Box::new(expr_view(*e1))),
    }
}

impl View for Expression {
    type V = ExprV;

    open spec fn view(&self) -> ExprV {
        expr_view(*self)
    }
}

/// Whether `s` is a numeric literal the parser accepts: one or more digits,
/// optionally a dot and any digits, optionally an exponent marker with an
/// optional sign and at least one digit, with nothing left over. This is the
/// sublanguage of Rust's float grammar that number tokens can fall in, so
/// every accepted literal converts to a 64-bit float.
pub open spec fn valid_number_literal(s: Seq<char>) -> bool {
    let di = num_int_end(s);
    let j = num_frac_end(s);
    if di == 0 {
        false
    } else if j == s.len() {
        true
    } else if s[j as int] == 'e' || s[j as int] == 'E' {
        let j1 = j + 1;
        let j2 = if j1 < s.len() && (s[j1 as int] == '+' || s[j1 as int] == '-') {
            j1 + 1
        } else {
            j1
        };
        let d3 = prefix_len(digit_p(), s.skip(j2 as int));
        d3 >= 1 && j2 + d3 == s.len()
    } else {
        false
    }
}

/// Well-formedness of a tree: every numeric leaf holds a valid literal, so
/// the whole tree can be folded into a float without a conversion failure.
pub open spec fn valid_tree(v: ExprV) -> bool
    decreases v,
{
    match v {
        ExprV::Add { lhs, rhs } => valid_tree(*lhs) && valid_tree(*rhs),
        ExprV::Constant(_) => true,
        ExprV::Cosine(e1) => valid_tree(*e1),
        ExprV::Degrees(e1) => valid_tree(*e1),
        ExprV::Divide { lhs, rhs } => valid_tree(*lhs) && valid_tree(*rhs),
        ExprV::Exponentiate { lhs, rhs } => valid_tree(*lhs) && valid_tree(*rhs),
        ExprV::Factorial(e1) => valid_tree(*e1),
        ExprV::Modulo { lhs, rhs } => valid_tree(*lhs) && valid_tree(*rhs),
        ExprV::Multiply { lhs, rhs } => valid_tree(*lhs) && valid_tree(*rhs),
        ExprV::Negate(e1) => valid_tree(*e1),
        ExprV::Number(s) => valid_number_literal(s),
        ExprV::Radians(e1) => valid_tree(*e1),
        ExprV::Round { value, decimals } => valid_tree(*value) && valid_tree(*decimals),
        ExprV::Sine(e1) => valid_tree(*e1),
        ExprV::SquareRoot(e1) => valid_tree(*e1),
        ExprV::Subtract { lhs, rhs } => valid_tree(*lhs) && valid_tree(*rhs),
        ExprV::Tangent(e1) => valid_tree(*e1),
    }
}

/// Counts the run of decimal digits in `v` starting at `start`.
fn count_digits_from(v: &Vec<char>, start: usize) -> (r: usize)
    requires
        start <= v@.len(),
    ensures
        r == prefix_len(digit_p(), v@.skip(start as int)),
        start + r <= v@.len(),
{
    let ghost s = v@.skip(start as int);
    let n = v.len();
    let mut i: usize = start;
    while i < n && is_digit_char(v[i])
        invariant
            start <= i <= n,
            n == v@.len(),
            forall|j: int| start <= j < i ==> digit_char(v@[j]),
        decreases n - i,
    {
        i = i + 1;
    }
    proof {
        assert forall|j: int| 0 <= j < i - start implies digit_p()(s[j]) by {
            assert(s[j] == v@[j + start]);
        }
        if i - start < s.len() {
            assert(s[i - start] == v@[i as int]);
        }
        lemma_prefix_len_is(digit_p(), s, (i - start) as nat);
    }
    i - start
}

/// Executable check of [`valid_number_literal`].
pub fn check_number_literal(s: &String) -> (r: bool)
    ensures
        r == valid_number_literal(s@),
{
    let v = crate::text::chars_of(s.as_str());
    let n = v.len();
    let d1 = count_digits_from(&v, 0);
    proof {
        assert(v@.skip(0) =~= v@);
    }
    if d1 == 0 {
        return false;
    }
    let mut i: usize = d1;
    if i < n && v[i] == '.' {
        let d2 = count_digits_from(&v, i + 1);
        i = i + 1 + d2;
    }
    proof {
        assert(i == num_frac_end(s@));
    }
    if i == n {
        return true;
    }
    let c = v[i];
    if c == 'e' || c == 'E' {
        let mut k: usize = i + 1;
        if k < n && (v[k] == '+' || v[k] == '-') {
            k = k + 1;
        }
        let d3 = count_digits_from(&v, k);
        d3 >= 1 && k + d3 == n
    } else {
        false
    }
}

/// The spec-level models of a sequence of expressions, pointwise.
pub open spec fn exprs_view(s: Seq<Expression>) -> Seq<ExprV> {
    s.map_values(|e: Expression| e@)
}

/// Structural equality of two trees, the executable twin of `a@ == b@`.
pub fn expr_eq(a: &Expression, b: &Expression) -> (r: bool)
    ensures
        r == (a@ == b@),
    decreases *a,
{
    match (a, b) {
        (Expression::Add { lhs: a1, rhs: a2 }, Expression::Add { lhs: b1, rhs: b2 }) => expr_eq(
            a1,
            b1,
        ) && expr_eq(a2, b2),
        (Expression::Constant(x), Expression::Constant(y)) => *x == *y,
        (Expression::Cosine(x), Expression::Cosine(y)) => expr_eq(x, y),
        (Expression::Degrees(x), Expression::Degrees(y)) => expr_eq(x, y),
        (Expression::Divide { lhs: a1, rhs: a2 }, Expression::Divide { lhs: b1, rhs: b2 }) =>
            expr_eq(a1, b1) && expr_eq(a2, b2),
        (
            Expression::Exponentiate { lhs: a1, rhs: a2 },
            Expression::Exponentiate { lhs: b1, rhs: b2 },
        ) => expr_eq(a1, b1) && expr_eq(a2, b2),
        (Expression::Factorial(x), Expression::Factorial(y)) => expr_eq(x, y),
        (Expression::Modulo { lhs: a1, rhs: a2 }, Expression::Modulo { lhs: b1, rhs: b2 }) =>
            expr_eq(a1, b1) && expr_eq(a2, b2),
        (Expression::Multiply { lhs: a1, rhs: a2 }, Expression::Multiply { lhs: b1, rhs: b2 }) =>
            expr_eq(a1, b1) && expr_eq(a2, b2),
        (Expression::Negate(x), Expression::Negate(y)) => expr_eq(x, y),
        (Expression::Number(x), Expression::Number(y)) => *x == *y,
        (Expression::Radians(x), Expression::Radians(y)) => expr_eq(x, y),
        (
            Expression::Round { value: a1, decimals: a2 },
            Expression::Round { value: b1, decimals: b2 },
        ) => expr_eq(a1, b1) && expr_eq(a2, b2),
        (Expression::Sine(x), Expression::Sine(y)) => expr_eq(x, y),
        (Expression::SquareRoot(x), Expression::SquareRoot(y)) => expr_eq(x, y),
        (Expression::Subtract { lhs: a1, rhs: a2 }, Expression::Subtract { lhs: b1, rhs: b2 }) =>
            expr_eq(a1, b1) && expr_eq(a2, b2),
        (Expression::Tangent(x), Expression::Tangent(y)) => expr_eq(x, y),
        _ => false,
    }
}

impl PartialEq for Expression {
    fn eq(&self, other: &Expression) -> (r: bool) {
        expr_eq(self, other)
    }
}

impl vstd::std_specs::cmp::PartialEqSpecImpl for Expression {
    open spec fn obeys_eq_spec() -> bool {
        true
    }

    open spec fn eq_spec(&self, other: &Expression) -> bool {
        self@ == other@
    }
}

} // verus!
