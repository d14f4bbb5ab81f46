//! The lexer: turns an input string into a stream of tokens.
//!
//! Tokens are handed out one at a time by [`Lexer::next`]. Whitespace between
//! tokens is skipped. When no token can be scanned and input remains, the
//! lexer reports the offending character without consuming it, so every later
//! call reports the same error.
//!
//! The spec-level model is [`spec_next`]: it says, for the characters still
//! unread, exactly which token (or error, or end of input) the next call
//! yields and which characters remain after it.

use vstd::prelude::*;
use vstd::string::StrSliceExecFns;
use vstd::string::StringExecFns;

use crate::error::Error;
use crate::error::ErrorV;
use crate::text::alphabetic_char;
use crate::text::alphanumeric_char;
use crate::text::digit_char;
use crate::text::is_alphabetic_char;
use crate::text::is_alphanumeric_char;
use crate::text::is_digit_char;
use crate::text::is_whitespace_char;
use crate::text::push_char;
use crate::text::whitespace_char;

verus! {

/// Spec-level model of a [`Token`]: the same variants, with text as a
/// character sequence.
pub enum TokenV {
    Number(Seq<char>),
    Ident(Seq<char>),
    Plus,
    Minus,
    Asterisk,
    Slash,
    Caret,
    SquareRoot,
    Percent,
    Exclamation,
    OpenParen,
    CloseParen,
    Comma,
}

/// A lexer token.
#[derive(Debug)]
pub enum Token {
    /// A literal number, kept as its source text
    Number(String),
    /// A name, of a constant or function
    Ident(String),
    /// The addition symbol +
    Plus,
    /// The subtraction symbol -
    Minus,
    /// The multiplication symbol *
    Asterisk,
    /// The division symbol /
    Slash,
    /// The exponentiation symbol ^
    Caret,
    /// The square root symbol (U+221A)
    SquareRoot,
    /// The modulo symbol %
    Percent,
    /// The factorial symbol !
    Exclamation,
    /// An opening parenthesis
    OpenParen,
    /// A closing parenthesis
    CloseParen,
    /// An expression separator ,
    Comma,
}

impl View for Token {
    type V = TokenV;

    open spec fn view(&self) -> TokenV {
        match self {
            Token::Number(s) => TokenV::Number(s@),
            Token::Ident(s) => TokenV::Ident(s@),
            Token::Plus => TokenV::Plus,
            Token::Minus => TokenV::Minus,
            Token::Asterisk => TokenV::Asterisk,
            Token::Slash => TokenV::Slash,
            Token::Caret => TokenV::Caret,
            Token::SquareRoot => TokenV::SquareRoot,
            Token::Percent => TokenV::Percent,
            Token::Exclamation => TokenV::Exclamation,
            Token::OpenParen => TokenV::OpenParen,
            Token::CloseParen => TokenV::CloseParen,
            Token::Comma => TokenV::Comma,
        }
    }
}

/// The source text a token displays as: its own text for numbers and
/// identifiers, the operator or punctuation symbol otherwise.
pub open spec fn token_text(t: TokenV) -> Seq<char> {
    match t {
        TokenV::Number(s) => s,
        TokenV::Ident(s) => s,
        TokenV::Plus => "+"@,
        TokenV::Minus => "-"@,
        TokenV::Asterisk => "*"@,
        TokenV::Slash => "/"@,
        TokenV::Caret => "^"@,
        TokenV::SquareRoot => "\u{221A}"@,
        TokenV::Percent => "%"@,
        TokenV::Exclamation => "!"@,
        TokenV::OpenParen => "("@,
        TokenV::CloseParen => ")"@,
        TokenV::Comma => ","@,
    }
}

impl Token {
    /// The source text of the token, used in error messages.
    pub fn text(&self) -> (r: String)
        ensures
            r@ == token_text(self@),
    {
        match self {
            Token::Number(s) => s.clone(),
            Token::Ident(s) => s.clone(),
            Token::Plus => String::from_str("+"),
            Token::Minus => String::from_str("-"),
            Token::Asterisk => String::from_str("*"),
            Token::Slash => String::from_str("/"),
            Token::Caret => String::from_str("^"),
            Token::SquareRoot => String::from_str("\u{221A}"),
            Token::Percent => String::from_str("%"),
            Token::Exclamation => String::from_str("!"),
            Token::OpenParen => String::from_str("("),
            Token::CloseParen => String::from_str(")"),
            Token::Comma => String::from_str(","),
        }
    }
}

impl PartialEq for Token {
    fn eq(&self, other: &Token) -> (r: bool) {
        match (self, other) {
            (Token::Number(a), Token::Number(b)) => *a == *b,
            (Token::Ident(a), Token::Ident(b)) => *a == *b,
            (Token::Plus, Token::Plus) => true,
            (Token::Minus, Token::Minus) => true,
            (Token::Asterisk, Token::Asterisk) => true,
            (Token::Slash, Token::Slash) => true,
            (Token::Caret, Token::Caret) => true,
            (Token::SquareRoot, Token::SquareRoot) => true,
            (Token::Percent, Token::Percent) => true,
            (Token::Exclamation, Token::Exclamation) => true,
            (Token::OpenParen, Token::OpenParen) => true,
            (Token::CloseParen, Token::CloseParen) => true,
            (Token::Comma, Token::Comma) => true,
            _ => false,
        }
    }
}

impl vstd::std_specs::cmp::PartialEqSpecImpl for Token {
    open spec fn obeys_eq_spec() -> bool {
        true
    }

    open spec fn eq_spec(&self, other: &Token) -> bool {
        self@ == other@
    }
}

/// The number of leading characters of `s` that satisfy `p`: the length of
/// the maximal prefix the predicate accepts.
pub open spec fn prefix_len(p: spec_fn(char) -> bool, s: Seq<char>) -> nat
    decreases s.len(),
{
    if s.len() > 0 && p(s[0]) {
        1 + prefix_len(p, s.drop_first())
    } else {
        0
    }
}

/// Basic facts about [`prefix_len`]: it is bounded by the length, every
/// character of the prefix satisfies the predicate, and the first character
/// after it (if any) does not.
pub proof fn lemma_prefix_len(p: spec_fn(char) -> bool, s: Seq<char>)
    ensures
        prefix_len(p, s) <= s.len(),
        forall|j: int| 0 <= j < prefix_len(p, s) ==> p(s[j]),
        prefix_len(p, s) < s.len() ==> !p(s[prefix_len(p, s) as int]),
    decreases s.len(),
{
    if s.len() > 0 && p(s[0]) {
        lemma_prefix_len(p, s.drop_first());
        assert forall|j: int| 0 <= j < prefix_len(p, s) implies p(s[j]) by {
            if j > 0 {
                assert(s.drop_first()[j - 1] == s[j]);
            }
        }
    }
}

/// The converse characterization: a count whose characters all satisfy `p`
/// and whose boundary character does not is exactly [`prefix_len`].
pub proof fn lemma_prefix_len_is(p: spec_fn(char) -> bool, s: Seq<char>, n: nat)
    requires
        n <= s.len(),
        forall|j: int| 0 <= j < n ==> p(s[j]),
        n < s.len() ==> !p(s[n as int]),
    ensures
        prefix_len(p, s) == n,
    decreases s.len(),
{
    if n == 0 {
    } else {
        assert(p(s[0]));
        assert forall|j: int| 0 <= j < n - 1 implies p(s.drop_first()[j]) by {
            assert(s.drop_first()[j] == s[j + 1]);
        }
        if n < s.len() {
            assert(s.drop_first()[n - 1] == s[n as int]);
        }
        lemma_prefix_len_is(p, s.drop_first(), (n - 1) as nat);
    }
}

/// The pieces of a number token nest in order: the integer digits end within
/// the fraction, the fraction within the exponent, the exponent within the
/// input.
pub proof fn lemma_num_end_bounds(s: Seq<char>)
    ensures
        num_int_end(s) <= num_frac_end(s),
        num_frac_end(s) <= num_end(s),
        num_end(s) <= s.len(),
{
    lemma_prefix_len(digit_p(), s);
    let di = num_int_end(s);
    if di < s.len() && s[di as int] == '.' {
        lemma_prefix_len(digit_p(), s.skip(di as int + 1));
    }
    let j = num_frac_end(s);
    if j < s.len() && (s[j as int] == 'e' || s[j as int] == 'E') {
        let j1 = j + 1;
        let j2 = if j1 < s.len() && (s[j1 as int] == '+' || s[j1 as int] == '-') {
            j1 + 1
        } else {
            j1
        };
        lemma_prefix_len(digit_p(), s.skip(j2 as int));
    }
}

/// The whitespace class as a predicate value.
pub open spec fn whitespace_p() -> spec_fn(char) -> bool {
    |c: char| whitespace_char(c)
}

/// The decimal-digit class as a predicate value.
pub open spec fn digit_p() -> spec_fn(char) -> bool {
    |c: char| digit_char(c)
}

/// A character that may continue an identifier: alphanumeric or underscore.
pub open spec fn ident_cont_char(c: char) -> bool {
    alphanumeric_char(c) || c == '_'
}

/// The identifier-continuation class as a predicate value.
pub open spec fn ident_cont_p() -> spec_fn(char) -> bool {
    |c: char| ident_cont_char(c)
}

/// The token an operator character scans to, if any.
pub open spec fn spec_operator_token(c: char) -> Option<TokenV> {
    match c {
        '+' => Some(TokenV::Plus),
        '-' => Some(TokenV::Minus),
        '*' => Some(TokenV::Asterisk),
        '/' => Some(TokenV::Slash),
        '^' => Some(TokenV::Caret),
        '\u{221A}' => Some(TokenV::SquareRoot),
        '%' => Some(TokenV::Percent),
        '!' => Some(TokenV::Exclamation),
        _ => None,
    }
}

/// The token a punctuation character scans to, if any.
pub open spec fn spec_punctuation_token(c: char) -> Option<TokenV> {
    match c {
        '(' => Some(TokenV::OpenParen),
        ')' => Some(TokenV::CloseParen),
        ',' => Some(TokenV::Comma),
        _ => None,
    }
}

/// The identifier token scanned at the head of `s`, with the characters that
/// remain: one alphabetic character, then every following alphanumeric or
/// underscore character.
pub open spec fn spec_scan_ident(s: Seq<char>) -> Option<(TokenV, Seq<char>)> {
    if s.len() > 0 && alphabetic_char(s[0]) {
        let n = 1 + prefix_len(ident_cont_p(), s.skip(1));
        Some((TokenV::Ident(s.take(n as int)), s.skip(n as int)))
    } else {
        None
    }
}

/// Where the integer-digit run at the head of `s` ends.
pub open spec fn num_int_end(s: Seq<char>) -> nat {
    prefix_len(digit_p(), s)
}

/// Where the optional fraction (a dot and any following digits) ends.
pub open spec fn num_frac_end(s: Seq<char>) -> nat {
    let di = num_int_end(s);
    if di < s.len() && s[di as int] == '.' {
        di + 1 + prefix_len(digit_p(), s.skip(di as int + 1))
    } else {
        di
    }
}

/// Where the optional exponent (`e`/`E`, an optional sign, and any following
/// digits) ends; the full extent of a number token.
pub open spec fn num_end(s: Seq<char>) -> nat {
    let j = num_frac_end(s);
    if j < s.len() && (s[j as int] == 'e' || s[j as int] == 'E') {
        let j1 = j + 1;
        let j2 = if j1 < s.len() && (s[j1 as int] == '+' || s[j1 as int] == '-') {
            j1 + 1
        } else {
            j1
        };
        j2 + prefix_len(digit_p(), s.skip(j2 as int))
    } else {
        j
    }
}

/// The number token scanned at the head of `s`, with the characters that
/// remain. Scanning starts only at a digit; the scanned text is kept verbatim
/// and may still be an invalid literal (for instance `"3e"`), which the
/// parser rejects when it builds the leaf.
pub open spec fn spec_scan_number(s: Seq<char>) -> Option<(TokenV, Seq<char>)> {
    if num_int_end(s) == 0 {
        None
    } else {
        Some((TokenV::Number(s.take(num_end(s) as int)), s.skip(num_end(s) as int)))
    }
}

/// The token scanned at the head of `s` (no leading whitespace), with the
/// characters that remain: an identifier, a number, an operator, or a
/// punctuation mark, tried in that order.
pub open spec fn spec_scan(s: Seq<char>) -> Option<(TokenV, Seq<char>)> {
    match spec_scan_ident(s) {
        Some(r) => Some(r),
        None => match spec_scan_number(s) {
            Some(r) => Some(r),
            None => if s.len() > 0 && spec_operator_token(s[0]) is Some {
                Some((spec_operator_token(s[0])->0, s.skip(1)))
            } else if s.len() > 0 && spec_punctuation_token(s[0]) is Some {
                Some((spec_punctuation_token(s[0])->0, s.skip(1)))
            } else {
                None
            },
        },
    }
}

/// The message of the error reported at an unscannable character.
pub open spec fn msg_unexpected_char(c: char) -> Seq<char> {
    "Unexpected character "@.push(c)
}

/// What one call of [`Lexer::next`] yields on remaining input `s`, and the
/// input remaining afterwards: `None` at end of input, the scanned token, or
/// the offending character (which is not consumed).
pub open spec fn spec_next(s: Seq<char>) -> (Option<Result<TokenV, char>>, Seq<char>) {
    let t = s.skip(prefix_len(whitespace_p(), s) as int);
    if t.len() == 0 {
        (None, t)
    } else {
        match spec_scan(t) {
            Some((tok, rest)) => (Some(Ok(tok)), rest),
            None => (Some(Err(t[0])), t),
        }
    }
}

/// A lexer tokenizes an input string, one token per call of [`Lexer::next`].
pub struct Lexer {
    chars: Vec<char>,
    pos: usize,
}

impl Lexer {
    /// Structural validity: the cursor never passes the end of the input.
    pub closed spec fn wf(&self) -> bool {
        self.pos <= self.chars@.len()
    }

    /// The characters not yet consumed.
    pub closed spec fn remaining(&self) -> Seq<char> {
        self.chars@.skip(self.pos as int)
    }

    /// Creates a new lexer for the given input string.
    pub fn new(input: &str) -> (lx: Lexer)
        ensures
            lx.wf(),
            lx.remaining() == input@,
    {
        let chars = crate::text::chars_of(input);
        let lx = Lexer { chars, pos: 0 };
        proof {
            assert(lx.remaining() =~= input@);
        }
        lx
    }

    /// The next unconsumed character, if any, without consuming it.
    fn peek_char(&self) -> (r: Option<char>)
        requires
            self.wf(),
        ensures
            match r {
                Some(c) => self.remaining().len() > 0 && c == self.remaining()[0],
                None => self.remaining().len() == 0,
            },
    {
        if self.pos < self.chars.len() {
            Some(self.chars[self.pos])
        } else {
            None
        }
    }

    /// Consumes one character.
    fn advance(&mut self)
        requires
            old(self).wf(),
            old(self).remaining().len() > 0,
        ensures
            final(self).wf(),
            final(self).remaining() == old(self).remaining().drop_first(),
    {
        proof {
            assert(old(self).remaining().len() == self.chars@.len() - self.pos);
        }
        // binding the vector length shows the cursor stays in bounds
        let n = self.chars.len();
        assert(self.pos < n);
        self.pos = self.pos + 1;
        proof {
            assert(self.remaining() =~= old(self).remaining().drop_first());
        }
    }

    /// Consumes any whitespace characters.
    fn consume_whitespace(&mut self)
        requires
            old(self).wf(),
        ensures
            final(self).wf(),
            final(self).remaining() == old(self).remaining().skip(
                prefix_len(whitespace_p(), old(self).remaining()) as int,
            ),
    {
        let ghost s0 = old(self).remaining();
        let ghost mut k: int = 0;
        loop
            invariant
                self.wf(),
                0 <= k <= s0.len(),
                self.remaining() == s0.skip(k),
                forall|j: int| 0 <= j < k ==> whitespace_char(s0[j]),
            ensures
                self.wf(),
                0 <= k <= s0.len(),
                self.remaining() == s0.skip(k),
                forall|j: int| 0 <= j < k ==> whitespace_char(s0[j]),
                k < s0.len() ==> !whitespace_char(s0[k]),
            decreases s0.len() - k,
        {
            match self.peek_char() {
                Some(c) => {
                    if is_whitespace_char(c) {
                        proof {
                            assert(s0.skip(k)[0] == s0[k]);
                            assert(s0.skip(k).drop_first() =~= s0.skip(k + 1));
                        }
                        self.advance();
                        proof {
                            k = k + 1;
                        }
                    } else {
                        proof {
                            assert(s0.skip(k)[0] == s0[k]);
                        }
                        break ;
                    }
                },
                None => {
                    break ;
                },
            }
        }
        proof {
            lemma_prefix_len_is(whitespace_p(), s0, k as nat);
        }
    }

    /// Consumes the leading run of decimal digits, appending them to `out`.
    fn take_digits(&mut self, out: &mut String)
        requires
            old(self).wf(),
        ensures
            final(self).wf(),
            ({
                let k = prefix_len(digit_p(), old(self).remaining());
                final(self).remaining() == old(self).remaining().skip(k as int) && final(out)@
                    == old(out)@ + old(self).remaining().take(k as int)
            }),
    {
        let ghost s0 = old(self).remaining();
        let ghost t0 = old(out)@;
        let ghost mut k: int = 0;
        loop
            invariant
                self.wf(),
                0 <= k <= s0.len(),
                self.remaining() == s0.skip(k),
                out@ == t0 + s0.take(k),
                forall|j: int| 0 <= j < k ==> digit_char(s0[j]),
            ensures
                self.wf(),
                0 <= k <= s0.len(),
                self.remaining() == s0.skip(k),
                out@ == t0 + s0.take(k),
                forall|j: int| 0 <= j < k ==> digit_char(s0[j]),
                k < s0.len() ==> !digit_char(s0[k]),
            decreases s0.len() - k,
        {
            match self.peek_char() {
                Some(c) => {
                    if is_digit_char(c) {
                        proof {
                            assert(s0.skip(k)[0] == s0[k]);
                            assert(s0.skip(k).drop_first() =~= s0.skip(k + 1));
                            assert((t0 + s0.take(k)).push(s0[k]) =~= t0 + s0.take(k + 1));
                        }
                        push_char(out, c);
                        self.advance();
                        proof {
                            k = k + 1;
                        }
                    } else {
                        proof {
                            assert(s0.skip(k)[0] == s0[k]);
                        }
                        break ;
                    }
                },
                None => {
                    break ;
                },
            }
        }
        proof {
            lemma_prefix_len_is(digit_p(), s0, k as nat);
        }
    }

    /// Scans the input for the next ident token, if any.
    fn scan_ident(&mut self) -> (r: Option<Token>)
        requires
            old(self).wf(),
        ensures
            final(self).wf(),
            match spec_scan_ident(old(self).remaining()) {
                Some((tv, rest)) => r matches Some(t) && t@ == tv && final(self).remaining()
                    == rest,
                None => r is None && *final(self) == *old(self),
            },
    {
        let ghost s0 = old(self).remaining();
        let first = match self.peek_char() {
            Some(c) => {
                if is_alphabetic_char(c) {
                    Some(c)
                } else {
                    None
                }
            },
            None => None,
        };
        match first {
            None => None,
            Some(c0) => {
                let mut name = String::new();
                push_char(&mut name, c0);
                self.advance();
                let ghost mut k: int = 1;
                proof {
                    assert(s0.drop_first() =~= s0.skip(1));
                    assert(name@ =~= s0.take(1));
                }
                loop
                    invariant
                        self.wf(),
                        1 <= k <= s0.len(),
                        self.remaining() == s0.skip(k),
                        name@ == s0.take(k),
                        forall|j: int| 1 <= j < k ==> ident_cont_char(s0[j]),
                    ensures
                        self.wf(),
                        1 <= k <= s0.len(),
                        self.remaining() == s0.skip(k),
                        name@ == s0.take(k),
                        forall|j: int| 1 <= j < k ==> ident_cont_char(s0[j]),
                        k < s0.len() ==> !ident_cont_char(s0[k]),
                    decreases s0.len() - k,
                {
                    let cont = match self.peek_char() {
                        Some(c) => {
                            if is_alphanumeric_char(c) {
                                Some(c)
                            } else if c == '_' {
                                Some(c)
                            } else {
                                None
                            }
                        },
                        None => None,
                    };
                    match cont {
                        Some(c) => {
                            proof {
                                assert(s0.skip(k)[0] == s0[k]);
                                assert(s0.skip(k).drop_first() =~= s0.skip(k + 1));
                                assert(s0.take(k).push(s0[k]) =~= s0.take(k + 1));
                            }
                            push_char(&mut name, c);
                            self.advance();
                            proof {
                                k = k + 1;
                            }
                        },
                        None => {
                            proof {
                                if k < s0.len() {
                                    assert(s0.skip(k)[0] == s0[k]);
                                }
                            }
                            break ;
                        },
                    }
                }
                proof {
                    assert forall|j: int| 0 <= j < k - 1 implies ident_cont_p()(
                        s0.skip(1)[j],
                    ) by {
                        assert(s0.skip(1)[j] == s0[j + 1]);
                    }
                    if k < s0.len() {
                        assert(s0.skip(1)[k - 1] == s0[k]);
                    }
                    lemma_prefix_len_is(ident_cont_p(), s0.skip(1), (k - 1) as nat);
                }
                Some(Token::Ident(name))
            },
        }
    }

    /// Scans the input for the next number token, if any.
    #[verifier::rlimit(60)]
    fn scan_number(&mut self) -> (r: Option<Token>)
        requires
            old(self).wf(),
        ensures
            final(self).wf(),
            match spec_scan_number(old(self).remaining()) {
                Some((tv, rest)) => r matches Some(t) && t@ == tv && final(self).remaining()
                    == rest,
                None => r is None && *final(self) == *old(self),
            },
    {
        let ghost s0 = old(self).remaining();
        let starts = match self.peek_char() {
            Some(c) => is_digit_char(c),
            None => false,
        };
        if !starts {
            proof {
                assert(num_int_end(s0) == 0);
            }
            return None;
        }
        let mut num = String::new();
        self.take_digits(&mut num);
        let ghost di: int = num_int_end(s0) as int;
        proof {
            lemma_prefix_len(digit_p(), s0);
            assert(num@ =~= s0.take(di as int));
        }
        // optional fraction: a dot, then any digits
        let has_dot = match self.peek_char() {
            Some(c) => c == '.',
            None => false,
        };
        if has_dot {
            proof {
                assert(s0.skip(di as int)[0] == s0[di as int]);
                assert(s0.skip(di as int).drop_first() =~= s0.skip(di + 1));
            }
            push_char(&mut num, '.');
            self.advance();
            self.take_digits(&mut num);
        }
        let ghost j: int = num_frac_end(s0) as int;
        proof {
            if has_dot {
                let d2 = prefix_len(digit_p(), s0.skip(di + 1));
                lemma_prefix_len(digit_p(), s0.skip(di + 1));
                assert(s0.skip(di + 1).skip(d2 as int) =~= s0.skip(di + 1 + d2));
                assert(s0.take(di as int).push(s0[di as int]) + s0.skip(di + 1).take(d2 as int)
                    =~= s0.take(di + 1 + d2));
                assert(j == di + 1 + d2);
            } else {
                if di < s0.len() {
                    assert(s0.skip(di as int)[0] == s0[di as int]);
                }
                assert(j == di);
            }
            assert(self.remaining() == s0.skip(j as int));
            assert(num@ == s0.take(j as int));
        }
        // optional exponent: e or E, an optional sign, then any digits
        let exp = match self.peek_char() {
            Some(c) => {
                if c == 'e' || c == 'E' {
                    Some(c)
                } else {
                    None
                }
            },
            None => None,
        };
        match exp {
            Some(e) => {
                proof {
                    assert(s0.skip(j as int)[0] == s0[j as int]);
                    assert(s0.skip(j as int).drop_first() =~= s0.skip(j + 1));
                    assert(s0.take(j as int).push(s0[j as int]) =~= s0.take(j + 1));
                }
                push_char(&mut num, e);
                self.advance();
                let sign = match self.peek_char() {
                    Some(c) => {
                        if c == '+' || c == '-' {
                            Some(c)
                        } else {
                            None
                        }
                    },
                    None => None,
                };
                let ghost j2: int = if j + 1 < s0.len() && (s0[j + 1] == '+' || s0[j + 1] == '-') {
                    j + 2
                } else {
                    j + 1
                };
                match sign {
                    Some(sc) => {
                        proof {
                            assert(s0.skip(j + 1)[0] == s0[j + 1]);
                            assert(s0.skip(j + 1).drop_first() =~= s0.skip(j + 2));
                            assert(s0.take(j + 1).push(s0[j + 1]) =~= s0.take(j + 2));
                        }
                        push_char(&mut num, sc);
                        self.advance();
                    },
                    None => {
                        proof {
                            if j + 1 < s0.len() {
                                assert(s0.skip(j + 1)[0] == s0[j + 1]);
                            }
                        }
                    },
                }
                proof {
                    assert(self.remaining() == s0.skip(j2 as int));
                    assert(num@ == s0.take(j2 as int));
                }
                self.take_digits(&mut num);
                proof {
                    let d3 = prefix_len(digit_p(), s0.skip(j2 as int));
                    lemma_prefix_len(digit_p(), s0.skip(j2 as int));
                    assert(s0.skip(j2 as int).skip(d3 as int) =~= s0.skip(j2 + d3));
                    assert(s0.take(j2 as int) + s0.skip(j2 as int).take(d3 as int) =~= s0.take(
                        j2 + d3,
                    ));
                    assert(num_end(s0) == j2 + d3);
                }
            },
            None => {
                proof {
                    if j < s0.len() {
                        assert(s0.skip(j as int)[0] == s0[j as int]);
                    }
                    assert(num_end(s0) == j);
                }
            },
        }
        proof {
            assert(self.remaining() == s0.skip(num_end(s0) as int));
            assert(num@ == s0.take(num_end(s0) as int));
        }
        Some(Token::Number(num))
    }

    /// Scans the input for the next operator token, if any.
    fn scan_operator(&mut self) -> (r: Option<Token>)
        requires
            old(self).wf(),
        ensures
            final(self).wf(),
            ({
                let s0 = old(self).remaining();
                if s0.len() > 0 && spec_operator_token(s0[0]) is Some {
                    r matches Some(t) && t@ == spec_operator_token(s0[0])->0 && final(self).remaining() == s0.skip(1)
                } else {
                    r is None && *final(self) == *old(self)
                }
            }),
    {
        let tok = match self.peek_char() {
            Some(c) => match c {
                '+' => Some(Token::Plus),
                '-' => Some(Token::Minus),
                '*' => Some(Token::Asterisk),
                '/' => Some(Token::Slash),
                '^' => Some(Token::Caret),
                '\u{221A}' => Some(Token::SquareRoot),
                '%' => Some(Token::Percent),
                '!' => Some(Token::Exclamation),
                _ => None,
            },
            None => None,
        };
        if tok.is_some() {
            proof {
                assert(old(self).remaining().drop_first() =~= old(self).remaining().skip(1));
            }
            self.advance();
        }
        tok
    }

    /// Scans the input for the next punctuation token, if any.
    fn scan_punctuation(&mut self) -> (r: Option<Token>)
        requires
            old(self).wf(),
        ensures
            final(self).wf(),
            ({
                let s0 = old(self).remaining();
                if s0.len() > 0 && spec_punctuation_token(s0[0]) is Some {
                    r matches Some(t) && t@ == spec_punctuation_token(s0[0])->0 && final(self).remaining() == s0.skip(1)
                } else {
                    r is None && *final(self) == *old(self)
                }
            }),
    {
        let tok = match self.peek_char() {
            Some(c) => match c {
                '(' => Some(Token::OpenParen),
                ')' => Some(Token::CloseParen),
                ',' => Some(Token::Comma),
                _ => None,
            },
            None => None,
        };
        if tok.is_some() {
            proof {
                assert(old(self).remaining().drop_first() =~= old(self).remaining().skip(1));
            }
            self.advance();
        }
        tok
    }

    /// Scans the input for the next token if any, ignoring leading whitespace.
    fn scan(&mut self) -> (r: Option<Token>)
        requires
            old(self).wf(),
        ensures
            final(self).wf(),
            ({
                let t = old(self).remaining().skip(
                    prefix_len(whitespace_p(), old(self).remaining()) as int,
                );
                match spec_scan(t) {
                    Some((tv, rest)) => r matches Some(tok) && tok@ == tv && final(self).remaining() == rest,
                    None => r is None && final(self).remaining() == t,
                }
            }),
    {
        self.consume_whitespace();
        let r1 = self.scan_ident();
        if r1.is_some() {
            return r1;
        }
        let r2 = self.scan_number();
        if r2.is_some() {
            return r2;
        }
        let r3 = self.scan_operator();
        if r3.is_some() {
            return r3;
        }
        self.scan_punctuation()
    }

    /// Yields the next token: `None` at end of input, otherwise the scanned
    /// token or an error naming the first character that no token can start
    /// with. The offending character is not consumed, so subsequent calls
    /// report it again.
    pub fn next(&mut self) -> (r: Option<Result<Token, Error>>)
        requires
            old(self).wf(),
        ensures
            final(self).wf(),
            ({
                let (item, rest) = spec_next(old(self).remaining());
                final(self).remaining() == rest && match (r, item) {
                    (None, None) => true,
                    (Some(res), Some(iv)) => match (res, iv) {
                        (Ok(tok), Ok(tv)) => tok@ == tv,
                        (Err(e), Err(c)) => e@ == ErrorV::Parse(msg_unexpected_char(c)),
                        _ => false,
                    },
                    _ => false,
                }
            }),
    {
        match self.scan() {
            Some(t) => Some(Ok(t)),
            None => {
                match self.peek_char() {
                    Some(c) => {
                        let mut m = String::from_str("Unexpected character ");
                        push_char(&mut m, c);
                        Some(Err(Error::Parse(m)))
                    },
                    None => None,
                }
            },
        }
    }
}

} // verus!
