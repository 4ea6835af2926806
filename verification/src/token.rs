//! Lexical tokens and their mathematical view.

use vstd::prelude::*;

verus! {

/// The kind of a token, with the digit text of a number left out.
/// Error reports name the kinds of the tokens involved.
#[derive(Clone, Copy, Debug, PartialEq, Eq, Structural)]
pub enum TokenKind {
    Number,
    Plus,
    Minus,
    Times,
    Divide,
    LParen,
    RParen,
    Semi,
}

/// A lexical token. `Num` carries the literal digit text as bytes, not yet
/// parsed to an integer, so the lexer stays free of numeric concerns.
#[derive(PartialEq, Eq, Debug)]
pub enum Token {
    Num(Vec<u8>),
    Plus,
    Minus,
    Times,
    Divide,
    LParen,
    RParen,
    Semi,
}

/// The view of a token: the digit text becomes a sequence of bytes.
pub enum TokenV {
    Num(Seq<u8>),
    Plus,
    Minus,
    Times,
    Divide,
    LParen,
    RParen,
    Semi,
}

impl View for Token {
    type V = TokenV;

    open spec fn view(&self) -> TokenV {
        match self {
            Token::Num(t) => TokenV::Num(t@),
            Token::Plus => TokenV::Plus,
            Token::Minus => TokenV::Minus,
            Token::Times => TokenV::Times,
            Token::Divide => TokenV::Divide,
            Token::LParen => TokenV::LParen,
            Token::RParen => TokenV::RParen,
            Token::Semi => TokenV::Semi,
        }
    }
}

/// `b` is the code of a decimal digit.
pub open spec fn is_digit_byte(b: u8) -> bool {
    48 <= b && b <= 57
}

/// A token produced by the lexer is well formed: number text is non-empty
/// and consists of decimal digits only.
pub open spec fn wf_token(t: TokenV) -> bool {
    t matches TokenV::Num(s) ==> s.len() > 0 && (forall|k: int|
        0 <= k < s.len() ==> is_digit_byte(#[trigger] s[k]))
}

/// The kind of a token view.
pub open spec fn token_kind(t: TokenV) -> TokenKind {
    match t {
        TokenV::Num(_) => TokenKind::Number,
        TokenV::Plus => TokenKind::Plus,
        TokenV::Minus => TokenKind::Minus,
        TokenV::Times => TokenKind::Times,
        TokenV::Divide => TokenKind::Divide,
        TokenV::LParen => TokenKind::LParen,
        TokenV::RParen => TokenKind::RParen,
        TokenV::Semi => TokenKind::Semi,
    }
}

impl Token {
    /// The kind of this token.
    pub fn kind(&self) -> (k: TokenKind)
        ensures
            k == token_kind(self@),
    {
        match self {
            Token::Num(_) => TokenKind::Number,
            Token::Plus => TokenKind::Plus,
            Token::Minus => TokenKind::Minus,
            Token::Times => TokenKind::Times,
            Token::Divide => TokenKind::Divide,
            Token::LParen => TokenKind::LParen,
            Token::RParen => TokenKind::RParen,
            Token::Semi => TokenKind::Semi,
        }
    }
}

/// Byte-for-byte equality of two vectors.
fn bytes_eq(x: &Vec<u8>, y: &Vec<u8>) -> (r: bool)
    ensures
        r == (x@ == y@),
{
    if x.len() != y.len() {
        assert(x@ != y@) by {
            assert(x@.len() != y@.len());
        }
        return false;
    }
    let n = x.len();
    let mut i: usize = 0;
    while i < n
        invariant
            n == x@.len() == y@.len(),
            0 <= i <= n,
            forall|k: int| 0 <= k < i ==> x@[k] == y@[k],
        decreases n - i,
    {
        if x[i] != y[i] {
            return false;
        }
        i += 1;
    }
    assert(x@ =~= y@);
    true
}

/// Decides whether two tokens have equal views; number tokens are equal
/// exactly when their digit texts are.
pub fn token_eq(a: &Token, b: &Token) -> (r: bool)
    ensures
        r == (a@ == b@),
{
    match (a, b) {
        (Token::Num(x), Token::Num(y)) => bytes_eq(x, y),
        (Token::Plus, Token::Plus) => true,
        (Token::Minus, Token::Minus) => true,
        (Token::Times, Token::Times) => true,
        (Token::Divide, Token::Divide) => true,
        (Token::LParen, Token::LParen) => true,
        (Token::RParen, Token::RParen) => true,
        (Token::Semi, Token::Semi) => true,
        _ => false,
    }
}

} // verus!
