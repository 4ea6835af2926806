//! The lexer: turns the input bytes into tokens, one call at a time.
//!
//! The surrounding program collects the raw input and hands it over as one
//! byte buffer; the lexer keeps an offset into it. Whitespace (including
//! line breaks) only separates tokens, so an expression may span several
//! input lines. Running out of input while a token is required is the fatal
//! `EndOfInput` error.

use crate::errors::CalcError;
use crate::token::{is_digit_byte, wf_token, Token, TokenV};
use vstd::prelude::*;

verus! {

/// `b` is an ASCII whitespace byte: tab, line feed, vertical tab, form
/// feed, carriage return, or space. Only ASCII whitespace separates
/// tokens: the lexer reads bytes, so a multi-byte Unicode space is not
/// skipped — its first byte is an unrecognized-character error.
pub open spec fn is_ws_byte(b: u8) -> bool {
    b == 32 || (9 <= b && b <= 13)
}

/// The end of the run of digit bytes that starts at `i`.
pub open spec fn spec_scan_digits(input: Seq<u8>, i: nat) -> nat
    decreases input.len() - i,
{
    if i < input.len() && is_digit_byte(input[i as int]) {
        spec_scan_digits(input, i + 1)
    } else {
        i
    }
}

/// What one request for a token returns: the token and the offset just past
/// it, or the error that stops everything. Whitespace before the token is
/// skipped; a digit run must be followed by at least one more byte (the
/// lexer looks one byte past a number, and the input ending there is fatal);
/// any other byte is classified alone.
pub open spec fn spec_next_token(input: Seq<u8>, i: nat) -> Result<(TokenV, nat), CalcError>
    decreases input.len() - i,
{
    if i >= input.len() {
        Err(CalcError::EndOfInput)
    } else if is_ws_byte(input[i as int]) {
        spec_next_token(input, i + 1)
    } else if is_digit_byte(input[i as int]) {
        let j = spec_scan_digits(input, i);
        if j >= input.len() {
            Err(CalcError::EndOfInput)
        } else {
            Ok((TokenV::Num(input.subrange(i as int, j as int)), j))
        }
    } else if input[i as int] == 43 {  // '+'
        Ok((TokenV::Plus, i + 1))
    } else if input[i as int] == 45 {  // '-'
        Ok((TokenV::Minus, i + 1))
    } else if input[i as int] == 42 {  // '*'
        Ok((TokenV::Times, i + 1))
    } else if input[i as int] == 47 {  // '/'
        Ok((TokenV::Divide, i + 1))
    } else if input[i as int] == 40 {  // '('
        Ok((TokenV::LParen, i + 1))
    } else if input[i as int] == 41 {  // ')'
        Ok((TokenV::RParen, i + 1))
    } else if input[i as int] == 59 {  // ';'
        Ok((TokenV::Semi, i + 1))
    } else {
        Err(CalcError::UnrecognizedChar(input[i as int]))
    }
}

/// The digit scan stays within the input, moves only forward, and covers
/// digits exactly.
pub proof fn lemma_scan_digits(input: Seq<u8>, i: nat)
    requires
        i <= input.len(),
    ensures
        i <= spec_scan_digits(input, i) <= input.len(),
        forall|k: int|
            i <= k < spec_scan_digits(input, i) ==> is_digit_byte(#[trigger] input[k]),
    decreases input.len() - i,
{
    if i < input.len() && is_digit_byte(input[i as int]) {
        lemma_scan_digits(input, i + 1);
    }
}

/// Where the bytes from `i` up to `j` are digits and the byte at `j` (if
/// any) is not, the digit scan from `i` ends exactly at `j`.
pub proof fn lemma_scan_digits_range(input: Seq<u8>, i: nat, j: nat)
    requires
        i <= j <= input.len(),
        forall|k: int| i <= k < j ==> is_digit_byte(#[trigger] input[k]),
        j == input.len() || !is_digit_byte(input[j as int]),
    ensures
        spec_scan_digits(input, i) == j,
    decreases j - i,
{
    if i < j {
        lemma_scan_digits_range(input, i + 1, j);
    }
}

/// A token that comes back `Ok` is well formed and the offset past it moved
/// strictly forward, but not beyond the input.
pub proof fn lemma_next_token_ok(input: Seq<u8>, i: nat)
    requires
        i <= input.len(),
    ensures
        spec_next_token(input, i) matches Ok((t, j)) ==> i < j <= input.len() && wf_token(t),
    decreases input.len() - i,
{
    if i < input.len() && is_ws_byte(input[i as int]) {
        lemma_next_token_ok(input, i + 1);
    } else if i < input.len() && is_digit_byte(input[i as int]) {
        lemma_scan_digits(input, i);
        lemma_scan_digits(input, i + 1);
        let j = spec_scan_digits(input, i);
        assert(j == spec_scan_digits(input, i + 1));
        if j < input.len() {
            let s = input.subrange(i as int, j as int);
            assert forall|k: int| 0 <= k < s.len() implies is_digit_byte(#[trigger] s[k]) by {
                assert(s[k] == input[i + k]);
            }
        }
    }
}

/// Checks for an ASCII whitespace byte.
fn is_ws(b: u8) -> (r: bool)
    ensures
        r == is_ws_byte(b),
{
    b == 32 || (9 <= b && b <= 13)
}

/// Checks for a decimal digit byte.
fn is_digit(b: u8) -> (r: bool)
    ensures
        r == is_digit_byte(b),
{
    48 <= b && b <= 57
}

/// The lexer state: the input bytes and the offset of the first unconsumed
/// byte.
pub struct Lexer {
    pub buffer: Vec<u8>,
    pub offset: usize,
}

impl Lexer {
    /// Well-formed: the offset lies within the buffer or just past its end.
    pub open spec fn wf(&self) -> bool {
        self.offset <= self.buffer@.len()
    }

    /// The whole input.
    pub open spec fn input(&self) -> Seq<u8> {
        self.buffer@
    }

    /// The current offset.
    pub open spec fn pos(&self) -> nat {
        self.offset as nat
    }

    /// Creates a lexer over the given input bytes.
    pub fn new(input: Vec<u8>) -> (l: Lexer)
        ensures
            l.input() == input@,
            l.pos() == 0,
            l.wf(),
    {
        Lexer { buffer: input, offset: 0 }
    }

    /// The byte at the current offset, or `None` past the end of the input.
    pub fn current(&self) -> (c: Option<u8>)
        ensures
            c == (if self.pos() < self.input().len() {
                Some(self.input()[self.pos() as int])
            } else {
                None::<u8>
            }),
    {
        if self.offset < self.buffer.len() {
            Some(self.buffer[self.offset])
        } else {
            None
        }
    }

    /// Moves one byte forward.
    fn advance(&mut self)
        requires
            old(self).pos() < old(self).input().len(),
        ensures
            final(self).input() == old(self).input(),
            final(self).pos() == old(self).pos() + 1,
    {
        proof {
            vstd::std_specs::vec::axiom_spec_len(&self.buffer);
        }
        self.offset = self.offset + 1;
    }

    /// Returns the next token from the input, advancing past it, or the
    /// fatal error that the input forces at this point.
    #[verifier::loop_isolation(false)]
    pub fn get_token(&mut self) -> (r: Result<Token, CalcError>)
        requires
            old(self).wf(),
        ensures
            final(self).input() == old(self).input(),
            final(self).wf(),
            match r {
                Ok(t) => spec_next_token(old(self).input(), old(self).pos()) == Ok::<
                    (TokenV, nat),
                    CalcError,
                >((t@, final(self).pos())) && old(self).pos() < final(self).pos() && wf_token(t@),
                Err(e) => spec_next_token(old(self).input(), old(self).pos()) == Err::<
                    (TokenV, nat),
                    CalcError,
                >(e),
            },
    {
        let ghost input0 = self.buffer@;
        let ghost i0 = self.offset as nat;
        while self.offset < self.buffer.len() && is_ws(self.buffer[self.offset])
            invariant
                self.buffer@ == input0,
                i0 <= self.offset as nat,
                self.offset <= self.buffer@.len(),
                spec_next_token(input0, i0) == spec_next_token(input0, self.offset as nat),
            decreases self.buffer@.len() - self.offset,
        {
            self.advance();
        }
        if self.offset >= self.buffer.len() {
            return Err(CalcError::EndOfInput);
        }
        let c = self.buffer[self.offset];
        let ghost ws_end = self.offset as nat;
        if is_digit(c) {
            let start_idx = self.offset;
            while self.offset < self.buffer.len() && is_digit(self.buffer[self.offset])
                invariant
                    self.buffer@ == input0,
                    start_idx <= self.offset <= self.buffer@.len(),
                    spec_scan_digits(input0, ws_end) == spec_scan_digits(
                        input0,
                        self.offset as nat,
                    ),
                    forall|k: int|
                        start_idx <= k < self.offset ==> is_digit_byte(#[trigger] input0[k]),
                decreases self.buffer@.len() - self.offset,
            {
                self.advance();
            }
            assert(spec_scan_digits(input0, ws_end) == self.offset as nat);
            if self.offset >= self.buffer.len() {
                return Err(CalcError::EndOfInput);
            }
            let mut text: Vec<u8> = Vec::new();
            let mut k = start_idx;
            while k < self.offset
                invariant
                    start_idx <= k <= self.offset,
                    text@ == input0.subrange(start_idx as int, k as int),
                decreases self.offset - k,
            {
                let b = self.buffer[k];
                text.push(b);
                k += 1;
                proof {
                    assert(text@ =~= input0.subrange(start_idx as int, k as int));
                }
            }
            assert(text@.len() > 0);
            proof {
                assert forall|k: int| 0 <= k < text@.len() implies is_digit_byte(
                    #[trigger] text@[k],
                ) by {
                    assert(text@[k] == input0[start_idx + k]);
                }
            }
            return Ok(Token::Num(text));
        }
        self.advance();
        // one byte, classified as in spec_next_token: + - * / ( ) ;
        match c {
            43 => Ok(Token::Plus),
            45 => Ok(Token::Minus),
            42 => Ok(Token::Times),
            47 => Ok(Token::Divide),
            40 => Ok(Token::LParen),
            41 => Ok(Token::RParen),
            59 => Ok(Token::Semi),
            _ => Err(CalcError::UnrecognizedChar(c)),
        }
    }
}

} // verus!
