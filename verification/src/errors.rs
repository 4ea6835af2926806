//! The fatal error classes of the calculator.
//!
//! None of these is recovered from: the driver stops at the first one and the
//! surrounding program terminates with a diagnostic.

use crate::token::TokenKind;
use vstd::prelude::*;

verus! {

/// Everything that can go fatally wrong while lexing, parsing or evaluating.
#[derive(Clone, Copy, Debug, PartialEq, Eq, Structural)]
pub enum CalcError {
    /// The input ended where another token was required.
    EndOfInput,
    /// A byte that starts no token.
    UnrecognizedChar(u8),
    /// The lookahead token did not match what the grammar production
    /// requires; names the expected and the found kind.
    UnexpectedToken { expected: TokenKind, found: TokenKind },
    /// A factor must start with a number or an opening parenthesis.
    ExpectedFactor { found: TokenKind },
    /// A numeric literal that does not fit in `i32`.
    LiteralTooLarge,
    /// Division by zero.
    DivideByZero,
    /// An arithmetic result outside the `i32` range.
    Overflow,
}

} // verus!
