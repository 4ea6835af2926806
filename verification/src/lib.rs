//! A verified calculator for integer arithmetic expressions.
//!
//! Input is a stream of statements, each an expression over non-negative
//! integer literals, the binary operators `+ - * /`, and parentheses,
//! terminated by `;`. The pipeline is a byte-level lexer, a recursive-descent
//! parser for the standard precedence grammar (with `*` and `/` binding
//! tighter than `+` and `-`, all operators left-associative), and an
//! evaluator over 32-bit signed integers. Division truncates toward zero;
//! division by zero and any result outside the `i32` range are fatal errors,
//! as are lexical errors, syntax errors, and running out of input.
//!
//! The lexer reads the input as bytes, and whitespace means ASCII
//! whitespace: tab through carriage return, and space. A byte outside the
//! recognized set — including every non-ASCII byte, such as the start of a
//! Unicode space — is a fatal lexical error naming that byte.

pub mod arith;
pub mod ast;
pub mod driver;
pub mod errors;
pub mod laws;
pub mod lexer;
pub mod parser;
pub mod token;
