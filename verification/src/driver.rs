//! The driver: parses, evaluates and collects every statement in order.
//!
//! One statement is parsed, evaluated, and its value recorded, before the
//! lookahead moves past the terminating `;`; so everything computed before
//! the first fatal error is kept. The stream only ends by failing: once the
//! last statement is done, fetching the next token runs out of input, which
//! is the `EndOfInput` error — the surrounding process terminates on it,
//! after printing the collected values.

use crate::ast::{evaluate, spec_eval};
use crate::errors::CalcError;
use crate::lexer::{spec_next_token, Lexer};
use crate::parser::{spec_program, step_pos, Parser};
use crate::token::TokenV;
use vstd::prelude::*;

verus! {

/// What the driver produces from the state `(t, i)` onward, with `acc` the
/// values already computed: the values of all further statements up to, and
/// the error at, the first failure.
pub open spec fn spec_run_loop(input: Seq<u8>, t: TokenV, i: nat, acc: Seq<i32>) -> (
    Seq<i32>,
    CalcError,
)
    decreases input.len() - i,
{
    match spec_program(input, t, i) {
        Err(e) => (acc, e),
        Ok((a, t2, j2)) => match spec_eval(a) {
            Err(e) => (acc, e),
            Ok(v) => match spec_next_token(input, j2) {
                Err(e) => (acc.push(v), e),
                // a statement can only parse with input left at `i`, so the
                // bound check merely keeps the recursion measure decreasing
                Ok((t3, j3)) => if i < input.len() {
                    spec_run_loop(input, t3, step_pos(input, i, j3), acc.push(v))
                } else {
                    (acc.push(v), CalcError::EndOfInput)
                },
            },
        },
    }
}

/// What running the calculator on `input` produces: the values of the
/// statements before the first fatal error, in order, and that error.
pub open spec fn spec_run(input: Seq<u8>) -> (Seq<i32>, CalcError) {
    match spec_next_token(input, 0) {
        Err(e) => (Seq::<i32>::empty(), e),
        Ok((t, i)) => spec_run_loop(input, t, i, Seq::<i32>::empty()),
    }
}

/// Runs the calculator over the whole input: the value of each statement in
/// order up to the first fatal error, and that error. Reaching the end of
/// the input after the last statement is itself the fatal `EndOfInput`.
#[verifier::loop_isolation(false)]
pub fn run(input: Vec<u8>) -> (r: (Vec<i32>, CalcError))
    ensures
        r.0@ == spec_run(input@).0,
        r.1 == spec_run(input@).1,
{
    let lex = Lexer::new(input);
    let ghost inp = lex.input();
    let mut out: Vec<i32> = Vec::new();
    let mut parser = match Parser::new(lex) {
        Ok(p) => p,
        Err(e) => return (out, e),
    };
    loop
        invariant
            parser.wf(),
            parser.input() == inp,
            spec_run(inp) == spec_run_loop(inp, parser.lookahead(), parser.pos(), out@),
        decreases inp.len() - parser.pos(),
    {
        let a = match parser.program() {
            Ok(a) => a,
            Err(e) => return (out, e),
        };
        let v = match evaluate(a) {
            Ok(v) => v,
            Err(e) => return (out, e),
        };
        out.push(v);
        match parser.get_token() {
            Ok(_) => {},
            Err(e) => return (out, e),
        }
    }
}

} // verus!
