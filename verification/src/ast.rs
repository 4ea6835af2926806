//! The abstract syntax tree of an expression, and its evaluation.

use crate::arith::{div_trunc, in_i32, trunc_div};
use crate::errors::CalcError;
use vstd::prelude::*;

verus! {

/// An expression: an `i32` literal, or a binary operator applied to two
/// subexpressions. Built bottom-up by the parser, consumed by `evaluate`.
#[derive(Debug, PartialEq, Eq)]
pub enum AST {
    Num(i32),
    Plus(Box<AST>, Box<AST>),
    Minus(Box<AST>, Box<AST>),
    Times(Box<AST>, Box<AST>),
    Divide(Box<AST>, Box<AST>),
}

/// Addition that fails on a result outside the `i32` range.
pub open spec fn spec_add(x: i32, y: i32) -> Result<i32, CalcError> {
    if in_i32(x + y) {
        Ok((x + y) as i32)
    } else {
        Err(CalcError::Overflow)
    }
}

/// Subtraction that fails on a result outside the `i32` range.
pub open spec fn spec_sub(x: i32, y: i32) -> Result<i32, CalcError> {
    if in_i32(x - y) {
        Ok((x - y) as i32)
    } else {
        Err(CalcError::Overflow)
    }
}

/// Multiplication that fails on a result outside the `i32` range.
pub open spec fn spec_mul(x: i32, y: i32) -> Result<i32, CalcError> {
    if in_i32(x * y) {
        Ok((x * y) as i32)
    } else {
        Err(CalcError::Overflow)
    }
}

/// Division truncating toward zero; division by zero is fatal, as is the one
/// quotient outside the `i32` range.
pub open spec fn spec_div(x: i32, y: i32) -> Result<i32, CalcError> {
    if y == 0 {
        Err(CalcError::DivideByZero)
    } else if in_i32(trunc_div(x as int, y as int)) {
        Ok(trunc_div(x as int, y as int) as i32)
    } else {
        Err(CalcError::Overflow)
    }
}

/// The value of an expression: a post-order walk computing each operator on
/// the values of its children, stopping at the first error. The left child
/// is evaluated before the right one.
pub open spec fn spec_eval(a: AST) -> Result<i32, CalcError>
    decreases a,
{
    match a {
        AST::Num(x) => Ok(x),
        AST::Plus(l, r) => match (spec_eval(*l), spec_eval(*r)) {
            (Err(e), _) => Err(e),
            (Ok(_), Err(e)) => Err(e),
            (Ok(x), Ok(y)) => spec_add(x, y),
        },
        AST::Minus(l, r) => match (spec_eval(*l), spec_eval(*r)) {
            (Err(e), _) => Err(e),
            (Ok(_), Err(e)) => Err(e),
            (Ok(x), Ok(y)) => spec_sub(x, y),
        },
        AST::Times(l, r) => match (spec_eval(*l), spec_eval(*r)) {
            (Err(e), _) => Err(e),
            (Ok(_), Err(e)) => Err(e),
            (Ok(x), Ok(y)) => spec_mul(x, y),
        },
        AST::Divide(l, r) => match (spec_eval(*l), spec_eval(*r)) {
            (Err(e), _) => Err(e),
            (Ok(_), Err(e)) => Err(e),
            (Ok(x), Ok(y)) => spec_div(x, y),
        },
    }
}

/// Recursively evaluates the expression tree.
pub fn evaluate(a: AST) -> (r: Result<i32, CalcError>)
    ensures
        r == spec_eval(a),
    decreases a,
{
    match a {
        AST::Num(x) => Ok(x),
        AST::Plus(l, r) => {
            let x = match evaluate(*l) {
                Ok(v) => v,
                Err(e) => return Err(e),
            };
            let y = match evaluate(*r) {
                Ok(v) => v,
                Err(e) => return Err(e),
            };
            let s: i64 = (x as i64) + (y as i64);
            if s < -2147483648i64 || s > 2147483647i64 {
                Err(CalcError::Overflow)
            } else {
                Ok(s as i32)
            }
        },
        AST::Minus(l, r) => {
            let x = match evaluate(*l) {
                Ok(v) => v,
                Err(e) => return Err(e),
            };
            let y = match evaluate(*r) {
                Ok(v) => v,
                Err(e) => return Err(e),
            };
            let s: i64 = (x as i64) - (y as i64);
            if s < -2147483648i64 || s > 2147483647i64 {
                Err(CalcError::Overflow)
            } else {
                Ok(s as i32)
            }
        },
        AST::Times(l, r) => {
            let x = match evaluate(*l) {
                Ok(v) => v,
                Err(e) => return Err(e),
            };
            let y = match evaluate(*r) {
                Ok(v) => v,
                Err(e) => return Err(e),
            };
            proof {
                assert((x as int) * (y as int) <= 0x4000_0000_0000_0000 && (x as int) * (y
                    as int) >= -0x4000_0000_0000_0000) by (nonlinear_arith)
                    requires
                        -0x8000_0000 <= x as int <= 0x7fff_ffff,
                        -0x8000_0000 <= y as int <= 0x7fff_ffff,
                ;
            }
            let s: i64 = (x as i64) * (y as i64);
            if s < -2147483648i64 || s > 2147483647i64 {
                Err(CalcError::Overflow)
            } else {
                Ok(s as i32)
            }
        },
        AST::Divide(l, r) => {
            let x = match evaluate(*l) {
                Ok(v) => v,
                Err(e) => return Err(e),
            };
            let y = match evaluate(*r) {
                Ok(v) => v,
                Err(e) => return Err(e),
            };
            if y == 0 {
                Err(CalcError::DivideByZero)
            } else if x == i32::MIN && y == -1 {
                assert(!in_i32(trunc_div(x as int, y as int)));
                Err(CalcError::Overflow)
            } else {
                Ok(div_trunc(x, y))
            }
        },
    }
}

} // verus!
