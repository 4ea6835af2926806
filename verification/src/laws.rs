//! Laws that hold of whole statements, proved once and for all.
//!
//! Each lemma takes an arbitrary input whose tokens form one statement of a
//! given shape and pins down, from the parser's and evaluator's own
//! specifications, exactly what comes out: the tree built, and its value
//! under exact arithmetic with truncating division.

use crate::arith::{dec_digits, digits_val, lemma_dec_digits};
use crate::ast::{spec_add, spec_div, spec_eval, spec_mul, spec_sub, AST};
use crate::errors::CalcError;
use crate::lexer::{lemma_next_token_ok, lemma_scan_digits_range, spec_next_token};
use crate::parser::{spec_exp, spec_exp_chain, spec_factor, spec_program, spec_term, spec_term_chain};
use crate::token::{is_digit_byte, wf_token, TokenV};
use vstd::prelude::*;

verus! {

/// `op` is one of the four binary operator tokens.
pub open spec fn is_op_token(op: TokenV) -> bool {
    op == TokenV::Plus || op == TokenV::Minus || op == TokenV::Times || op == TokenV::Divide
}

/// The tree of one application of `op` to two literals.
pub open spec fn binop_node(op: TokenV, x: i32, y: i32) -> AST {
    if op == TokenV::Plus {
        AST::Plus(Box::new(AST::Num(x)), Box::new(AST::Num(y)))
    } else if op == TokenV::Minus {
        AST::Minus(Box::new(AST::Num(x)), Box::new(AST::Num(y)))
    } else if op == TokenV::Times {
        AST::Times(Box::new(AST::Num(x)), Box::new(AST::Num(y)))
    } else {
        AST::Divide(Box::new(AST::Num(x)), Box::new(AST::Num(y)))
    }
}

/// The exact arithmetic result of `op` on two values: the true integer
/// result when it fits `i32`, and otherwise the exact error — division
/// truncates toward zero and fails on a zero divisor.
pub open spec fn binop_result(op: TokenV, x: i32, y: i32) -> Result<i32, CalcError> {
    if op == TokenV::Plus {
        spec_add(x, y)
    } else if op == TokenV::Minus {
        spec_sub(x, y)
    } else if op == TokenV::Times {
        spec_mul(x, y)
    } else {
        spec_div(x, y)
    }
}

/// A statement that is one valid literal `a;` parses to the literal tree
/// and evaluates to exactly `a`.
pub proof fn lemma_literal_statement(input: Seq<u8>, s1: Seq<u8>, i0: nat, i1: nat, i2: nat)
    requires
        spec_next_token(input, i0) == Ok::<(TokenV, nat), CalcError>((TokenV::Num(s1), i1)),
        spec_next_token(input, i1) == Ok::<(TokenV, nat), CalcError>((TokenV::Semi, i2)),
        digits_val(s1) <= i32::MAX as int,
    ensures
        spec_program(input, TokenV::Num(s1), i1) == Ok::<(AST, TokenV, nat), CalcError>(
            (AST::Num(digits_val(s1) as i32), TokenV::Semi, i2),
        ),
        spec_eval(AST::Num(digits_val(s1) as i32)) == Ok::<i32, CalcError>(
            digits_val(s1) as i32,
        ),
        digits_val(s1) as i32 == digits_val(s1),
{
    assert(i0 < input.len());
    lemma_next_token_ok(input, i0);
    lemma_next_token_ok(input, i1);
    assert(wf_token(TokenV::Num(s1)));
    crate::arith::lemma_digits_val_nonneg(s1);
    let v1: i32 = digits_val(s1) as i32;
    assert(spec_factor(input, TokenV::Num(s1), i1) == Ok::<(AST, TokenV, nat), CalcError>(
        (AST::Num(v1), TokenV::Semi, i2),
    ));
    assert(spec_term_chain(input, AST::Num(v1), TokenV::Semi, i2) == Ok::<
        (AST, TokenV, nat),
        CalcError,
    >((AST::Num(v1), TokenV::Semi, i2)));
    assert(spec_term(input, TokenV::Num(s1), i1) == Ok::<(AST, TokenV, nat), CalcError>(
        (AST::Num(v1), TokenV::Semi, i2),
    ));
    assert(spec_exp(input, TokenV::Num(s1), i1) == Ok::<(AST, TokenV, nat), CalcError>(
        (AST::Num(v1), TokenV::Semi, i2),
    ));
}

/// A statement that is one valid binary operation `a op b;` parses to the
/// single operator node over the two literals and evaluates to the exact
/// arithmetic result of `op` — with `*` and `/` bound in the term layer and
/// `+` and `-` in the expression layer, the same tree comes out either way.
pub proof fn lemma_binop_statement(
    input: Seq<u8>,
    s1: Seq<u8>,
    s2: Seq<u8>,
    op: TokenV,
    i0: nat,
    i1: nat,
    i2: nat,
    i3: nat,
    i4: nat,
)
    requires
        spec_next_token(input, i0) == Ok::<(TokenV, nat), CalcError>((TokenV::Num(s1), i1)),
        spec_next_token(input, i1) == Ok::<(TokenV, nat), CalcError>((op, i2)),
        is_op_token(op),
        spec_next_token(input, i2) == Ok::<(TokenV, nat), CalcError>((TokenV::Num(s2), i3)),
        spec_next_token(input, i3) == Ok::<(TokenV, nat), CalcError>((TokenV::Semi, i4)),
        digits_val(s1) <= i32::MAX as int,
        digits_val(s2) <= i32::MAX as int,
    ensures
        spec_program(input, TokenV::Num(s1), i1) == Ok::<(AST, TokenV, nat), CalcError>(
            (binop_node(op, digits_val(s1) as i32, digits_val(s2) as i32), TokenV::Semi, i4),
        ),
        spec_eval(binop_node(op, digits_val(s1) as i32, digits_val(s2) as i32)) == binop_result(
            op,
            digits_val(s1) as i32,
            digits_val(s2) as i32,
        ),
        digits_val(s1) as i32 == digits_val(s1),
        digits_val(s2) as i32 == digits_val(s2),
{
    assert(i0 < input.len());
    lemma_next_token_ok(input, i0);
    lemma_next_token_ok(input, i1);
    lemma_next_token_ok(input, i2);
    lemma_next_token_ok(input, i3);
    crate::arith::lemma_digits_val_nonneg(s1);
    crate::arith::lemma_digits_val_nonneg(s2);
    let v1: i32 = digits_val(s1) as i32;
    let v2: i32 = digits_val(s2) as i32;
    let node = binop_node(op, v1, v2);
    assert(spec_factor(input, TokenV::Num(s1), i1) == Ok::<(AST, TokenV, nat), CalcError>(
        (AST::Num(v1), op, i2),
    ));
    assert(spec_factor(input, TokenV::Num(s2), i3) == Ok::<(AST, TokenV, nat), CalcError>(
        (AST::Num(v2), TokenV::Semi, i4),
    ));
    if op == TokenV::Times || op == TokenV::Divide {
        assert(spec_term_chain(input, AST::Num(v2), TokenV::Semi, i4) == Ok::<
            (AST, TokenV, nat),
            CalcError,
        >((AST::Num(v2), TokenV::Semi, i4)));
        assert(spec_term_chain(input, node, TokenV::Semi, i4) == Ok::<
            (AST, TokenV, nat),
            CalcError,
        >((node, TokenV::Semi, i4)));
        assert(spec_term_chain(input, AST::Num(v1), op, i2) == Ok::<
            (AST, TokenV, nat),
            CalcError,
        >((node, TokenV::Semi, i4)));
        assert(spec_term(input, TokenV::Num(s1), i1) == Ok::<(AST, TokenV, nat), CalcError>(
            (node, TokenV::Semi, i4),
        ));
        assert(spec_exp_chain(input, node, TokenV::Semi, i4) == Ok::<
            (AST, TokenV, nat),
            CalcError,
        >((node, TokenV::Semi, i4)));
        assert(spec_exp(input, TokenV::Num(s1), i1) == Ok::<(AST, TokenV, nat), CalcError>(
            (node, TokenV::Semi, i4),
        ));
    } else {
        assert(spec_term_chain(input, AST::Num(v1), op, i2) == Ok::<
            (AST, TokenV, nat),
            CalcError,
        >((AST::Num(v1), op, i2)));
        assert(spec_term(input, TokenV::Num(s1), i1) == Ok::<(AST, TokenV, nat), CalcError>(
            (AST::Num(v1), op, i2),
        ));
        assert(spec_term_chain(input, AST::Num(v2), TokenV::Semi, i4) == Ok::<
            (AST, TokenV, nat),
            CalcError,
        >((AST::Num(v2), TokenV::Semi, i4)));
        assert(spec_term(input, TokenV::Num(s2), i3) == Ok::<(AST, TokenV, nat), CalcError>(
            (AST::Num(v2), TokenV::Semi, i4),
        ));
        assert(spec_exp_chain(input, node, TokenV::Semi, i4) == Ok::<
            (AST, TokenV, nat),
            CalcError,
        >((node, TokenV::Semi, i4)));
        assert(spec_exp_chain(input, AST::Num(v1), op, i2) == Ok::<
            (AST, TokenV, nat),
            CalcError,
        >((node, TokenV::Semi, i4)));
        assert(spec_exp(input, TokenV::Num(s1), i1) == Ok::<(AST, TokenV, nat), CalcError>(
            (node, TokenV::Semi, i4),
        ));
    }
    assert(spec_eval(AST::Num(v1)) == Ok::<i32, CalcError>(v1));
    assert(spec_eval(AST::Num(v2)) == Ok::<i32, CalcError>(v2));
    assert(spec_eval(node) == binop_result(op, v1, v2));
}

/// A whole input holding exactly one statement produces the statement's
/// value and then the error that ends the stream (at the natural end of
/// the input, `EndOfInput`) — or, when the statement's evaluation fails,
/// no value and that failure.
pub proof fn lemma_run_single_statement(
    input: Seq<u8>,
    t0: TokenV,
    i0: nat,
    a: AST,
    j: nat,
    e_end: CalcError,
)
    requires
        spec_next_token(input, 0) == Ok::<(TokenV, nat), CalcError>((t0, i0)),
        spec_program(input, t0, i0) == Ok::<(AST, TokenV, nat), CalcError>(
            (a, TokenV::Semi, j),
        ),
        spec_next_token(input, j) == Err::<(TokenV, nat), CalcError>(e_end),
    ensures
        crate::driver::spec_run(input) == (match spec_eval(a) {
            Ok(v) => (seq![v], e_end),
            Err(e) => (Seq::<i32>::empty(), e),
        }),
{
    lemma_next_token_ok(input, 0);
    match spec_eval(a) {
        Ok(v) => {
            assert(crate::driver::spec_run_loop(input, t0, i0, Seq::<i32>::empty()) == (
                Seq::<i32>::empty().push(v),
                e_end,
            ));
            assert(Seq::<i32>::empty().push(v) =~= seq![v]);
        },
        Err(_) => {},
    }
}

/// The byte that the lexer turns into `op`.
pub open spec fn op_byte(op: TokenV) -> u8 {
    if op == TokenV::Plus {
        43
    } else if op == TokenV::Minus {
        45
    } else if op == TokenV::Times {
        42
    } else {
        47
    }
}

/// The bytes of the statement `a;`.
pub open spec fn literal_input(a: nat) -> Seq<u8> {
    dec_digits(a) + seq![59u8]
}

/// The bytes of the statement `a op b;`.
pub open spec fn binop_input(a: nat, op: TokenV, b: nat) -> Seq<u8> {
    dec_digits(a) + seq![op_byte(op)] + dec_digits(b) + seq![59u8]
}

/// For every value `a` that fits `i32`, running the calculator on the
/// literal bytes of `a;` puts out exactly one value, `a` itself, and then
/// ends at the end of the input.
pub proof fn lemma_literal_input_runs(a: nat)
    requires
        a <= i32::MAX as int,
    ensures
        crate::driver::spec_run(literal_input(a)) == (seq![a as i32], CalcError::EndOfInput),
{
    let input = literal_input(a);
    lemma_dec_digits(a);
    let da = dec_digits(a);
    let la = da.len();
    assert(input.len() == la + 1);
    assert forall|k: int| 0 <= k < la implies input[k] == da[k] by {}
    assert(input[la as int] == 59);
    assert forall|k: int| 0 <= k < la implies is_digit_byte(#[trigger] input[k]) by {
        assert(input[k] == da[k]);
    }
    lemma_scan_digits_range(input, 0, la);
    assert(spec_next_token(input, 0) == Ok::<(TokenV, nat), CalcError>(
        (TokenV::Num(input.subrange(0, la as int)), la),
    ));
    assert(input.subrange(0, la as int) =~= da);
    assert(spec_next_token(input, la) == Ok::<(TokenV, nat), CalcError>((TokenV::Semi, la + 1)));
    assert(spec_next_token(input, la + 1) == Err::<(TokenV, nat), CalcError>(
        CalcError::EndOfInput,
    ));
    lemma_literal_statement(input, da, 0, la, la + 1);
    lemma_run_single_statement(
        input,
        TokenV::Num(da),
        la,
        AST::Num(digits_val(da) as i32),
        la + 1,
        CalcError::EndOfInput,
    );
    assert(Seq::<i32>::empty().push(digits_val(da) as i32) =~= seq![a as i32]);
}

/// For all values `a` and `b` that fit `i32` and every operator, running
/// the calculator on the literal bytes of `a op b;` puts out exactly the
/// arithmetic result — the true integer value under truncating division
/// when it fits `i32` — followed by the end of the input; and exactly the
/// arithmetic error (a zero divisor, or a result outside `i32`) with no
/// output value otherwise.
pub proof fn lemma_binop_input_runs(a: nat, b: nat, op: TokenV)
    requires
        a <= i32::MAX as int,
        b <= i32::MAX as int,
        is_op_token(op),
    ensures
        crate::driver::spec_run(binop_input(a, op, b)) == (match binop_result(
            op,
            a as i32,
            b as i32,
        ) {
            Ok(v) => (seq![v], CalcError::EndOfInput),
            Err(e) => (Seq::<i32>::empty(), e),
        }),
{
    let input = binop_input(a, op, b);
    lemma_dec_digits(a);
    lemma_dec_digits(b);
    let da = dec_digits(a);
    let db = dec_digits(b);
    let la = da.len();
    let lb = db.len();
    assert(input.len() == la + 1 + lb + 1);
    assert forall|k: int| 0 <= k < la implies input[k] == da[k] by {}
    assert(input[la as int] == op_byte(op));
    assert forall|k: int| 0 <= k < lb implies input[la + 1 + k] == db[k] by {}
    assert(input[(la + 1 + lb) as int] == 59);
    assert forall|k: int| 0 <= k < la implies is_digit_byte(#[trigger] input[k]) by {
        assert(input[k] == da[k]);
    }
    assert forall|k: int| la + 1 <= k < la + 1 + lb implies is_digit_byte(
        #[trigger] input[k],
    ) by {
        assert(input[k] == db[k - (la + 1)]);
    }
    assert(!is_digit_byte(op_byte(op)));
    lemma_scan_digits_range(input, 0, la);
    assert(spec_next_token(input, 0) == Ok::<(TokenV, nat), CalcError>(
        (TokenV::Num(input.subrange(0, la as int)), la),
    ));
    assert(input.subrange(0, la as int) =~= da);
    assert(spec_next_token(input, la) == Ok::<(TokenV, nat), CalcError>((op, la + 1)));
    lemma_scan_digits_range(input, la + 1, la + 1 + lb);
    assert(spec_next_token(input, la + 1) == Ok::<(TokenV, nat), CalcError>(
        (TokenV::Num(input.subrange((la + 1) as int, (la + 1 + lb) as int)), la + 1 + lb),
    ));
    assert(input.subrange((la + 1) as int, (la + 1 + lb) as int) =~= db);
    assert(spec_next_token(input, la + 1 + lb) == Ok::<(TokenV, nat), CalcError>(
        (TokenV::Semi, la + 2 + lb),
    ));
    assert(spec_next_token(input, la + 2 + lb) == Err::<(TokenV, nat), CalcError>(
        CalcError::EndOfInput,
    ));
    lemma_binop_statement(input, da, db, op, 0, la, la + 1, la + 1 + lb, la + 2 + lb);
    let node = binop_node(op, digits_val(da) as i32, digits_val(db) as i32);
    lemma_run_single_statement(
        input,
        TokenV::Num(da),
        la,
        node,
        la + 2 + lb,
        CalcError::EndOfInput,
    );
    assert(digits_val(da) as i32 == a as i32);
    assert(digits_val(db) as i32 == b as i32);
}

} // verus!
