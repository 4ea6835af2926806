//! Integer arithmetic: the value of a digit string, and truncating division.

use crate::errors::CalcError;
use crate::token::is_digit_byte;
use vstd::arithmetic::div_mod::{
    lemma_div_decreases, lemma_div_is_ordered_by_denominator, lemma_div_nonincreasing,
    lemma_fundamental_div_mod,
};
use vstd::prelude::*;

verus! {

/// `v` fits in a 32-bit signed integer.
pub open spec fn in_i32(v: int) -> bool {
    i32::MIN as int <= v && v <= i32::MAX as int
}

/// The numeric value of one digit byte.
pub open spec fn digit_val(b: u8) -> int {
    b - 48
}

/// The value of a digit string read left to right in base ten.
pub open spec fn digits_val(s: Seq<u8>) -> int
    decreases s.len(),
{
    if s.len() == 0 {
        0
    } else {
        digits_val(s.drop_last()) * 10 + digit_val(s.last())
    }
}

/// A digit string has a non-negative value.
pub proof fn lemma_digits_val_nonneg(s: Seq<u8>)
    requires
        forall|k: int| 0 <= k < s.len() ==> is_digit_byte(#[trigger] s[k]),
    ensures
        digits_val(s) >= 0,
    decreases s.len(),
{
    if s.len() > 0 {
        lemma_digits_val_nonneg(s.drop_last());
    }
}

/// Extending a digit string cannot shrink its value: the value of a prefix
/// is at most the value of the whole string.
pub proof fn lemma_digits_val_prefix_le(s: Seq<u8>, i: int)
    requires
        0 <= i <= s.len(),
        forall|k: int| 0 <= k < s.len() ==> is_digit_byte(#[trigger] s[k]),
    ensures
        digits_val(s.take(i)) <= digits_val(s),
    decreases s.len() - i,
{
    if i == s.len() {
        assert(s.take(i) =~= s);
    } else {
        assert(s.take(i + 1).drop_last() =~= s.take(i));
        assert(forall|k: int|
            0 <= k < s.take(i).len() ==> is_digit_byte(#[trigger] s.take(i)[k]));
        lemma_digits_val_nonneg(s.take(i));
        assert(digits_val(s.take(i + 1)) == digits_val(s.take(i)) * 10 + digit_val(s[i]));
        lemma_digits_val_prefix_le(s, i + 1);
    }
}

/// Parses a digit string to its `i32` value; a string whose value exceeds
/// `i32::MAX` is a fatal `LiteralTooLarge` (the grammar has no sign, so no
/// literal is negative).
pub fn parse_literal(text: &Vec<u8>) -> (r: Result<i32, CalcError>)
    requires
        text@.len() > 0,
        forall|k: int| 0 <= k < text@.len() ==> is_digit_byte(#[trigger] text@[k]),
    ensures
        match r {
            Ok(v) => digits_val(text@) <= i32::MAX as int && v as int == digits_val(text@),
            Err(e) => e == CalcError::LiteralTooLarge && digits_val(text@) > i32::MAX as int,
        },
{
    let n = text.len();
    let mut acc: u64 = 0;
    let mut i: usize = 0;
    while i < n
        invariant
            n == text@.len(),
            0 <= i <= n,
            forall|k: int| 0 <= k < text@.len() ==> is_digit_byte(#[trigger] text@[k]),
            acc as int == digits_val(text@.take(i as int)),
            acc <= 0x7fff_ffff,
        decreases n - i,
    {
        let d = text[i];
        acc = acc * 10 + ((d - 48) as u64);
        proof {
            assert(text@.take(i + 1).drop_last() =~= text@.take(i as int));
        }
        i += 1;
        if acc > 0x7fff_ffff {
            proof {
                lemma_digits_val_prefix_le(text@, i as int);
            }
            return Err(CalcError::LiteralTooLarge);
        }
    }
    proof {
        assert(text@.take(n as int) =~= text@);
    }
    Ok(acc as i32)
}

/// The decimal digit string of `n`, most significant digit first, without
/// a sign and without leading zeros (a lone zero for `n == 0`).
pub open spec fn dec_digits(n: nat) -> Seq<u8>
    decreases n,
{
    if n < 10 {
        seq![(48 + n) as u8]
    } else {
        dec_digits(n / 10).push((48 + n % 10) as u8)
    }
}

/// The digit string of `n` is non-empty, holds digits only, and reads back
/// to `n`.
pub proof fn lemma_dec_digits(n: nat)
    ensures
        dec_digits(n).len() >= 1,
        forall|k: int| 0 <= k < dec_digits(n).len() ==> is_digit_byte(#[trigger] dec_digits(n)[k]),
        digits_val(dec_digits(n)) == n,
    decreases n,
{
    if n < 10 {
        let s = dec_digits(n);
        assert(s.drop_last() =~= Seq::<u8>::empty());
        assert(s.last() == (48 + n) as u8);
        assert(digits_val(s) == digits_val(s.drop_last()) * 10 + digit_val(s.last()));
        assert(digits_val(Seq::<u8>::empty()) == 0);
        assert(digit_val((48 + n) as u8) == n);
    } else {
        lemma_div_decreases(n as int, 10);
        lemma_dec_digits(n / 10);
        let s = dec_digits(n / 10);
        let d = (48 + n % 10) as u8;
        assert(dec_digits(n) == s.push(d));
        assert(s.push(d).drop_last() =~= s);
        assert(s.push(d).last() == d);
        assert(digits_val(s.push(d)) == digits_val(s) * 10 + digit_val(d));
        assert(digit_val(d) == n % 10);
        lemma_fundamental_div_mod(n as int, 10);
        assert(digits_val(s.push(d)) == (n / 10) * 10 + n % 10);
        assert forall|k: int| 0 <= k < dec_digits(n).len() implies is_digit_byte(
            #[trigger] dec_digits(n)[k],
        ) by {
            if k < s.len() {
                assert(dec_digits(n)[k] == s[k]);
            } else {
                assert(dec_digits(n)[k] == d);
            }
        }
    }
}

/// The absolute value of an integer.
pub open spec fn int_abs(a: int) -> int {
    if a >= 0 {
        a
    } else {
        -a
    }
}

/// The quotient of division truncating toward zero, the semantics machine
/// integers give to `/`. (The `/` on `int` below rounds toward negative
/// infinity; on the absolute values the two agree.)
pub open spec fn trunc_div(a: int, b: int) -> int
    recommends
        b != 0,
{
    if (a >= 0) == (b >= 0) {
        int_abs(a) / int_abs(b)
    } else {
        -(int_abs(a) / int_abs(b))
    }
}

/// Truncating `i32` division. The one quotient outside the `i32` range,
/// `i32::MIN / -1`, is excluded by the caller.
pub fn div_trunc(x: i32, y: i32) -> (q: i32)
    requires
        y != 0,
        !(x == i32::MIN && y == -1),
    ensures
        q as int == trunc_div(x as int, y as int),
        in_i32(trunc_div(x as int, y as int)),
{
    let neg: bool = (x < 0) != (y < 0);
    let ax: u64 = if x >= 0 {
        x as u64
    } else {
        (-(x as i64)) as u64
    };
    let ay: u64 = if y >= 0 {
        y as u64
    } else {
        (-(y as i64)) as u64
    };
    assert(ax as int == int_abs(x as int));
    assert(ay as int == int_abs(y as int));
    let uq: u64 = ax / ay;
    proof {
        lemma_div_nonincreasing(ax as int, ay as int);
        if x == i32::MIN && !neg {
            // both negative, and y <= -2, so the quotient is at most 2^30
            lemma_div_is_ordered_by_denominator(ax as int, 2, ay as int);
        }
    }
    if neg {
        (-(uq as i64)) as i32
    } else {
        uq as i32
    }
}

} // verus!
