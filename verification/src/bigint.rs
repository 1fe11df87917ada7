//! Arbitrary-precision integers: the words of the constant segments, of the
//! bytecode and of immediate operands. The integers are those of
//! `num_bigint`; this module states what the library relies on.

use vstd::prelude::*;
use num_bigint::BigInt;
use num_traits::ToPrimitive;
use num_traits::Zero;

verus! {

/// `BigInt` of `num_bigint`.
#[verifier::external_type_specification]
#[verifier::external_body]
pub struct ExBigInt(BigInt);

/// The mathematical integer that a `BigInt` holds.
pub uninterp spec fn bigint_value(b: BigInt) -> int;

/// The character of the decimal digit `d`.
pub open spec fn digit_char(d: nat) -> char {
    if d == 0 {
        '0'
    } else if d == 1 {
        '1'
    } else if d == 2 {
        '2'
    } else if d == 3 {
        '3'
    } else if d == 4 {
        '4'
    } else if d == 5 {
        '5'
    } else if d == 6 {
        '6'
    } else if d == 7 {
        '7'
    } else if d == 8 {
        '8'
    } else {
        '9'
    }
}

/// The decimal digits of a number, the most significant first, without
/// leading zeros; the one digit `0` for zero.
pub open spec fn decimal_digits(n: nat) -> Seq<char>
    decreases n,
{
    if n < 10 {
        seq![digit_char(n)]
    } else {
        decimal_digits(n / 10).push(digit_char(n % 10))
    }
}

/// The decimal text of an integer: its digits, behind a `-` where it is
/// negative.
pub open spec fn decimal_text(v: int) -> Seq<char> {
    if v < 0 {
        seq!['-'] + decimal_digits((-v) as nat)
    } else {
        decimal_digits(v as nat)
    }
}

/// The integers that a sequence of `BigInt`s holds.
pub open spec fn bigint_values(s: Seq<BigInt>) -> Seq<int> {
    s.map_values(|b: BigInt| bigint_value(b))
}

/// `BigInt::zero` of `num_traits::Zero`: the integer 0.
#[verifier::external_body]
pub(crate) fn bigint_zero() -> (r: BigInt)
    ensures
        bigint_value(r) == 0,
{
    BigInt::zero()
}

/// `BigInt::from` on a `usize`: the same number.
#[verifier::external_body]
pub(crate) fn bigint_from_usize(n: usize) -> (r: BigInt)
    ensures
        bigint_value(r) == n,
{
    BigInt::from(n)
}

/// `ToPrimitive::to_usize`: the number where it is in the range of `usize`,
/// `None` where it is negative or too large.
#[verifier::external_body]
pub(crate) fn bigint_to_usize(b: &BigInt) -> (r: Option<usize>)
    ensures
        r == (if 0 <= bigint_value(*b) <= usize::MAX {
            Some(bigint_value(*b) as usize)
        } else {
            None
        }),
{
    b.to_usize()
}

/// `Clone::clone` of `BigInt`: an equal integer.
pub assume_specification[ <BigInt as Clone>::clone ](b: &BigInt) -> (r: BigInt)
    ensures
        r == *b,
;

/// `PartialEq::eq` of `BigInt`: whether the two are the same integer.
#[verifier::external_body]
pub(crate) fn bigint_eq(a: &BigInt, b: &BigInt) -> (r: bool)
    ensures
        r == (*a == *b),
{
    a == b
}

/// The `BigInt` that the sum of a `BigInt` and a number is.
pub uninterp spec fn bigint_sum(b: BigInt, delta: i128) -> BigInt;

/// `Add<i128>` of `BigInt`: the integer that is the sum; the sum cannot
/// overflow.
#[verifier::external_body]
pub(crate) fn bigint_add_i128(b: &BigInt, delta: i128) -> (r: BigInt)
    ensures
        r == bigint_sum(*b, delta),
        bigint_value(r) == bigint_value(*b) + delta,
{
    b + delta
}

/// `ToString::to_string` of `BigInt`: the decimal text of the integer.
#[verifier::external_body]
pub(crate) fn bigint_to_text(b: &BigInt) -> (r: String)
    ensures
        r@ == decimal_text(bigint_value(*b)),
{
    b.to_string()
}

/// A copy of a vector of integers.
pub fn clone_bigints(v: &Vec<BigInt>) -> (r: Vec<BigInt>)
    ensures
        r@ == v@,
{
    let mut out: Vec<BigInt> = Vec::new();
    let mut i: usize = 0;
    while i < v.len()
        invariant
            i <= v.len(),
            out@ == v@.take(i as int),
        decreases v.len() - i,
    {
        out.push(v[i].clone());
        i += 1;
    }
    out
}

} // verus!
