//! Arbitrary-precision integers, borrowed from `num_bigint`, seen by the
//! proofs as mathematical integers.

use vstd::arithmetic::power::pow;
use vstd::prelude::*;

use num_bigint::BigInt;
use std::cmp::Ordering;

verus! {

#[verifier::external_type_specification]
#[verifier::external_body]
pub struct ExBigInt(BigInt);

/// The integer that a `BigInt` holds.
pub uninterp spec fn big_val(b: BigInt) -> int;

/// The character of a decimal digit `d` (`0 <= d < 10`).
pub open spec fn digit_char(d: int) -> char {
    seq!['0', '1', '2', '3', '4', '5', '6', '7', '8', '9'][d]
}

/// The decimal digits of `n`, most significant first, with no leading zero.
pub open spec fn digits_of(n: nat) -> Seq<char>
    decreases n,
{
    if n < 10 {
        seq![digit_char(n as int)]
    } else {
        digits_of(n / 10).push(digit_char((n % 10) as int))
    }
}

/// The decimal notation of `v`: its digits, after a minus sign if negative.
pub open spec fn decimal(v: int) -> Seq<char> {
    if v < 0 {
        seq!['-'] + digits_of((-v) as nat)
    } else {
        digits_of(v as nat)
    }
}

/// How many decimal digits `n` has (zero has one).
pub open spec fn digit_len(n: nat) -> nat
    decreases n,
{
    if n < 10 {
        1
    } else {
        1 + digit_len(n / 10)
    }
}

pub proof fn lemma_digits_len(n: nat)
    ensures
        digits_of(n).len() == digit_len(n),
    decreases n,
{
    if n >= 10 {
        lemma_digits_len(n / 10);
    }
}

/// A number below `10^k` has at most `k` digits.
pub proof fn lemma_digit_len_bound(n: nat, k: nat)
    requires
        k >= 1,
        n < pow(10, k),
    ensures
        digit_len(n) <= k,
    decreases k,
{
    if n >= 10 {
        reveal(pow);
        assert(pow(10, k) == 10 * pow(10, (k - 1) as nat));
        if k == 1 {
            assert(pow(10, 0) == 1);
        } else {
            lemma_digit_len_bound(n / 10, (k - 1) as nat);
        }
    }
}

/// Relies on `From<i128> for BigInt`: the same integer.
#[verifier::external_body]
pub(crate) fn big_from(x: i128) -> (r: BigInt)
    ensures
        big_val(r) == x,
{
    BigInt::from(x)
}

/// Relies on `Clone for BigInt`: the same integer.
pub assume_specification[ <BigInt as Clone>::clone ](b: &BigInt) -> (r: BigInt)
    ensures
        big_val(r) == big_val(*b),
;

/// Relies on `Add for &BigInt`: the exact sum.
#[verifier::external_body]
pub(crate) fn big_add(a: &BigInt, b: &BigInt) -> (r: BigInt)
    ensures
        big_val(r) == big_val(*a) + big_val(*b),
{
    a + b
}

/// Relies on `Sub for &BigInt`: the exact difference.
#[verifier::external_body]
pub(crate) fn big_sub(a: &BigInt, b: &BigInt) -> (r: BigInt)
    ensures
        big_val(r) == big_val(*a) - big_val(*b),
{
    a - b
}

/// Relies on `Mul for &BigInt`: the exact product.
#[verifier::external_body]
pub(crate) fn big_mul(a: &BigInt, b: &BigInt) -> (r: BigInt)
    ensures
        big_val(r) == big_val(*a) * big_val(*b),
{
    a * b
}

/// Relies on `num_traits::Pow<u64> for &BigInt`: `a` raised to `e`, where
/// anything raised to zero is one.
#[verifier::external_body]
pub(crate) fn big_pow(a: &BigInt, e: u64) -> (r: BigInt)
    ensures
        big_val(r) == pow(big_val(*a), e as nat),
{
    num_traits::Pow::pow(a, e)
}

/// Relies on `Ord for BigInt`: the numeric order.
#[verifier::external_body]
pub(crate) fn big_cmp(a: &BigInt, b: &BigInt) -> (r: Ordering)
    ensures
        (r == Ordering::Less) == (big_val(*a) < big_val(*b)),
        (r == Ordering::Equal) == (big_val(*a) == big_val(*b)),
        (r == Ordering::Greater) == (big_val(*a) > big_val(*b)),
{
    a.cmp(b)
}

/// Relies on `BigInt::to_str_radix` with radix 10: the decimal notation.
#[verifier::external_body]
pub(crate) fn big_to_decimal(a: &BigInt) -> (r: String)
    ensures
        r@ == decimal(big_val(*a)),
{
    a.to_str_radix(10)
}

} // verus!
