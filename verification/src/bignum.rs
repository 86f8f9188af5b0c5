//! Arbitrary-precision naturals: `num_bigint::BigUint` and the arithmetic
//! this crate performs on it.
//!
//! Verus does not look inside a `BigUint`. Each operation below is a thin
//! call into `num-bigint` or `num-traits` whose contract is taken on trust;
//! everything else in the crate is proved from these contracts.

use num_bigint::BigUint;
use num_traits::Euclid;
use num_traits::One;
use vstd::arithmetic::power2::pow2;
use vstd::arithmetic::power::pow;
use vstd::prelude::*;

verus! {

/// `num_bigint::BigUint`, a natural number of any size. Nothing inside it
/// is visible here; `digits` names what it holds.
#[verifier::external_type_specification]
#[verifier::external_body]
pub struct ExBigUint(num_bigint::BigUint);

/// The base 2^32 digits of a big natural, least significant first, as
/// `BigUint::to_u32_digits` lists them.
pub uninterp spec fn digits(n: BigUint) -> Seq<u32>;

/// The natural number that a little-endian sequence of base 2^32 digits denotes.
pub open spec fn digits_value(s: Seq<u32>) -> nat
    decreases s.len(),
{
    if s.len() == 0 {
        0
    } else {
        s[0] as nat + 0x1_0000_0000 * digits_value(s.drop_first())
    }
}

/// The natural number that a `BigUint` holds.
pub open spec fn value(n: BigUint) -> nat {
    digits_value(digits(n))
}

/// Bitwise OR of two naturals.
pub open spec fn nat_or(a: nat, b: nat) -> nat
    decreases a + b,
{
    if a == 0 && b == 0 {
        0
    } else {
        2 * nat_or(a / 2, b / 2) + if a % 2 == 1 || b % 2 == 1 {
            1nat
        } else {
            0nat
        }
    }
}

/// `BigUint::from` on a `u64`: the big natural with the same value.
#[verifier::external_body]
pub(crate) fn from_u64(x: u64) -> (r: BigUint)
    ensures
        value(r) == x,
{
    BigUint::from(x)
}

/// `num_traits::One::one` for `BigUint`: the big natural 1.
#[verifier::external_body]
pub(crate) fn one() -> (r: BigUint)
    ensures
        value(r) == 1,
{
    BigUint::one()
}

/// `Clone::clone` on a `BigUint`: a second big natural with the same digits.
#[verifier::external_body]
pub(crate) fn duplicate(n: &BigUint) -> (r: BigUint)
    ensures
        digits(r) == digits(*n),
{
    n.clone()
}

/// `==` on `BigUint`: true exactly when both hold the same number. The type
/// keeps its digits without leading zeros, so equal digits mean equal values.
#[verifier::external_body]
pub(crate) fn equal(a: &BigUint, b: &BigUint) -> (r: bool)
    ensures
        r == (value(*a) == value(*b)),
{
    a == b
}

/// `&a + &b` on `BigUint`: the sum.
#[verifier::external_body]
pub(crate) fn sum(a: &BigUint, b: &BigUint) -> (r: BigUint)
    ensures
        value(r) == value(*a) + value(*b),
{
    a + b
}

/// `&a - &b` on `BigUint`: the difference. The subtraction panics when `b`
/// is the larger, which the precondition rules out.
#[verifier::external_body]
pub(crate) fn difference(a: &BigUint, b: &BigUint) -> (r: BigUint)
    requires
        value(*b) <= value(*a),
    ensures
        value(r) == value(*a) - value(*b),
{
    a - b
}

/// `&a * &b` on `BigUint`: the product.
#[verifier::external_body]
pub(crate) fn product(a: &BigUint, b: &BigUint) -> (r: BigUint)
    ensures
        value(r) == value(*a) * value(*b),
{
    a * b
}

/// `num_traits::Euclid::div_euclid` on `BigUint`: the quotient rounded down.
/// It panics on a zero divisor, which the precondition rules out.
#[verifier::external_body]
pub(crate) fn quotient(a: &BigUint, b: &BigUint) -> (r: BigUint)
    requires
        value(*b) != 0,
    ensures
        value(r) == value(*a) / value(*b),
{
    a.div_euclid(b)
}

/// `num_traits::Euclid::rem_euclid` on `BigUint`: the remainder of the
/// division. It panics on a zero divisor, which the precondition rules out.
#[verifier::external_body]
pub(crate) fn remainder(a: &BigUint, b: &BigUint) -> (r: BigUint)
    requires
        value(*b) != 0,
    ensures
        value(r) == value(*a) % value(*b),
{
    a.rem_euclid(b)
}

/// `BigUint::modpow`: `base` raised to `exponent`, reduced modulo `modulus`.
/// It panics on a zero modulus, which the precondition rules out.
#[verifier::external_body]
pub(crate) fn modpow(base: &BigUint, exponent: &BigUint, modulus: &BigUint) -> (r: BigUint)
    requires
        value(*modulus) != 0,
    ensures
        value(r) == pow(value(*base) as int, value(*exponent)) % (value(*modulus) as int),
{
    base.modpow(exponent, modulus)
}

/// `n << k` on `BigUint`: `n` times two to the `k`. The shift converts the
/// whole-digit part of `k` to `usize` and panics when that does not fit.
#[verifier::external_body]
pub(crate) fn shifted_left(n: &BigUint, k: u64) -> (r: BigUint)
    requires
        k / 32 <= usize::MAX,
    ensures
        value(r) == value(*n) * pow2(k as nat),
{
    n << k
}

/// `&a | &b` on `BigUint`: the bitwise OR of the two numbers.
#[verifier::external_body]
pub(crate) fn bit_or(a: &BigUint, b: &BigUint) -> (r: BigUint)
    ensures
        value(r) == nat_or(value(*a), value(*b)),
{
    a | b
}

} // verus!
