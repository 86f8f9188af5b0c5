//! The greatest common divisor and Bezout's identity.

use crate::congruence::lemma_multiple_remainder;
use crate::congruence::lemma_remainder_gap;
use crate::congruence::lemma_same_remainder;
use vstd::arithmetic::div_mod::lemma_fundamental_div_mod;
use vstd::prelude::*;

verus! {

/// The greatest common divisor, by Euclid's recursion; `gcd(a, 0) == a`.
pub open spec fn gcd(a: nat, b: nat) -> nat
    decreases b,
{
    if b == 0 {
        a
    } else {
        gcd(b, a % b)
    }
}

/// The greatest common divisor divides both numbers, and is positive unless
/// both are zero.
pub proof fn lemma_gcd_divides(a: nat, b: nat)
    ensures
        a > 0 || b > 0 ==> gcd(a, b) > 0,
        gcd(a, b) > 0 ==> a % gcd(a, b) == 0 && b % gcd(a, b) == 0,
    decreases b,
{
    if b == 0 {
        if a > 0 {
            lemma_multiple_remainder(1, a as int);
            lemma_multiple_remainder(0, a as int);
        }
    } else {
        lemma_gcd_divides(b, a % b);
        let g = gcd(a, b) as int;
        let k1 = lemma_remainder_gap(b as int, 0, g);
        let k2 = lemma_remainder_gap((a % b) as int, 0, g);
        lemma_fundamental_div_mod(a as int, b as int);
        let q = (a / b) as int;
        assert(a == 0 + (q * k1 + k2) * g) by (nonlinear_arith)
            requires
                a == b * q + a % b,
                b == 0 + k1 * g,
                (a % b) == 0 + k2 * g,
        {
        }
        lemma_same_remainder(a as int, 0, q * k1 + k2, g);
    }
}

/// Bezout's identity: integers `x` and `y` with `a * x + b * y == gcd(a, b)`.
pub proof fn lemma_bezout(a: nat, b: nat) -> (c: (int, int))
    ensures
        a * c.0 + b * c.1 == gcd(a, b),
    decreases b,
{
    if b == 0 {
        (1, 0)
    } else {
        let (x, y) = lemma_bezout(b, a % b);
        let q = (a / b) as int;
        lemma_fundamental_div_mod(a as int, b as int);
        assert(a * y + b * (x - q * y) == b * x + (a % b) * y) by (nonlinear_arith)
            requires
                a == b * q + a % b,
        {
        }
        (y, x - q * y)
    }
}

} // verus!
