//! Primes: the definition, Euclid's lemma, and the square roots of 1 modulo
//! a prime.

use crate::congruence::lemma_remainder_gap;
use crate::congruence::lemma_same_remainder;
use crate::gcd::gcd;
use crate::gcd::lemma_bezout;
use crate::gcd::lemma_gcd_divides;
use vstd::arithmetic::div_mod::lemma_fundamental_div_mod;
use vstd::arithmetic::div_mod::lemma_small_mod;
use vstd::prelude::*;

verus! {

/// `d` divides `n`.
pub open spec fn divides(d: nat, n: nat) -> bool {
    d > 0 && n % d == 0
}

/// `n` is prime: at least 2, and divisible by nothing strictly between 1
/// and itself.
pub open spec fn is_prime(n: nat) -> bool {
    n >= 2 && forall|d: nat| 1 < d < n ==> !#[trigger] divides(d, n)
}

/// A divisor of a positive number is no larger than it.
proof fn lemma_divisor_bound(d: nat, n: nat)
    requires
        n > 0,
        divides(d, n),
    ensures
        d <= n,
{
    if d > n {
        lemma_small_mod(n, d);
    }
}

/// A prime has no common divisor but 1 with a number it does not divide.
pub proof fn lemma_prime_coprime(p: nat, a: nat)
    requires
        is_prime(p),
        a % p != 0,
    ensures
        gcd(a, p) == 1,
{
    lemma_gcd_divides(a, p);
    let g = gcd(a, p);
    assert(divides(g, p));
    lemma_divisor_bound(g, p);
    if g == p {
        assert(a % p == 0);
    }
}

/// Euclid's lemma: a prime that divides a product divides one of the
/// factors.
pub proof fn lemma_euclid(p: nat, a: int, b: int)
    requires
        is_prime(p),
        (a * b) % (p as int) == 0,
    ensures
        a % (p as int) == 0 || b % (p as int) == 0,
{
    let pi = p as int;
    if a % pi != 0 {
        let r = (a % pi) as nat;
        lemma_small_mod(r, p);
        lemma_prime_coprime(p, r);
        let (x, y) = lemma_bezout(r, p);
        lemma_fundamental_div_mod(a, pi);
        let k = a / pi;
        let t = lemma_remainder_gap(a * b, 0, pi);
        assert(b == 0 + (t * x + b * y - b * k * x) * pi) by (nonlinear_arith)
            requires
                r * x + pi * y == 1,
                a == pi * k + r,
                a * b == 0 + t * pi,
        {
        }
        lemma_same_remainder(b, 0, t * x + b * y - b * k * x, pi);
    }
}

/// Modulo a prime, only 1 and `p - 1` square to 1.
pub proof fn lemma_square_roots_of_one(p: nat, x: nat)
    requires
        is_prime(p),
        x < p,
        (x * x) % p == 1,
    ensures
        x == 1 || x == p - 1,
{
    let pi = p as int;
    lemma_small_mod(1, p);
    let k = lemma_remainder_gap((x * x) as int, 1, pi);
    assert((x - 1) * (x + 1) == 0 + k * pi) by (nonlinear_arith)
        requires
            x * x == 1 + k * pi,
    {
    }
    lemma_same_remainder((x - 1) * (x + 1), 0, k, pi);
    lemma_euclid(p, x - 1, (x + 1) as int);
    if (x - 1) % pi == 0 {
        if x == 0 {
            lemma_same_remainder(-1, pi - 1, -1, pi);
            lemma_small_mod((p - 1) as nat, p);
        } else {
            lemma_small_mod((x - 1) as nat, p);
        }
    } else {
        if x + 1 < p {
            lemma_small_mod(x + 1, p);
        }
    }
}

/// A prime that divides neither of two numbers does not divide their
/// product.
pub proof fn lemma_prime_product(p: nat, a: int, b: int)
    requires
        is_prime(p),
        a % (p as int) != 0,
        b % (p as int) != 0,
    ensures
        (a * b) % (p as int) != 0,
{
    if (a * b) % (p as int) == 0 {
        lemma_euclid(p, a, b);
    }
}

} // verus!
