//! The modular inverse, by the extended Euclidean algorithm on naturals.

use crate::bignum::difference;
use crate::bignum::duplicate;
use crate::bignum::equal;
use crate::bignum::from_u64;
use crate::bignum::one;
use crate::bignum::product;
use crate::bignum::quotient;
use crate::bignum::remainder;
use crate::bignum::sum;
use crate::bignum::value;
use crate::congruence::lemma_multiple_remainder;
use crate::congruence::lemma_product_congruent;
use crate::congruence::lemma_remainder_gap;
use crate::congruence::lemma_same_remainder;
use crate::gcd::gcd;
use crate::gcd::lemma_bezout;
use crate::gcd::lemma_gcd_divides;
use num_bigint::BigUint;
use vstd::arithmetic::div_mod::lemma_fundamental_div_mod;
use vstd::arithmetic::div_mod::lemma_mod_bound;
use vstd::arithmetic::div_mod::lemma_mod_twice;
use vstd::arithmetic::div_mod::lemma_small_mod;
use vstd::prelude::*;

verus! {

/// `d` is the inverse of `a` modulo `m`: it lies in `[0, m)` and `d * a` is
/// congruent to 1.
pub open spec fn is_inverse(d: nat, a: nat, m: nat) -> bool {
    d < m && (d * a) % m == 1nat % m
}

/// Without a common divisor of 1 there is no inverse: no `x` inverts `a`
/// modulo `m` when `gcd(a, m) != 1`.
pub proof fn lemma_no_inverse(a: nat, m: nat, x: nat)
    requires
        gcd(a, m) != 1,
    ensures
        !is_inverse(x, a, m),
{
    if is_inverse(x, a, m) {
        lemma_gcd_divides(a, m);
        let g = gcd(a, m) as int;
        assert(g >= 2);
        let ka = lemma_remainder_gap(a as int, 0, g);
        let km = lemma_remainder_gap(m as int, 0, g);
        assert(m >= 2) by (nonlinear_arith)
            requires
                m == 0 + km * g,
                g >= 2,
                m > 0,
        {
        }
        lemma_small_mod(1, m);
        let k = lemma_remainder_gap((x * a) as int, 1, m as int);
        assert(1 == 0 + (x * ka - k * km) * g) by (nonlinear_arith)
            requires
                x * a == 1 + k * m,
                a == 0 + ka * g,
                m == 0 + km * g,
        {
        }
        lemma_same_remainder(1, 0, x * ka - k * km, g);
        lemma_small_mod(1, g as nat);
    }
}

/// An inverse modulo `m` is unique.
pub proof fn lemma_inverse_unique(x: nat, y: nat, a: nat, m: nat)
    requires
        is_inverse(x, a, m),
        is_inverse(y, a, m),
    ensures
        x == y,
{
    let mi = m as int;
    let kx = lemma_remainder_gap((x * a) as int, 1, mi);
    let ky = lemma_remainder_gap((y * a) as int, 1, mi);
    assert(x - y == (y * kx - x * ky) * mi) by (nonlinear_arith)
        requires
            x * a == 1 + kx * mi,
            y * a == 1 + ky * mi,
    {
    }
    lemma_same_remainder(x as int, y as int, y * kx - x * ky, mi);
    lemma_small_mod(x, m);
    lemma_small_mod(y, m);
}

/// With a common divisor of 1 there is an inverse, which is returned.
pub proof fn lemma_inverse_exists(a: nat, m: nat) -> (x: nat)
    requires
        m > 0,
        gcd(a, m) == 1,
    ensures
        is_inverse(x, a, m),
{
    let mi = m as int;
    let (u, v) = lemma_bezout(a, m);
    let x = (u % mi) as nat;
    lemma_mod_bound(u, mi);
    lemma_fundamental_div_mod(u, mi);
    let k = u / mi;
    assert(x * a == 1 + (0 - v - k * a) * mi) by (nonlinear_arith)
        requires
            a * u + mi * v == 1,
            u == mi * k + x,
    {
    }
    lemma_same_remainder((x * a) as int, 1, 0 - v - k * a, mi);
    x
}

/// One step of the extended Euclidean algorithm keeps the coefficient
/// congruent to the remainder: where `t0 * a` is congruent to `r0` and
/// `t1 * a` to `r1`, the next coefficient `t0 - q * t1`, taken modulo `m`,
/// times `a` is congruent to `r0 - q * r1`.
proof fn lemma_inverse_step(a: nat, m: nat, r0: nat, r1: nat, t0: nat, t1: nat)
    requires
        m > 0,
        r1 > 0,
        t0 < m,
        (t0 * a) % m == r0 % m,
        (t1 * a) % m == r1 % m,
    ensures
        ({
            let q = r0 / r1;
            let qt = (q * t1) % m;
            let t2 = ((t0 + (m - qt)) as nat) % m;
            (t2 * a) % m == (r0 % r1) % m
        }),
{
    let mi = m as int;
    let q = r0 / r1;
    let qt = (q * t1) % m;
    let t2 = ((t0 + (m - qt)) as nat) % m;
    lemma_fundamental_div_mod(r0 as int, r1 as int);
    lemma_fundamental_div_mod((q * t1) as int, mi);
    lemma_fundamental_div_mod((t0 + (m - qt)) as int, mi);
    let k0 = lemma_remainder_gap((t0 * a) as int, r0 as int, mi);
    let k1 = lemma_remainder_gap((t1 * a) as int, r1 as int, mi);
    let k2 = ((q * t1) as int) / mi;
    let k3 = ((t0 + (m - qt)) as int) / mi;
    let r2 = r0 % r1;
    let k = k0 - q * k1 + (1 + k2 - k3) * a;
    assert(t2 * a == r2 + k * mi) by (nonlinear_arith)
        requires
            r0 == r1 * q + r2,
            q * t1 == mi * k2 + qt,
            t0 + (mi - qt) == mi * k3 + t2,
            t0 * a == r0 + k0 * mi,
            t1 * a == r1 + k1 * mi,
            k == k0 - q * k1 + (1 + k2 - k3) * a,
    {
    }
    lemma_same_remainder((t2 * a) as int, r2 as int, k, mi);
}

/// The inverse of `a` modulo `m`, where there is one.
///
/// There is one exactly when `m` is positive and `a` and `m` have no common
/// divisor but 1; by `lemma_no_inverse` nothing inverts `a` otherwise, and
/// by `lemma_inverse_unique` the inverse returned is the only one.
pub fn mod_inverse(a: &BigUint, m: &BigUint) -> (r: Option<BigUint>)
    ensures
        r is Some <==> value(*m) > 0 && gcd(value(*a), value(*m)) == 1,
        r matches Some(d) ==> is_inverse(value(d), value(*a), value(*m)),
{
    let zero = from_u64(0);
    if equal(m, &zero) {
        return None;
    }
    let unit = one();
    let mut r0 = duplicate(m);
    let mut r1 = remainder(a, m);
    let mut t0 = from_u64(0);
    let mut t1 = remainder(&unit, m);
    proof {
        let av = value(*a);
        let mv = value(*m);
        lemma_multiple_remainder(0, mv as int);
        lemma_multiple_remainder(1, mv as int);
        assert((value(t0) * av) % mv == value(r0) % mv) by {
            assert(value(t0) * av == 0) by (nonlinear_arith)
                requires
                    value(t0) == 0,
            {
            }
        }
        assert((value(t1) * av) % mv == value(r1) % mv) by {
            lemma_mod_twice(1, mv as int);
            lemma_mod_twice(av as int, mv as int);
            lemma_product_congruent(value(t1) as int, 1, av as int, mv as int);
        }
    }
    while !equal(&r1, &zero)
        invariant
            value(zero) == 0,
            value(*m) > 0,
            value(r0) > 0,
            gcd(value(r0), value(r1)) == gcd(value(*a), value(*m)),
            value(t0) < value(*m),
            value(t1) < value(*m),
            (value(t0) * value(*a)) % value(*m) == value(r0) % value(*m),
            (value(t1) * value(*a)) % value(*m) == value(r1) % value(*m),
        decreases value(r1),
    {
        proof {
            lemma_inverse_step(value(*a), value(*m), value(r0), value(r1), value(t0), value(t1));
        }
        let q = quotient(&r0, &r1);
        let r2 = remainder(&r0, &r1);
        let qt = remainder(&product(&q, &t1), m);
        let gap = difference(m, &qt);
        let t2 = remainder(&sum(&t0, &gap), m);
        r0 = r1;
        r1 = r2;
        t0 = t1;
        t1 = t2;
    }
    if equal(&r0, &unit) {
        proof {
            let mv = value(*m);
            if mv > 1 {
                lemma_small_mod(1, mv);
            }
        }
        Some(t0)
    } else {
        None
    }
}

} // verus!
