//! Why a key pair works: raising to the public exponent and then to the
//! private exponent, modulo the modulus, gives every message back.

use crate::congruence::lemma_multiple_remainder;
use crate::congruence::lemma_product_congruent;
use crate::congruence::lemma_remainder_gap;
use crate::congruence::lemma_same_remainder;
use crate::fermat::lemma_fermat;
use crate::keys::PrivateKeyView;
use crate::keys::PublicKeyView;
use crate::keys::is_key_pair;
use crate::keys::totient;
use crate::miller_rabin::power_mod;
use crate::primes::divides;
use crate::primes::is_prime;
use crate::primes::lemma_euclid;
use vstd::arithmetic::div_mod::lemma_small_mod;
use vstd::arithmetic::power::lemma1_pow;
use vstd::arithmetic::power::lemma_pow1;
use vstd::arithmetic::power::lemma_pow_adds;
use vstd::arithmetic::power::lemma_pow_mod_noop;
use vstd::arithmetic::power::lemma_pow_multiplies;
use vstd::arithmetic::power::pow;
use vstd::prelude::*;

verus! {

/// Modulo a prime `p`, the powers of `m` repeat with period `p - 1`:
/// `m^(1 + t(p - 1))` is congruent to `m`, whether or not `p` divides `m`.
pub proof fn lemma_power_cycle(p: nat, m: nat, t: nat)
    requires
        is_prime(p),
    ensures
        pow(m as int, 1 + t * (p - 1) as nat) % (p as int) == m % p,
{
    let pi = p as int;
    let mi = m as int;
    let period = (p - 1) as nat;
    assert(t * period >= 0) by (nonlinear_arith);
    let turns = (t * period) as nat;
    lemma_pow_adds(mi, 1, turns);
    lemma_pow1(mi);
    let rest = pow(mi, turns);
    assert(pow(mi, 1 + turns) == mi * rest);
    if m % p == 0 {
        lemma_product_congruent(mi, 0, rest, pi);
        assert(0 * rest == 0);
        lemma_small_mod(0, p);
    } else {
        lemma_fermat(p, m);
        lemma_pow_multiplies(mi, period, t);
        assert(period * t == t * period) by (nonlinear_arith);
        lemma_pow_mod_noop(pow(mi, period), t, pi);
        lemma1_pow(t);
        lemma_small_mod(1, p);
        assert(rest % pi == 1);
        lemma_product_congruent(rest, 1, mi, pi);
        assert(mi * 1 == mi);
    }
}

/// Two distinct primes that both divide a number divide it together.
pub proof fn lemma_distinct_primes_divide(p: nat, q: nat, x: int)
    requires
        is_prime(p),
        is_prime(q),
        p != q,
        x % (p as int) == 0,
        x % (q as int) == 0,
    ensures
        x % ((p * q) as int) == 0,
{
    let pi = p as int;
    let qi = q as int;
    let u = lemma_remainder_gap(x, 0, pi);
    assert(pi * u == x) by (nonlinear_arith)
        requires
            x == 0 + u * pi,
    {
    }
    assert(pi % qi != 0) by {
        if q < p {
            assert(!divides(q, p));
        } else {
            lemma_small_mod(p, q);
        }
    }
    lemma_euclid(q, pi, u);
    let w = lemma_remainder_gap(u, 0, qi);
    assert(p * q > 0) by (nonlinear_arith)
        requires
            p >= 2,
            q >= 2,
    {
    }
    assert(x == w * (p * q)) by (nonlinear_arith)
        requires
            pi * u == x,
            u == 0 + w * qi,
            pi == p,
            qi == q,
    {
    }
    lemma_multiple_remainder(w, (p * q) as int);
}

/// The round trip through a key pair whose factors are prime: a message
/// below the modulus, raised to the public exponent and then to the private
/// exponent, each time reduced modulo the modulus, comes back unchanged.
pub proof fn lemma_round_trip(private: PrivateKeyView, public: PublicKeyView, m: nat)
    requires
        is_key_pair(private, public),
        is_prime(private.p),
        is_prime(private.q),
        m < public.n,
    ensures
        power_mod(power_mod(m, public.e, public.n), private.d, public.n) == m,
{
    let p = private.p;
    let q = private.q;
    let d = private.d;
    let e = public.e;
    let n = public.n;
    let ni = n as int;
    let mi = m as int;
    let phi = totient(p, q);
    assert(phi >= 2 && phi == (p - 1) * (q - 1)) by (nonlinear_arith)
        requires
            phi == (p - 1) * (q - 1),
            p >= 2,
            q >= 2,
            p != q,
    {
    }
    lemma_small_mod(1, phi);
    let k = lemma_remainder_gap((d * e) as int, 1, phi as int);
    assert(k >= 0) by (nonlinear_arith)
        requires
            d * e == 1 + k * phi,
            phi >= 2,
            d * e >= 0,
    {
    }
    let tp = (k * (q - 1)) as int;
    let tq = (k * (p - 1)) as int;
    assert(tp >= 0 && tq >= 0 && e * d == 1 + tp * (p - 1) && e * d == 1 + tq * (q - 1))
        by (nonlinear_arith)
        requires
            d * e == 1 + k * phi,
            phi == (p - 1) * (q - 1),
            k >= 0,
            p >= 2,
            q >= 2,
            tp == k * (q - 1),
            tq == k * (p - 1),
    {
    }
    let full = pow(mi, e * d);
    lemma_power_cycle(p, m, tp as nat);
    lemma_power_cycle(q, m, tq as nat);
    assert(full % (p as int) == mi % (p as int));
    assert(full % (q as int) == mi % (q as int));
    let kp = lemma_remainder_gap(full, mi, p as int);
    let kq = lemma_remainder_gap(full, mi, q as int);
    lemma_same_remainder(full - mi, 0, kp, p as int);
    lemma_same_remainder(full - mi, 0, kq, q as int);
    lemma_distinct_primes_divide(p, q, full - mi);
    let kn = lemma_remainder_gap(full - mi, 0, ni);
    lemma_same_remainder(full, mi, kn, ni);
    lemma_small_mod(m, n);
    // The two reductions in a row are one power.
    lemma_pow_mod_noop(pow(mi, e), d, ni);
    lemma_pow_multiplies(mi, e, d);
}

} // verus!
