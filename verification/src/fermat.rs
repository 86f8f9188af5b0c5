//! Fermat's little theorem, by rearranging the residues: multiplying
//! `1, 2, ..., p - 1` by a number that the prime `p` does not divide only
//! shuffles them modulo `p`.

use crate::congruence::lemma_product_congruent;
use crate::congruence::lemma_remainder_gap;
use crate::congruence::lemma_same_remainder;
use crate::permutation::factorial;
use crate::permutation::injective_on;
use crate::permutation::lemma_rearranged_product;
use crate::permutation::maps_into;
use crate::permutation::product_to;
use crate::primes::is_prime;
use crate::primes::lemma_euclid;
use crate::primes::lemma_prime_product;
use vstd::arithmetic::div_mod::lemma_mod_bound;
use vstd::arithmetic::div_mod::lemma_mod_twice;
use vstd::arithmetic::div_mod::lemma_small_mod;
use vstd::arithmetic::power::lemma_pow0;
use vstd::arithmetic::power::lemma_pow1;
use vstd::arithmetic::power::lemma_pow_adds;
use vstd::arithmetic::power::pow;
use vstd::prelude::*;

verus! {

/// Multiplication by `a` modulo `p`.
pub open spec fn times_mod(a: nat, p: nat) -> spec_fn(int) -> int {
    |i: int| (a * i) % (p as int)
}

/// A number strictly between `-p` and `p` that `p` divides is zero.
proof fn lemma_small_multiple(x: int, p: nat)
    requires
        -p < x < p,
        x % (p as int) == 0,
    ensures
        x == 0,
{
    if x > 0 {
        lemma_small_mod(x as nat, p);
    } else if x < 0 {
        lemma_same_remainder(x, x + p, -1, p as int);
        lemma_small_mod((x + p) as nat, p);
    }
}

/// `n!` is `n` times `(n - 1)!`.
proof fn lemma_factorial_unfold(n: nat)
    requires
        n > 0,
    ensures
        factorial(n) == n * factorial((n - 1) as nat),
{
    let id = |i: int| i;
    assert(id(n as int) == n);
    assert(product_to(id, n) == id(n as int) * product_to(id, (n - 1) as nat));
}

/// A prime does not divide the factorial of a smaller number.
proof fn lemma_factorial_indivisible(p: nat, n: nat)
    requires
        is_prime(p),
        n < p,
    ensures
        factorial(n) % (p as int) != 0,
    decreases n,
{
    if n == 0 {
        lemma_small_mod(1, p);
    } else {
        lemma_factorial_indivisible(p, (n - 1) as nat);
        lemma_factorial_unfold(n);
        lemma_small_mod(n, p);
        lemma_prime_product(p, n as int, factorial((n - 1) as nat));
    }
}

/// Multiplication by `a` modulo a prime that does not divide `a` maps
/// `1..=p-1` into itself without taking a value twice.
proof fn lemma_times_mod_rearranges(p: nat, a: nat)
    requires
        is_prime(p),
        a % p != 0,
    ensures
        maps_into(times_mod(a, p), (p - 1) as nat),
        injective_on(times_mod(a, p), (p - 1) as nat),
{
    let f = times_mod(a, p);
    let pi = p as int;
    assert forall|i: int| 1 <= i <= p - 1 implies 1 <= #[trigger] f(i) <= p - 1 by {
        lemma_small_mod(i as nat, p);
        lemma_prime_product(p, a as int, i);
        lemma_mod_bound(a * i, pi);
    }
    assert forall|i: int, j: int|
        1 <= i <= p - 1 && 1 <= j <= p - 1 && #[trigger] f(i) == #[trigger] f(j) implies i
        == j by {
        let k = lemma_remainder_gap(a * i, a * j, pi);
        assert(a * (i - j) == 0 + k * pi) by (nonlinear_arith)
            requires
                a * i == a * j + k * pi,
        {
        }
        lemma_same_remainder(a * (i - j), 0, k, pi);
        lemma_euclid(p, a as int, i - j);
        lemma_small_multiple(i - j, p);
    }
}

/// The residues of `a, 2a, ..., na` multiply out to `a^n * n!`, modulo `p`.
proof fn lemma_scaled_product(p: nat, a: nat, n: nat)
    requires
        p > 0,
    ensures
        product_to(times_mod(a, p), n) % (p as int) == (pow(a as int, n) * factorial(n)) % (
        p as int),
    decreases n,
{
    let f = times_mod(a, p);
    let pi = p as int;
    if n == 0 {
        lemma_pow0(a as int);
    } else {
        let m = (n - 1) as nat;
        lemma_scaled_product(p, a, m);
        lemma_factorial_unfold(n);
        lemma_pow_adds(a as int, 1, m);
        lemma_pow1(a as int);
        let rest = product_to(f, m);
        let scaled = pow(a as int, m) * factorial(m);
        // Modulo p: f(n) * rest, (a * n) * rest and (a * n) * scaled agree.
        let an = (a * n) as int;
        assert(f(n as int) == an % pi);
        lemma_mod_twice(an, pi);
        lemma_product_congruent(f(n as int), an, rest, pi);
        lemma_product_congruent(rest, scaled, an, pi);
        assert(an * scaled == pow(a as int, n) * factorial(n)) by (nonlinear_arith)
            requires
                an == a * n,
                scaled == pow(a as int, m) * factorial(m),
                factorial(n) == n * factorial(m),
                pow(a as int, n) == a * pow(a as int, m),
        {
        }
    }
}

/// Fermat's little theorem: a prime `p` that does not divide `a` divides
/// `a^(p - 1) - 1`.
pub proof fn lemma_fermat(p: nat, a: nat)
    requires
        is_prime(p),
        a % p != 0,
    ensures
        pow(a as int, (p - 1) as nat) % (p as int) == 1,
{
    let n = (p - 1) as nat;
    let pi = p as int;
    let f = times_mod(a, p);
    lemma_times_mod_rearranges(p, a);
    lemma_rearranged_product(f, n);
    lemma_scaled_product(p, a, n);
    lemma_factorial_indivisible(p, n);
    let power = pow(a as int, n);
    let k = lemma_remainder_gap(power * factorial(n), factorial(n), pi);
    assert((power - 1) * factorial(n) == 0 + k * pi) by (nonlinear_arith)
        requires
            power * factorial(n) == factorial(n) + k * pi,
    {
    }
    lemma_same_remainder((power - 1) * factorial(n), 0, k, pi);
    lemma_euclid(p, power - 1, factorial(n));
    let j = lemma_remainder_gap(power - 1, 0, pi);
    lemma_same_remainder(power, 1, j, pi);
    lemma_small_mod(1, p);
}

} // verus!
