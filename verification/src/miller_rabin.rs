//! The Miller-Rabin test: one round against a given base, and the repeated
//! test against bases drawn at random.

use crate::bignum::difference;
use crate::bignum::duplicate;
use crate::bignum::equal;
use crate::bignum::from_u64;
use crate::bignum::modpow;
use crate::bignum::one;
use crate::bignum::product;
use crate::bignum::quotient;
use crate::bignum::remainder;
use crate::bignum::value;
use crate::binary::lemma_two_split;
use crate::binary::lemma_two_split_unique;
use crate::binary::odd_part;
use crate::binary::two_exponent;
use crate::entropy::random_in_range;
use crate::entropy::thread_rng;
use crate::fermat::lemma_fermat;
use crate::primes::is_prime;
use crate::primes::lemma_square_roots_of_one;
use num_bigint::BigUint;
use vstd::arithmetic::div_mod::lemma_mod_bound;
use vstd::arithmetic::div_mod::lemma_small_mod;
use vstd::arithmetic::power2::lemma2_to64;
use vstd::arithmetic::power2::lemma_pow2_strictly_increases;
use vstd::arithmetic::power2::lemma_pow2_unfold;
use vstd::arithmetic::power2::pow2;
use vstd::arithmetic::power::lemma_pow_mod_noop;
use vstd::arithmetic::power::lemma_pow_multiplies;
use vstd::arithmetic::power::lemma_square_is_pow2;
use vstd::arithmetic::power::pow;
use vstd::prelude::*;

verus! {

/// How many random bases the full test tries.
pub const ROUNDS: u64 = 40;

/// `a` to the `e`, reduced modulo `n`.
pub open spec fn power_mod(a: nat, e: nat, n: nat) -> nat {
    (pow(a as int, e) % (n as int)) as nat
}

/// Whether base `a` proves `n` composite. With `n - 1 = d * 2^s` and `d`
/// odd, it does unless `a^d` is 1 modulo `n` or one of `a^d`, `a^(2d)`, ...,
/// `a^(2^(s-1) d)` is `n - 1` modulo `n`.
pub open spec fn is_witness(n: nat, a: nat) -> bool {
    let d = odd_part((n - 1) as nat);
    let s = two_exponent((n - 1) as nat);
    &&& power_mod(a, d, n) != 1
    &&& forall|r: nat| r < s ==> power_mod(a, d * pow2(r), n) != n - 1
}

/// Every base in `bases` lies in `[2, n - 2]` and fails to prove `n`
/// composite.
pub open spec fn survives(n: nat, bases: Seq<nat>) -> bool {
    forall|i: int|
        0 <= i < bases.len() ==> 2 <= #[trigger] bases[i] <= n - 2 && !is_witness(n, bases[i])
}

/// `n` has come through `ROUNDS` rounds: there are that many bases in
/// `[2, n - 2]`, not necessarily distinct, none of which proves it composite.
pub open spec fn probable_prime(n: nat) -> bool {
    exists|bases: Seq<nat>| bases.len() == ROUNDS && survives(n, bases)
}

/// Squaring a residue of `a^e` gives the residue of `a^(2e)`.
proof fn lemma_square_step(a: nat, e: nat, n: nat)
    requires
        n > 0,
    ensures
        pow(power_mod(a, e, n) as int, 2) % (n as int) == power_mod(a, 2 * e, n),
{
    lemma_pow_mod_noop(pow(a as int, e), 2, n as int);
    lemma_pow_multiplies(a as int, e, 2);
    assert(e * 2 == 2 * e);
}

/// Along the chain `a^d, a^(2d), a^(4d), ...` modulo a prime, a 1 at place
/// `k` is preceded by `p - 1`, unless the chain starts with 1.
proof fn lemma_chain_to_one(p: nat, a: nat, d: nat, k: nat)
    requires
        is_prime(p),
        power_mod(a, d * pow2(k), p) == 1,
    ensures
        power_mod(a, d, p) == 1 || exists|r: nat|
            r < k && #[trigger] power_mod(a, d * pow2(r), p) == p - 1,
    decreases k,
{
    lemma2_to64();
    if k == 0 {
        assert(d * pow2(0) == d);
    } else {
        let j = (k - 1) as nat;
        let x = power_mod(a, d * pow2(j), p);
        lemma_square_step(a, d * pow2(j), p);
        lemma_pow2_unfold(k);
        assert(2 * (d * pow2(j)) == d * (2 * pow2(j))) by (nonlinear_arith);
        lemma_square_is_pow2(x as int);
        lemma_mod_bound(pow(a as int, d * pow2(j)), p as int);
        lemma_square_roots_of_one(p, x);
        if x == 1 {
            lemma_chain_to_one(p, a, d, j);
        }
    }
}

/// No base proves a prime composite: an odd prime `p` has no witness among
/// the numbers that it does not divide.
pub proof fn lemma_prime_has_no_witness(p: nat, a: nat)
    requires
        is_prime(p),
        p > 2,
        a % p != 0,
    ensures
        !is_witness(p, a),
{
    let d = odd_part((p - 1) as nat);
    let s = two_exponent((p - 1) as nat);
    lemma_two_split((p - 1) as nat);
    lemma_fermat(p, a);
    lemma_chain_to_one(p, a, d, s);
}

/// A witness settles it: a number above 2 with a witness that it does not
/// divide is composite.
pub proof fn lemma_witness_means_composite(n: nat, a: nat)
    requires
        n > 2,
        a % n != 0,
        is_witness(n, a),
    ensures
        !is_prime(n),
{
    if is_prime(n) {
        lemma_prime_has_no_witness(n, a);
    }
}

/// Whether `n` is even.
fn is_even(n: &BigUint) -> (r: bool)
    ensures
        r == (value(*n) % 2 == 0),
{
    let two = from_u64(2);
    let zero = from_u64(0);
    let low = remainder(n, &two);
    equal(&low, &zero)
}

/// With an odd part of at least 1, a smaller exponent of two gives a
/// smaller product.
proof fn lemma_exponent_orders(d: nat, i: nat, s: nat)
    requires
        d >= 1,
        i < s,
    ensures
        d * pow2(i) < d * pow2(s),
{
    lemma_pow2_strictly_increases(i, s);
    assert(d * pow2(i) < d * pow2(s)) by (nonlinear_arith)
        requires
            d >= 1,
            pow2(i) < pow2(s),
    {
    }
}

/// One round of Miller-Rabin: whether base `a` proves the odd number `n`
/// composite.
///
/// Two is divided out of `n - 1` until the odd part `d` is left, and `a^d`
/// is squared modulo `n` for as long as the exponent stays below `n - 1`.
pub fn miller_rabin_witness(n: &BigUint, a: &BigUint) -> (r: bool)
    requires
        value(*n) > 2,
        value(*n) % 2 == 1,
    ensures
        r == is_witness(value(*n), value(*a)),
{
    let unit = one();
    let two = from_u64(2);
    let top = difference(n, &unit);
    let mut d = duplicate(&top);
    let ghost mut s: nat = 0;
    proof {
        lemma2_to64();
    }
    while is_even(&d)
        invariant
            value(two) == 2,
            value(d) >= 1,
            value(d) * pow2(s) == value(top),
        decreases value(d),
    {
        proof {
            lemma_pow2_unfold(s + 1);
            assert((value(d) / 2) * (2 * pow2(s)) == value(d) * pow2(s)) by (nonlinear_arith)
                requires
                    value(d) % 2 == 0,
            {
            }
            s = s + 1;
        }
        d = quotient(&d, &two);
    }
    proof {
        lemma_two_split_unique(value(top), value(d), s);
        // `n - 1` is even and `d` is odd, so two was divided out at least once.
        assert(value(d) * pow2(0) == value(d));
        assert(s >= 1);
    }
    let mut x = modpow(a, &d, n);
    if equal(&x, &unit) || equal(&x, &top) {
        return false;
    }
    let ghost modulus = value(*n);
    let ghost base = value(*a);
    let ghost odd = value(d);
    // `x` is `a` to the exponent before `reached`, which doubles each time.
    let mut reached = product(&d, &two);
    let ghost mut i: nat = 1;
    proof {
        assert(odd * 2 == odd * pow2(1));
    }
    while !equal(&reached, &top)
        invariant
            value(*n) == modulus,
            value(*a) == base,
            modulus > 2,
            value(two) == 2,
            value(top) == modulus - 1,
            odd >= 1,
            odd * pow2(s) == modulus - 1,
            odd_part((modulus - 1) as nat) == odd,
            two_exponent((modulus - 1) as nat) == s,
            1 <= i <= s,
            value(reached) == odd * pow2(i),
            value(x) == power_mod(base, odd * pow2((i - 1) as nat), modulus),
            forall|r: nat| r < i ==> power_mod(base, odd * pow2(r), modulus) != modulus - 1,
        decreases s - i,
    {
        proof {
            assert(i < s);
            lemma_square_step(base, odd * pow2((i - 1) as nat), modulus);
            lemma_pow2_unfold(i);
            lemma_pow2_unfold(i + 1);
            assert(2 * (odd * pow2((i - 1) as nat)) == odd * (2 * pow2((i - 1) as nat)))
                by (nonlinear_arith);
            assert((odd * pow2(i)) * 2 == odd * (2 * pow2(i))) by (nonlinear_arith);
        }
        x = modpow(&x, &two, n);
        assert(value(x) == power_mod(base, odd * pow2(i), modulus));
        if equal(&x, &top) {
            return false;
        }
        reached = product(&reached, &two);
        proof {
            i = i + 1;
        }
    }
    proof {
        if i < s {
            lemma_exponent_orders(odd, i, s);
        }
    }
    true
}

/// The Miller-Rabin test on an odd `n > 3`: `ROUNDS` bases drawn uniformly
/// from `[2, n - 2]`, stopping at the first that proves `n` composite.
///
/// `false` means that a drawn base proved `n` composite. `true` means that
/// every drawn base failed to, which leaves `n` a probable prime.
pub fn miller_rabin_test(n: &BigUint) -> (r: bool)
    requires
        value(*n) > 3,
        value(*n) % 2 == 1,
    ensures
        r ==> probable_prime(value(*n)),
        !r ==> exists|a: nat| 2 <= a <= value(*n) - 2 && is_witness(value(*n), a),
        is_prime(value(*n)) ==> r,
{
    let mut rng = thread_rng();
    let unit = one();
    let two = from_u64(2);
    let bound = difference(n, &unit);
    let ghost mut bases: Seq<nat> = Seq::empty();
    let mut round: u64 = 0;
    while round < ROUNDS
        invariant
            value(*n) > 3,
            value(*n) % 2 == 1,
            value(two) == 2,
            value(bound) == value(*n) - 1,
            round <= ROUNDS,
            bases.len() == round,
            survives(value(*n), bases),
        decreases ROUNDS - round,
    {
        let a = random_in_range(&mut rng, &two, &bound);
        if miller_rabin_witness(n, &a) {
            proof {
                lemma_small_mod(value(a), value(*n));
                lemma_witness_means_composite(value(*n), value(a));
            }
            return false;
        }
        proof {
            bases = bases.push(value(a));
        }
        round = round + 1;
    }
    true
}

} // verus!
