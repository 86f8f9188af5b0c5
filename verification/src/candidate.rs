//! Random odd candidates of an exact bit length.

use crate::bignum::bit_or;
use crate::bignum::nat_or;
use crate::bignum::one;
use crate::bignum::shifted_left;
use crate::bignum::value;
use crate::binary::bit_len;
use crate::binary::lemma_bit_len_unique;
use crate::entropy::random_bits;
use crate::entropy::thread_rng;
use num_bigint::BigUint;
use vstd::arithmetic::power2::lemma2_to64;
use vstd::arithmetic::power2::lemma_pow2_unfold;
use vstd::arithmetic::power2::pow2;
use vstd::prelude::*;

verus! {

/// The candidate of `n` bits made from a draw: the draw with bit `n - 2`
/// set, moved up one place, with the lowest bit set.
pub open spec fn candidate_value(draw: nat, n: nat) -> nat {
    2 * nat_or(draw, pow2((n - 2) as nat)) + 1
}

/// OR with zero changes nothing.
proof fn lemma_or_zero(a: nat)
    ensures
        nat_or(a, 0) == a,
    decreases a,
{
    if a > 0 {
        lemma_or_zero(a / 2);
    }
}

/// Setting bit `k` in a number below `2^(k + 1)` lands in `[2^k, 2^(k + 1))`.
proof fn lemma_or_top_bit(a: nat, k: nat)
    requires
        a < pow2(k + 1),
    ensures
        pow2(k) <= nat_or(a, pow2(k)) < pow2(k + 1),
    decreases k,
{
    lemma2_to64();
    lemma_pow2_unfold(k + 1);
    if k == 0 {
        assert(nat_or(a / 2, 0) == 0) by {
            lemma_or_zero(a / 2);
        }
        assert(nat_or(a, 1) == 1);
    } else {
        lemma_pow2_unfold(k);
        lemma_or_top_bit(a / 2, (k - 1) as nat);
        assert(pow2(k) / 2 == pow2((k - 1) as nat));
        assert(pow2(k) % 2 == 0);
    }
}

/// A candidate made from a draw of at most `n - 1` bits has exactly `n`
/// bits and is odd.
pub proof fn lemma_candidate_shape(draw: nat, n: nat)
    requires
        n >= 2,
        draw < pow2((n - 1) as nat),
    ensures
        bit_len(candidate_value(draw, n)) == n,
        candidate_value(draw, n) % 2 == 1,
{
    let k = (n - 2) as nat;
    lemma_or_top_bit(draw, k);
    lemma_pow2_unfold(n);
    lemma_pow2_unfold((n - 1) as nat);
    lemma_bit_len_unique(candidate_value(draw, n), n);
}

/// Builds the candidate of `n` bits from a draw: sets bit `n - 2` of the
/// draw, shifts it left by one, and sets the lowest bit.
pub fn candidate_from_draw(draw: &BigUint, n: u64) -> (r: BigUint)
    requires
        n >= 2,
        n / 32 < usize::MAX,
    ensures
        value(r) == candidate_value(value(*draw), n as nat),
{
    let unit = one();
    let top = shifted_left(&unit, n - 2);
    let forced = bit_or(draw, &top);
    let doubled = shifted_left(&forced, 1);
    let r = bit_or(&doubled, &unit);
    proof {
        lemma2_to64();
        lemma_or_zero(value(forced));
        assert(value(doubled) == 2 * value(forced));
        assert(value(doubled) / 2 == value(forced));
        assert(1nat / 2 == 0);
        assert(nat_or(value(doubled), 1) == 2 * nat_or(value(doubled) / 2, 0) + 1);
    }
    r
}

/// A random odd number of exactly `n` bits: `n - 1` random bits, of which
/// the highest is set, moved up one place to make room for a lowest bit
/// that is set.
pub fn generate_odd_n_bits(n: &u64) -> (r: BigUint)
    requires
        *n >= 2,
        *n / 32 < usize::MAX,
    ensures
        bit_len(value(r)) == *n,
        value(r) % 2 == 1,
{
    let mut rng = thread_rng();
    let draw = random_bits(&mut rng, *n - 1);
    proof {
        lemma_candidate_shape(value(draw), *n as nat);
    }
    candidate_from_draw(&draw, *n)
}

} // verus!
