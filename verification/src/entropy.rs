//! The random source: `rand`'s thread-local generator, and the two draws of
//! big naturals that `num-bigint` offers on it.
//!
//! A draw is not a function of its arguments, so the contracts here state
//! only the bounds that hold of every outcome.

use crate::bignum::value;
use num_bigint::BigUint;
use num_bigint::RandBigInt;
use rand::rngs::ThreadRng;
use vstd::arithmetic::power2::pow2;
use vstd::prelude::*;

verus! {

/// `rand::rngs::ThreadRng`, the handle to a thread's random generator.
#[verifier::external_type_specification]
#[verifier::external_body]
pub struct ExThreadRng(rand::rngs::ThreadRng);

/// `rand::thread_rng`: a handle to this thread's generator, seeded by the
/// operating system. Nothing is claimed of the handle.
#[verifier::external_body]
pub(crate) fn thread_rng() -> (rng: ThreadRng) {
    rand::thread_rng()
}

/// `RandBigInt::gen_biguint`: a random natural of at most `bits` bits. The
/// call converts the digit count to `usize` and panics when that does not
/// fit.
#[verifier::external_body]
pub(crate) fn random_bits(rng: &mut ThreadRng, bits: u64) -> (r: BigUint)
    requires
        bits / 32 < usize::MAX,
    ensures
        value(r) < pow2(bits as nat),
{
    rng.gen_biguint(bits)
}

/// `RandBigInt::gen_biguint_range`: a random natural in `[low, high)`. The
/// call panics on an empty range, which the precondition rules out.
#[verifier::external_body]
pub(crate) fn random_in_range(rng: &mut ThreadRng, low: &BigUint, high: &BigUint) -> (r: BigUint)
    requires
        value(*low) < value(*high),
    ensures
        value(*low) <= value(r) < value(*high),
{
    rng.gen_biguint_range(low, high)
}

} // verus!
