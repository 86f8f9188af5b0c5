//! The search for a probable prime of a given bit length.

use crate::bignum::value;
use crate::binary::bit_len;
use crate::binary::lemma_bit_len_bounds;
use crate::candidate::generate_odd_n_bits;
use crate::errors::KeyGenError;
use crate::miller_rabin::miller_rabin_test;
use crate::miller_rabin::probable_prime;
use num_bigint::BigUint;
use vstd::arithmetic::power2::lemma2_to64;
use vstd::arithmetic::power2::lemma_pow2_strictly_increases;
use vstd::prelude::*;

verus! {

/// What a search returns: odd, of exactly `size` bits, and through every
/// round of the Miller-Rabin test.
pub open spec fn is_accepted(p: nat, size: nat) -> bool {
    &&& bit_len(p) == size
    &&& p % 2 == 1
    &&& probable_prime(p)
}

/// A number of three or more bits is above 3.
pub proof fn lemma_three_bits(v: nat)
    requires
        bit_len(v) >= 3,
    ensures
        v > 3,
{
    lemma_bit_len_bounds(v);
    lemma2_to64();
    if bit_len(v) > 3 {
        lemma_pow2_strictly_increases(2, (bit_len(v) - 1) as nat);
    }
}

/// Draws odd candidates of `size` bits until one comes through the
/// Miller-Rabin test, at most `attempts` times. The search fails with
/// `AttemptsExhausted` when every candidate drawn was proved composite.
pub fn generate_prime_within(size: u64, attempts: u64) -> (r: Result<BigUint, KeyGenError>)
    requires
        size >= 3,
        size / 32 < usize::MAX,
    ensures
        r matches Ok(p) ==> is_accepted(value(p), size as nat),
        r matches Err(e) ==> e == KeyGenError::AttemptsExhausted,
        attempts == 0 ==> r is Err,
{
    let mut tried: u64 = 0;
    while tried < attempts
        invariant
            size >= 3,
            size / 32 < usize::MAX,
        decreases attempts - tried,
    {
        let candidate = generate_odd_n_bits(&size);
        proof {
            lemma_three_bits(value(candidate));
        }
        if miller_rabin_test(&candidate) {
            return Ok(candidate);
        }
        tried = tried + 1;
    }
    Err(KeyGenError::AttemptsExhausted)
}

/// A probable prime of exactly `size` bits. The search goes on for as long
/// as a 64-bit counter lasts, which no run outlives; it would fail with
/// `AttemptsExhausted` if the counter ran out.
pub fn generate_prime_n_bits(size: u64) -> (r: Result<BigUint, KeyGenError>)
    requires
        size >= 3,
        size / 32 < usize::MAX,
    ensures
        r matches Ok(p) ==> is_accepted(value(p), size as nat),
        r matches Err(e) ==> e == KeyGenError::AttemptsExhausted,
{
    generate_prime_within(size, u64::MAX)
}

} // verus!
