//! The ways in which key generation fails.

use vstd::prelude::*;

verus! {

/// Why no key pair came out.
#[derive(Clone, Copy, Debug, PartialEq, Eq, Structural)]
pub enum KeyGenError {
    /// The bit length asked for is too small for a key.
    InvalidParameter,
    /// The public exponent shares a factor with the totient.
    NoModularInverse,
    /// Both primes are the same number.
    DuplicatePrimes,
    /// A search for a prime ran out of attempts.
    AttemptsExhausted,
}

} // verus!
