//! RSA key generation over arbitrary-precision integers.
//!
//! Candidate primes are drawn at random, screened with the Miller-Rabin
//! test, and combined into a public and a private key. The arithmetic is
//! `num-bigint`'s and the randomness `rand`'s, both behind the contracts in
//! `bignum` and `entropy`; what is built on them is proved:
//!
//! - `candidate`: random odd numbers of an exact bit length;
//! - `miller_rabin`: one round of the test, the full test, and the theorem
//!   that a prime always passes;
//! - `prime_search`: the search for a probable prime;
//! - `modular_inverse`: the inverse modulo a number, by Euclid's algorithm;
//! - `keys`: the key types, their derivation from two primes, and the
//!   generation of a pair;
//! - `round_trip`: the theorem that a key pair of two primes gives every
//!   message back.
//!
//! The number theory underneath is in `binary`, `congruence`, `gcd`,
//! `primes`, `permutation` and `fermat`.

pub mod bignum;
pub mod binary;
pub mod candidate;
pub mod congruence;
pub mod entropy;
pub mod errors;
pub mod fermat;
pub mod gcd;
pub mod keys;
pub mod miller_rabin;
pub mod modular_inverse;
pub mod permutation;
pub mod prime_search;
pub mod primes;
pub mod round_trip;
