//! RSA keys: the two key types, their derivation from a pair of primes, and
//! the generation of a fresh pair.

use crate::bignum::difference;
use crate::bignum::duplicate;
use crate::bignum::equal;
use crate::bignum::from_u64;
use crate::bignum::one;
use crate::bignum::product;
use crate::bignum::value;
use crate::errors::KeyGenError;
use crate::gcd::gcd;
use crate::modular_inverse::is_inverse;
use crate::modular_inverse::lemma_no_inverse;
use crate::modular_inverse::mod_inverse;
use crate::prime_search::generate_prime_n_bits;
use crate::prime_search::is_accepted;
use num_bigint::BigUint;
use vstd::arithmetic::div_mod::lemma_small_mod;
use vstd::prelude::*;

verus! {

/// The public exponent of every key.
pub const PUBLIC_EXPONENT: u64 = 65537;

/// The shortest primes that key generation accepts, in bits.
pub const MIN_PRIME_BITS: u64 = 512;

/// How many prime pairs key generation tries before it gives up.
pub const KEY_ATTEMPTS: u64 = 16;

/// The private half of a key pair: the two primes and the private exponent.
pub struct PrivateKey {
    p: BigUint,
    q: BigUint,
    d: BigUint,
}

/// The public half of a key pair: the modulus and the public exponent.
pub struct PublicKey {
    n: BigUint,
    e: BigUint,
}

/// The numbers in a private key.
pub ghost struct PrivateKeyView {
    pub p: nat,
    pub q: nat,
    pub d: nat,
}

/// The numbers in a public key.
pub ghost struct PublicKeyView {
    pub n: nat,
    pub e: nat,
}

/// Euler's totient of the product of two distinct primes `p` and `q`.
pub open spec fn totient(p: nat, q: nat) -> nat {
    ((p - 1) * (q - 1)) as nat
}

/// What holds of every private key: distinct factors of at least 2, and a
/// private exponent that is the inverse of the public exponent modulo the
/// totient.
pub open spec fn is_private_key(private: PrivateKeyView) -> bool {
    &&& private.p >= 2
    &&& private.q >= 2
    &&& private.p != private.q
    &&& is_inverse(private.d, PUBLIC_EXPONENT as nat, totient(private.p, private.q))
}

/// What holds of every public key: the fixed public exponent.
pub open spec fn is_public_key(public: PublicKeyView) -> bool {
    public.e == PUBLIC_EXPONENT
}

/// The two halves belong together: each is sound, and the modulus is the
/// product of the two factors.
pub open spec fn is_key_pair(private: PrivateKeyView, public: PublicKeyView) -> bool {
    &&& is_private_key(private)
    &&& is_public_key(public)
    &&& public.n == private.p * private.q
}

/// In a key pair the factors differ, the modulus is their product, and the
/// private exponent times the public exponent leaves 1 modulo the totient.
pub proof fn lemma_key_pair_equations(private: PrivateKeyView, public: PublicKeyView)
    requires
        is_key_pair(private, public),
    ensures
        private.p != private.q,
        public.n == private.p * private.q,
        private.d < totient(private.p, private.q),
        (private.d * PUBLIC_EXPONENT) % (totient(private.p, private.q) as int) == 1,
        gcd(PUBLIC_EXPONENT as nat, totient(private.p, private.q)) == 1,
{
    let phi = totient(private.p, private.q);
    assert(phi >= 2) by (nonlinear_arith)
        requires
            phi == (private.p - 1) * (private.q - 1),
            private.p >= 2,
            private.q >= 2,
            private.p != private.q,
    {
    }
    lemma_small_mod(1, phi);
    if gcd(PUBLIC_EXPONENT as nat, phi) != 1 {
        lemma_no_inverse(PUBLIC_EXPONENT as nat, phi, private.d);
    }
}

impl View for PrivateKey {
    type V = PrivateKeyView;

    closed spec fn view(&self) -> PrivateKeyView {
        PrivateKeyView { p: value(self.p), q: value(self.q), d: value(self.d) }
    }
}

impl View for PublicKey {
    type V = PublicKeyView;

    closed spec fn view(&self) -> PublicKeyView {
        PublicKeyView { n: value(self.n), e: value(self.e) }
    }
}

impl PrivateKey {
    #[verifier::type_invariant]
    spec fn sound(self) -> bool {
        is_private_key(self@)
    }

    /// The first prime.
    pub fn p(&self) -> (r: &BigUint)
        ensures
            value(*r) == self@.p,
            is_private_key(self@),
    {
        proof {
            use_type_invariant(self);
        }
        &self.p
    }

    /// The second prime.
    pub fn q(&self) -> (r: &BigUint)
        ensures
            value(*r) == self@.q,
            is_private_key(self@),
    {
        proof {
            use_type_invariant(self);
        }
        &self.q
    }

    /// The private exponent.
    pub fn d(&self) -> (r: &BigUint)
        ensures
            value(*r) == self@.d,
            is_private_key(self@),
    {
        proof {
            use_type_invariant(self);
        }
        &self.d
    }
}

impl PublicKey {
    #[verifier::type_invariant]
    spec fn sound(self) -> bool {
        is_public_key(self@)
    }

    /// The modulus.
    pub fn n(&self) -> (r: &BigUint)
        ensures
            value(*r) == self@.n,
            is_public_key(self@),
    {
        proof {
            use_type_invariant(self);
        }
        &self.n
    }

    /// The public exponent, always `PUBLIC_EXPONENT`.
    pub fn e(&self) -> (r: &BigUint)
        ensures
            value(*r) == self@.e,
            is_public_key(self@),
    {
        proof {
            use_type_invariant(self);
        }
        &self.e
    }
}

/// Derives the key pair of two primes `p` and `q`.
///
/// Equal primes are refused, and so is a totient `(p - 1)(q - 1)` that the
/// public exponent does not invert modulo. Otherwise the pair comes out,
/// with `p * q` as modulus and the inverse of the public exponent modulo
/// the totient as private exponent.
pub fn derive_keys(p: &BigUint, q: &BigUint) -> (r: Result<(PrivateKey, PublicKey), KeyGenError>)
    requires
        value(*p) >= 2,
        value(*q) >= 2,
    ensures
        r matches Err(e) ==> e == (if value(*p) == value(*q) {
            KeyGenError::DuplicatePrimes
        } else {
            KeyGenError::NoModularInverse
        }),
        r is Ok <==> value(*p) != value(*q) && gcd(
            PUBLIC_EXPONENT as nat,
            totient(value(*p), value(*q)),
        ) == 1,
        r matches Ok(pair) ==> pair.0@.p == value(*p) && pair.0@.q == value(*q) && is_key_pair(
            pair.0@,
            pair.1@,
        ),
{
    if equal(p, q) {
        return Err(KeyGenError::DuplicatePrimes);
    }
    let unit = one();
    let n = product(p, q);
    let e = from_u64(PUBLIC_EXPONENT);
    let phi = product(&difference(p, &unit), &difference(q, &unit));
    proof {
        assert((value(*p) - 1) * (value(*q) - 1) > 0) by (nonlinear_arith)
            requires
                value(*p) >= 2,
                value(*q) >= 2,
        {
        }
    }
    match mod_inverse(&e, &phi) {
        Some(d) => {
            let private = PrivateKey { p: duplicate(p), q: duplicate(q), d };
            let public = PublicKey { n, e };
            Ok((private, public))
        },
        None => Err(KeyGenError::NoModularInverse),
    }
}

/// Generates a key pair whose primes have exactly `n` bits each.
///
/// A length under `MIN_PRIME_BITS` is refused as `InvalidParameter`. A
/// second prime equal to the first is drawn again, and a pair whose totient
/// the public exponent does not invert modulo is replaced by a fresh pair;
/// after `KEY_ATTEMPTS` pairs the last refusal is returned. A search for a
/// prime that runs out ends the generation with `AttemptsExhausted`.
pub fn generate_keys(n: u64) -> (r: Result<(PrivateKey, PublicKey), KeyGenError>)
    requires
        n / 32 < usize::MAX,
    ensures
        n < MIN_PRIME_BITS <==> r matches Err(KeyGenError::InvalidParameter),
        r matches Ok(pair) ==> is_key_pair(pair.0@, pair.1@) && is_accepted(pair.0@.p, n as nat)
            && is_accepted(pair.0@.q, n as nat),
{
    if n < MIN_PRIME_BITS {
        return Err(KeyGenError::InvalidParameter);
    }
    let mut failure = KeyGenError::AttemptsExhausted;
    let mut kept: Option<BigUint> = None;
    let mut attempt: u64 = 0;
    while attempt < KEY_ATTEMPTS
        invariant
            n >= MIN_PRIME_BITS,
            n / 32 < usize::MAX,
            failure != KeyGenError::InvalidParameter,
            kept matches Some(k) ==> is_accepted(value(k), n as nat),
        decreases KEY_ATTEMPTS - attempt,
    {
        let p = match kept {
            Some(k) => k,
            None => match generate_prime_n_bits(n) {
                Ok(fresh) => fresh,
                Err(e) => {
                    return Err(e);
                },
            },
        };
        let q = match generate_prime_n_bits(n) {
            Ok(fresh) => fresh,
            Err(e) => {
                return Err(e);
            },
        };
        proof {
            crate::prime_search::lemma_three_bits(value(p));
            crate::prime_search::lemma_three_bits(value(q));
        }
        match derive_keys(&p, &q) {
            Ok(pair) => {
                return Ok(pair);
            },
            Err(KeyGenError::DuplicatePrimes) => {
                failure = KeyGenError::DuplicatePrimes;
                kept = Some(p);
            },
            Err(e) => {
                failure = e;
                kept = None;
            },
        }
        attempt = attempt + 1;
    }
    Err(failure)
}

} // verus!
