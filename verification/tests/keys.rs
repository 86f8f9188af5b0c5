use num_bigint::BigUint;
use num_traits::One;
use rsa_keygen::errors::KeyGenError;
use rsa_keygen::keys::{derive_keys, generate_keys, KEY_ATTEMPTS, MIN_PRIME_BITS, PUBLIC_EXPONENT};
use rsa_keygen::miller_rabin::miller_rabin_test;
use rsa_keygen::prime_search::{generate_prime_n_bits, generate_prime_within};

fn big(x: u64) -> BigUint {
    BigUint::from(x)
}

#[test]
fn constants_have_their_documented_values() {
    assert_eq!(PUBLIC_EXPONENT, 65537);
    assert_eq!(MIN_PRIME_BITS, 512);
    assert!(KEY_ATTEMPTS > 0);
}

#[test]
fn derive_textbook_pair() {
    // phi = 60 * 52 = 3120 and 65537 = 17 mod 3120, whose inverse is 2753.
    let (private, public) = match derive_keys(&big(61), &big(53)) {
        Ok(pair) => pair,
        Err(e) => panic!("{:?}", e),
    };
    assert_eq!(*private.p(), big(61));
    assert_eq!(*private.q(), big(53));
    assert_eq!(*private.d(), big(2753));
    assert_eq!(*public.n(), big(3233));
    assert_eq!(*public.e(), big(65537));
}

#[test]
fn derive_refuses_equal_primes() {
    assert!(matches!(derive_keys(&big(61), &big(61)), Err(KeyGenError::DuplicatePrimes)));
    assert!(matches!(derive_keys(&big(2), &big(2)), Err(KeyGenError::DuplicatePrimes)));
}

#[test]
fn derive_refuses_a_totient_sharing_a_factor_with_the_exponent() {
    // Derivation does not test primality: all that matters here is that
    // 65537 divides p - 1.
    let p = big(6 * 65537 + 1);
    assert!(matches!(derive_keys(&p, &big(53)), Err(KeyGenError::NoModularInverse)));
    assert!(matches!(derive_keys(&big(53), &p), Err(KeyGenError::NoModularInverse)));
}

#[test]
fn derive_with_the_smallest_primes() {
    let (private, public) = match derive_keys(&big(2), &big(3)) {
        Ok(pair) => pair,
        Err(e) => panic!("{:?}", e),
    };
    // phi = 2 and 65537 is odd: the inverse is 1.
    assert_eq!(*private.d(), big(1));
    assert_eq!(*public.n(), big(6));
}

#[test]
fn prime_search_with_no_attempts_finds_nothing() {
    assert_eq!(generate_prime_within(64, 0), Err(KeyGenError::AttemptsExhausted));
    assert_eq!(generate_prime_within(3, 0), Err(KeyGenError::AttemptsExhausted));
}

#[test]
fn prime_search_of_three_bits() {
    for _ in 0..20 {
        let p = generate_prime_n_bits(3).unwrap();
        assert!(p == big(5) || p == big(7));
    }
}

#[test]
fn prime_search_returns_exact_length_probable_primes() {
    for _ in 0..20 {
        let p = generate_prime_n_bits(64).unwrap();
        assert_eq!(p.bits(), 64);
        assert_eq!(&p % 2u32, BigUint::one());
        assert!(miller_rabin_test(&p));
    }
}

#[test]
fn prime_search_within_a_generous_bound() {
    let p = generate_prime_within(32, 100_000).unwrap();
    assert_eq!(p.bits(), 32);
    let v = p.to_u64_digits()[0];
    let mut f = 3u64;
    while f * f <= v {
        assert_ne!(v % f, 0);
        f += 2;
    }
}

#[test]
fn keys_refuse_short_lengths() {
    assert!(matches!(generate_keys(0), Err(KeyGenError::InvalidParameter)));
    assert!(matches!(generate_keys(1), Err(KeyGenError::InvalidParameter)));
    assert!(matches!(generate_keys(64), Err(KeyGenError::InvalidParameter)));
    assert!(matches!(generate_keys(511), Err(KeyGenError::InvalidParameter)));
}

#[test]
fn keys_of_512_bits_are_consistent() {
    let (private, public) = match generate_keys(512) {
        Ok(pair) => pair,
        Err(e) => panic!("{:?}", e),
    };
    let (p, q, d) = (private.p(), private.q(), private.d());
    assert_ne!(p, q);
    assert_eq!(p.bits(), 512);
    assert_eq!(q.bits(), 512);
    assert_eq!(*public.n(), p * q);
    assert_eq!(*public.e(), big(65537));
    let phi = (p - 1u32) * (q - 1u32);
    assert!(*d < phi);
    assert_eq!((d * big(65537)) % phi, BigUint::one());
}

#[test]
fn keys_of_512_bits_round_trip() {
    let (private, public) = match generate_keys(512) {
        Ok(pair) => pair,
        Err(e) => panic!("{:?}", e),
    };
    for m in [1u64, 2, 42, 65537, 0xdead_beef_cafe] {
        let m = big(m);
        let c = m.modpow(public.e(), public.n());
        assert_ne!(c, BigUint::from(0u32));
        assert_eq!(c.modpow(private.d(), public.n()), m);
    }
    let m = public.n() - 1u32;
    let c = m.modpow(public.e(), public.n());
    assert_eq!(c.modpow(private.d(), public.n()), m);
}

#[test]
fn derived_small_pair_round_trips() {
    let (private, public) = match derive_keys(&big(61), &big(53)) {
        Ok(pair) => pair,
        Err(e) => panic!("{:?}", e),
    };
    for m in 0u64..3233 {
        let m = big(m);
        let c = m.modpow(public.e(), public.n());
        assert_eq!(c.modpow(private.d(), public.n()), m);
    }
}

#[test]
fn round_trip_needs_prime_factors() {
    // 9 is no prime: the totient 8 * 4 = 32 gives the private exponent 1,
    // and 2^65537 = 32 mod 45 does not come back as 2.
    let (private, public) = match derive_keys(&big(9), &big(5)) {
        Ok(pair) => pair,
        Err(e) => panic!("{:?}", e),
    };
    assert_eq!(*private.d(), big(1));
    let c = big(2).modpow(public.e(), public.n());
    assert_eq!(c, big(32));
    assert_eq!(c.modpow(private.d(), public.n()), big(32));
}
