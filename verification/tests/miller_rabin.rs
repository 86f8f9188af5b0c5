use num_bigint::{BigUint, ToBigUint};
use num_traits::One;
use rsa_keygen::candidate::generate_odd_n_bits;
use rsa_keygen::miller_rabin::{miller_rabin_test, miller_rabin_witness};

fn big(x: u64) -> BigUint {
    x.to_biguint().unwrap()
}

#[test]
fn test_odd_numbers() {
    for _ in 0..100 {
        let x = generate_odd_n_bits(&512);
        let rem = x % 2.to_biguint().unwrap();
        assert_eq!(rem, BigUint::one());
    }
}

#[test]
fn test_miller_rabin_witness() {
    let carmichael_numbers = [561u64, 1105, 1729, 2465, 2821, 6601, 8911];
    let bases: Vec<BigUint> = [2u64, 3, 5, 7, 11, 13, 17]
        .iter()
        .map(|&x| x.to_biguint().unwrap())
        .collect();

    for &n in &carmichael_numbers {
        let n = n.to_biguint().unwrap();
        assert!(
            bases.iter().any(|a| miller_rabin_witness(&n, a)),
            "No witness found for {}",
            n
        );
    }
}

#[test]
fn test_miller_rabin_test() {
    let carmichael_numbers = [561u64, 1105, 1729, 2465, 2821, 6601, 8911];
    let known_primes = [983u64, 409, 127, 199, 743, 617, 907, 17, 997, 1013];

    for &n in &carmichael_numbers {
        let n = n.to_biguint().unwrap();
        assert_eq!(miller_rabin_test(&n), false);
    }

    for &n in &known_primes {
        let n = n.to_biguint().unwrap();
        assert_eq!(miller_rabin_test(&n), true);
    }
}

#[test]
fn witness_follows_the_squaring_chain() {
    // 560 = 35 * 2^4; 2^35, 2^70, 2^140, 2^280 mod 561 are 263, 166, 67, 1.
    assert!(miller_rabin_witness(&big(561), &big(2)));
    // 12 = 3 * 2^2; 2^3 = 8 and 8^2 = 64 = 12 mod 13.
    assert!(!miller_rabin_witness(&big(13), &big(2)));
    // 4 = 1 * 2^2; 2^1 = 2 and 2^2 = 4 mod 5.
    assert!(!miller_rabin_witness(&big(5), &big(2)));
    // First power is 1: 3^3 = 27 = 1 mod 13.
    assert!(!miller_rabin_witness(&big(13), &big(3)));
    // First power is n - 1: 8 = 1 * 2^3 and 8^1 = 8 mod 9.
    assert!(!miller_rabin_witness(&big(9), &big(8)));
    // 8 = 1 * 2^3; 2, 4, 16 = 7 mod 9: never 1 at the start, never 8.
    assert!(miller_rabin_witness(&big(9), &big(2)));
}

#[test]
fn witness_misses_a_strong_liar() {
    // 2047 = 23 * 89 is composite, yet 2^1023 = 1 mod 2047.
    assert!(!miller_rabin_witness(&big(2047), &big(2)));
    assert!(miller_rabin_witness(&big(2047), &big(3)));
}

#[test]
fn witness_stops_at_the_last_squaring() {
    // 16 = 1 * 2^4 for n = 17: 3, 9, 81 = 13, 169 = 16 mod 17, reached at
    // the last of the three squarings.
    assert!(!miller_rabin_witness(&big(17), &big(3)));
    // 96 = 3 * 2^5 for n = 97 and 5 generates the residues: 5^48 = 96.
    assert!(!miller_rabin_witness(&big(97), &big(5)));
    // 15 = 3 * 5: 14 = 7 * 2, 2^7 = 128 = 8 mod 15.
    assert!(miller_rabin_witness(&big(15), &big(2)));
}

#[test]
fn witness_accepts_bases_outside_the_usual_range() {
    // A base that is a multiple of n has residue 0 throughout.
    assert!(miller_rabin_witness(&big(13), &big(26)));
    // 1 and n - 1 never prove anything.
    assert!(!miller_rabin_witness(&big(561), &big(1)));
    assert!(!miller_rabin_witness(&big(561), &big(560)));
}

#[test]
fn test_finds_small_composites() {
    // 9 has the strong liars 1 and 8 only, neither of which is drawn.
    assert!(!miller_rabin_test(&big(9)));
    assert!(!miller_rabin_test(&big(15)));
    assert!(!miller_rabin_test(&big(21)));
    assert!(!miller_rabin_test(&big(25 * 49)));
}

#[test]
fn test_passes_the_smallest_primes_it_admits() {
    assert!(miller_rabin_test(&big(5)));
    assert!(miller_rabin_test(&big(7)));
    assert!(miller_rabin_test(&big(11)));
    assert!(miller_rabin_test(&big(65537)));
}

#[test]
fn test_passes_a_large_prime() {
    // 2^127 - 1
    let m127 = (BigUint::one() << 127u32) - BigUint::one();
    assert!(miller_rabin_test(&m127));
    // 2^128 + 1 = 59649589127497217 * 5704689200685129054721
    let f7 = (BigUint::one() << 128u32) + BigUint::one();
    assert!(!miller_rabin_test(&f7));
}
