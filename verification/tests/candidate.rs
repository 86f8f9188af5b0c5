use num_bigint::BigUint;
use num_traits::{One, Zero};
use rsa_keygen::candidate::{candidate_from_draw, generate_odd_n_bits};

#[test]
fn candidate_has_exact_bit_length_and_is_odd() {
    for n in [16u64, 17, 31, 32, 33, 63, 64, 65, 100, 512] {
        for _ in 0..100 {
            let x = generate_odd_n_bits(&n);
            assert_eq!(x.bits(), n);
            assert_eq!(&x % 2u32, BigUint::one());
        }
    }
}

#[test]
fn candidate_of_smallest_lengths() {
    for _ in 0..50 {
        assert_eq!(generate_odd_n_bits(&2), BigUint::from(3u32));
        let three = generate_odd_n_bits(&3);
        assert!(three == BigUint::from(5u32) || three == BigUint::from(7u32));
    }
}

#[test]
fn candidate_from_draw_sets_top_and_low_bit() {
    // 0b101 with bit 3 set is 0b1101; doubled and made odd: 0b11011.
    assert_eq!(candidate_from_draw(&BigUint::from(5u32), 5), BigUint::from(27u32));
    // Bit 3 is already set in 0b1111.
    assert_eq!(candidate_from_draw(&BigUint::from(15u32), 5), BigUint::from(31u32));
    assert_eq!(candidate_from_draw(&BigUint::zero(), 2), BigUint::from(3u32));
    assert_eq!(candidate_from_draw(&BigUint::zero(), 8), BigUint::from(129u32));
    assert_eq!(candidate_from_draw(&BigUint::from(127u32), 8), BigUint::from(255u32));
}

#[test]
fn candidate_from_draw_across_a_digit_boundary() {
    // n = 66: bit 64 is set in the draw, then everything moves up one place.
    let draw = BigUint::from(u64::MAX);
    let expected = (((BigUint::one() << 64u32) | &draw) << 1u32) | BigUint::one();
    let got = candidate_from_draw(&draw, 66);
    assert_eq!(got, expected);
    assert_eq!(got.bits(), 66);
}

#[test]
fn candidate_from_draw_keeps_the_bits_of_the_draw() {
    // 2 * (draw | 2^(n-2)) + 1, with the draw below 2^(n-2).
    let draw = BigUint::from(0x1234_5678u32);
    let got = candidate_from_draw(&draw, 40);
    let expected = BigUint::from(2u64 * (0x1234_5678u64 + (1u64 << 38)) + 1);
    assert_eq!(got, expected);
}
