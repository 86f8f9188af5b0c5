use num_bigint::BigUint;
use num_traits::{One, Zero};
use rsa_keygen::modular_inverse::mod_inverse;

fn big(x: u64) -> BigUint {
    BigUint::from(x)
}

#[test]
fn inverse_of_small_numbers() {
    assert_eq!(mod_inverse(&big(3), &big(7)), Some(big(5)));
    assert_eq!(mod_inverse(&big(271), &big(383)), Some(big(106)));
    assert_eq!(mod_inverse(&big(17), &big(3120)), Some(big(2753)));
    assert_eq!(mod_inverse(&big(1), &big(2)), Some(big(1)));
}

#[test]
fn inverse_reduces_its_argument_first() {
    // 65537 = 21 * 3120 + 17
    assert_eq!(mod_inverse(&big(65537), &big(3120)), Some(big(2753)));
    assert_eq!(mod_inverse(&big(10), &big(7)), Some(big(5)));
}

#[test]
fn no_inverse_with_a_common_factor() {
    assert_eq!(mod_inverse(&big(2), &big(4)), None);
    assert_eq!(mod_inverse(&big(6), &big(9)), None);
    assert_eq!(mod_inverse(&big(65537), &big(2 * 65537)), None);
    assert_eq!(mod_inverse(&big(0), &big(7)), None);
    assert_eq!(mod_inverse(&big(14), &big(7)), None);
}

#[test]
fn inverse_at_the_edges_of_the_modulus() {
    assert_eq!(mod_inverse(&big(5), &BigUint::zero()), None);
    assert_eq!(mod_inverse(&big(1), &BigUint::zero()), None);
    assert_eq!(mod_inverse(&big(5), &BigUint::one()), Some(BigUint::zero()));
    assert_eq!(mod_inverse(&big(0), &BigUint::one()), Some(BigUint::zero()));
}

#[test]
fn inverse_times_argument_is_one() {
    let m = (BigUint::one() << 127u32) - BigUint::one();
    for a in [2u64, 3, 65537, 0xdead_beef, u64::MAX] {
        let a = big(a);
        let d = mod_inverse(&a, &m).unwrap();
        assert!(d < m);
        assert_eq!((&d * &a) % &m, BigUint::one());
    }
}

#[test]
fn inverse_agrees_with_the_arithmetic_library() {
    let m = big(1_000_000_007) * big(998_244_353);
    for a in [2u64, 3, 5, 65537, 123_456_789, 1_000_000_007, 998_244_353] {
        let a = big(a);
        assert_eq!(mod_inverse(&a, &m), a.modinv(&m));
    }
}
