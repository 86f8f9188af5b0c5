//! Powers of two inside a natural: bit length, and the split of a number
//! into an odd part and a power of two.

use vstd::arithmetic::power2::lemma2_to64;
use vstd::arithmetic::power2::lemma_pow2_pos;
use vstd::arithmetic::power2::lemma_pow2_strictly_increases;
use vstd::arithmetic::power2::lemma_pow2_unfold;
use vstd::arithmetic::power2::pow2;
use vstd::prelude::*;

verus! {

/// The number of bits in the shortest binary numeral for `v`; zero has none.
pub open spec fn bit_len(v: nat) -> nat
    decreases v,
{
    if v == 0 {
        0
    } else {
        1 + bit_len(v / 2)
    }
}

/// What is left of `m` once every factor of two is divided out.
pub open spec fn odd_part(m: nat) -> nat
    decreases m,
{
    if m == 0 || m % 2 == 1 {
        m
    } else {
        odd_part(m / 2)
    }
}

/// How many times two divides `m`; zero for `m == 0`.
pub open spec fn two_exponent(m: nat) -> nat
    decreases m,
{
    if m == 0 || m % 2 == 1 {
        0
    } else {
        1 + two_exponent(m / 2)
    }
}

/// Twice a factor is twice the product.
proof fn lemma_double_inside(a: nat, b: nat)
    ensures
        a * (2 * b) == 2 * (a * b),
{
    assert(a * (2 * b) == 2 * (a * b)) by (nonlinear_arith);
}

/// A positive number is its odd part times two to its exponent of two.
pub proof fn lemma_two_split(m: nat)
    requires
        m > 0,
    ensures
        odd_part(m) % 2 == 1,
        odd_part(m) * pow2(two_exponent(m)) == m,
    decreases m,
{
    if m % 2 == 1 {
        lemma2_to64();
        assert(two_exponent(m) == 0);
    } else {
        let h = m / 2;
        lemma_two_split(h);
        assert(two_exponent(m) == 1 + two_exponent(h));
        lemma_pow2_unfold(two_exponent(m));
        lemma_double_inside(odd_part(h), pow2(two_exponent(h)));
    }
}

/// The split is unique: an odd `d` with `d * 2^s == m` is the odd part, and
/// `s` the exponent of two.
pub proof fn lemma_two_split_unique(m: nat, d: nat, s: nat)
    requires
        d % 2 == 1,
        d * pow2(s) == m,
    ensures
        odd_part(m) == d,
        two_exponent(m) == s,
    decreases s,
{
    if s == 0 {
        lemma2_to64();
    } else {
        lemma_pow2_unfold(s);
        let half = d * pow2((s - 1) as nat);
        lemma_double_inside(d, pow2((s - 1) as nat));
        lemma_pow2_pos((s - 1) as nat);
        assert(half > 0) by (nonlinear_arith)
            requires
                half == d * pow2((s - 1) as nat),
                d >= 1,
                pow2((s - 1) as nat) > 0,
        {
        }
        assert(m / 2 == half);
        lemma_two_split_unique(half, d, (s - 1) as nat);
    }
}

/// A number is below two to its bit length, and, when positive, at least
/// two to one less.
pub proof fn lemma_bit_len_bounds(v: nat)
    ensures
        v < pow2(bit_len(v)),
        v > 0 ==> pow2((bit_len(v) - 1) as nat) <= v,
    decreases v,
{
    lemma2_to64();
    if v > 0 {
        lemma_bit_len_bounds(v / 2);
        lemma_pow2_unfold(bit_len(v));
        if v / 2 > 0 {
            lemma_pow2_unfold(bit_len(v / 2));
        }
    }
}

/// The bounds determine the bit length.
pub proof fn lemma_bit_len_unique(v: nat, k: nat)
    requires
        k > 0,
        pow2((k - 1) as nat) <= v < pow2(k),
    ensures
        bit_len(v) == k,
{
    lemma_bit_len_bounds(v);
    lemma2_to64();
    let b = bit_len(v);
    if b < k {
        if b < k - 1 {
            lemma_pow2_strictly_increases(b, (k - 1) as nat);
        }
    } else if k < b {
        if k < b - 1 {
            lemma_pow2_strictly_increases(k, (b - 1) as nat);
        }
    }
}

} // verus!
