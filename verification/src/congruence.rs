//! Congruences: the few facts about remainders that the rest of the crate
//! argues with.

use vstd::arithmetic::div_mod::lemma_fundamental_div_mod;
use vstd::arithmetic::div_mod::lemma_mod_multiples_vanish;
use vstd::prelude::*;

verus! {

/// Two integers that differ by a multiple of `m` leave the same remainder.
pub proof fn lemma_same_remainder(x: int, y: int, k: int, m: int)
    requires
        m > 0,
        x == y + k * m,
    ensures
        x % m == y % m,
{
    assert(k * m == m * k) by (nonlinear_arith);
    lemma_mod_multiples_vanish(k, y, m);
}

/// Two integers with the same remainder differ by a multiple of `m`; the
/// multiplier is returned.
pub proof fn lemma_remainder_gap(x: int, y: int, m: int) -> (k: int)
    requires
        m > 0,
        x % m == y % m,
    ensures
        x == y + k * m,
{
    lemma_fundamental_div_mod(x, m);
    lemma_fundamental_div_mod(y, m);
    let k = x / m - y / m;
    assert(k * m == m * (x / m) - m * (y / m)) by (nonlinear_arith)
        requires
            k == x / m - y / m,
    {
    }
    k
}

/// A multiple of `m` leaves no remainder.
pub proof fn lemma_multiple_remainder(k: int, m: int)
    requires
        m > 0,
    ensures
        (k * m) % m == 0,
{
    lemma_same_remainder(k * m, 0, k, m);
}

/// Congruent factors give congruent products.
pub proof fn lemma_product_congruent(x: int, y: int, z: int, m: int)
    requires
        m > 0,
        x % m == y % m,
    ensures
        (x * z) % m == (y * z) % m,
        (z * x) % m == (z * y) % m,
{
    let k = lemma_remainder_gap(x, y, m);
    assert(x * z == y * z + (k * z) * m) by (nonlinear_arith)
        requires
            x == y + k * m,
    {
    }
    lemma_same_remainder(x * z, y * z, k * z, m);
    assert(z * x == x * z) by (nonlinear_arith);
    assert(z * y == y * z) by (nonlinear_arith);
}

} // verus!
