//! The numbers that the patterns denote, and that the total order is theirs.
//!
//! A pattern has a sign bit, eight bits of exponent and twenty-three bits of
//! fraction. With an exponent of zero it denotes `fraction * 2^-149`, with any
//! other exponent below 255 `(2^23 + fraction) * 2^(exponent - 150)`. All these
//! are whole multiples of `2^-149`, so a number can be told by an integer: how
//! many times `2^-149` it is. Infinity, whose exponent is 255, is counted by
//! the same rule and so comes out above every number.

use crate::util::float_ord::{is_nan, key_of, magnitude, sign_set, total_eq, total_le};
use vstd::arithmetic::mul::{lemma_mul_inequality, lemma_mul_strict_inequality};
use vstd::arithmetic::power2::{lemma2_to64, lemma_pow2_pos, lemma_pow2_strictly_increases, lemma_pow2_unfold, pow2};
use vstd::prelude::*;

verus! {

/// The number of fractions per exponent: `2^23`.
pub const FRACTIONS: u32 = 0x80_0000;

/// What a magnitude denotes, in units of `2^-149`.
pub open spec fn magnitude_value(m: int) -> int {
    let exponent = m / (FRACTIONS as int);
    let fraction = m % (FRACTIONS as int);
    if exponent == 0 {
        fraction
    } else {
        (FRACTIONS + fraction) * pow2((exponent - 1) as nat)
    }
}

/// What a pattern that is no NaN denotes, in units of `2^-149`.
pub open spec fn scaled_value(bits: u32) -> int
    recommends
        !is_nan(bits),
{
    if sign_set(bits) {
        -magnitude_value(magnitude(bits))
    } else {
        magnitude_value(magnitude(bits))
    }
}

/// A magnitude of exponent `e` denotes at least `2^23 * 2^(e - 1)` and less
/// than twice as much; one of exponent zero denotes less than `2^23`.
proof fn lemma_magnitude_value_bounds(m: int)
    requires
        0 <= m < 0x8000_0000,
    ensures
        0 <= magnitude_value(m),
        m / (FRACTIONS as int) == 0 ==> magnitude_value(m) < FRACTIONS,
        m / (FRACTIONS as int) > 0 ==> {
            &&& FRACTIONS * pow2((m / (FRACTIONS as int) - 1) as nat) <= magnitude_value(m)
            &&& magnitude_value(m) < FRACTIONS * pow2((m / (FRACTIONS as int)) as nat)
        },
{
    let e = m / (FRACTIONS as int);
    let f = m % (FRACTIONS as int);
    if e > 0 {
        let unit = pow2((e - 1) as nat) as int;
        lemma_pow2_pos((e - 1) as nat);
        lemma_pow2_unfold(e as nat);
        lemma_mul_inequality(FRACTIONS as int, FRACTIONS + f, unit);
        lemma_mul_strict_inequality(FRACTIONS + f, 2 * FRACTIONS, unit);
        assert(2 * FRACTIONS * unit == FRACTIONS * (2 * unit)) by (nonlinear_arith);
    }
}

/// A greater magnitude denotes a greater number.
proof fn lemma_magnitude_value_increases(m1: int, m2: int)
    requires
        0 <= m1 < m2 < 0x8000_0000,
    ensures
        0 <= magnitude_value(m1) < magnitude_value(m2),
{
    let e1 = m1 / (FRACTIONS as int);
    let f1 = m1 % (FRACTIONS as int);
    let e2 = m2 / (FRACTIONS as int);
    let f2 = m2 % (FRACTIONS as int);
    lemma_magnitude_value_bounds(m1);
    lemma_magnitude_value_bounds(m2);
    if e1 == e2 {
        if e1 > 0 {
            let unit = pow2((e1 - 1) as nat) as int;
            lemma_pow2_pos((e1 - 1) as nat);
            lemma_mul_strict_inequality(FRACTIONS + f1, FRACTIONS + f2, unit);
        }
    } else {
        assert(e1 < e2);
        let low = pow2(e1 as nat) as int;
        let high = pow2((e2 - 1) as nat) as int;
        if e1 < e2 - 1 {
            lemma_pow2_strictly_increases(e1 as nat, (e2 - 1) as nat);
        }
        assert(low <= high);
        lemma_mul_inequality(low, high, FRACTIONS as int);
        assert(FRACTIONS * low == low * FRACTIONS) by (nonlinear_arith);
        assert(FRACTIONS * high == high * FRACTIONS) by (nonlinear_arith);
        if e1 == 0 {
            lemma2_to64();
            assert(low == 1);
        }
    }
}

/// The total order is the order of the numbers: of two patterns that are no
/// NaN, one comes no later than the other exactly when it denotes no greater
/// a number, and they hold the same place exactly when they denote the same.
pub proof fn law_order_is_numeric(a: u32, b: u32)
    requires
        !is_nan(a),
        !is_nan(b),
    ensures
        total_le(a, b) <==> scaled_value(a) <= scaled_value(b),
        total_eq(a, b) <==> scaled_value(a) == scaled_value(b),
{
    let ma = magnitude(a);
    let mb = magnitude(b);
    assert(magnitude_value(0) == 0);
    if 0 < ma {
        lemma_magnitude_value_increases(0, ma);
    }
    if 0 < mb {
        lemma_magnitude_value_increases(0, mb);
    }
    if ma < mb {
        lemma_magnitude_value_increases(ma, mb);
    } else if mb < ma {
        lemma_magnitude_value_increases(mb, ma);
    }
}

/// The pattern `0x3f80_0000` denotes one, which is `2^149` units.
pub proof fn law_one()
    ensures
        !is_nan(0x3f80_0000),
        scaled_value(0x3f80_0000) == FRACTIONS * pow2(126),
{
}

} // verus!
