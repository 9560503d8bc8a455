//! The fixed-point fraction format shared by the whole core, and the
//! arithmetic helpers that scale amplitudes in it.

use vstd::prelude::*;

verus! {

use vstd::arithmetic::div_mod::{
    lemma_div_is_ordered, lemma_div_multiples_vanish, lemma_div_pos_is_pos,
};
use vstd::arithmetic::mul::{lemma_mul_inequality, lemma_mul_upper_bound};

/// Full scale of the fixed-point fraction format: `UNIT` stands for an
/// amplitude of 1.0, `0` for silence.
pub const UNIT: u64 = 1_000_000;

/// Levels below this (1e-5 of full scale) count as silence.
pub const EPSILON: u64 = 10;

/// Largest accepted linear gain value: a thousand times unity.
pub const GAIN_MAX: u64 = 1_000_000_000;

/// Largest accepted stage time, in microseconds (a bit over eleven days).
pub const TIME_US_MAX: u64 = 1_000_000_000_000;

/// Largest accepted sample rate, in hertz.
pub const SR_MAX: u32 = 10_000_000;

/// Largest time box a stage can have, in samples:
/// `ceil(TIME_US_MAX / 1e6 * SR_MAX)`.
pub const SAMPLES_MAX: u64 = 10_000_000_000_000;

/// `v * s / UNIT` over the integers, for nonnegative `v`.
pub open spec fn spec_scale(v: int, s: int) -> int {
    v * s / (UNIT as int)
}

/// `v * s / UNIT` rounded toward zero, for `v` of either sign.
pub open spec fn spec_scale_signed(v: int, s: int) -> int {
    if v >= 0 {
        spec_scale(v, s)
    } else {
        -spec_scale(-v, s)
    }
}

/// Scaling a nonnegative value by a fraction at most `UNIT` shrinks it.
pub proof fn lemma_scale_le(v: int, s: int)
    requires
        0 <= v,
        0 <= s <= UNIT,
    ensures
        0 <= spec_scale(v, s) <= v,
{
    lemma_mul_upper_bound(v, v, s, UNIT as int);
    lemma_div_is_ordered(v * s, v * (UNIT as int), UNIT as int);
    lemma_div_multiples_vanish(v, UNIT as int);
    assert(v * (UNIT as int) == (UNIT as int) * v) by (nonlinear_arith);
    lemma_div_pos_is_pos(v * s, UNIT as int);
    assert(v * s >= 0) by (nonlinear_arith)
        requires
            0 <= v,
            0 <= s,
    ;
}

/// Scaling is monotone in the value being scaled.
pub proof fn lemma_scale_mono(v1: int, v2: int, s: int)
    requires
        0 <= v1 <= v2,
        0 <= s,
    ensures
        spec_scale(v1, s) <= spec_scale(v2, s),
{
    lemma_mul_inequality(v1, v2, s);
    lemma_div_is_ordered(v1 * s, v2 * s, UNIT as int);
}

/// A signed value scaled by a fraction at most `UNIT` keeps its magnitude bound.
pub proof fn lemma_scale_signed_le(v: int, s: int, m: int)
    requires
        -m <= v <= m,
        0 <= m,
        0 <= s <= UNIT,
    ensures
        -m <= spec_scale_signed(v, s) <= m,
{
    if v >= 0 {
        lemma_scale_le(v, s);
    } else {
        lemma_scale_le(-v, s);
    }
}

/// `v * s / UNIT` on fixed-point fractions.
pub fn scale(v: u64, s: u64) -> (r: u64)
    requires
        v <= 4_000_000_000,
        s <= 4_000_000_000,
    ensures
        r == spec_scale(v as int, s as int),
{
    proof {
        lemma_mul_upper_bound(v as int, 4_000_000_000, s as int, 4_000_000_000);
        lemma_div_pos_is_pos(v as int * s as int, UNIT as int);
        lemma_div_is_ordered(v as int * s as int, 16_000_000_000_000_000_000, UNIT as int);
    }
    (v * s) / UNIT
}

/// `v * s / UNIT` rounded toward zero, for `v` of either sign.
pub fn scale_signed(v: i64, s: u64) -> (r: i64)
    requires
        -2_000_000_000 <= v <= 2_000_000_000,
        s <= 2_000_000_000,
    ensures
        r == spec_scale_signed(v as int, s as int),
{
    if v >= 0 {
        let m = scale(v as u64, s);
        proof {
            lemma_scale_mono(v as int, 2_000_000_000, s as int);
            lemma_div_is_ordered(
                2_000_000_000 * s as int,
                4_000_000_000_000_000_000,
                UNIT as int,
            );
            lemma_mul_inequality(s as int, 2_000_000_000, 2_000_000_000);
            assert(2_000_000_000 * s as int == s as int * 2_000_000_000) by (nonlinear_arith);
        }
        m as i64
    } else {
        let m = scale((-v) as u64, s);
        proof {
            lemma_scale_mono((-v) as int, 2_000_000_000, s as int);
            lemma_div_is_ordered(
                2_000_000_000 * s as int,
                4_000_000_000_000_000_000,
                UNIT as int,
            );
            lemma_mul_inequality(s as int, 2_000_000_000, 2_000_000_000);
            assert(2_000_000_000 * s as int == s as int * 2_000_000_000) by (nonlinear_arith);
            lemma_div_pos_is_pos((-v) as int * s as int, UNIT as int);
        }
        -(m as i64)
    }
}

} // verus!
