//! Sine and cosine of a fixed-point angle between 0 and pi.
//!
//! The angle is folded into the first octant and the Taylor series is
//! evaluated there in nested form, which keeps every intermediate value
//! between 0 and 1.
use crate::fixed::{
    lemma_mul_at_least, lemma_mul_bound, lemma_mul_by_fraction, lemma_mul_nonnegative_fixed,
    mul_spec, multiply, ONE,
};
use vstd::prelude::*;

verus! {

/// The raw value of pi, rounded down to a multiple of four.
pub const PI: i64 = 13493037704;

/// The raw value of pi / 2.
pub const HALF_PI: i64 = 6746518852;

/// The raw value of pi / 4.
pub const QUARTER_PI: i64 = 3373259426;

/// One nesting level of a series: `1 - (x2 / divisor) * inner`.
pub open spec fn stage_spec(x2: int, divisor: int, inner: int) -> int {
    ONE - mul_spec(x2 / divisor, inner)
}

/// The cosine series up to the twelfth power, for an angle in the first
/// octant.
pub open spec fn cos_series(x: int) -> int {
    let x2 = mul_spec(x, x);
    stage_spec(
        x2,
        2,
        stage_spec(
            x2,
            12,
            stage_spec(x2, 30, stage_spec(x2, 56, stage_spec(x2, 90, stage_spec(x2, 132, ONE as int)))),
        ),
    )
}

/// The sine series up to the eleventh power, for an angle in the first
/// octant.
pub open spec fn sin_series(x: int) -> int {
    let x2 = mul_spec(x, x);
    mul_spec(
        x,
        stage_spec(
            x2,
            6,
            stage_spec(x2, 20, stage_spec(x2, 42, stage_spec(x2, 72, stage_spec(x2, 110, ONE as int)))),
        ),
    )
}

/// The sine of an angle in the first quadrant.
pub open spec fn sin_quadrant(v: int) -> int {
    if v <= QUARTER_PI {
        sin_series(v)
    } else {
        cos_series(HALF_PI - v)
    }
}

/// The cosine of an angle in the first quadrant.
pub open spec fn cos_quadrant(v: int) -> int {
    if v <= QUARTER_PI {
        cos_series(v)
    } else {
        sin_series(HALF_PI - v)
    }
}

/// The sine of an angle between 0 and pi.
pub open spec fn sin_spec(w: int) -> int {
    if w <= HALF_PI {
        sin_quadrant(w)
    } else {
        sin_quadrant(PI - w)
    }
}

/// The cosine of an angle between 0 and pi.
pub open spec fn cos_spec(w: int) -> int {
    if w <= HALF_PI {
        cos_quadrant(w)
    } else {
        -cos_quadrant(PI - w)
    }
}

/// A nesting level stays between 0 and 1 when its arguments do.
pub proof fn lemma_stage_range(x2: int, divisor: int, inner: int)
    requires
        0 <= x2 <= ONE,
        1 <= divisor,
        0 <= inner <= ONE,
    ensures
        0 <= stage_spec(x2, divisor, inner) <= ONE,
{
    let t = x2 / divisor;
    assert(0 <= t <= x2) by (nonlinear_arith)
        requires
            0 <= x2,
            1 <= divisor,
            t == x2 / divisor,
    ;
    lemma_mul_nonnegative_fixed(t, inner);
    lemma_mul_bound(t, inner, ONE as int, ONE as int);
    assert(mul_spec(ONE as int, ONE as int) == ONE) by (nonlinear_arith)
        requires
            mul_spec(ONE as int, ONE as int) == (ONE as int * ONE as int) / (ONE as int),
            ONE == 0x1_0000_0000,
    ;
}

/// The square of an angle in the first octant is between 0 and 1.
pub proof fn lemma_square_range(x: int)
    requires
        0 <= x <= QUARTER_PI,
    ensures
        0 <= mul_spec(x, x) <= ONE,
{
    lemma_mul_nonnegative_fixed(x, x);
    lemma_mul_bound(x, x, ONE as int, ONE as int);
    assert(mul_spec(ONE as int, ONE as int) == ONE) by (nonlinear_arith)
        requires
            mul_spec(ONE as int, ONE as int) == (ONE as int * ONE as int) / (ONE as int),
            ONE == 0x1_0000_0000,
    ;
}

/// Both series stay between 0 and 1 on the first octant.
pub proof fn lemma_series_range(x: int)
    requires
        0 <= x <= QUARTER_PI,
    ensures
        0 <= cos_series(x) <= ONE,
        0 <= sin_series(x) <= ONE,
{
    let x2 = mul_spec(x, x);
    lemma_square_range(x);
    let c5 = stage_spec(x2, 132, ONE as int);
    lemma_stage_range(x2, 132, ONE as int);
    let c4 = stage_spec(x2, 90, c5);
    lemma_stage_range(x2, 90, c5);
    let c3 = stage_spec(x2, 56, c4);
    lemma_stage_range(x2, 56, c4);
    let c2 = stage_spec(x2, 30, c3);
    lemma_stage_range(x2, 30, c3);
    let c1 = stage_spec(x2, 12, c2);
    lemma_stage_range(x2, 12, c2);
    lemma_stage_range(x2, 2, c1);
    let s4 = stage_spec(x2, 110, ONE as int);
    lemma_stage_range(x2, 110, ONE as int);
    let s3 = stage_spec(x2, 72, s4);
    lemma_stage_range(x2, 72, s4);
    let s2 = stage_spec(x2, 42, s3);
    lemma_stage_range(x2, 42, s3);
    let s1 = stage_spec(x2, 20, s2);
    lemma_stage_range(x2, 20, s2);
    let s0 = stage_spec(x2, 6, s1);
    lemma_stage_range(x2, 6, s1);
    lemma_mul_nonnegative_fixed(x, s0);
    lemma_mul_bound(x, s0, ONE as int, ONE as int);
    assert(mul_spec(ONE as int, ONE as int) == ONE) by (nonlinear_arith)
        requires
            mul_spec(ONE as int, ONE as int) == (ONE as int * ONE as int) / (ONE as int),
            ONE == 0x1_0000_0000,
    ;
}

/// Between 0 and pi the sine lies between 0 and 1 and the cosine between
/// -1 and 1.
pub proof fn lemma_sin_cos_range(w: int)
    requires
        0 <= w <= PI,
    ensures
        0 <= sin_spec(w) <= ONE,
        -ONE <= cos_spec(w) <= ONE,
{
    let v = if w <= HALF_PI { w } else { PI - w };
    if v <= QUARTER_PI {
        lemma_series_range(v);
    } else {
        lemma_series_range(HALF_PI - v);
    }
}

/// The smallest angle, and the smallest distance from pi, at which the
/// sine and the cosine are told apart from their values at 0 and at pi:
/// 2^-12 radians.
pub const MARGIN: i64 = 0x10_0000;

/// A nesting level is at least `1 - x2 / divisor`.
proof fn lemma_stage_at_least(x2: int, divisor: int, inner: int)
    requires
        0 <= x2 <= ONE,
        1 <= divisor,
        0 <= inner <= ONE,
    ensures
        ONE - x2 / divisor <= stage_spec(x2, divisor, inner),
{
    let t = x2 / divisor;
    assert(0 <= t <= x2) by (nonlinear_arith)
        requires
            0 <= x2,
            1 <= divisor,
            t == x2 / divisor,
    ;
    lemma_mul_by_fraction(t, inner, t);
}

/// On the first octant the cosine series is at least a half, and the sine
/// series is at most its angle.
proof fn lemma_series_far_side(x: int)
    requires
        0 <= x <= QUARTER_PI,
    ensures
        ONE / 2 <= cos_series(x),
        sin_series(x) <= x,
{
    let x2 = mul_spec(x, x);
    lemma_square_range(x);
    let c5 = stage_spec(x2, 132, ONE as int);
    lemma_stage_range(x2, 132, ONE as int);
    let c4 = stage_spec(x2, 90, c5);
    lemma_stage_range(x2, 90, c5);
    let c3 = stage_spec(x2, 56, c4);
    lemma_stage_range(x2, 56, c4);
    let c2 = stage_spec(x2, 30, c3);
    lemma_stage_range(x2, 30, c3);
    let c1 = stage_spec(x2, 12, c2);
    lemma_stage_range(x2, 12, c2);
    lemma_stage_at_least(x2, 2, c1);
    let s4 = stage_spec(x2, 110, ONE as int);
    lemma_stage_range(x2, 110, ONE as int);
    let s3 = stage_spec(x2, 72, s4);
    lemma_stage_range(x2, 72, s4);
    let s2 = stage_spec(x2, 42, s3);
    lemma_stage_range(x2, 42, s3);
    let s1 = stage_spec(x2, 20, s2);
    lemma_stage_range(x2, 20, s2);
    let s0 = stage_spec(x2, 6, s1);
    lemma_stage_range(x2, 6, s1);
    lemma_mul_by_fraction(x, s0, x);
}

/// From `MARGIN` on, the cosine series has left 1 behind and the sine
/// series has left 0 behind.
proof fn lemma_series_near_side(x: int)
    requires
        MARGIN <= x <= QUARTER_PI,
    ensures
        cos_series(x) <= ONE - 32,
        0x8_0000 <= sin_series(x),
{
    let x2 = mul_spec(x, x);
    lemma_square_range(x);
    lemma_mul_at_least(x, x, MARGIN as int, MARGIN as int);
    assert(mul_spec(MARGIN as int, MARGIN as int) == 256) by {
        assert(MARGIN as int * MARGIN as int == 256 * 0x1_0000_0000) by (nonlinear_arith)
            requires
                MARGIN == 0x10_0000,
        ;
    }
    let c5 = stage_spec(x2, 132, ONE as int);
    lemma_stage_range(x2, 132, ONE as int);
    let c4 = stage_spec(x2, 90, c5);
    lemma_stage_range(x2, 90, c5);
    let c3 = stage_spec(x2, 56, c4);
    lemma_stage_range(x2, 56, c4);
    let c2 = stage_spec(x2, 30, c3);
    lemma_stage_range(x2, 30, c3);
    let c1 = stage_spec(x2, 12, c2);
    lemma_stage_range(x2, 12, c2);
    lemma_stage_at_least(x2, 12, c2);
    lemma_mul_at_least(x2 / 2, c1, 128, ONE / 2);
    assert(mul_spec(128, ONE / 2) == 64) by {
        assert(128 * (ONE / 2) == 64 * 0x1_0000_0000) by (nonlinear_arith)
            requires
                ONE == 0x1_0000_0000,
        ;
    }
    let s4 = stage_spec(x2, 110, ONE as int);
    lemma_stage_range(x2, 110, ONE as int);
    let s3 = stage_spec(x2, 72, s4);
    lemma_stage_range(x2, 72, s4);
    let s2 = stage_spec(x2, 42, s3);
    lemma_stage_range(x2, 42, s3);
    let s1 = stage_spec(x2, 20, s2);
    lemma_stage_range(x2, 20, s2);
    let s0 = stage_spec(x2, 6, s1);
    lemma_stage_at_least(x2, 6, s1);
    lemma_stage_range(x2, 6, s1);
    lemma_mul_at_least(x, s0, MARGIN as int, ONE / 2);
    assert(mul_spec(MARGIN as int, ONE / 2) == 0x8_0000) by {
        assert(MARGIN as int * (ONE / 2) == 0x8_0000 * 0x1_0000_0000) by (nonlinear_arith)
            requires
                ONE == 0x1_0000_0000,
                MARGIN == 0x10_0000,
        ;
    }
}

/// At least `MARGIN` away from 0 and from pi, the sine is positive and the
/// cosine is neither 1 nor -1, each by a margin of its own.
pub proof fn lemma_sin_cos_margin(w: int)
    requires
        MARGIN <= w <= PI - MARGIN,
    ensures
        0x8_0000 <= sin_spec(w) <= ONE,
        -ONE + 32 <= cos_spec(w) <= ONE - 32,
{
    lemma_sin_cos_range(w);
    let v = if w <= HALF_PI { w } else { PI - w };
    if v <= QUARTER_PI {
        lemma_series_near_side(v);
        lemma_series_range(v);
    } else {
        lemma_series_far_side(HALF_PI - v);
        lemma_series_range(HALF_PI - v);
    }
}

/// One nesting level of a series.
fn stage(x2: i64, divisor: i64, inner: i64) -> (r: i64)
    requires
        0 <= x2 <= ONE,
        1 <= divisor,
        0 <= inner <= ONE,
    ensures
        r == stage_spec(x2 as int, divisor as int, inner as int),
        0 <= r <= ONE,
{
    proof {
        lemma_stage_range(x2 as int, divisor as int, inner as int);
    }
    ONE - multiply(x2 / divisor, inner)
}

/// The cosine series on the first octant.
fn cos_octant(x: i64) -> (r: i64)
    requires
        0 <= x <= QUARTER_PI,
    ensures
        r == cos_series(x as int),
        0 <= r <= ONE,
{
    proof {
        lemma_square_range(x as int);
    }
    let x2: i64 = multiply(x, x);
    let c5: i64 = stage(x2, 132, ONE);
    let c4: i64 = stage(x2, 90, c5);
    let c3: i64 = stage(x2, 56, c4);
    let c2: i64 = stage(x2, 30, c3);
    let c1: i64 = stage(x2, 12, c2);
    stage(x2, 2, c1)
}

/// The sine series on the first octant.
fn sin_octant(x: i64) -> (r: i64)
    requires
        0 <= x <= QUARTER_PI,
    ensures
        r == sin_series(x as int),
        0 <= r <= ONE,
{
    proof {
        lemma_square_range(x as int);
        lemma_series_range(x as int);
    }
    let x2: i64 = multiply(x, x);
    let s4: i64 = stage(x2, 110, ONE);
    let s3: i64 = stage(x2, 72, s4);
    let s2: i64 = stage(x2, 42, s3);
    let s1: i64 = stage(x2, 20, s2);
    let s0: i64 = stage(x2, 6, s1);
    multiply(x, s0)
}

/// The sine of the angle `w`, for `w` between 0 and pi.
pub fn sin(w: i64) -> (r: i64)
    requires
        0 <= w <= PI,
    ensures
        r == sin_spec(w as int),
        0 <= r <= ONE,
{
    let v: i64 = if w <= HALF_PI {
        w
    } else {
        PI - w
    };
    if v <= QUARTER_PI {
        sin_octant(v)
    } else {
        cos_octant(HALF_PI - v)
    }
}

/// The cosine of the angle `w`, for `w` between 0 and pi.
pub fn cos(w: i64) -> (r: i64)
    requires
        0 <= w <= PI,
    ensures
        r == cos_spec(w as int),
        -ONE <= r <= ONE,
{
    let v: i64 = if w <= HALF_PI {
        w
    } else {
        PI - w
    };
    let c: i64 = if v <= QUARTER_PI {
        cos_octant(v)
    } else {
        sin_octant(HALF_PI - v)
    };
    if w <= HALF_PI {
        c
    } else {
        -c
    }
}

} // verus!
