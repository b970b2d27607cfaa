//! How tall and how bright a wall is drawn at a distance.
//!
//! A wall at distance `d`, taken as one where it is nearer than that, fills
//! `height / d` rows of a canvas of `height` rows and has the brightness
//! `255 / (d / 2)^2`, which is the inverse-square law with full brightness down
//! to a distance of two; both are rounded to the nearest whole number, and the
//! brightness is kept to what a byte holds. Both are worked out on the exact
//! value of the distance, in whole numbers.
use crate::binary64::{
    lemma_unit_patterns, unit, Binary64, EXPONENT_OF_ONE, FRACTION_SPAN, ONE,
};
use vstd::arithmetic::div_mod::*;
use vstd::arithmetic::mul::*;
use vstd::arithmetic::power2::*;
use vstd::prelude::*;

verus! {

/// `n / d` rounded to the nearest whole number, upwards where two are equally
/// near.
pub open spec fn rounded_quotient(n: nat, d: nat) -> nat {
    (2 * n + d) / (2 * d)
}

/// The distance that a wall is drawn for, in units of 2^-1074: the distance
/// itself, and one where the distance is under one.
pub open spec fn clamped(distance: Binary64) -> nat {
    if distance.scaled() < unit() {
        unit()
    } else {
        distance.scaled() as nat
    }
}

/// The rows that a wall at a distance fills on a canvas of `canvas_height`
/// rows: `canvas_height / distance`, rounded. None where the distance is not
/// a number.
pub open spec fn slice_height(canvas_height: nat, distance: Binary64) -> nat {
    if distance.nan() {
        0
    } else {
        rounded_quotient(canvas_height * unit(), clamped(distance))
    }
}

/// The brightness of a wall at a distance: `255 / (distance / 2)^2`, which is
/// `1020 / distance^2`, rounded, and 255 where that is more. None where the
/// distance is not a number.
pub open spec fn slice_brightness(distance: Binary64) -> nat {
    if distance.nan() {
        0
    } else {
        let exact = rounded_quotient(
            1020 * (unit() * unit()),
            clamped(distance) * clamped(distance),
        );
        if exact > 255 {
            255
        } else {
            exact
        }
    }
}

/// Two to the power `e`.
fn power_of_two(e: u64) -> (p: u128)
    requires
        e <= 64,
    ensures
        p == pow2(e as nat),
{
    let mut p: u128 = 1;
    let mut i: u64 = 0;
    proof {
        lemma2_to64();
    }
    while i < e
        invariant
            i <= e <= 64,
            p == pow2(i as nat),
        decreases e - i,
    {
        proof {
            lemma_pow2_unfold((i + 1) as nat);
            lemma2_to64();
            if i + 1 < 64 {
                lemma_pow2_strictly_increases((i + 1) as nat, 64);
            }
        }
        p = p * 2;
        i += 1;
    }
    p
}

/// The distance that a wall is drawn for, as a significand `m` and an exponent
/// `k`: it is `m * 2^(k - 52)`, which is `m * 2^(1022 + k)` units.
fn clamped_parts(distance: Binary64) -> (parts: (u64, u64))
    requires
        !distance.nan(),
    ensures
        FRACTION_SPAN <= parts.0 < 2 * FRACTION_SPAN,
        parts.1 <= 1024,
        clamped(distance) == parts.0 * pow2((1022 + parts.1) as nat),
{
    proof {
        lemma_unit_patterns();
        lemma_pow2_pos(1074);
    }
    if distance.lt(Binary64::from_bits(ONE)) {
        proof {
            lemma2_to64_rest();
            lemma_pow2_adds(52, 1022);
        }
        (FRACTION_SPAN, 0)
    } else {
        let e = distance.exponent_field();
        proof {
            if e < EXPONENT_OF_ONE {
                distance.lemma_below_one();
            }
        }
        let k: u64 = e - EXPONENT_OF_ONE;
        proof {
            distance.lemma_from_one_up(k as nat);
        }
        (FRACTION_SPAN + distance.fraction_field(), k)
    }
}

/// The number of rows that a wall at `distance` fills on a canvas of
/// `canvas_height` rows.
pub fn wall_slice_height(canvas_height: usize, distance: Binary64) -> (rows: usize)
    ensures
        rows == slice_height(canvas_height as nat, distance),
        rows <= canvas_height,
{
    if distance.is_nan() {
        return 0;
    }
    let (m, k) = clamped_parts(distance);
    let ghost s = clamped(distance);
    let ghost u = unit();
    let ghost c = pow2(1022);
    proof {
        lemma_pow2_pos(1022);
        lemma_pow2_pos(k as nat);
        lemma_pow2_adds(1022, 52);
        lemma_pow2_adds(1022, k as nat);
        lemma2_to64();
        lemma2_to64_rest();
    }
    if k > 64 {
        proof {
            // The distance is over twice the height: the quotient is under a half.
            let w = pow2(k as nat);
            lemma_pow2_unfold(65);
            if k > 65 {
                lemma_pow2_strictly_increases(65, k as nat);
            }
            assert(2 * canvas_height * 0x10_0000_0000_0000 < m * w) by (nonlinear_arith)
                requires
                    0x10_0000_0000_0000 <= m,
                    0x2_0000_0000_0000_0000 <= w,
                    0 <= canvas_height < 0x1_0000_0000_0000_0000,
            ;
            lemma_mul_strict_inequality(
                2 * canvas_height * 0x10_0000_0000_0000,
                (m * w) as int,
                c as int,
            );
            assert(2 * (canvas_height * u) == 2 * canvas_height * 0x10_0000_0000_0000 * c && s
                == (m * w) * c) by (nonlinear_arith)
                requires
                    u == c * 0x10_0000_0000_0000,
                    s == m * (c * w),
            ;
            lemma_basic_div((2 * (canvas_height * u) + s) as int, (2 * s) as int);
        }
        return 0;
    }
    let w: u128 = power_of_two(k);
    assert(w <= 0x1_0000_0000_0000_0000) by {
        if k < 64 {
            lemma_pow2_strictly_increases(k as nat, 64);
        }
    }
    assert(0x10_0000_0000_0000 <= m * w <= 0x20_0000_0000_0000 * 0x1_0000_0000_0000_0000)
        by (nonlinear_arith)
        requires
            0x10_0000_0000_0000 <= m < 0x20_0000_0000_0000,
            1 <= w <= 0x1_0000_0000_0000_0000,
    ;
    assert(canvas_height * 0x20_0000_0000_0000 <= 0x1_0000_0000_0000_0000
        * 0x20_0000_0000_0000) by (nonlinear_arith)
        requires
            canvas_height <= 0x1_0000_0000_0000_0000,
    ;
    let span: u128 = (m as u128) * w;
    let above: u128 = (canvas_height as u128) * 0x20_0000_0000_0000 + span;
    let below: u128 = 2 * span;
    proof {
        assert(2 * (canvas_height * u) + s == c * above && 2 * s == c * below)
            by (nonlinear_arith)
            requires
                u == c * 0x10_0000_0000_0000,
                s == m * (c * w),
                above == canvas_height * 0x20_0000_0000_0000 + m * w,
                below == 2 * (m * w),
        ;
        lemma_div_multiples_vanish_quotient(c as int, above as int, below as int);
        // No more rows than the canvas has, as the distance is one or more.
        assert(above < below * (canvas_height + 1)) by (nonlinear_arith)
            requires
                above == canvas_height * 0x20_0000_0000_0000 + span,
                below == 2 * span,
                0x10_0000_0000_0000 <= span,
                0 <= canvas_height,
        ;
        lemma_multiply_divide_lt(above as int, below as int, canvas_height + 1);
    }
    (above / below) as usize
}

/// The brightness of a wall at `distance`.
pub fn brightness(distance: Binary64) -> (level: u8)
    ensures
        level == slice_brightness(distance),
{
    if distance.is_nan() {
        return 0;
    }
    let (m, k) = clamped_parts(distance);
    let ghost s = clamped(distance);
    let ghost u = unit();
    let ghost c = pow2(1022);
    proof {
        lemma_pow2_pos(1022);
        lemma_pow2_pos(k as nat);
        lemma_pow2_adds(1022, 52);
        lemma_pow2_adds(1022, k as nat);
        lemma2_to64();
        lemma2_to64_rest();
    }
    if k > 5 {
        proof {
            // The distance is sixty-four or more: the quotient is under a half.
            let w = pow2(k as nat);
            if k > 6 {
                lemma_pow2_strictly_increases(6, k as nat);
            }
            assert(2 * (1020 * (u * u)) < s * s) by (nonlinear_arith)
                requires
                    u == c * 0x10_0000_0000_0000,
                    s == m * (c * w),
                    0x10_0000_0000_0000 <= m,
                    64 <= w,
                    0 < c,
            ;
            lemma_basic_div((2 * (1020 * (u * u)) + s * s) as int, (2 * (s * s)) as int);
        }
        return 0;
    }
    let w: u128 = power_of_two(k);
    assert(w <= 32) by {
        if k < 5 {
            lemma_pow2_strictly_increases(k as nat, 5);
        }
    }
    assert(m * w < 0x20_0000_0000_0000 * 32 && 0x10_0000_0000_0000 <= m * w) by (nonlinear_arith)
        requires
            0x10_0000_0000_0000 <= m < 0x20_0000_0000_0000,
            1 <= w <= 32,
    ;
    let span: u128 = (m as u128) * w;
    assert(span * span < 0x400_0000_0000_0000 * 0x400_0000_0000_0000 && 0 < span * span)
        by (nonlinear_arith)
        requires
            0 < span < 0x400_0000_0000_0000,
    ;
    let square: u128 = span * span;
    // 1020 * 2^104 * 2
    let above: u128 = 2040 * 0x1_0000_0000_0000_0000_0000_0000_00 + square;
    let below: u128 = 2 * square;
    proof {
        assert(2 * (1020 * (u * u)) + s * s == (c * c) * above && 2 * (s * s) == (c * c) * below)
            by (nonlinear_arith)
            requires
                u == c * 0x10_0000_0000_0000,
                s == m * (c * w),
                above == 2040 * 0x1_0000_0000_0000_0000_0000_0000_00 + (m * w) * (m * w),
                below == 2 * ((m * w) * (m * w)),
        ;
        assert(0 < c * c) by (nonlinear_arith)
            requires
                0 < c,
        ;
        lemma_div_multiples_vanish_quotient((c * c) as int, above as int, below as int);
    }
    let exact: u128 = above / below;
    if exact > 255 {
        255
    } else {
        exact as u8
    }
}

/// A rounded quotient does not grow with its divisor.
pub proof fn lemma_rounded_quotient_falls(n: nat, a: nat, b: nat)
    requires
        0 < a <= b,
    ensures
        rounded_quotient(n, b) <= rounded_quotient(n, a),
{
    let q = rounded_quotient(n, b);
    lemma_fundamental_div_mod((2 * n + b) as int, (2 * b) as int);
    lemma_mod_pos_bound((2 * n + b) as int, (2 * b) as int);
    if q > 0 {
        assert(q * (2 * a) <= 2 * n + a) by (nonlinear_arith)
            requires
                (2 * b) * q <= 2 * n + b,
                0 < a <= b,
                1 <= q,
        ;
        lemma_div_is_ordered((q * (2 * a)) as int, (2 * n + a) as int, (2 * a) as int);
        lemma_div_by_multiple(q as int, (2 * a) as int);
    }
}

/// Seen from farther away a wall is drawn no taller and no brighter: where one
/// distance is at most another, the height and the brightness for the greater
/// are at most those for the smaller.
pub proof fn lemma_farther_is_lower_and_darker(canvas_height: nat, near: Binary64, far: Binary64)
    requires
        near.at_most(far),
    ensures
        slice_height(canvas_height, far) <= slice_height(canvas_height, near),
        slice_brightness(far) <= slice_brightness(near),
{
    lemma_pow2_pos(1074);
    let a = clamped(near);
    let b = clamped(far);
    lemma_rounded_quotient_falls(canvas_height * unit(), a, b);
    assert(0 < a * a <= b * b) by (nonlinear_arith)
        requires
            0 < a <= b,
    ;
    lemma_rounded_quotient_falls(1020 * (unit() * unit()), a * a, b * b);
}

} // verus!
