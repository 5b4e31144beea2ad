use vstd::prelude::*;
use vstd::arithmetic::div_mod::{
    lemma_div_is_ordered,
    lemma_fundamental_div_mod,
    lemma_fundamental_div_mod_converse,
};

use crate::triangle::NDC_ONE;

verus! {

/// The largest pixel coordinate a `u32` can hold.
pub open spec fn clamp_u32(v: int) -> int {
    if v < 0 {
        0
    } else if v > u32::MAX {
        u32::MAX as int
    } else {
        v
    }
}

/// NDC x of pixel column `x` on a framebuffer `w` pixels wide:
/// `x / w * 2 - 1`, rounded down to the fixed-point grid.
pub open spec fn screen_x_to_ndc(x: int, w: int) -> int {
    2 * NDC_ONE * x / w - NDC_ONE
}

/// NDC y of pixel row `y` on a framebuffer `h` pixels high:
/// `(1 - y / h) * 2 - 1`, with the row term rounded down to the fixed-point grid.
pub open spec fn screen_y_to_ndc(y: int, h: int) -> int {
    NDC_ONE - 2 * NDC_ONE * y / h
}

/// `v / (2 * NDC_ONE)` rounded to nearest, ties away from zero, for `v >= 0`;
/// at most zero for `v < 0`.
pub open spec fn round_half_scale(v: int) -> int {
    (v + NDC_ONE) / (2 * NDC_ONE)
}

/// Pixel column of NDC x `n`: `round(w * (1 + n) / 2)`, saturated to `u32`.
pub open spec fn ndc_x_to_screen(n: int, w: int) -> int {
    clamp_u32(round_half_scale(w * (NDC_ONE + n)))
}

/// Pixel row of NDC y `n`: `round(h * (1 - (1 + n) / 2))`, saturated to `u32`.
pub open spec fn ndc_y_to_screen(n: int, h: int) -> int {
    clamp_u32(round_half_scale(h * (NDC_ONE - n)))
}

/// NDC x of pixel column `x` on a framebuffer `w` pixels wide.
pub fn screen_to_ndc_x(x: u32, w: u32) -> (r: i64)
    requires
        0 < w,
        x <= w,
    ensures
        r == screen_x_to_ndc(x as int, w as int),
        -NDC_ONE <= r <= NDC_ONE,
{
    assert(2 * NDC_ONE * x <= 2 * NDC_ONE * 4294967295) by (nonlinear_arith)
        requires
            x <= 4294967295,
    ;
    let num: u128 = 2 * (NDC_ONE as u128) * (x as u128);
    let q: u128 = num / (w as u128);
    proof {
        let s = NDC_ONE as int;
        assert(2 * s * x <= 2 * s * w) by (nonlinear_arith)
            requires
                x <= w,
                s > 0,
        ;
        assert(2 * s * w == w * (2 * s)) by (nonlinear_arith);
        vstd::arithmetic::div_mod::lemma_div_multiples_vanish(2 * s, w as int);
        lemma_div_is_ordered(2 * s * x, 2 * s * w, w as int);
        lemma_div_is_ordered(0, 2 * s * x, w as int);
    }
    (q as i64) - NDC_ONE
}

/// NDC y of pixel row `y` on a framebuffer `h` pixels high.
pub fn screen_to_ndc_y(y: u32, h: u32) -> (r: i64)
    requires
        0 < h,
        y <= h,
    ensures
        r == screen_y_to_ndc(y as int, h as int),
        -NDC_ONE <= r <= NDC_ONE,
{
    let q = screen_to_ndc_x(y, h) + NDC_ONE;
    NDC_ONE - q
}

/// Rounds `v / (2 * NDC_ONE)` to nearest and saturates it to `u32`.
fn round_to_pixel(v: i128) -> (r: u32)
    requires
        -0x1_0000_0000_0000_0000_0000_0000 <= v <= 0x1_0000_0000_0000_0000_0000_0000,
    ensures
        r == clamp_u32(round_half_scale(v as int)),
{
    let s = NDC_ONE as i128;
    if v < -s {
        proof {
            assert((v + s) / (2 * s) < 0) by (nonlinear_arith)
                requires
                    v + s < 0,
                    s > 0,
            ;
        }
        0
    } else {
        let q: u128 = ((v + s) as u128) / (2 * (s as u128));
        if q > u32::MAX as u128 {
            u32::MAX
        } else {
            q as u32
        }
    }
}

/// Pixel column of NDC x `n` on a framebuffer `w` pixels wide.
pub fn ndc_to_screen_x(n: i64, w: u32) -> (r: u32)
    ensures
        r == ndc_x_to_screen(n as int, w as int),
{
    let m: i128 = NDC_ONE as i128 + n as i128;
    assert(-18446744073709551616 * 4294967296 <= w * m <= 18446744073709551616 * 4294967296)
        by (nonlinear_arith)
        requires
            0 <= w <= 4294967295,
            -18446744073709551616 <= m <= 18446744073709551616,
    ;
    round_to_pixel((w as i128) * m)
}

/// Pixel row of NDC y `n` on a framebuffer `h` pixels high.
pub fn ndc_to_screen_y(n: i64, h: u32) -> (r: u32)
    ensures
        r == ndc_y_to_screen(n as int, h as int),
{
    let m: i128 = NDC_ONE as i128 - n as i128;
    assert(-18446744073709551616 * 4294967296 <= h * m <= 18446744073709551616 * 4294967296)
        by (nonlinear_arith)
        requires
            0 <= h <= 4294967295,
            -18446744073709551616 <= m <= 18446744073709551616,
    ;
    round_to_pixel((h as i128) * m)
}

/// Mapping a pixel to NDC and back gives the same pixel again: the
/// fixed-point grid is fine enough for every `u32` width that no rounding
/// error survives the return trip.
pub proof fn lemma_round_trip_x(x: int, w: int)
    requires
        0 < w <= u32::MAX,
        0 <= x <= w,
    ensures
        ndc_x_to_screen(screen_x_to_ndc(x, w), w) == x,
{
    let s = NDC_ONE as int;
    lemma_fundamental_div_mod(2 * s * x, w);
    let q = 2 * s * x / w;
    let r = 2 * s * x % w;
    assert(NDC_ONE + screen_x_to_ndc(x, w) == q);
    assert(w * q + s == x * (2 * s) + (s - r)) by (nonlinear_arith)
        requires
            2 * s * x == w * q + r,
    ;
    lemma_fundamental_div_mod_converse(w * q + s, 2 * s, x, s - r);
}

/// Rows map to NDC and back to the same row.
pub proof fn lemma_round_trip_y(y: int, h: int)
    requires
        0 < h <= u32::MAX,
        0 <= y <= h,
    ensures
        ndc_y_to_screen(screen_y_to_ndc(y, h), h) == y,
{
    lemma_round_trip_x(y, h);
    assert(NDC_ONE - screen_y_to_ndc(y, h) == NDC_ONE + screen_x_to_ndc(y, h));
}

/// Further right on screen is further right in NDC.
pub proof fn lemma_screen_to_ndc_x_increasing(x1: int, x2: int, w: int)
    requires
        0 < w <= u32::MAX,
        0 <= x1 < x2,
    ensures
        screen_x_to_ndc(x1, w) < screen_x_to_ndc(x2, w),
{
    let s = NDC_ONE as int;
    lemma_fundamental_div_mod(2 * s * x1, w);
    lemma_fundamental_div_mod(2 * s * x2, w);
    let q1 = 2 * s * x1 / w;
    let q2 = 2 * s * x2 / w;
    let r1 = 2 * s * x1 % w;
    let r2 = 2 * s * x2 % w;
    assert(q1 < q2) by (nonlinear_arith)
        requires
            2 * s * x1 == w * q1 + r1,
            2 * s * x2 == w * q2 + r2,
            0 <= r1 < w,
            0 <= r2 < w,
            x1 + 1 <= x2,
            w <= 2 * s,
            0 < w,
    ;
}

/// Further down on screen is further down in NDC: y is inverted.
pub proof fn lemma_screen_to_ndc_y_decreasing(y1: int, y2: int, h: int)
    requires
        0 < h <= u32::MAX,
        0 <= y1 < y2,
    ensures
        screen_y_to_ndc(y1, h) > screen_y_to_ndc(y2, h),
{
    lemma_screen_to_ndc_x_increasing(y1, y2, h);
}

proof fn lemma_round_monotone(v1: int, v2: int)
    requires
        v1 <= v2,
    ensures
        clamp_u32(round_half_scale(v1)) <= clamp_u32(round_half_scale(v2)),
{
    lemma_div_is_ordered(v1 + NDC_ONE, v2 + NDC_ONE, 2 * NDC_ONE);
}

/// A larger NDC x never lands on an earlier column.
pub proof fn lemma_ndc_x_to_screen_monotone(n1: int, n2: int, w: int)
    requires
        n1 <= n2,
        0 <= w,
    ensures
        ndc_x_to_screen(n1, w) <= ndc_x_to_screen(n2, w),
{
    assert(w * (NDC_ONE + n1) <= w * (NDC_ONE + n2)) by (nonlinear_arith)
        requires
            n1 <= n2,
            0 <= w,
    ;
    lemma_round_monotone(w * (NDC_ONE + n1), w * (NDC_ONE + n2));
}

/// A larger NDC y never lands on a lower row.
pub proof fn lemma_ndc_y_to_screen_antitone(n1: int, n2: int, h: int)
    requires
        n1 <= n2,
        0 <= h,
    ensures
        ndc_y_to_screen(n2, h) <= ndc_y_to_screen(n1, h),
{
    assert(h * (NDC_ONE - n2) <= h * (NDC_ONE - n1)) by (nonlinear_arith)
        requires
            n1 <= n2,
            0 <= h,
    ;
    lemma_round_monotone(h * (NDC_ONE - n2), h * (NDC_ONE - n1));
}

} // verus!
