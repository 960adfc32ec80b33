//! RGBA colors: interpolation and black/white classification.

use vstd::prelude::*;

verus! {

use crate::errors::ImageError;
use crate::fixed::{
    SCALE, tdiv, sqrt_floor, is_sqrt, tdiv_i128, isqrt_u128,
    lemma_tdiv_bounds, lemma_tdiv_nonneg, lemma_tdiv_mul_cancel, lemma_sqrt_floor,
    lemma_sqrt_unique,
};

/// One RGBA pixel, one byte per channel.
#[derive(Clone, Copy, Debug, PartialEq, Eq, Structural)]
pub struct Color {
    /// red component
    pub r: u8,
    /// green component
    pub g: u8,
    /// blue component
    pub b: u8,
    /// alpha component
    pub a: u8,
}

/// The two pure colors a checkerboard cell can be closest to.
#[derive(Clone, Copy, Debug, PartialEq, Eq, Structural)]
pub enum BlackWhite {
    /// Black
    Black,
    /// White
    White,
}

/// One channel blended between `c1` (at `t == 0`) and `c2` (at
/// `t == SCALE`), truncated toward zero.
pub open spec fn lerp_channel(c1: int, c2: int, t: int) -> int {
    tdiv(c1 * (SCALE - t) + c2 * t, SCALE as int)
}

/// All four channels blended with the same parameter.
pub open spec fn lerp_color(c1: Color, c2: Color, t: int) -> Color {
    Color {
        r: lerp_channel(c1.r as int, c2.r as int, t) as u8,
        g: lerp_channel(c1.g as int, c2.g as int, t) as u8,
        b: lerp_channel(c1.b as int, c2.b as int, t) as u8,
        a: lerp_channel(c1.a as int, c2.a as int, t) as u8,
    }
}

/// Blending with parameter zero returns the first color unchanged.
pub proof fn lemma_lerp_color_zero(c1: Color, c2: Color)
    ensures
        lerp_color(c1, c2, 0) == c1,
{
    lemma_tdiv_mul_cancel(c1.r as int, SCALE as int);
    lemma_tdiv_mul_cancel(c1.g as int, SCALE as int);
    lemma_tdiv_mul_cancel(c1.b as int, SCALE as int);
    lemma_tdiv_mul_cancel(c1.a as int, SCALE as int);
}

/// One blended channel, in executable form.
fn lerp_u8(c1: u8, c2: u8, t: i64) -> (r: u8)
    requires
        0 <= t <= SCALE,
    ensures
        r == lerp_channel(c1 as int, c2 as int, t as int),
{
    proof {
        assert(0 <= (c1 as int) * (SCALE - t) + (c2 as int) * t <= 255 * (SCALE as int))
            by (nonlinear_arith)
            requires
                0 <= c1 <= 255 && 0 <= c2 <= 255 && 0 <= t <= SCALE,
        ;
    }
    let v: i64 = (c1 as i64) * (SCALE - t) + (c2 as i64) * t;
    proof {
        lemma_tdiv_nonneg(v as int, SCALE as int);
        lemma_tdiv_bounds(v as int, SCALE as int, 255);
    }
    let q = tdiv_i128(v as i128, SCALE as i128);
    q as u8
}

impl Color {
    /// Blend this color toward `other`; `t` runs from zero (this color) to
    /// `SCALE` (the other).  Blending is only defined between fully opaque
    /// colors; anything else is refused.
    pub fn interpolate(&self, other: &Color, t: i64) -> (r: Result<Color, ImageError>)
        requires
            0 <= t <= SCALE,
        ensures
            r == if self.a != 255 || other.a != 255 {
                Err::<Color, ImageError>(ImageError::NonOpaqueAlpha)
            } else {
                Ok::<Color, ImageError>(lerp_color(*self, *other, t as int))
            },
    {
        if self.a != 0xFF || other.a != 0xFF {
            Err(ImageError::NonOpaqueAlpha)
        } else {
            Ok(Color {
                r: lerp_u8(self.r, other.r, t),
                g: lerp_u8(self.g, other.g, t),
                b: lerp_u8(self.b, other.b, t),
                a: lerp_u8(self.a, other.a, t),
            })
        }
    }
}

/// The pure value a classification compares against.
pub open spec fn bw_target(t: BlackWhite) -> int {
    if t is Black {
        0
    } else {
        255
    }
}

/// Nine times the channel variance plus nine times the squared distance to
/// the target color: the quantity under the square root of the
/// black/white unlikelihood, scaled to stay an integer.
pub open spec fn bw_qval(c: Color, t: BlackWhite) -> int {
    let m = c.r + c.g + c.b;
    let dr = 3 * c.r - m;
    let dg = 3 * c.g - m;
    let db = 3 * c.b - m;
    let tv = bw_target(t);
    let er = c.r - tv;
    let eg = c.g - tv;
    let eb = c.b - tv;
    dr * dr + dg * dg + db * db + 9 * (er * er + eg * eg + eb * eb)
}

/// How strongly a color is not the target pure color: the square root of
/// the channel variance plus the squared distance to the target, in fixed
/// point.
pub open spec fn bw_unlikelihood(c: Color, t: BlackWhite) -> int {
    sqrt_floor(bw_qval(c, t) * (SCALE as int) * (SCALE as int)) / 3
}

/// The square-rooted quantity is a sum of squares, hence nonnegative, and
/// bounded by the worst case of saturated channels.
pub proof fn lemma_bw_qval_range(c: Color, t: BlackWhite)
    ensures
        0 <= bw_qval(c, t) <= 2_535_975,
{
    let m = c.r + c.g + c.b;
    let dr = 3 * c.r - m;
    let dg = 3 * c.g - m;
    let db = 3 * c.b - m;
    let tv = bw_target(t);
    let er = c.r - tv;
    let eg = c.g - tv;
    let eb = c.b - tv;
    assert(0 <= dr * dr <= 260_100 && 0 <= dg * dg <= 260_100 && 0 <= db * db <= 260_100)
        by (nonlinear_arith)
        requires
            -510 <= dr <= 510 && -510 <= dg <= 510 && -510 <= db <= 510,
    ;
    assert(0 <= er * er <= 65_025 && 0 <= eg * eg <= 65_025 && 0 <= eb * eb <= 65_025)
        by (nonlinear_arith)
        requires
            -255 <= er <= 255 && -255 <= eg <= 255 && -255 <= eb <= 255,
    ;
}

/// The unlikelihood of any color is nonnegative and below 531, in fixed
/// point.
pub proof fn lemma_bw_unlikelihood_range(c: Color, t: BlackWhite)
    ensures
        0 <= bw_unlikelihood(c, t) <= 531 * (SCALE as int),
{
    lemma_bw_qval_range(c, t);
    let x = bw_qval(c, t) * (SCALE as int) * (SCALE as int);
    assert(0 <= x <= 2_535_975_000_000_000_000) by (nonlinear_arith)
        requires
            0 <= bw_qval(c, t) <= 2_535_975,
            x == bw_qval(c, t) * 1_000_000 * 1_000_000,
    ;
    lemma_sqrt_floor(x);
    let s = sqrt_floor(x);
    assert(s < 1_593_000_000) by {
        if s >= 1_593_000_000 {
            assert(s * s >= 2_537_649_000_000_000_000) by (nonlinear_arith)
                requires
                    s >= 1_593_000_000,
            ;
        }
    }
    lemma_tdiv_nonneg(s, 3);
    assert(s / 3 <= 531_000_000) by {
        vstd::arithmetic::div_mod::lemma_div_is_ordered(s, 1_593_000_000, 3);
        vstd::arithmetic::div_mod::lemma_div_by_multiple(531_000_000, 3);
    }
    assert(s / 3 >= 0) by {
        vstd::arithmetic::div_mod::lemma_div_pos_is_pos(s, 3);
    }
}

/// How strongly a color is not black or not white.  Relies on nothing but
/// integer arithmetic: the channel variance and the squared distance to the
/// target are summed under one square root.
pub fn get_black_white_unlikelihood(c: &Color, target: BlackWhite) -> (r: i64)
    ensures
        r == bw_unlikelihood(*c, target),
        0 <= r <= 531 * SCALE,
{
    let m: i64 = c.r as i64 + c.g as i64 + c.b as i64;
    let dr: i64 = 3 * (c.r as i64) - m;
    let dg: i64 = 3 * (c.g as i64) - m;
    let db: i64 = 3 * (c.b as i64) - m;
    let tv: i64 = match target {
        BlackWhite::Black => 0,
        BlackWhite::White => 255,
    };
    let er: i64 = c.r as i64 - tv;
    let eg: i64 = c.g as i64 - tv;
    let eb: i64 = c.b as i64 - tv;
    proof {
        assert(0 <= dr * dr <= 260_100 && 0 <= dg * dg <= 260_100 && 0 <= db * db <= 260_100)
            by (nonlinear_arith)
            requires
                -510 <= dr <= 510 && -510 <= dg <= 510 && -510 <= db <= 510,
        ;
        assert(0 <= er * er <= 65_025 && 0 <= eg * eg <= 65_025 && 0 <= eb * eb <= 65_025)
            by (nonlinear_arith)
            requires
                -255 <= er <= 255 && -255 <= eg <= 255 && -255 <= eb <= 255,
        ;
    }
    let q: i64 = dr * dr + dg * dg + db * db + 9 * (er * er + eg * eg + eb * eb);
    proof {
        assert(q == bw_qval(*c, target));
    }
    let x: u128 = (q as u128) * (SCALE as u128) * (SCALE as u128);
    let s: u64 = isqrt_u128(x);
    proof {
        lemma_bw_unlikelihood_range(*c, target);
        lemma_sqrt_floor(x as int);
        lemma_sqrt_unique(x as int, s as int, sqrt_floor(x as int));
    }
    let u: u64 = s / 3;
    u as i64
}

/// No color is near both pure black and pure white: a color whose black
/// unlikelihood is below 220 has a white unlikelihood above 220, in
/// fixed point.
pub proof fn lemma_bw_unlikelihood_split(c: Color)
    ensures
        bw_unlikelihood(c, BlackWhite::Black) < 220 * (SCALE as int) ==> bw_unlikelihood(
            c,
            BlackWhite::White,
        ) > 220 * (SCALE as int),
{
    let s = SCALE as int;
    let xr = c.r as int;
    let xg = c.g as int;
    let xb = c.b as int;
    let db = xr * xr + xg * xg + xb * xb;
    let dw = (xr - 255) * (xr - 255) + (xg - 255) * (xg - 255) + (xb - 255) * (xb - 255);
    assert(2 * (xr * xr + (xr - 255) * (xr - 255)) >= 65_025 && 2 * (xg * xg + (xg - 255) * (xg
        - 255)) >= 65_025 && 2 * (xb * xb + (xb - 255) * (xb - 255)) >= 65_025)
        by (nonlinear_arith);
    assert(db + dw >= 97_538);
    let qb = bw_qval(c, BlackWhite::Black);
    let qw = bw_qval(c, BlackWhite::White);
    assert(qb >= 9 * db && qw >= 9 * dw && qb <= 9 * db + 780_300) by {
        lemma_bw_qval_range(c, BlackWhite::Black);
        let m = c.r + c.g + c.b;
        let dr = 3 * c.r - m;
        let dg = 3 * c.g - m;
        let dbl = 3 * c.b - m;
        assert(dr * dr >= 0 && dg * dg >= 0 && dbl * dbl >= 0 && dr * dr <= 260_100 && dg * dg
            <= 260_100 && dbl * dbl <= 260_100) by (nonlinear_arith)
            requires
                -510 <= dr <= 510 && -510 <= dg <= 510 && -510 <= dbl <= 510,
        ;
    }
    if bw_unlikelihood(c, BlackWhite::Black) < 220 * s {
        let ub = bw_unlikelihood(c, BlackWhite::Black);
        let xb2 = qb * s * s;
        lemma_bw_qval_range(c, BlackWhite::Black);
        assert(xb2 >= 0) by (nonlinear_arith)
            requires
                qb >= 0 && xb2 == qb * 1_000_000 * 1_000_000,
        ;
        lemma_sqrt_floor(xb2);
        let sb = sqrt_floor(xb2);
        vstd::arithmetic::div_mod::lemma_fundamental_div_mod(sb, 3);
        assert(sb <= 3 * ub + 2);
        assert(sb <= 660 * s - 1);
        assert((sb + 1) * (sb + 1) <= (660 * s) * (660 * s)) by (nonlinear_arith)
            requires
                0 <= sb + 1 <= 660 * s,
        ;
        assert(qb * s * s < 435_600 * s * s) by {
            assert((660 * s) * (660 * s) == 435_600 * s * s) by (nonlinear_arith)
                requires
                    s == 1_000_000,
            ;
        }
        assert(qb < 435_600) by (nonlinear_arith)
            requires
                qb * s * s < 435_600 * s * s && s == 1_000_000,
        ;
        assert(db <= 48_399);
        assert(dw >= 49_139);
        assert(qw >= 442_251);
        let xw2 = qw * s * s;
        lemma_bw_qval_range(c, BlackWhite::White);
        assert(xw2 >= 0) by (nonlinear_arith)
            requires
                qw >= 0 && xw2 == qw * 1_000_000 * 1_000_000,
        ;
        lemma_sqrt_floor(xw2);
        let sw = sqrt_floor(xw2);
        assert(sw >= 665 * s) by {
            if sw < 665 * s {
                assert((sw + 1) * (sw + 1) <= (665 * s) * (665 * s)) by (nonlinear_arith)
                    requires
                        0 <= sw + 1 <= 665 * s,
                ;
                assert((665 * s) * (665 * s) == 442_225 * s * s) by (nonlinear_arith)
                    requires
                        s == 1_000_000,
                ;
                assert(xw2 >= 442_251 * s * s) by (nonlinear_arith)
                    requires
                        qw >= 442_251 && xw2 == qw * s * s && s == 1_000_000,
                ;
                assert(442_251 * s * s > 442_225 * s * s) by (nonlinear_arith)
                    requires
                        s == 1_000_000,
                ;
            }
        }
        vstd::arithmetic::div_mod::lemma_div_is_ordered(665 * s, sw, 3);
        assert((665 * s) / 3 == 221_666_666);
        assert(bw_unlikelihood(c, BlackWhite::White) >= 221_666_666);
    }
}

/// Which pure color the pixel is nearer to, by squared channel distance;
/// ties go to white.
pub open spec fn bw_closer(c: Color) -> BlackWhite {
    let db = c.r * c.r + c.g * c.g + c.b * c.b;
    let dw = (255 - c.r) * (255 - c.r) + (255 - c.g) * (255 - c.g) + (255 - c.b) * (255 - c.b);
    if db < dw {
        BlackWhite::Black
    } else {
        BlackWhite::White
    }
}

/// Classify a pixel as closer to black or to white.
pub fn get_black_white_closer(c: Color) -> (r: BlackWhite)
    ensures
        r == bw_closer(c),
{
    proof {
        assert(0 <= (c.r as int) * (c.r as int) <= 65_025 && 0 <= (c.g as int) * (c.g as int)
            <= 65_025 && 0 <= (c.b as int) * (c.b as int) <= 65_025 && 0 <= (255 - c.r as int) * (
        255 - c.r as int) <= 65_025 && 0 <= (255 - c.g as int) * (255 - c.g as int) <= 65_025 && 0
            <= (255 - c.b as int) * (255 - c.b as int) <= 65_025) by (nonlinear_arith)
            requires
                0 <= c.r <= 255 && 0 <= c.g <= 255 && 0 <= c.b <= 255,
        ;
    }
    let black_distance: i64 = (c.r as i64) * (c.r as i64) + (c.g as i64) * (c.g as i64) + (
    c.b as i64) * (c.b as i64);
    let white_distance: i64 = (255 - c.r as i64) * (255 - c.r as i64) + (255 - c.g as i64) * (255
        - c.g as i64) + (255 - c.b as i64) * (255 - c.b as i64);
    if black_distance < white_distance {
        BlackWhite::Black
    } else {
        BlackWhite::White
    }
}

} // verus!
