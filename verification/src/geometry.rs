//! Points in pixel space, points in normalized space, and the affine
//! offset transform between distortion passes.

use vstd::prelude::*;

verus! {

use crate::fixed::{
    SCALE, fmul, fdiv, sqrt_floor, is_sqrt, fx_mul, fx_div, isqrt_u128,
    lemma_fmul_bounds, lemma_tdiv_bounds_abs, lemma_sqrt_floor, lemma_sqrt_unique,
};

/// Largest pixel coordinate the library works with, in fixed point: four
/// billion pixels, far beyond any raster, but small enough that products
/// with `SCALE`-sized factors stay in an `i64`.
pub const MAX_COORD: i64 = 4_000_000_000_000_000;

/// Largest magnitude of a normalized coordinate accepted by the distortion
/// transforms: sixteen half-image-widths.
pub const MAX_NORM: i64 = 4 * 1_000_000;

/// Largest magnitude of a distorted, rescaled normalized coordinate that
/// can still be mapped back to pixel space.
pub const MAX_STRETCHED: i64 = 2_000 * 1_000_000;

/// Largest magnitude of an axis scale in the offset transform.
pub const MAX_AXIS_SCALE: i64 = 16 * 1_000_000;

/// A pixel coordinate fits the library's working range.
pub open spec fn coord_ok(c: int) -> bool {
    -MAX_COORD <= c <= MAX_COORD
}

/// A normalized coordinate fits the distortion transforms' working range.
pub open spec fn norm_ok(c: int) -> bool {
    -MAX_NORM <= c <= MAX_NORM
}

/// A point in pixel coordinates, fixed point.
#[derive(Clone, Copy, Debug, PartialEq, Eq, Structural)]
pub struct Point {
    /// x coordinate
    pub x: i64,
    /// y coordinate
    pub y: i64,
}

/// A point in coordinates normalized relative to an image center, fixed
/// point: the center maps to zero and the image edges to about one.
#[derive(Clone, Copy, Debug, PartialEq, Eq, Structural)]
pub struct NormPoint {
    /// x coordinate
    pub x: i64,
    /// y coordinate
    pub y: i64,
}

/// Parameters for altering distortion results: a translation and a
/// per-axis scale applied around a center point.
#[derive(Clone, Copy, Debug, PartialEq, Eq, Structural)]
pub struct DistortionOffsetOptions {
    /// the x offset
    pub x: i64,
    /// the y offset
    pub y: i64,
    /// how much to scale the x axis
    pub x_scale: i64,
    /// how much to scale the y axis
    pub y_scale: i64,
}

impl DistortionOffsetOptions {
    /// The identity offset: no translation, unit scales.
    pub fn new() -> (r: DistortionOffsetOptions)
        ensures
            r.x == 0,
            r.y == 0,
            r.x_scale == SCALE,
            r.y_scale == SCALE,
    {
        DistortionOffsetOptions { x: 0, y: 0, x_scale: SCALE, y_scale: SCALE }
    }
}

impl Default for DistortionOffsetOptions {
    fn default() -> (r: DistortionOffsetOptions)
        ensures
            r.x == 0,
            r.y == 0,
            r.x_scale == SCALE,
            r.y_scale == SCALE,
    {
        DistortionOffsetOptions::new()
    }
}

/// Euclidean distance between two points, rounded down to a fixed-point
/// unit.
pub open spec fn dist(p: Point, q: Point) -> int {
    sqrt_floor((p.x - q.x) * (p.x - q.x) + (p.y - q.y) * (p.y - q.y))
}

impl Point {
    /// Where this point lies relative to `center`, in units of the
    /// center's own coordinates: the normalization that precedes a
    /// distortion transform.
    pub fn normalized(&self, center: &Point) -> (r: NormPoint)
        requires
            center.x != 0,
            center.y != 0,
            coord_ok(self.x as int),
            coord_ok(self.y as int),
            coord_ok(center.x as int),
            coord_ok(center.y as int),
            -16 * vstd::math::abs(center.x as int) <= self.x - center.x <= 16 * vstd::math::abs(
                center.x as int,
            ),
            -16 * vstd::math::abs(center.y as int) <= self.y - center.y <= 16 * vstd::math::abs(
                center.y as int,
            ),
        ensures
            r.x == fdiv(self.x - center.x, center.x as int),
            r.y == fdiv(self.y - center.y, center.y as int),
            -16 * SCALE <= r.x <= 16 * SCALE,
            -16 * SCALE <= r.y <= 16 * SCALE,
    {
        let dx: i64 = self.x - center.x;
        let dy: i64 = self.y - center.y;
        proof {
            let ax = vstd::math::abs(center.x as int);
            let ay = vstd::math::abs(center.y as int);
            assert(-(16 * (SCALE as int)) * ax <= (dx as int) * (SCALE as int) <= (16 * (
            SCALE as int)) * ax) by (nonlinear_arith)
                requires
                    -16 * ax <= dx <= 16 * ax && ax >= 0,
            ;
            assert(-(16 * (SCALE as int)) * ay <= (dy as int) * (SCALE as int) <= (16 * (
            SCALE as int)) * ay) by (nonlinear_arith)
                requires
                    -16 * ay <= dy <= 16 * ay && ay >= 0,
            ;
            lemma_tdiv_bounds_abs((dx as int) * (SCALE as int), center.x as int, 16 * (
            SCALE as int));
            lemma_tdiv_bounds_abs((dy as int) * (SCALE as int), center.y as int, 16 * (
            SCALE as int));
        }
        NormPoint { x: fx_div(dx, center.x), y: fx_div(dy, center.y) }
    }

    /// A point on the integer pixel grid, lifted to fixed point.
    pub(crate) fn from_ints(t: &(i64, i64)) -> (r: Point)
        requires
            -4_000_000_000 <= t.0 <= 4_000_000_000,
            -4_000_000_000 <= t.1 <= 4_000_000_000,
        ensures
            r.x == t.0 * SCALE,
            r.y == t.1 * SCALE,
            coord_ok(r.x as int),
            coord_ok(r.y as int),
    {
        Point { x: t.0 * SCALE, y: t.1 * SCALE }
    }

    /// The Euclidean distance to `other`, rounded down to a fixed-point
    /// unit.
    pub fn distance(&self, other: &Point) -> (r: i64)
        requires
            coord_ok(self.x as int),
            coord_ok(self.y as int),
            coord_ok(other.x as int),
            coord_ok(other.y as int),
        ensures
            r == dist(*self, *other),
            0 <= r <= 12_000_000_000_000_000,
    {
        let dx: i64 = self.x - other.x;
        let dy: i64 = self.y - other.y;
        proof {
            assert(0 <= (dx as int) * (dx as int)
                <= 64_000_000_000_000_000_000_000_000_000_000 && 0 <= (dy as int) * (dy as int)
                <= 64_000_000_000_000_000_000_000_000_000_000) by (nonlinear_arith)
                requires
                    -8_000_000_000_000_000 <= dx <= 8_000_000_000_000_000
                        && -8_000_000_000_000_000 <= dy <= 8_000_000_000_000_000,
            ;
        }
        let qx: i128 = (dx as i128) * (dx as i128);
        let qy: i128 = (dy as i128) * (dy as i128);
        let sum: u128 = (qx + qy) as u128;
        let s: u64 = isqrt_u128(sum);
        proof {
            assert(s as int <= 12_000_000_000_000_000) by {
                if s as int > 12_000_000_000_000_000 {
                    assert((s as int) * (s as int)
                        > 128_000_000_000_000_000_000_000_000_000_000) by (nonlinear_arith)
                        requires
                            s as int > 12_000_000_000_000_000,
                    ;
                }
            }
        }
        s as i64
    }

    /// Translate and per-axis scale this point around `center`: a positive
    /// x offset shifts the apparent image left, a scale above one shrinks
    /// it.
    pub fn transform(&self, options: &DistortionOffsetOptions, center: &Point) -> (r: Point)
        requires
            coord_ok(self.x as int),
            coord_ok(self.y as int),
            coord_ok(center.x as int),
            coord_ok(center.y as int),
            coord_ok(options.x as int),
            coord_ok(options.y as int),
            -MAX_AXIS_SCALE <= options.x_scale <= MAX_AXIS_SCALE,
            -MAX_AXIS_SCALE <= options.y_scale <= MAX_AXIS_SCALE,
        ensures
            r.x == fmul(options.x_scale as int, self.x - center.x) + center.x + options.x,
            r.y == fmul(options.y_scale as int, self.y - center.y) + center.y + options.y,
    {
        let dx: i64 = self.x - center.x;
        let dy: i64 = self.y - center.y;
        proof {
            lemma_fmul_bounds(
                options.x_scale as int,
                dx as int,
                16 * (SCALE as int),
                8_000_000_000_000_000,
                128_000_000_000_000_000,
            );
            lemma_fmul_bounds(
                options.y_scale as int,
                dy as int,
                16 * (SCALE as int),
                8_000_000_000_000_000,
                128_000_000_000_000_000,
            );
        }
        Point {
            x: fx_mul(options.x_scale, dx) + center.x + options.x,
            y: fx_mul(options.y_scale, dy) + center.y + options.y,
        }
    }
}

impl NormPoint {
    /// Map a normalized coordinate back to pixel space around `center`:
    /// the inverse of `Point::normalized` up to rounding.
    pub fn unnormalized(&self, center: &Point) -> (r: Point)
        requires
            -MAX_STRETCHED <= self.x <= MAX_STRETCHED,
            -MAX_STRETCHED <= self.y <= MAX_STRETCHED,
            coord_ok(center.x as int),
            coord_ok(center.y as int),
        ensures
            r.x == center.x + fmul(self.x as int, center.x as int),
            r.y == center.y + fmul(self.y as int, center.y as int),
    {
        proof {
            lemma_fmul_bounds(
                self.x as int,
                center.x as int,
                MAX_STRETCHED as int,
                MAX_COORD as int,
                8_000_000_000_000_000_000,
            );
            lemma_fmul_bounds(
                self.y as int,
                center.y as int,
                MAX_STRETCHED as int,
                MAX_COORD as int,
                8_000_000_000_000_000_000,
            );
        }
        Point {
            x: center.x + fx_mul(self.x, center.x),
            y: center.y + fx_mul(self.y, center.y),
        }
    }
}

} // verus!
