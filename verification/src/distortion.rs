//! The lens distortion model: radial and tangential coefficients, the
//! forward transform, its approximate radial-only inverse, and the
//! diagonal scale factor that keeps the image's outer edge anchored.

use vstd::prelude::*;

verus! {

use crate::fixed::{
    SCALE, fmul, fdiv, tdiv, fx_mul, fx_div,
    lemma_fmul_bounds, lemma_fmul_scale, lemma_fmul_zero, lemma_tdiv_abs,
    lemma_tdiv_mul_cancel, lemma_tdiv_nonneg,
};
use crate::geometry::{Point, NormPoint, norm_ok, MAX_NORM};

/// Largest magnitude of a focal length, principal-point coordinate or
/// skew accepted by the distortion transforms, in fixed point.
pub const MAX_INTRINSIC: i64 = 8_192 * 1_000_000;

/// Parameters for undistorting an image: pinhole intrinsics and the
/// radial and tangential distortion coefficients.
#[derive(Clone, Copy, Debug, PartialEq, Eq, Structural)]
pub struct DistortionOptions {
    /// focal length x
    pub fx: i64,
    /// focal length y
    pub fy: i64,
    /// principal point x
    pub cx: i64,
    /// principal point y
    pub cy: i64,
    /// skew of distortion
    pub skew: i64,
    /// radial distortion coefficient k1
    pub k1: i64,
    /// radial distortion coefficient k2
    pub k2: i64,
    /// radial distortion coefficient k3
    pub k3: i64,
    /// tangential distortion coefficient t1
    pub t1: i64,
    /// tangential distortion coefficient t2
    pub t2: i64,
}

/// The three radial coefficients lie within one, in fixed point.
pub open spec fn radial_ok(k1: int, k2: int, k3: int) -> bool {
    &&& -SCALE <= k1 <= SCALE
    &&& -SCALE <= k2 <= SCALE
    &&& -SCALE <= k3 <= SCALE
}

impl DistortionOptions {
    /// Every coefficient is within the range the transforms accept:
    /// radial and tangential coefficients within one, intrinsics within
    /// `MAX_INTRINSIC`.
    pub open spec fn valid(self) -> bool {
        &&& radial_ok(self.k1 as int, self.k2 as int, self.k3 as int)
        &&& -SCALE <= self.t1 <= SCALE
        &&& -SCALE <= self.t2 <= SCALE
        &&& -MAX_INTRINSIC <= self.fx <= MAX_INTRINSIC
        &&& -MAX_INTRINSIC <= self.fy <= MAX_INTRINSIC
        &&& -MAX_INTRINSIC <= self.cx <= MAX_INTRINSIC
        &&& -MAX_INTRINSIC <= self.cy <= MAX_INTRINSIC
        &&& -MAX_INTRINSIC <= self.skew <= MAX_INTRINSIC
    }

    /// New distortion options, all coefficients zero.
    pub fn new() -> (r: DistortionOptions)
        ensures
            r == (DistortionOptions {
                fx: 0,
                fy: 0,
                cx: 0,
                cy: 0,
                skew: 0,
                k1: 0,
                k2: 0,
                k3: 0,
                t1: 0,
                t2: 0,
            }),
            r.valid(),
    {
        DistortionOptions {
            fx: 0,
            fy: 0,
            cx: 0,
            cy: 0,
            skew: 0,
            k1: 0,
            k2: 0,
            k3: 0,
            t1: 0,
            t2: 0,
        }
    }

    /// Invert the radial coefficients by the first terms of the series
    /// inverse; keeping only three reverse coefficients costs accuracy
    /// only under repeated application.
    pub fn invert(&self) -> (r: DistortionOptions)
        requires
            self.valid(),
        ensures
            r.cx == self.cx,
            r.cy == self.cy,
            r.fx == self.fx,
            r.fy == self.fy,
            r.skew == self.skew,
            r.t1 == self.t1,
            r.t2 == self.t2,
            r.k1 == -self.k1,
            r.k2 == 3 * fmul(self.k1 as int, self.k1 as int) - self.k2,
            r.k3 == -12 * fmul(fmul(self.k1 as int, self.k1 as int), self.k1 as int) + 8 * fmul(
                self.k1 as int,
                self.k2 as int,
            ) - self.k3,
    {
        proof {
            lemma_fmul_bounds(
                self.k1 as int,
                self.k1 as int,
                SCALE as int,
                SCALE as int,
                SCALE as int,
            );
        }
        let k1_sq = fx_mul(self.k1, self.k1);
        proof {
            lemma_fmul_bounds(k1_sq as int, self.k1 as int, SCALE as int, SCALE as int, SCALE as int);
            lemma_fmul_bounds(
                self.k1 as int,
                self.k2 as int,
                SCALE as int,
                SCALE as int,
                SCALE as int,
            );
        }
        let k1_cu = fx_mul(k1_sq, self.k1);
        let k1_k2 = fx_mul(self.k1, self.k2);
        DistortionOptions {
            cx: self.cx,
            cy: self.cy,
            fx: self.fx,
            fy: self.fy,
            skew: self.skew,
            t1: self.t1,
            t2: self.t2,
            k1: -self.k1,
            k2: 3 * k1_sq - self.k2,
            k3: -12 * k1_cu + 8 * k1_k2 - self.k3,
        }
    }
}

impl Default for DistortionOptions {
    fn default() -> (r: DistortionOptions)
        ensures
            r == (DistortionOptions {
                fx: 0,
                fy: 0,
                cx: 0,
                cy: 0,
                skew: 0,
                k1: 0,
                k2: 0,
                k3: 0,
                t1: 0,
                t2: 0,
            }),
    {
        DistortionOptions::new()
    }
}

/// Squared radius of a normalized point, in fixed point.
pub open spec fn radius_sq(x: int, y: int) -> int {
    fmul(x, x) + fmul(y, y)
}

/// The radial expansion factor `1 + k1 r^2 + k2 r^4 + k3 r^6` at squared
/// radius `r2`, in fixed point.
pub open spec fn radial_expr(r2: int, k1: int, k2: int, k3: int) -> int {
    (SCALE as int) + fmul(k1, r2) + fmul(k2, fmul(r2, r2)) + fmul(k3, fmul(fmul(r2, r2), r2))
}

/// The x pixel coordinate of a distorted normalized point.
pub open spec fn distort_x_spec(p: NormPoint, d: DistortionOptions) -> int {
    let r2 = radius_sq(p.x as int, p.y as int);
    let e = radial_expr(r2, d.k1 as int, d.k2 as int, d.k3 as int);
    let xt = fmul(p.x as int, e) + fmul(d.t2 as int, r2 + 2 * fmul(p.x as int, p.x as int)) + 2
        * fmul(d.t1 as int, fmul(p.x as int, p.y as int));
    let yt = fmul(p.y as int, e) + fmul(d.t1 as int, r2 + 2 * fmul(p.y as int, p.y as int)) + 2
        * fmul(d.t2 as int, fmul(p.x as int, p.y as int));
    d.cx + fmul(xt, d.fx as int) + fmul(yt, d.skew as int)
}

/// The y pixel coordinate of a distorted normalized point.
pub open spec fn distort_y_spec(p: NormPoint, d: DistortionOptions) -> int {
    let r2 = radius_sq(p.x as int, p.y as int);
    let e = radial_expr(r2, d.k1 as int, d.k2 as int, d.k3 as int);
    let yt = fmul(p.y as int, e) + fmul(d.t1 as int, r2 + 2 * fmul(p.y as int, p.y as int)) + 2
        * fmul(d.t2 as int, fmul(p.x as int, p.y as int));
    d.cy + fmul(yt, d.fy as int)
}

/// Apply the forward pinhole distortion to a normalized point: the radial
/// factor scales the point, the tangential terms shear it, and the
/// intrinsics project it to pixel space.
pub fn distort_point(p: NormPoint, distortion_options: &DistortionOptions) -> (r: Point)
    requires
        distortion_options.valid(),
        norm_ok(p.x as int),
        norm_ok(p.y as int),
    ensures
        r.x == distort_x_spec(p, *distortion_options),
        r.y == distort_y_spec(p, *distortion_options),
        -3_000_000_000_000_000 <= r.x <= 3_000_000_000_000_000,
        -3_000_000_000_000_000 <= r.y <= 3_000_000_000_000_000,
{
    let d = distortion_options;
    proof {
        lemma_fmul_bounds(
            p.x as int,
            p.x as int,
            MAX_NORM as int,
            MAX_NORM as int,
            16 * (SCALE as int),
        );
        lemma_fmul_bounds(
            p.y as int,
            p.y as int,
            MAX_NORM as int,
            MAX_NORM as int,
            16 * (SCALE as int),
        );
        lemma_fmul_bounds(
            p.x as int,
            p.y as int,
            MAX_NORM as int,
            MAX_NORM as int,
            16 * (SCALE as int),
        );
    }
    let xx = fx_mul(p.x, p.x);
    let yy = fx_mul(p.y, p.y);
    let xy = fx_mul(p.x, p.y);
    let r_2 = xx + yy;
    proof {
        lemma_fmul_bounds(
            r_2 as int,
            r_2 as int,
            32 * (SCALE as int),
            32 * (SCALE as int),
            1_024 * (SCALE as int),
        );
    }
    let r_4 = fx_mul(r_2, r_2);
    proof {
        lemma_fmul_bounds(
            r_4 as int,
            r_2 as int,
            1_024 * (SCALE as int),
            32 * (SCALE as int),
            32_768 * (SCALE as int),
        );
    }
    let r_6 = fx_mul(r_4, r_2);
    proof {
        lemma_fmul_bounds(d.k1 as int, r_2 as int, SCALE as int, 32 * (SCALE as int), 32 * (
        SCALE as int));
        lemma_fmul_bounds(d.k2 as int, r_4 as int, SCALE as int, 1_024 * (SCALE as int), 1_024 * (
        SCALE as int));
        lemma_fmul_bounds(
            d.k3 as int,
            r_6 as int,
            SCALE as int,
            32_768 * (SCALE as int),
            32_768 * (SCALE as int),
        );
    }
    let expr = SCALE + fx_mul(d.k1, r_2) + fx_mul(d.k2, r_4) + fx_mul(d.k3, r_6);
    proof {
        lemma_fmul_bounds(
            p.x as int,
            expr as int,
            MAX_NORM as int,
            33_825 * (SCALE as int),
            135_300 * (SCALE as int),
        );
        lemma_fmul_bounds(
            p.y as int,
            expr as int,
            MAX_NORM as int,
            33_825 * (SCALE as int),
            135_300 * (SCALE as int),
        );
        lemma_fmul_bounds(d.t2 as int, (r_2 + 2 * xx) as int, SCALE as int, 64 * (SCALE as int), 64
            * (SCALE as int));
        lemma_fmul_bounds(d.t1 as int, (r_2 + 2 * yy) as int, SCALE as int, 64 * (SCALE as int), 64
            * (SCALE as int));
        lemma_fmul_bounds(d.t1 as int, xy as int, SCALE as int, 16 * (SCALE as int), 16 * (
        SCALE as int));
        lemma_fmul_bounds(d.t2 as int, xy as int, SCALE as int, 16 * (SCALE as int), 16 * (
        SCALE as int));
    }
    let xt = fx_mul(p.x, expr) + fx_mul(d.t2, r_2 + 2 * xx) + 2 * fx_mul(d.t1, xy);
    let yt = fx_mul(p.y, expr) + fx_mul(d.t1, r_2 + 2 * yy) + 2 * fx_mul(d.t2, xy);
    proof {
        lemma_fmul_bounds(
            xt as int,
            d.fx as int,
            135_396 * (SCALE as int),
            MAX_INTRINSIC as int,
            1_109_164_032 * (SCALE as int),
        );
        lemma_fmul_bounds(
            yt as int,
            d.skew as int,
            135_396 * (SCALE as int),
            MAX_INTRINSIC as int,
            1_109_164_032 * (SCALE as int),
        );
        lemma_fmul_bounds(
            yt as int,
            d.fy as int,
            135_396 * (SCALE as int),
            MAX_INTRINSIC as int,
            1_109_164_032 * (SCALE as int),
        );
    }
    let out = Point {
        x: d.cx + fx_mul(xt, d.fx) + fx_mul(yt, d.skew),
        y: d.cy + fx_mul(yt, d.fy),
    };
    out
}

/// The x pixel coordinate of the radial-only approximate inverse.
pub open spec fn undistort_x_spec(p: NormPoint, d: DistortionOptions) -> int {
    let r2 = radius_sq(p.x - d.cx, p.y - d.cy);
    let e = radial_expr(r2, d.k1 as int, d.k2 as int, d.k3 as int);
    d.cx + fdiv(p.x - d.cx, e)
}

/// The y pixel coordinate of the radial-only approximate inverse.
pub open spec fn undistort_y_spec(p: NormPoint, d: DistortionOptions) -> int {
    let r2 = radius_sq(p.x - d.cx, p.y - d.cy);
    let e = radial_expr(r2, d.k1 as int, d.k2 as int, d.k3 as int);
    d.cy + fdiv(p.y - d.cy, e)
}

/// Undo a radial-only distortion approximately, by dividing the offset
/// from the principal point by the radial factor at the distorted radius.
/// This is an approximation, not an exact inverse: the radial factor is
/// evaluated at the distorted point's radius rather than the original's.
pub fn undistort_point(p: NormPoint, distortion_options: &DistortionOptions) -> (r: Point)
    requires
        distortion_options.valid(),
        norm_ok(p.x - distortion_options.cx),
        norm_ok(p.y - distortion_options.cy),
        radial_expr(
            radius_sq(p.x - distortion_options.cx, p.y - distortion_options.cy),
            distortion_options.k1 as int,
            distortion_options.k2 as int,
            distortion_options.k3 as int,
        ) != 0,
    ensures
        r.x == undistort_x_spec(p, *distortion_options),
        r.y == undistort_y_spec(p, *distortion_options),
{
    let d = distortion_options;
    let dx: i64 = p.x - d.cx;
    let dy: i64 = p.y - d.cy;
    proof {
        lemma_fmul_bounds(
            dx as int,
            dx as int,
            MAX_NORM as int,
            MAX_NORM as int,
            16 * (SCALE as int),
        );
        lemma_fmul_bounds(
            dy as int,
            dy as int,
            MAX_NORM as int,
            MAX_NORM as int,
            16 * (SCALE as int),
        );
    }
    let xx = fx_mul(dx, dx);
    let yy = fx_mul(dy, dy);
    let r_2 = xx + yy;
    proof {
        lemma_fmul_bounds(
            r_2 as int,
            r_2 as int,
            32 * (SCALE as int),
            32 * (SCALE as int),
            1_024 * (SCALE as int),
        );
    }
    let r_4 = fx_mul(r_2, r_2);
    proof {
        lemma_fmul_bounds(
            r_4 as int,
            r_2 as int,
            1_024 * (SCALE as int),
            32 * (SCALE as int),
            32_768 * (SCALE as int),
        );
        lemma_fmul_bounds(d.k1 as int, r_2 as int, SCALE as int, 32 * (SCALE as int), 32 * (
        SCALE as int));
    }
    let r_6 = fx_mul(r_4, r_2);
    proof {
        lemma_fmul_bounds(d.k2 as int, r_4 as int, SCALE as int, 1_024 * (SCALE as int), 1_024 * (
        SCALE as int));
        lemma_fmul_bounds(
            d.k3 as int,
            r_6 as int,
            SCALE as int,
            32_768 * (SCALE as int),
            32_768 * (SCALE as int),
        );
    }
    let expr = SCALE + fx_mul(d.k1, r_2) + fx_mul(d.k2, r_4) + fx_mul(d.k3, r_6);
    proof {
        lemma_tdiv_abs((dx as int) * (SCALE as int), expr as int);
        lemma_tdiv_abs((dy as int) * (SCALE as int), expr as int);
    }
    Point { x: d.cx + fx_div(dx, expr), y: d.cy + fx_div(dy, expr) }
}

/// The radial expansion factor at the normalized diagonal distance (whose
/// square is exactly two): `1 + 2 k1 + 4 k2 + 8 k3`, in fixed point.
pub open spec fn scale_factor_spec(k1: int, k2: int, k3: int) -> int {
    (SCALE as int) + 2 * k1 + 4 * k2 + 8 * k3
}

/// Evaluate the radial factor at the image corner's normalized distance,
/// used to keep the image's outer edge fixed in scale after distortion:
/// positive `k1` is barrel, negative is pincushion distortion.
pub fn scale_factor(k1: i64, k2: i64, k3: i64) -> (r: i64)
    requires
        radial_ok(k1 as int, k2 as int, k3 as int),
    ensures
        r == scale_factor_spec(k1 as int, k2 as int, k3 as int),
{
    let r_2: i64 = 2 * SCALE;
    proof {
        lemma_fmul_bounds(r_2 as int, r_2 as int, 2 * (SCALE as int), 2 * (SCALE as int), 4 * (
        SCALE as int));
        assert((r_2 as int) * (r_2 as int) == (4 * (SCALE as int)) * (SCALE as int));
        lemma_tdiv_mul_cancel(4 * (SCALE as int), SCALE as int);
    }
    let r_4 = fx_mul(r_2, r_2);
    proof {
        lemma_fmul_bounds(r_4 as int, r_2 as int, 4 * (SCALE as int), 2 * (SCALE as int), 8 * (
        SCALE as int));
        assert((r_4 as int) * (r_2 as int) == (8 * (SCALE as int)) * (SCALE as int));
        lemma_tdiv_mul_cancel(8 * (SCALE as int), SCALE as int);
    }
    let r_6 = fx_mul(r_4, r_2);
    proof {
        lemma_fmul_bounds(k1 as int, r_2 as int, SCALE as int, 2 * (SCALE as int), 2 * (
        SCALE as int));
        lemma_fmul_bounds(k2 as int, r_4 as int, SCALE as int, 4 * (SCALE as int), 4 * (
        SCALE as int));
        lemma_fmul_bounds(k3 as int, r_6 as int, SCALE as int, 8 * (SCALE as int), 8 * (
        SCALE as int));
        assert((k1 as int) * (r_2 as int) == (2 * (k1 as int)) * (SCALE as int));
        lemma_tdiv_mul_cancel(2 * (k1 as int), SCALE as int);
        assert((k2 as int) * (r_4 as int) == (4 * (k2 as int)) * (SCALE as int));
        lemma_tdiv_mul_cancel(4 * (k2 as int), SCALE as int);
        assert((k3 as int) * (r_6 as int) == (8 * (k3 as int)) * (SCALE as int));
        lemma_tdiv_mul_cancel(8 * (k3 as int), SCALE as int);
    }
    SCALE + fx_mul(k1, r_2) + fx_mul(k2, r_4) + fx_mul(k3, r_6)
}

/// The diagonal scale factor grows strictly with the first radial
/// coefficient when the higher radial coefficients are zero.
pub proof fn lemma_scale_factor_increasing_in_k1(k1a: int, k1b: int)
    requires
        k1a < k1b,
    ensures
        scale_factor_spec(k1a, 0, 0) < scale_factor_spec(k1b, 0, 0),
{
}

/// For a small purely radial distortion, undistorting a distorted
/// normalized point lands within a thousandth of the original point.
/// The analytic division form is only an approximation - its radial
/// factor is evaluated at the distorted radius instead of the original
/// one - so the round trip is close, not exact.
pub proof fn lemma_undistort_distort_close(p: NormPoint, d: DistortionOptions)
    requires
        d.k2 == 0,
        d.k3 == 0,
        d.t1 == 0,
        d.t2 == 0,
        d.skew == 0,
        d.fx == SCALE,
        d.fy == SCALE,
        d.cx == 0,
        d.cy == 0,
        -10_000 <= d.k1 <= 10_000,
        -SCALE <= p.x <= SCALE,
        -SCALE <= p.y <= SCALE,
    ensures
        ({
            let q = NormPoint { x: distort_x_spec(p, d) as i64, y: distort_y_spec(p, d) as i64 };
            &&& -1_000 <= undistort_x_spec(q, d) - p.x <= 1_000
            &&& -1_000 <= undistort_y_spec(q, d) - p.y <= 1_000
        }),
{
    let s = SCALE as int;
    let k = d.k1 as int;
    let x = p.x as int;
    let y = p.y as int;
    // The radial factor at the original point is within 0.02 of one.
    lemma_fmul_bounds(x, x, s, s, s);
    lemma_fmul_bounds(y, y, s, s, s);
    assert(x * x >= 0 && y * y >= 0) by (nonlinear_arith);
    lemma_tdiv_nonneg(x * x, s);
    lemma_tdiv_nonneg(y * y, s);
    let r2p = radius_sq(x, y);
    assert(0 <= r2p <= 2 * s);
    lemma_fmul_bounds(k, r2p, 10_000, 2 * s, 20_000);
    lemma_fmul_zero(fmul(r2p, r2p));
    lemma_fmul_zero(fmul(fmul(r2p, r2p), r2p));
    let ep = radial_expr(r2p, k, 0, 0);
    assert(ep == s + fmul(k, r2p));
    assert(980_000 <= ep <= 1_020_000);
    // The distorted point is the original scaled by that factor.
    lemma_fmul_zero(r2p + 2 * fmul(x, x));
    lemma_fmul_zero(r2p + 2 * fmul(y, y));
    lemma_fmul_zero(fmul(x, y));
    let qx = fmul(x, ep);
    let qy = fmul(y, ep);
    lemma_fmul_scale(qx);
    lemma_fmul_scale(qy);
    lemma_fmul_zero(qy);
    assert(distort_x_spec(p, d) == qx);
    assert(distort_y_spec(p, d) == qy);
    lemma_fmul_bounds(x, ep, s, 1_020_000, 1_020_000);
    lemma_fmul_bounds(y, ep, s, 1_020_000, 1_020_000);
    let q = NormPoint { x: distort_x_spec(p, d) as i64, y: distort_y_spec(p, d) as i64 };
    assert(q.x as int == qx && q.y as int == qy);
    // The distorted coordinates stay within 0.02 of the originals.
    assert(x * ep == x * s + x * (ep - s)) by (nonlinear_arith);
    assert(y * ep == y * s + y * (ep - s)) by (nonlinear_arith);
    assert(-(20_000 * s) <= x * (ep - s) <= 20_000 * s && -(20_000 * s) <= y * (ep - s) <= 20_000
        * s) by (nonlinear_arith)
        requires
            -s <= x <= s && -s <= y <= s && -20_000 <= ep - s <= 20_000 && s == 1_000_000,
    ;
    crate::fixed::lemma_tdiv_near_multiple(x, x * (ep - s), s, 20_000);
    crate::fixed::lemma_tdiv_near_multiple(y, y * (ep - s), s, 20_000);
    assert(x - 20_000 <= qx <= x + 20_000);
    assert(y - 20_000 <= qy <= y + 20_000);
    // So the squared radius moves little, and the radial factor at the
    // distorted point differs little from the original factor.
    assert(qx * qx - x * x == (qx - x) * (qx + x) && qy * qy - y * y == (qy - y) * (qy + y))
        by (nonlinear_arith);
    assert(-(40_400 * s) <= (qx - x) * (qx + x) <= 40_400 * s && -(40_400 * s) <= (qy - y) * (qy
        + y) <= 40_400 * s) by (nonlinear_arith)
        requires
            -20_000 <= qx - x <= 20_000 && -2_020_000 <= qx + x <= 2_020_000 && -20_000 <= qy - y
                <= 20_000 && -2_020_000 <= qy + y <= 2_020_000 && s == 1_000_000,
    ;
    crate::fixed::lemma_tdiv_diff(qx * qx, x * x, s, 40_400);
    crate::fixed::lemma_tdiv_diff(qy * qy, y * y, s, 40_400);
    let r2q = radius_sq(qx, qy);
    assert(-80_802 <= r2q - r2p <= 80_802);
    assert(k * r2q - k * r2p == k * (r2q - r2p)) by (nonlinear_arith);
    assert(-(809 * s) <= k * (r2q - r2p) <= 809 * s) by (nonlinear_arith)
        requires
            -10_000 <= k <= 10_000 && -80_802 <= r2q - r2p <= 80_802 && s == 1_000_000,
    ;
    crate::fixed::lemma_tdiv_diff(k * r2q, k * r2p, s, 809);
    lemma_fmul_zero(fmul(r2q, r2q));
    lemma_fmul_zero(fmul(fmul(r2q, r2q), r2q));
    let eq = radial_expr(r2q, k, 0, 0);
    assert(eq == s + fmul(k, r2q));
    assert(-810 <= eq - ep <= 810);
    assert(979_190 <= eq <= 1_020_810);
    // Dividing the distorted point by the nearby factor lands near the
    // original point.
    crate::fixed::lemma_tdiv_remainder(x * ep, s);
    crate::fixed::lemma_tdiv_remainder(y * ep, s);
    let dx = qx * s - x * eq;
    let dy = qy * s - y * eq;
    assert(qx * s - x * eq == (qx * s - x * ep) + x * (ep - eq) && qy * s - y * eq == (qy * s - y
        * ep) + y * (ep - eq)) by (nonlinear_arith);
    assert(-(810 * s) <= x * (ep - eq) <= 810 * s && -(810 * s) <= y * (ep - eq) <= 810 * s)
        by (nonlinear_arith)
        requires
            -s <= x <= s && -s <= y <= s && -810 <= ep - eq <= 810 && s == 1_000_000,
    ;
    assert(-(811 * s) <= dx <= 811 * s && -(811 * s) <= dy <= 811 * s);
    assert(-(829 * eq) <= dx <= 829 * eq && -(829 * eq) <= dy <= 829 * eq) by (nonlinear_arith)
        requires
            -(811 * s) <= dx <= 811 * s && -(811 * s) <= dy <= 811 * s && 979_190 <= eq && s
                == 1_000_000,
    ;
    crate::fixed::lemma_tdiv_near_multiple(x, dx, eq, 829);
    crate::fixed::lemma_tdiv_near_multiple(y, dy, eq, 829);
    assert(x * eq + dx == qx * s && y * eq + dy == qy * s);
    assert(undistort_x_spec(q, d) == tdiv(qx * s, eq));
    assert(undistort_y_spec(q, d) == tdiv(qy * s, eq));
}

/// With all distortion coefficients zero, unit focal lengths and a zero
/// principal point, undistorting a distorted normalized point gives the
/// point back exactly: the radial-only inverse is exact when there is
/// nothing to invert.
pub proof fn lemma_undistort_distort_identity(p: NormPoint, d: DistortionOptions)
    requires
        d.k1 == 0,
        d.k2 == 0,
        d.k3 == 0,
        d.t1 == 0,
        d.t2 == 0,
        d.skew == 0,
        d.fx == SCALE,
        d.fy == SCALE,
        d.cx == 0,
        d.cy == 0,
        norm_ok(p.x as int),
        norm_ok(p.y as int),
    ensures
        distort_x_spec(p, d) == p.x,
        distort_y_spec(p, d) == p.y,
        ({
            let q = NormPoint { x: p.x, y: p.y };
            undistort_x_spec(q, d) == p.x && undistort_y_spec(q, d) == p.y
        }),
{
    let r2 = radius_sq(p.x as int, p.y as int);
    lemma_fmul_zero(r2);
    lemma_fmul_zero(fmul(r2, r2));
    lemma_fmul_zero(fmul(fmul(r2, r2), r2));
    assert(radial_expr(r2, 0, 0, 0) == SCALE as int);
    lemma_fmul_scale(p.x as int);
    lemma_fmul_scale(p.y as int);
    lemma_fmul_zero(r2 + 2 * fmul(p.x as int, p.x as int));
    lemma_fmul_zero(r2 + 2 * fmul(p.y as int, p.y as int));
    lemma_fmul_zero(fmul(p.x as int, p.y as int));
    let xt = fmul(p.x as int, SCALE as int);
    let yt = fmul(p.y as int, SCALE as int);
    lemma_fmul_scale(xt);
    lemma_fmul_scale(yt);
    lemma_fmul_zero(yt);
    assert(distort_x_spec(p, d) == p.x);
    assert(distort_y_spec(p, d) == p.y);
    lemma_tdiv_mul_cancel(p.x as int, SCALE as int);
    lemma_tdiv_mul_cancel(p.y as int, SCALE as int);
}

} // verus!
