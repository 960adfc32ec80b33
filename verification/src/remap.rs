//! The image remapper: undistort an image by inverse-mapping every
//! output pixel through the forward distortion model and sampling the
//! source bilinearly.

use vstd::prelude::*;

verus! {

use vstd::arithmetic::div_mod::lemma_div_multiples_vanish;
use crate::color::Color;
use crate::distortion::{
    DistortionOptions, distort_point, distort_x_spec, distort_y_spec, radial_expr, radial_ok,
    radius_sq, scale_factor, scale_factor_spec,
};
use crate::fixed::{
    SCALE, fdiv, fmul, fx_div, lemma_fmul_bounds, lemma_fmul_scale, lemma_fmul_zero,
    lemma_tdiv_bounds, lemma_tdiv_nonneg,
};
use crate::geometry::{Point, NormPoint, coord_ok};
use crate::sampler::{bilinear_spec, bilinear_interpolation, buffer_sized, pixel_at, set_color};

/// The radial-only special case of the full camera model, in normalized
/// space: unit focal lengths, zero principal point, no skew, no
/// tangential distortion.
pub open spec fn restricted_opts(k1: i64, k2: i64, k3: i64) -> DistortionOptions {
    DistortionOptions {
        fx: SCALE,
        fy: SCALE,
        cx: 0,
        cy: 0,
        skew: 0,
        k1,
        k2,
        k3,
        t1: 0,
        t2: 0,
    }
}

/// Where the remapper samples the source image for destination pixel
/// `(i, j)`: normalize around the image center, distort forward, divide
/// by the diagonal scale factor, and map back to pixel space.
pub open spec fn remap_sample_point(w: int, h: int, k1: i64, k2: i64, k3: i64, i: int, j: int) -> (
    int,
    int,
) {
    let cx = w * (SCALE as int) / 2;
    let cy = h * (SCALE as int) / 2;
    let nx = fdiv(i * (SCALE as int) - cx, cx);
    let ny = fdiv(j * (SCALE as int) - cy, cy);
    let np = NormPoint { x: nx as i64, y: ny as i64 };
    let d = restricted_opts(k1, k2, k3);
    let dx = distort_x_spec(np, d);
    let dy = distort_y_spec(np, d);
    let sf = scale_factor_spec(k1 as int, k2 as int, k3 as int);
    let ux = fdiv(dx, sf);
    let uy = fdiv(dy, sf);
    (cx + fmul(ux, cx), cy + fmul(uy, cy))
}

/// The color the remapper writes at destination pixel `(i, j)`: the
/// bilinear sample at the remapped source position, or opaque black
/// where sampling fails for any reason.
pub open spec fn remap_pixel(
    data: Seq<u8>,
    w: int,
    h: int,
    k1: i64,
    k2: i64,
    k3: i64,
    i: int,
    j: int,
) -> Color {
    let (sx, sy) = remap_sample_point(w, h, k1, k2, k3, i, j);
    match bilinear_spec(data, sx, sy, w, h) {
        Ok(c) => c,
        Err(_) => Color { r: 0, g: 0, b: 0, a: 255 },
    }
}

/// Sample the source image where destination pixel `(i, j)` maps to,
/// falling back to opaque black when the source position cannot be
/// sampled.
#[verifier::rlimit(30)]
fn remap_sample(
    data: &Vec<u8>,
    width: u32,
    height: u32,
    k1: i64,
    k2: i64,
    k3: i64,
    i: u32,
    j: u32,
) -> (c: Color)
    requires
        buffer_sized(data@, width as int, height as int),
        1 <= width <= 4_000_000_000,
        1 <= height <= 4_000_000_000,
        i < width,
        j < height,
        radial_ok(k1 as int, k2 as int, k3 as int),
        scale_factor_spec(k1 as int, k2 as int, k3 as int) >= 7_500,
    ensures
        c == remap_pixel(data@, width as int, height as int, k1, k2, k3, i as int, j as int),
{
    let cx: i64 = (width as i64) * 500_000;
    let cy: i64 = (height as i64) * 500_000;
    proof {
        assert((width as int) * (SCALE as int) == 2 * ((width as int) * 500_000));
        assert((height as int) * (SCALE as int) == 2 * ((height as int) * 500_000));
        lemma_div_multiples_vanish((width as int) * 500_000, 2);
        lemma_div_multiples_vanish((height as int) * 500_000, 2);
    }
    let center = Point { x: cx, y: cy };
    let p = Point { x: (i as i64) * SCALE, y: (j as i64) * SCALE };
    proof {
        assert(cx <= 2_000_000_000_000_000 && cy <= 2_000_000_000_000_000);
        assert(p.x - center.x <= 16 * vstd::math::abs(center.x as int) && -16 * vstd::math::abs(
            center.x as int,
        ) <= p.x - center.x);
        assert(p.y - center.y <= 16 * vstd::math::abs(center.y as int) && -16 * vstd::math::abs(
            center.y as int,
        ) <= p.y - center.y);
    }
    let np = p.normalized(&center);
    proof {
        assert((p.x - center.x) * (SCALE as int) <= (SCALE as int) * (center.x as int) && -((
        SCALE as int) * (center.x as int)) <= (p.x - center.x) * (SCALE as int))
            by (nonlinear_arith)
            requires
                -(center.x as int) <= p.x - center.x <= center.x as int && center.x > 0,
        ;
        assert((p.y - center.y) * (SCALE as int) <= (SCALE as int) * (center.y as int) && -((
        SCALE as int) * (center.y as int)) <= (p.y - center.y) * (SCALE as int))
            by (nonlinear_arith)
            requires
                -(center.y as int) <= p.y - center.y <= center.y as int && center.y > 0,
        ;
        lemma_tdiv_bounds((p.x - center.x) * (SCALE as int), center.x as int, SCALE as int);
        lemma_tdiv_bounds((p.y - center.y) * (SCALE as int), center.y as int, SCALE as int);
    }
    let opts = DistortionOptions {
        fx: SCALE,
        fy: SCALE,
        cx: 0,
        cy: 0,
        skew: 0,
        k1,
        k2,
        k3,
        t1: 0,
        t2: 0,
    };
    let dp = distort_point(np, &opts);
    let sf = scale_factor(k1, k2, k3);
    proof {
        lemma_remap_distorted_bounds(np, opts);
        assert((dp.x as int) * (SCALE as int) <= (2_000 * (SCALE as int)) * (sf as int) && -((
        2_000 * (SCALE as int)) * (sf as int)) <= (dp.x as int) * (SCALE as int))
            by (nonlinear_arith)
            requires
                -15 * (SCALE as int) <= dp.x <= 15 * (SCALE as int) && sf >= 7_500,
        ;
        assert((dp.y as int) * (SCALE as int) <= (2_000 * (SCALE as int)) * (sf as int) && -((
        2_000 * (SCALE as int)) * (sf as int)) <= (dp.y as int) * (SCALE as int))
            by (nonlinear_arith)
            requires
                -15 * (SCALE as int) <= dp.y <= 15 * (SCALE as int) && sf >= 7_500,
        ;
        lemma_tdiv_bounds((dp.x as int) * (SCALE as int), sf as int, 2_000 * (SCALE as int));
        lemma_tdiv_bounds((dp.y as int) * (SCALE as int), sf as int, 2_000 * (SCALE as int));
    }
    let up = NormPoint { x: fx_div(dp.x, sf), y: fx_div(dp.y, sf) };
    let sp = up.unnormalized(&center);
    let sampled = bilinear_interpolation(&sp, data, width, height);
    match sampled {
        Ok(c) => c,
        Err(_) => Color { r: 0, g: 0, b: 0, a: 255 },
    }
}

/// With the restricted radial-only options and a normalized point within
/// one image half-width, the distorted point stays within fifteen
/// half-widths: the radial factor at squared radius up to two is at most
/// fifteen.
proof fn lemma_remap_distorted_bounds(np: NormPoint, d: DistortionOptions)
    requires
        d.fx == SCALE,
        d.fy == SCALE,
        d.cx == 0,
        d.cy == 0,
        d.skew == 0,
        d.t1 == 0,
        d.t2 == 0,
        radial_ok(d.k1 as int, d.k2 as int, d.k3 as int),
        -SCALE <= np.x <= SCALE,
        -SCALE <= np.y <= SCALE,
    ensures
        -15 * (SCALE as int) <= distort_x_spec(np, d) <= 15 * (SCALE as int),
        -15 * (SCALE as int) <= distort_y_spec(np, d) <= 15 * (SCALE as int),
{
    let s = SCALE as int;
    let xx = fmul(np.x as int, np.x as int);
    let yy = fmul(np.y as int, np.y as int);
    lemma_fmul_bounds(np.x as int, np.x as int, s, s, s);
    lemma_fmul_bounds(np.y as int, np.y as int, s, s, s);
    let r2 = radius_sq(np.x as int, np.y as int);
    lemma_fmul_bounds(r2, r2, 2 * s, 2 * s, 4 * s);
    lemma_fmul_bounds(fmul(r2, r2), r2, 4 * s, 2 * s, 8 * s);
    lemma_fmul_bounds(d.k1 as int, r2, s, 2 * s, 2 * s);
    lemma_fmul_bounds(d.k2 as int, fmul(r2, r2), s, 4 * s, 4 * s);
    lemma_fmul_bounds(d.k3 as int, fmul(fmul(r2, r2), r2), s, 8 * s, 8 * s);
    let e = radial_expr(r2, d.k1 as int, d.k2 as int, d.k3 as int);
    lemma_fmul_bounds(np.x as int, e, s, 15 * s, 15 * s);
    lemma_fmul_bounds(np.y as int, e, s, 15 * s, 15 * s);
    lemma_fmul_zero(r2 + 2 * fmul(np.x as int, np.x as int));
    lemma_fmul_zero(r2 + 2 * fmul(np.y as int, np.y as int));
    lemma_fmul_zero(fmul(np.x as int, np.y as int));
    let xt = fmul(np.x as int, e);
    let yt = fmul(np.y as int, e);
    lemma_fmul_scale(xt);
    lemma_fmul_scale(yt);
    lemma_fmul_zero(yt);
}

/// Two distinct pixels of a row-major buffer occupy disjoint byte
/// ranges.
pub(crate) proof fn lemma_pixel_bytes_disjoint(w: int, a: int, b: int, i: int, j: int)
    requires
        0 <= a < w,
        0 <= i < w,
        0 <= b,
        0 <= j,
        a != i || b != j,
    ensures
        (b * w + a) * 4 + 3 < (j * w + i) * 4 || (j * w + i) * 4 + 3 < (b * w + a) * 4,
{
    if b == j {
        assert(b * w + a != j * w + i);
    } else if b < j {
        assert((b * w + a) < j * w + i) by (nonlinear_arith)
            requires
                0 <= a < w && 0 <= i && b < j,
        ;
    } else {
        assert((j * w + i) < b * w + a) by (nonlinear_arith)
            requires
                0 <= i < w && 0 <= a && j < b,
        ;
    }
}

/// Undistort an image: every destination pixel is inverse-mapped through
/// the forward radial distortion (anchored at the image's outer edge by
/// the diagonal scale factor) and sampled bilinearly from the source;
/// where sampling fails, opaque black is written instead.  Positive `k1`
/// corrects barrel distortion, negative corrects pincushion.
#[verifier::loop_isolation(false)]
#[verifier::rlimit(100)]
pub fn undistort_data(in_data: &Vec<u8>, width: u32, height: u32, k1: i64, k2: i64, k3: i64) -> (r:
    Vec<u8>)
    requires
        buffer_sized(in_data@, width as int, height as int),
        1 <= width <= 4_000_000_000,
        1 <= height <= 4_000_000_000,
        radial_ok(k1 as int, k2 as int, k3 as int),
        scale_factor_spec(k1 as int, k2 as int, k3 as int) >= 7_500,
    ensures
        r@.len() == in_data@.len(),
        forall|a: int, b: int|
            0 <= a < width && 0 <= b < height ==> pixel_at(r@, a, b, width as int) == remap_pixel(
                in_data@,
                width as int,
                height as int,
                k1,
                k2,
                k3,
                a,
                b,
            ),
{
    let n = in_data.len();
    let mut output: Vec<u8> = vec![0u8; n];
    let mut i: u32 = 0;
    while i < width
        invariant
            i <= width,
            output@.len() == n,
            forall|a: int, b: int|
                0 <= a < i && 0 <= b < height ==> pixel_at(output@, a, b, width as int)
                    == remap_pixel(in_data@, width as int, height as int, k1, k2, k3, a, b),
        decreases width - i,
    {
        let mut j: u32 = 0;
        while j < height
            invariant
                i < width,
                j <= height,
                output@.len() == n,
                forall|a: int, b: int|
                    0 <= a < i && 0 <= b < height ==> pixel_at(output@, a, b, width as int)
                        == remap_pixel(in_data@, width as int, height as int, k1, k2, k3, a, b),
                forall|b: int|
                    0 <= b < j ==> pixel_at(output@, i as int, b, width as int) == remap_pixel(
                        in_data@,
                        width as int,
                        height as int,
                        k1,
                        k2,
                        k3,
                        i as int,
                        b,
                    ),
            decreases height - j,
        {
            let color = remap_sample(in_data, width, height, k1, k2, k3, i, j);
            let ghost before = output@;
            let res = set_color(color, &mut output, i, j, width, height);
            proof {
                assert(res is Ok);
                assert(0 <= ((j as int) * (width as int) + i as int) * 4 && ((j as int) * (
                width as int) + i as int) * 4 + 3 < output@.len()) by (nonlinear_arith)
                    requires
                        0 <= i < width as int && 0 <= j < height as int && output@.len() == (
                        width as int) * (height as int) * 4,
                ;
                assert forall|a: int, b: int|
                    0 <= a < width && 0 <= b < height && (a != i as int || b != j as int) implies
                    pixel_at(output@, a, b, width as int) == pixel_at(
                    before,
                    a,
                    b,
                    width as int,
                ) by {
                    lemma_pixel_bytes_disjoint(width as int, a, b, i as int, j as int);
                    assert(0 <= (b * (width as int) + a) * 4 && (b * (width as int) + a) * 4 + 3
                        < output@.len()) by (nonlinear_arith)
                        requires
                            0 <= a < width as int && 0 <= b < height as int && output@.len() == (
                            width as int) * (height as int) * 4,
                    ;
                }
                assert(pixel_at(output@, i as int, j as int, width as int) == color);
                assert forall|a: int, b: int|
                    0 <= a < i && 0 <= b < height implies pixel_at(output@, a, b, width as int)
                    == remap_pixel(
                    in_data@,
                    width as int,
                    height as int,
                    k1,
                    k2,
                    k3,
                    a,
                    b,
                ) by {
                    assert(pixel_at(output@, a, b, width as int) == pixel_at(
                        before,
                        a,
                        b,
                        width as int,
                    ));
                    assert(pixel_at(before, a, b, width as int) == remap_pixel(
                        in_data@,
                        width as int,
                        height as int,
                        k1,
                        k2,
                        k3,
                        a,
                        b,
                    ));
                }
                assert forall|b: int|
                    0 <= b < j + 1 implies pixel_at(output@, i as int, b, width as int)
                    == remap_pixel(
                    in_data@,
                    width as int,
                    height as int,
                    k1,
                    k2,
                    k3,
                    i as int,
                    b,
                ) by {
                    if b < j {
                        assert(pixel_at(output@, i as int, b, width as int) == pixel_at(
                            before,
                            i as int,
                            b,
                            width as int,
                        ));
                        assert(pixel_at(before, i as int, b, width as int) == remap_pixel(
                            in_data@,
                            width as int,
                            height as int,
                            k1,
                            k2,
                            k3,
                            i as int,
                            b,
                        ));
                    }
                }
            }
            j = j + 1;
        }
        i = i + 1;
    }
    output
}

} // verus!
