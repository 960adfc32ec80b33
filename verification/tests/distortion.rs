//! Tests of the distortion model: the diagonal scale factor, the forward
//! transform, its approximate inverse, and coefficient inversion.

use img_tools::distortion::{scale_factor, distort_point, undistort_point, DistortionOptions};
use img_tools::fixed::SCALE;
use img_tools::geometry::{NormPoint, Point};

fn radial_opts(k1: i64, k2: i64, k3: i64) -> DistortionOptions {
    DistortionOptions {
        fx: SCALE,
        fy: SCALE,
        cx: 0,
        cy: 0,
        skew: 0,
        k1,
        k2,
        k3,
        t1: 0,
        t2: 0,
    }
}

#[test]
fn scale_factor_diagonal_exact() {
    // k1 = 0.05 at squared diagonal distance 2 gives exactly 1.1.
    assert_eq!(scale_factor(50_000, 0, 0), 1_100_000);
}

#[test]
fn scale_factor_no_distortion_is_one() {
    assert_eq!(scale_factor(0, 0, 0), SCALE);
}

#[test]
fn scale_factor_full_formula() {
    // 1 + 2 k1 + 4 k2 + 8 k3.
    assert_eq!(scale_factor(10_000, 20_000, 30_000), SCALE + 20_000 + 80_000 + 240_000);
}

#[test]
fn scale_factor_strictly_increasing_in_k1() {
    let mut last = scale_factor(-500_000, 0, 0);
    for k in [-100_000i64, -1, 0, 1, 100_000, 500_000] {
        let s = scale_factor(k, 0, 0);
        assert!(s > last);
        last = s;
    }
}

#[test]
fn distort_without_coefficients_is_identity() {
    let p = NormPoint { x: 300_000, y: -400_000 };
    let q = distort_point(p, &radial_opts(0, 0, 0));
    assert_eq!(q, Point { x: 300_000, y: -400_000 });
}

#[test]
fn distort_radial_pulls_outward_for_barrel() {
    // k1 = 0.05, p = (0.3, 0.4): r^2 = 0.25, factor 1.0125.
    let p = NormPoint { x: 300_000, y: 400_000 };
    let q = distort_point(p, &radial_opts(50_000, 0, 0));
    assert_eq!(q, Point { x: 303_750, y: 405_000 });
}

#[test]
fn undistort_of_distort_is_close() {
    // The radial-only inverse is an approximation: the round trip lands
    // within a small epsilon of the original point.
    let p = NormPoint { x: 300_000, y: 400_000 };
    let opts = radial_opts(50_000, 0, 0);
    let d = distort_point(p, &opts);
    let back = undistort_point(NormPoint { x: d.x, y: d.y }, &opts);
    assert!((back.x - p.x).abs() <= 1_000, "x came back as {}", back.x);
    assert!((back.y - p.y).abs() <= 1_000, "y came back as {}", back.y);
}

#[test]
fn undistort_of_distort_exact_without_coefficients() {
    let p = NormPoint { x: -700_000, y: 250_000 };
    let opts = radial_opts(0, 0, 0);
    let d = distort_point(p, &opts);
    let back = undistort_point(NormPoint { x: d.x, y: d.y }, &opts);
    assert_eq!(back, Point { x: p.x, y: p.y });
}

#[test]
fn invert_flips_and_combines_coefficients() {
    let o = DistortionOptions {
        fx: SCALE,
        fy: SCALE,
        cx: 10_000,
        cy: 20_000,
        skew: 0,
        k1: 100_000,
        k2: 0,
        k3: 0,
        t1: 0,
        t2: 0,
    };
    let inv = o.invert();
    assert_eq!(inv.k1, -100_000);
    // 3 k1^2 = 3 * 0.01 = 0.03
    assert_eq!(inv.k2, 30_000);
    // -12 k1^3 = -12 * 0.001 = -0.012
    assert_eq!(inv.k3, -12_000);
    assert_eq!(inv.cx, 10_000);
    assert_eq!(inv.cy, 20_000);
}

#[test]
fn distortion_options_new_is_all_zero() {
    let o = DistortionOptions::new();
    assert_eq!(o.fx, 0);
    assert_eq!(o.fy, 0);
    assert_eq!(o.cx, 0);
    assert_eq!(o.cy, 0);
    assert_eq!(o.skew, 0);
    assert_eq!(o.k1, 0);
    assert_eq!(o.k2, 0);
    assert_eq!(o.k3, 0);
    assert_eq!(o.t1, 0);
    assert_eq!(o.t2, 0);
}
