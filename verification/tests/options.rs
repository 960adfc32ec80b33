//! Tests of the option records and the point geometry helpers.

use img_tools::fixed::SCALE;
use img_tools::geometry::{DistortionOffsetOptions, Point};
use img_tools::options::{OverallOptions, ToleranceOptions, WeightageOptions};

#[test]
fn it_works() {
    assert_eq!(2 + 2, 4);
}

#[test]
fn tolerance_default_rejects_nothing() {
    let t = ToleranceOptions::new();
    assert_eq!(t.black_dist, i64::MAX);
    assert_eq!(t.white_dist, i64::MAX);
    assert_eq!(t.center_dist, i64::MAX);
    assert_eq!(t.avg, i64::MAX);
    assert_eq!(t.intersect_dist, i64::MAX);
}

#[test]
fn weightage_default_counts_only_the_region_vote() {
    let w = WeightageOptions::new();
    assert_eq!(w.center_dist, 0);
    assert_eq!(w.black_dist, 0);
    assert_eq!(w.white_dist, 0);
    assert_eq!(w.intersect_dist, 0);
    assert_eq!(w.avg, SCALE);
}

#[test]
fn lock_normalizes_equal_weights() {
    let w = WeightageOptions {
        center_dist: SCALE,
        black_dist: SCALE,
        white_dist: SCALE,
        intersect_dist: SCALE,
        avg: SCALE,
    };
    let l = w.lock();
    assert_eq!(l.center_dist, 200_000);
    assert_eq!(l.black_dist, 200_000);
    assert_eq!(l.white_dist, 200_000);
    assert_eq!(l.intersect_dist, 200_000);
    assert_eq!(l.avg, 200_000);
}

#[test]
fn lock_scales_a_single_weight_to_one() {
    let w = WeightageOptions {
        center_dist: 0,
        black_dist: 0,
        white_dist: 0,
        intersect_dist: 0,
        avg: 2 * SCALE,
    };
    let l = w.lock();
    assert_eq!(l.avg, SCALE);
    assert_eq!(l.center_dist, 0);
}

#[test]
fn lock_keeps_proportions() {
    let w = WeightageOptions {
        center_dist: SCALE,
        black_dist: 3 * SCALE,
        white_dist: 0,
        intersect_dist: 0,
        avg: 0,
    };
    let l = w.lock();
    assert_eq!(l.center_dist, 250_000);
    assert_eq!(l.black_dist, 750_000);
}

#[test]
fn overall_defaults_are_unusable_zeros() {
    let o = OverallOptions::new();
    assert_eq!(o.view_range, 0);
    assert_eq!(o.pre_corners, 0);
    assert_eq!(o.valid_proximity, 0);
    assert_eq!(o.post_corners, 0);
}

#[test]
fn distance_is_euclidean() {
    let a = Point { x: 0, y: 0 };
    let b = Point { x: 3 * SCALE, y: 4 * SCALE };
    assert_eq!(a.distance(&b), 5 * SCALE);
    assert_eq!(b.distance(&a), 5 * SCALE);
    assert_eq!(a.distance(&a), 0);
}

#[test]
fn distance_rounds_down() {
    let a = Point { x: 0, y: 0 };
    let b = Point { x: SCALE, y: SCALE };
    // sqrt(2) = 1.414213...
    assert_eq!(a.distance(&b), 1_414_213);
}

#[test]
fn normalize_then_unnormalize_returns_the_point() {
    let center = Point { x: 2 * SCALE, y: 2 * SCALE };
    let p = Point { x: 3 * SCALE, y: SCALE };
    let n = p.normalized(&center);
    assert_eq!(n.x, 500_000);
    assert_eq!(n.y, -500_000);
    let back = n.unnormalized(&center);
    assert_eq!(back, p);
}

#[test]
fn transform_scales_and_shifts_around_the_center() {
    let p = Point { x: 4 * SCALE, y: 4 * SCALE };
    let center = Point { x: 2 * SCALE, y: 2 * SCALE };
    let o = DistortionOffsetOptions {
        x: SCALE,
        y: 0,
        x_scale: 2 * SCALE,
        y_scale: SCALE,
    };
    let q = p.transform(&o, &center);
    assert_eq!(q, Point { x: 7 * SCALE, y: 4 * SCALE });
}

#[test]
fn offset_default_is_the_identity() {
    let o = DistortionOffsetOptions::new();
    assert_eq!(o.x, 0);
    assert_eq!(o.y, 0);
    assert_eq!(o.x_scale, SCALE);
    assert_eq!(o.y_scale, SCALE);
}
