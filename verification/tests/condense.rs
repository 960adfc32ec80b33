//! Tests of candidate condensing: clustering, sorting, truncation.

use img_tools::condense::condense_corners;
use img_tools::geometry::Point;

const S: i64 = 1_000_000;

fn p(x: i64, y: i64) -> Point {
    Point { x, y }
}

#[test]
fn nearby_points_form_one_cluster_at_their_mean() {
    let pts = vec![p(10 * S, 10 * S), p(11 * S, 10 * S), p(10 * S, 11 * S)];
    let r = condense_corners(&pts, 5 * S, 4);
    // One cluster; its centroid is the arithmetic mean of the three
    // points (the truncated running mean is exact here).
    assert_eq!(r, vec![p(10_333_333, 10_333_333)]);
}

#[test]
fn identical_points_condense_to_that_point() {
    let pts = vec![p(7 * S, 3 * S); 5];
    let r = condense_corners(&pts, 1, 4);
    assert_eq!(r, vec![p(7 * S, 3 * S)]);
}

#[test]
fn far_points_start_new_clusters() {
    let pts = vec![p(1 * S, 1 * S), p(100 * S, 100 * S)];
    let r = condense_corners(&pts, 5 * S, 4);
    assert_eq!(r, vec![p(1 * S, 1 * S), p(100 * S, 100 * S)]);
}

#[test]
fn output_never_exceeds_corner_count() {
    let pts = vec![p(1 * S, 1 * S), p(50 * S, 50 * S), p(100 * S, 100 * S)];
    let r = condense_corners(&pts, 2 * S, 2);
    assert_eq!(r.len(), 2);
}

#[test]
fn clusters_come_out_largest_first() {
    // The singleton is seen first, but the two-member cluster must come
    // out ahead of it.
    let pts = vec![p(1 * S, 1 * S), p(50 * S, 50 * S), p(51 * S, 50 * S)];
    let r = condense_corners(&pts, 2 * S, 4);
    assert_eq!(r, vec![p(50_500_000, 50 * S), p(1 * S, 1 * S)]);
}

#[test]
fn sentinel_points_are_skipped() {
    let pts = vec![p(0, 0), p(1 * S, 1 * S), p(0, 0)];
    let r = condense_corners(&pts, 5 * S, 4);
    assert_eq!(r, vec![p(1 * S, 1 * S)]);
}

#[test]
fn points_on_an_axis_are_not_sentinels() {
    // Only the exact origin marks an unfilled slot; a point with one
    // zero coordinate is a real candidate.
    let pts = vec![p(0, 5 * S), p(0, 0)];
    let r = condense_corners(&pts, 1 * S, 4);
    assert_eq!(r, vec![p(0, 5 * S)]);
}

#[test]
fn no_points_no_clusters() {
    let r = condense_corners(&Vec::new(), 5 * S, 4);
    assert_eq!(r, Vec::<Point>::new());
}

#[test]
fn first_matching_cluster_wins() {
    // The third point is within reach of both clusters; it joins the
    // first one in insertion order, not the nearer second one.
    let pts = vec![p(10 * S, 0), p(16 * S, 0), p(14 * S, 0)];
    let r = condense_corners(&pts, 5 * S, 4);
    assert_eq!(r, vec![p(12 * S, 0), p(16 * S, 0)]);
}
