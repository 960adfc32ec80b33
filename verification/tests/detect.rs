//! Tests of the full-image scan: the bounded candidate list, corner
//! detection and the diagnostic corner map.

use img_tools::detect::{corner_map, detect_corners, insert_candidate};
use img_tools::geometry::Point;
use img_tools::options::{OverallOptions, ToleranceOptions, WeightageOptions};

const S: i64 = 1_000_000;

fn p(x: i64, y: i64) -> Point {
    Point { x, y }
}

fn checkerboard() -> Vec<u8> {
    let mut v = Vec::new();
    for y in 0..4u32 {
        for x in 0..4u32 {
            let black = (x < 2 && y < 2) || (x >= 2 && y >= 2);
            let c = if black { 0u8 } else { 255u8 };
            v.extend_from_slice(&[c, c, c, 255]);
        }
    }
    v
}

#[test]
fn candidate_replaces_the_worst_entry() {
    let mut list = vec![(10i64, p(1, 1)), (20i64, p(2, 2))];
    insert_candidate(&mut list, 15, p(3, 3));
    assert_eq!(list, vec![(10, p(1, 1)), (15, p(3, 3))]);
}

#[test]
fn worse_candidate_leaves_the_list_unchanged() {
    let mut list = vec![(10i64, p(1, 1)), (20i64, p(2, 2))];
    insert_candidate(&mut list, 20, p(3, 3));
    assert_eq!(list, vec![(10, p(1, 1)), (20, p(2, 2))]);
    insert_candidate(&mut list, 99, p(3, 3));
    assert_eq!(list, vec![(10, p(1, 1)), (20, p(2, 2))]);
}

#[test]
fn best_candidate_goes_first() {
    let mut list = vec![(10i64, p(1, 1)), (20i64, p(2, 2))];
    insert_candidate(&mut list, 5, p(3, 3));
    assert_eq!(list, vec![(5, p(3, 3)), (10, p(1, 1))]);
}

#[test]
fn empty_candidate_list_accepts_nothing() {
    let mut list: Vec<(i64, Point)> = Vec::new();
    insert_candidate(&mut list, 5, p(3, 3));
    assert!(list.is_empty());
}

#[test]
fn candidate_list_stays_sorted() {
    let mut list = vec![(i64::MAX, p(0, 0)); 4];
    for (score, pt) in [(30i64, p(1, 0)), (10, p(2, 0)), (20, p(3, 0)), (5, p(4, 0))] {
        insert_candidate(&mut list, score, pt);
        for w in list.windows(2) {
            assert!(w[0].0 <= w[1].0);
        }
        assert_eq!(list.len(), 4);
    }
    assert_eq!(list, vec![(5, p(4, 0)), (10, p(2, 0)), (20, p(3, 0)), (30, p(1, 0))]);
}

#[test]
fn detect_finds_the_checkerboard_corner() {
    let v = checkerboard();
    let overall = OverallOptions {
        view_range: 1,
        pre_corners: 3,
        valid_proximity: 5 * S,
        post_corners: 2,
    };
    let tol = ToleranceOptions::new();
    let wt = WeightageOptions::new();
    let r = detect_corners(&v, 4, 4, &overall, &tol, &wt);
    // The scoreable pixels all sit around the single physical corner at
    // (2, 2) and lie within the clustering distance of each other, so
    // exactly one corner comes out, inside the interior.
    assert_eq!(r.len(), 1);
    assert!(1 * S <= r[0].x && r[0].x <= 2 * S, "corner x was {}", r[0].x);
    assert!(1 * S <= r[0].y && r[0].y <= 2 * S, "corner y was {}", r[0].y);
}

#[test]
fn corner_map_of_uniform_image_is_saturated() {
    // Every pixel of a uniform image fails to score, and a failed pixel
    // renders at the brightest grey.
    let mut u = Vec::new();
    for _ in 0..16 {
        u.extend_from_slice(&[200, 200, 200, 255]);
    }
    let tol = ToleranceOptions::new();
    let wt = WeightageOptions::new();
    let r = corner_map(&u, 4, 4, 1, &tol, &wt);
    assert_eq!(r.len(), u.len());
    for b in r {
        assert_eq!(b, 255);
    }
}
