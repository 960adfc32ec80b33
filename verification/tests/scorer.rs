//! Tests of the corner unlikelihood scorer and its stages.

use img_tools::color::BlackWhite;
use img_tools::errors::{ImageError, Stage};
use img_tools::geometry::Point;
use img_tools::options::{ToleranceOptions, WeightageOptions};
use img_tools::scorer::{
    get_black_white_transition, get_corner_unlikelihood, get_intersection,
};

const S: i64 = 1_000_000;

/// A 4x4 checkerboard corner: top-left and bottom-right quadrants black,
/// the others white, with the corner pixel itself slightly off grey.
fn checkerboard() -> Vec<u8> {
    let mut v = Vec::new();
    for y in 0..4u32 {
        for x in 0..4u32 {
            let black = (x < 2 && y < 2) || (x >= 2 && y >= 2);
            let c = if black { 0u8 } else { 255u8 };
            v.extend_from_slice(&[c, c, c, 255]);
        }
    }
    let base = (2 * 4 + 2) * 4;
    v[base] = 120;
    v[base + 1] = 120;
    v[base + 2] = 120;
    v
}

fn uniform(level: u8) -> Vec<u8> {
    let mut v = Vec::new();
    for _ in 0..16 {
        v.extend_from_slice(&[level, level, level, 255]);
    }
    v
}

#[test]
fn checkerboard_center_scores_low() {
    let v = checkerboard();
    let tol = ToleranceOptions::new();
    let wt = WeightageOptions::new();
    let r = get_corner_unlikelihood(&v, 2, 2, 4, 4, 1, &tol, &wt);
    match r {
        Ok(score) => assert!(0 <= score && score < 600 * S, "score was {score}"),
        Err(e) => panic!("expected a score, got {e:?}"),
    }
}

#[test]
fn off_grey_center_rejected_when_tolerance_tightens() {
    let v = checkerboard();
    let tol = ToleranceOptions { center_dist: 1_000_000, ..ToleranceOptions::new() };
    let wt = WeightageOptions::new();
    assert_eq!(
        get_corner_unlikelihood(&v, 2, 2, 4, 4, 1, &tol, &wt),
        Err(ImageError::ToleranceExceeded(Stage::CenterDist))
    );
}

#[test]
fn uniform_region_fails_polarity() {
    let v = uniform(200);
    let tol = ToleranceOptions {
        black_dist: 100 * S,
        white_dist: 100 * S,
        ..ToleranceOptions::new()
    };
    let wt = WeightageOptions::new();
    assert_eq!(
        get_corner_unlikelihood(&v, 2, 2, 4, 4, 1, &tol, &wt),
        Err(ImageError::ToleranceExceeded(Stage::BlackDist))
    );
}

#[test]
fn near_black_region_fails_at_white_corners() {
    let v = uniform(10);
    let tol = ToleranceOptions {
        black_dist: 50 * S,
        white_dist: 100 * S,
        ..ToleranceOptions::new()
    };
    let wt = WeightageOptions::new();
    assert_eq!(
        get_corner_unlikelihood(&v, 2, 2, 4, 4, 1, &tol, &wt),
        Err(ImageError::ToleranceExceeded(Stage::WhiteDist))
    );
}

#[test]
fn uniform_region_has_no_transition() {
    // With no polarity tolerance at all, a uniform region still fails:
    // no side ever flips between black and white.  The image is large
    // enough that the whole walk stays inside it.
    let mut v = Vec::new();
    for _ in 0..36 {
        v.extend_from_slice(&[200, 200, 200, 255]);
    }
    let tol = ToleranceOptions::new();
    let wt = WeightageOptions::new();
    assert_eq!(
        get_corner_unlikelihood(&v, 2, 2, 6, 6, 1, &tol, &wt),
        Err(ImageError::TransitionNotFound)
    );
}

#[test]
fn window_past_the_edge_is_rejected() {
    let v = checkerboard();
    let tol = ToleranceOptions::new();
    let wt = WeightageOptions::new();
    assert_eq!(
        get_corner_unlikelihood(&v, 0, 0, 4, 4, 1, &tol, &wt),
        Err(ImageError::NegativeCoordinate)
    );
    assert_eq!(
        get_corner_unlikelihood(&v, 3, 3, 4, 4, 1, &tol, &wt),
        Err(ImageError::OutOfBounds)
    );
}

#[test]
fn intersection_tolerance_rejects() {
    // The edge points sit one pixel from their intersection; half a
    // pixel of tolerance is not enough.
    let v = checkerboard();
    let tol = ToleranceOptions { intersect_dist: 500_000, ..ToleranceOptions::new() };
    let wt = WeightageOptions::new();
    assert_eq!(
        get_corner_unlikelihood(&v, 2, 2, 4, 4, 1, &tol, &wt),
        Err(ImageError::ToleranceExceeded(Stage::IntersectDist))
    );
}

#[test]
fn region_vote_tolerance_rejects() {
    let v = checkerboard();
    let tol = ToleranceOptions { avg: 1_000_000, ..ToleranceOptions::new() };
    let wt = WeightageOptions::new();
    assert_eq!(
        get_corner_unlikelihood(&v, 2, 2, 4, 4, 1, &tol, &wt),
        Err(ImageError::ToleranceExceeded(Stage::Avg))
    );
}

#[test]
fn transition_found_at_first_flip() {
    // One row of two black then two white pixels.
    let v = vec![
        0, 0, 0, 255, 0, 0, 0, 255, 255, 255, 255, 255, 255, 255, 255, 255,
    ];
    assert_eq!(
        get_black_white_transition(&v, BlackWhite::Black, 0, 0, 3, 4, 1, false),
        Ok((2, 0))
    );
}

#[test]
fn transition_missing_in_uniform_row() {
    let v = vec![0, 0, 0, 255, 0, 0, 0, 255, 0, 0, 0, 255, 0, 0, 0, 255];
    assert_eq!(
        get_black_white_transition(&v, BlackWhite::Black, 0, 0, 3, 4, 1, false),
        Err(ImageError::TransitionNotFound)
    );
}

#[test]
fn intersection_of_edge_chords() {
    // The chords of the checkerboard window cross exactly at its center.
    let r = get_intersection(
        Point { x: 2 * S, y: 1 * S },
        Point { x: 3 * S, y: 2 * S },
        Point { x: 2 * S, y: 3 * S },
        Point { x: 1 * S, y: 2 * S },
    );
    assert_eq!(r, Ok(Point { x: 2 * S, y: 2 * S }));
}

#[test]
fn intersection_outside_segment_is_rejected() {
    // The lines meet at x = 3, three segment lengths past the end.
    let r = get_intersection(
        Point { x: 0, y: 0 },
        Point { x: 3 * S, y: 1 * S },
        Point { x: 1 * S, y: 0 },
        Point { x: 3 * S, y: -1 * S },
    );
    assert_eq!(r, Err(ImageError::IntersectionOutOfRange));
}

#[test]
fn parallel_lines_are_rejected() {
    let r = get_intersection(
        Point { x: 0, y: 0 },
        Point { x: 0, y: 1 * S },
        Point { x: 1 * S, y: 0 },
        Point { x: 1 * S, y: 1 * S },
    );
    assert_eq!(r, Err(ImageError::IntersectionOutOfRange));
}
