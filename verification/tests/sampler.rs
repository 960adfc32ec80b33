//! Tests of pixel access, bilinear interpolation and color blending.

use img_tools::color::{BlackWhite, Color, get_black_white_closer, get_black_white_unlikelihood};
use img_tools::errors::ImageError;
use img_tools::geometry::Point;
use img_tools::sampler::{bilinear_interpolation, ij, set_color};

fn two_by_two() -> Vec<u8> {
    vec![1, 0, 0, 255, 2, 0, 0, 255, 3, 0, 0, 255, 4, 0, 0, 255]
}

#[test]
fn ij_reads_row_major() {
    let v = two_by_two();
    assert_eq!(ij(&v, 0, 0, 2, 2), Ok(Color { r: 1, g: 0, b: 0, a: 255 }));
    assert_eq!(ij(&v, 1, 0, 2, 2), Ok(Color { r: 2, g: 0, b: 0, a: 255 }));
    assert_eq!(ij(&v, 0, 1, 2, 2), Ok(Color { r: 3, g: 0, b: 0, a: 255 }));
    assert_eq!(ij(&v, 1, 1, 2, 2), Ok(Color { r: 4, g: 0, b: 0, a: 255 }));
}

#[test]
fn ij_rejects_out_of_bounds() {
    let v = two_by_two();
    assert_eq!(ij(&v, 2, 0, 2, 2), Err(ImageError::OutOfBounds));
    assert_eq!(ij(&v, 0, 2, 2, 2), Err(ImageError::OutOfBounds));
}

#[test]
fn ij_rejects_negative_after_bounds() {
    let v = two_by_two();
    assert_eq!(ij(&v, -1, 0, 2, 2), Err(ImageError::NegativeCoordinate));
    // The out-of-bounds test comes first, even when another index is
    // negative.
    assert_eq!(ij(&v, -1, 5, 2, 2), Err(ImageError::OutOfBounds));
}

#[test]
fn bilinear_center_of_two_by_two() {
    let v = two_by_two();
    let p = Point { x: 500_000, y: 500_000 };
    assert_eq!(
        bilinear_interpolation(&p, &v, 2, 2),
        Ok(Color { r: 2, g: 0, b: 0, a: 255 })
    );
}

#[test]
fn bilinear_at_grid_point_returns_pixel() {
    let v = two_by_two();
    for (i, j, r) in [(0i64, 0i64, 1u8), (1, 0, 2), (0, 1, 3), (1, 1, 4)] {
        let p = Point { x: i * 1_000_000, y: j * 1_000_000 };
        assert_eq!(
            bilinear_interpolation(&p, &v, 2, 2),
            Ok(Color { r, g: 0, b: 0, a: 255 })
        );
    }
}

#[test]
fn bilinear_rejects_negative() {
    let v = two_by_two();
    let p = Point { x: -1, y: 0 };
    assert_eq!(bilinear_interpolation(&p, &v, 2, 2), Err(ImageError::NegativeCoordinate));
}

#[test]
fn bilinear_rejects_out_of_bounds() {
    let v = two_by_two();
    let p = Point { x: 2_000_000, y: 0 };
    assert_eq!(bilinear_interpolation(&p, &v, 2, 2), Err(ImageError::OutOfBounds));
}

#[test]
fn bilinear_rejects_non_opaque() {
    let mut v = two_by_two();
    v[3] = 254;
    let p = Point { x: 500_000, y: 0 };
    assert_eq!(bilinear_interpolation(&p, &v, 2, 2), Err(ImageError::NonOpaqueAlpha));
}

#[test]
fn set_color_writes_four_bytes() {
    let mut v = two_by_two();
    let c = Color { r: 9, g: 8, b: 7, a: 255 };
    assert_eq!(set_color(c, &mut v, 1, 1, 2, 2), Ok(()));
    assert_eq!(ij(&v, 1, 1, 2, 2), Ok(c));
    assert_eq!(ij(&v, 0, 0, 2, 2), Ok(Color { r: 1, g: 0, b: 0, a: 255 }));
}

#[test]
fn set_color_bound_is_inclusive() {
    // Only an index strictly past a dimension is refused.
    let mut v = two_by_two();
    assert_eq!(
        set_color(Color { r: 0, g: 0, b: 0, a: 255 }, &mut v, 3, 0, 2, 2),
        Err(ImageError::OutOfBounds)
    );
    assert_eq!(
        set_color(Color { r: 0, g: 0, b: 0, a: 255 }, &mut v, 0, 3, 2, 2),
        Err(ImageError::OutOfBounds)
    );
    assert_eq!(set_color(Color { r: 5, g: 5, b: 5, a: 255 }, &mut v, 2, 0, 2, 2), Ok(()));
}

#[test]
fn interpolate_midpoint_truncates() {
    let a = Color { r: 10, g: 20, b: 30, a: 255 };
    let b = Color { r: 21, g: 40, b: 60, a: 255 };
    // (10 + 21) / 2 truncates to 15.
    assert_eq!(a.interpolate(&b, 500_000), Ok(Color { r: 15, g: 30, b: 45, a: 255 }));
}

#[test]
fn interpolate_at_zero_returns_first() {
    let a = Color { r: 10, g: 20, b: 30, a: 255 };
    let b = Color { r: 99, g: 99, b: 99, a: 255 };
    assert_eq!(a.interpolate(&b, 0), Ok(a));
}

#[test]
fn interpolate_requires_opaque() {
    let a = Color { r: 10, g: 20, b: 30, a: 254 };
    let b = Color { r: 99, g: 99, b: 99, a: 255 };
    assert_eq!(a.interpolate(&b, 500_000), Err(ImageError::NonOpaqueAlpha));
    assert_eq!(b.interpolate(&a, 500_000), Err(ImageError::NonOpaqueAlpha));
}

#[test]
fn black_white_unlikelihood_of_pure_colors() {
    let black = Color { r: 0, g: 0, b: 0, a: 255 };
    let white = Color { r: 255, g: 255, b: 255, a: 255 };
    assert_eq!(get_black_white_unlikelihood(&black, BlackWhite::Black), 0);
    assert_eq!(get_black_white_unlikelihood(&white, BlackWhite::White), 0);
    // A pure color is very unlike the opposite target: sqrt(3) * 255.
    let far = get_black_white_unlikelihood(&black, BlackWhite::White);
    assert!(441_000_000 < far && far < 442_000_000, "far was {far}");
}

#[test]
fn black_white_closer_splits_at_grey() {
    assert_eq!(
        get_black_white_closer(Color { r: 10, g: 10, b: 10, a: 255 }),
        BlackWhite::Black
    );
    assert_eq!(
        get_black_white_closer(Color { r: 200, g: 200, b: 200, a: 255 }),
        BlackWhite::White
    );
    // The split falls between the two middle greys.
    assert_eq!(
        get_black_white_closer(Color { r: 127, g: 127, b: 127, a: 255 }),
        BlackWhite::Black
    );
    assert_eq!(
        get_black_white_closer(Color { r: 128, g: 128, b: 128, a: 255 }),
        BlackWhite::White
    );
}
