//! Tests of the image remapper.

use img_tools::remap::undistort_data;

fn gradient(w: u32, h: u32) -> Vec<u8> {
    let mut v = Vec::new();
    for y in 0..h {
        for x in 0..w {
            v.extend_from_slice(&[(10 + 7 * x + 3 * y) as u8, (x * 16) as u8, (y * 16) as u8, 255]);
        }
    }
    v
}

#[test]
fn no_distortion_is_identity_on_even_dimensions() {
    let v = gradient(4, 4);
    let out = undistort_data(&v, 4, 4, 0, 0, 0);
    assert_eq!(out, v);
}

#[test]
fn corners_stay_anchored_under_barrel_distortion() {
    // On a 2x2 image every pixel sits at the normalized diagonal, whose
    // scale the remap anchors: barrel distortion moves nothing.
    let v = gradient(2, 2);
    let out = undistort_data(&v, 2, 2, 50_000, 0, 0);
    assert_eq!(out, v);
}

#[test]
fn transparent_source_pixel_becomes_opaque_black() {
    let mut v = gradient(2, 2);
    v[3] = 254;
    let out = undistort_data(&v, 2, 2, 0, 0, 0);
    assert_eq!(&out[0..4], &[0, 0, 0, 255]);
    assert_eq!(&out[4..], &v[4..]);
}

#[test]
fn output_always_has_the_input_size() {
    let v = gradient(6, 2);
    let out = undistort_data(&v, 6, 2, -100_000, 10_000, 0);
    assert_eq!(out.len(), v.len());
    // Every pixel stays fully opaque: sampled colors keep their alpha
    // and the fallback is opaque black.
    for px in out.chunks(4) {
        assert_eq!(px[3], 255);
    }
}
