//! Bounds-checked pixel access and bilinear color interpolation over a
//! row-major RGBA byte buffer.

use vstd::prelude::*;

verus! {

use vstd::arithmetic::div_mod::{
    lemma_fundamental_div_mod,
    lemma_div_by_multiple,
    lemma_div_pos_is_pos,
    lemma_div_nonincreasing,
    lemma_div_multiples_vanish_fancy,
    lemma_remainder_lower,
    lemma_remainder_upper,
};
use crate::color::{Color, lerp_color, lemma_lerp_color_zero};
use crate::errors::ImageError;
use crate::fixed::SCALE;
use crate::geometry::Point;

/// A buffer holds exactly `width` times `height` RGBA pixels, four bytes
/// each.
pub open spec fn buffer_sized(data: Seq<u8>, width: int, height: int) -> bool {
    data.len() == width * height * 4
}

/// The pixel at column `i`, row `j` of a row-major RGBA buffer.
pub open spec fn pixel_at(data: Seq<u8>, i: int, j: int, width: int) -> Color {
    Color {
        r: data[(j * width + i) * 4],
        g: data[(j * width + i) * 4 + 1],
        b: data[(j * width + i) * 4 + 2],
        a: data[(j * width + i) * 4 + 3],
    }
}

/// What a bounds-checked pixel read returns: the out-of-bounds test comes
/// before the negativity test, as the read itself does.
pub open spec fn ij_spec(data: Seq<u8>, i: int, j: int, width: int, height: int) -> Result<
    Color,
    ImageError,
> {
    if i >= width || j >= height {
        Err(ImageError::OutOfBounds)
    } else if j < 0 || i < 0 {
        Err(ImageError::NegativeCoordinate)
    } else {
        Ok(pixel_at(data, i, j, width))
    }
}

/// Read the pixel at column `i`, row `j`; an index at or past either
/// dimension is out of bounds, a negative one is refused after that.
pub fn ij(data: &Vec<u8>, i: i64, j: i64, width: u32, height: u32) -> (r: Result<
    Color,
    ImageError,
>)
    requires
        buffer_sized(data@, width as int, height as int),
    ensures
        r == ij_spec(data@, i as int, j as int, width as int, height as int),
{
    if i >= width as i64 || j >= height as i64 {
        return Err(ImageError::OutOfBounds);
    }
    if j < 0 || i < 0 {
        return Err(ImageError::NegativeCoordinate);
    }
    let n = data.len();
    proof {
        assert(0 <= (j as int) * (width as int) && 0 <= (j as int) * (width as int) + i as int && ((
        j as int) * (width as int) + i as int) * 4 + 3 < (width as int) * (height as int) * 4)
            by (nonlinear_arith)
            requires
                0 <= i < width as int && 0 <= j < height as int,
        ;
    }
    let base: usize = ((j as usize) * (width as usize) + (i as usize)) * 4;
    Ok(Color { r: data[base], g: data[base + 1], b: data[base + 2], a: data[base + 3] })
}

/// What bilinear interpolation returns at a fixed-point position: the
/// floor and ceiling grid points on each axis are read, the two columns
/// are blended vertically by the fractional y, and the results are
/// blended horizontally by the fractional x.  Every step requires fully
/// opaque pixels; failures surface in the order the reads and blends
/// happen.
pub open spec fn bilinear_spec(data: Seq<u8>, x: int, y: int, width: int, height: int) -> Result<
    Color,
    ImageError,
> {
    if x < 0 || y < 0 {
        Err(ImageError::NegativeCoordinate)
    } else {
        let s = SCALE as int;
        let xf = x / s;
        let xc = (x + s - 1) / s;
        let yf = y / s;
        let yc = (y + s - 1) / s;
        let tx = x - xf * s;
        let ty = y - yf * s;
        match ij_spec(data, xf, yf, width, height) {
            Err(e) => Err(e),
            Ok(c00) => match ij_spec(data, xf, yc, width, height) {
                Err(e) => Err(e),
                Ok(c01) => if c00.a != 255 || c01.a != 255 {
                    Err(ImageError::NonOpaqueAlpha)
                } else {
                    let left = lerp_color(c00, c01, ty);
                    match ij_spec(data, xc, yf, width, height) {
                        Err(e) => Err(e),
                        Ok(c10) => match ij_spec(data, xc, yc, width, height) {
                            Err(e) => Err(e),
                            Ok(c11) => if c10.a != 255 || c11.a != 255 {
                                Err(ImageError::NonOpaqueAlpha)
                            } else {
                                let right = lerp_color(c10, c11, ty);
                                if left.a != 255 || right.a != 255 {
                                    Err(ImageError::NonOpaqueAlpha)
                                } else {
                                    Ok(lerp_color(left, right, tx))
                                }
                            },
                        },
                    }
                },
            },
        }
    }
}

/// Sample the buffer at a fixed-point position by bilinear interpolation
/// of the four surrounding grid pixels.
pub fn bilinear_interpolation(
    distorted_point: &Point,
    array: &Vec<u8>,
    width: u32,
    height: u32,
) -> (r: Result<Color, ImageError>)
    requires
        buffer_sized(array@, width as int, height as int),
    ensures
        r == bilinear_spec(
            array@,
            distorted_point.x as int,
            distorted_point.y as int,
            width as int,
            height as int,
        ),
{
    let x = distorted_point.x;
    let y = distorted_point.y;
    if x < 0 || y < 0 {
        return Err(ImageError::NegativeCoordinate);
    }
    let xu = x as u64;
    let yu = y as u64;
    let su = SCALE as u64;
    let xf = xu / su;
    let xc = (xu + (su - 1)) / su;
    let yf = yu / su;
    let yc = (yu + (su - 1)) / su;
    proof {
        lemma_div_nonincreasing(xu as int, su as int);
        lemma_div_nonincreasing((xu + (su - 1)) as int, su as int);
        lemma_div_nonincreasing(yu as int, su as int);
        lemma_div_nonincreasing((yu + (su - 1)) as int, su as int);
        lemma_fundamental_div_mod(xu as int, su as int);
        lemma_remainder_lower(xu as int, su as int);
        lemma_remainder_upper(xu as int, su as int);
        lemma_fundamental_div_mod(yu as int, su as int);
        lemma_remainder_lower(yu as int, su as int);
        lemma_remainder_upper(yu as int, su as int);
    }
    let tx: i64 = x - (xf as i64) * SCALE;
    let ty: i64 = y - (yf as i64) * SCALE;
    let c00 = match ij(array, xf as i64, yf as i64, width, height) {
        Ok(c) => c,
        Err(e) => {
            return Err(e);
        },
    };
    let c01 = match ij(array, xf as i64, yc as i64, width, height) {
        Ok(c) => c,
        Err(e) => {
            return Err(e);
        },
    };
    let left = match c00.interpolate(&c01, ty) {
        Ok(c) => c,
        Err(e) => {
            return Err(e);
        },
    };
    let c10 = match ij(array, xc as i64, yf as i64, width, height) {
        Ok(c) => c,
        Err(e) => {
            return Err(e);
        },
    };
    let c11 = match ij(array, xc as i64, yc as i64, width, height) {
        Ok(c) => c,
        Err(e) => {
            return Err(e);
        },
    };
    let right = match c10.interpolate(&c11, ty) {
        Ok(c) => c,
        Err(e) => {
            return Err(e);
        },
    };
    left.interpolate(&right, tx)
}

/// At an exact grid point whose pixel is fully opaque, bilinear
/// interpolation returns that pixel's color unchanged.
pub proof fn lemma_bilinear_grid_point(data: Seq<u8>, xi: int, yi: int, width: int, height: int)
    requires
        0 <= xi < width,
        0 <= yi < height,
        pixel_at(data, xi, yi, width).a == 255,
    ensures
        bilinear_spec(data, xi * (SCALE as int), yi * (SCALE as int), width, height) == Ok::<
            Color,
            ImageError,
        >(pixel_at(data, xi, yi, width)),
{
    let s = SCALE as int;
    let x = xi * s;
    let y = yi * s;
    assert(x >= 0 && y >= 0) by (nonlinear_arith)
        requires
            xi >= 0 && yi >= 0 && s > 0 && x == xi * s && y == yi * s,
    ;
    lemma_div_by_multiple(xi, s);
    lemma_div_by_multiple(yi, s);
    assert(x / s == xi);
    assert(y / s == yi);
    assert(x + s - 1 == s * xi + (s - 1)) by (nonlinear_arith)
        requires
            x == xi * s,
    ;
    assert(y + s - 1 == s * yi + (s - 1)) by (nonlinear_arith)
        requires
            y == yi * s,
    ;
    lemma_div_multiples_vanish_fancy(xi, s - 1, s);
    lemma_div_multiples_vanish_fancy(yi, s - 1, s);
    assert((x + s - 1) / s == xi);
    assert((y + s - 1) / s == yi);
    let c = pixel_at(data, xi, yi, width);
    assert(ij_spec(data, xi, yi, width, height) == Ok::<Color, ImageError>(c));
    lemma_lerp_color_zero(c, c);
    assert(x - (x / s) * s == 0);
    assert(y - (y / s) * s == 0);
}

/// Write `color`'s four bytes at column `i`, row `j`; only an index
/// strictly past a dimension is refused, and a write whose bytes would
/// fall beyond the buffer changes nothing.
pub fn set_color(color: Color, data: &mut Vec<u8>, i: u32, j: u32, width: u32, height: u32) -> (r:
    Result<(), ImageError>)
    requires
        buffer_sized(old(data)@, width as int, height as int),
    ensures
        final(data)@.len() == old(data)@.len(),
        i > width || j > height ==> r == Err::<(), ImageError>(ImageError::OutOfBounds)
            && final(data)@ == old(data)@,
        i <= width && j <= height ==> r == Ok::<(), ImageError>(()) && forall|k: int|
            0 <= k < final(data)@.len() ==> final(data)@[k] == ({
                let base = ((j as int) * (width as int) + i as int) * 4;
                if k == base {
                    color.r
                } else if k == base + 1 {
                    color.g
                } else if k == base + 2 {
                    color.b
                } else if k == base + 3 {
                    color.a
                } else {
                    old(data)@[k]
                }
            }),
{
    if i > width {
        return Err(ImageError::OutOfBounds);
    }
    if j > height {
        return Err(ImageError::OutOfBounds);
    }
    let n: u128 = data.len() as u128;
    proof {
        assert(0 <= (j as int) * (width as int) <= 0xffff_ffff_ffff_ffff_0000_0000)
            by (nonlinear_arith)
            requires
                0 <= j <= 0xffff_ffffu32 && 0 <= width <= 0xffff_ffffu32,
        ;
    }
    let base: u128 = ((j as u128) * (width as u128) + i as u128) * 4;
    proof {
        let b = base as int;
        let ln = n as int;
        assert(b < ln ==> b + 4 <= ln) by (nonlinear_arith)
            requires
                b == ((j as int) * (width as int) + i as int) * 4 && ln == (width as int) * (
                height as int) * 4,
        ;
    }
    if base < n {
        let idx = base as usize;
        data[idx] = color.r;
        data[idx + 1] = color.g;
        data[idx + 2] = color.b;
        data[idx + 3] = color.a;
    }
    Ok(())
}

} // verus!
