//! The corner unlikelihood scorer: how strongly a pixel is *not* a
//! checkerboard corner, lower meaning more corner-like.

use vstd::prelude::*;

verus! {

use crate::color::{
    BlackWhite, Color, bw_closer, bw_unlikelihood, lerp_color, get_black_white_closer,
    get_black_white_unlikelihood,
};
use crate::errors::{ImageError, Stage};
use crate::fixed::{
    SCALE, fmul, tdiv, tdiv_i128, fx_mul, lemma_fmul_bounds, lemma_tdiv_bounds,
    lemma_tdiv_nonneg, lemma_tdiv_ordered,
};
use crate::geometry::{Point, coord_ok, dist};
use crate::options::{ToleranceOptions, WeightageOptions};
use crate::sampler::{buffer_sized, ij, ij_spec, pixel_at};

/// Where the walk along a window side first flips away from its expected
/// starting color: the walk reads each pixel in turn, returns the first
/// whose classification differs from `start`, and gives up after
/// `remaining` further steps.
pub open spec fn transition_spec(
    data: Seq<u8>,
    start: BlackWhite,
    i: int,
    j: int,
    remaining: nat,
    w: int,
    h: int,
    down: bool,
) -> Result<(int, int), ImageError>
    decreases remaining,
{
    match ij_spec(data, i, j, w, h) {
        Err(e) => Err(e),
        Ok(c) => if bw_closer(c) != start {
            Ok((i, j))
        } else if remaining == 0 {
            Err(ImageError::TransitionNotFound)
        } else if down {
            transition_spec(data, start, i, j + 1, (remaining - 1) as nat, w, h, down)
        } else {
            transition_spec(data, start, i + 1, j, (remaining - 1) as nat, w, h, down)
        },
    }
}

/// Walk along one side of the detection window, down or to the right,
/// until a pixel flips from the side's expected starting color; that
/// pixel is the side's edge point.
pub fn get_black_white_transition(
    data: &Vec<u8>,
    start_color: BlackWhite,
    i: i64,
    j: i64,
    length: i64,
    width: u32,
    height: u32,
    down_not_right: bool,
) -> (r: Result<(i64, i64), ImageError>)
    requires
        buffer_sized(data@, width as int, height as int),
        0 <= length <= 100_000,
        -5_000_000_000 <= i <= 5_000_000_000,
        -5_000_000_000 <= j <= 5_000_000_000,
    ensures
        match r {
            Ok(p) => transition_spec(
                data@,
                start_color,
                i as int,
                j as int,
                length as nat,
                width as int,
                height as int,
                down_not_right,
            ) == Ok::<(int, int), ImageError>((p.0 as int, p.1 as int)) && 0 <= p.0 < width && 0
                <= p.1 < height && i <= p.0 <= i + length && j <= p.1 <= j + length,
            Err(e) => transition_spec(
                data@,
                start_color,
                i as int,
                j as int,
                length as nat,
                width as int,
                height as int,
                down_not_right,
            ) == Err::<(int, int), ImageError>(e),
        },
{
    let ghost full = transition_spec(
        data@,
        start_color,
        i as int,
        j as int,
        length as nat,
        width as int,
        height as int,
        down_not_right,
    );
    let end: i64 = length + 1;
    let mut step: i64 = 0;
    while step < end
        invariant
            0 <= step <= end,
            end == length + 1,
            0 <= length <= 100_000,
            -5_000_000_000 <= i <= 5_000_000_000,
            -5_000_000_000 <= j <= 5_000_000_000,
            buffer_sized(data@, width as int, height as int),
            full == transition_spec(
                data@,
                start_color,
                i as int,
                j as int,
                length as nat,
                width as int,
                height as int,
                down_not_right,
            ),
            step <= length ==> full == transition_spec(
                data@,
                start_color,
                if down_not_right {
                    i as int
                } else {
                    i + step
                },
                if down_not_right {
                    j + step
                } else {
                    j as int
                },
                (length - step) as nat,
                width as int,
                height as int,
                down_not_right,
            ),
            step == end ==> full == Err::<(int, int), ImageError>(ImageError::TransitionNotFound),
        decreases end - step,
    {
        let x: i64 = if down_not_right {
            i
        } else {
            i + step
        };
        let y: i64 = if down_not_right {
            j + step
        } else {
            j
        };
        let c = match ij(data, x, y, width, height) {
            Ok(c) => c,
            Err(e) => {
                return Err(e);
            },
        };
        if get_black_white_closer(c) != start_color {
            return Ok((x, y));
        }
        step = step + 1;
    }
    Err(ImageError::TransitionNotFound)
}

/// Where the line through `p1` and `p2` meets the line through `p3` and
/// `p4`, when the meeting point's parameter along the first segment lies
/// in `[0, 1]`; the points are given clockwise, so the segments are the
/// window's two diagonally opposed edge chords.
pub open spec fn intersection_spec(p1: Point, p3: Point, p2: Point, p4: Point) -> Result<
    Point,
    ImageError,
> {
    let a = (p1.x - p3.x) * (p3.y - p4.y) - (p1.y - p3.y) * (p3.x - p4.x);
    let b = (p1.x - p2.x) * (p3.y - p4.y) - (p1.y - p2.y) * (p3.x - p4.x);
    if b == 0 {
        Err(ImageError::IntersectionOutOfRange)
    } else {
        let t = tdiv(a * (SCALE as int), b);
        if 0 <= t <= SCALE as int {
            Ok(Point {
                x: (p1.x + fmul(t, p2.x - p1.x)) as i64,
                y: (p1.y + fmul(t, p2.y - p1.y)) as i64,
            })
        } else {
            Err(ImageError::IntersectionOutOfRange)
        }
    }
}

/// Intersect the two lines given by four points, specified clockwise, by
/// the standard two-segment line-intersection formula; an interpolation
/// parameter outside `[0, 1]` (a parallel pair of lines included) is
/// refused.
pub fn get_intersection(p1: Point, p3: Point, p2: Point, p4: Point) -> (r: Result<
    Point,
    ImageError,
>)
    requires
        coord_ok(p1.x as int),
        coord_ok(p1.y as int),
        coord_ok(p2.x as int),
        coord_ok(p2.y as int),
        coord_ok(p3.x as int),
        coord_ok(p3.y as int),
        coord_ok(p4.x as int),
        coord_ok(p4.y as int),
    ensures
        r == intersection_spec(p1, p3, p2, p4),
        r matches Ok(q) ==> (p1.x <= q.x <= p2.x || p2.x <= q.x <= p1.x) && (p1.y <= q.y <= p2.y
            || p2.y <= q.y <= p1.y),
{
    let dx13: i64 = p1.x - p3.x;
    let dy34: i64 = p3.y - p4.y;
    let dy13: i64 = p1.y - p3.y;
    let dx34: i64 = p3.x - p4.x;
    let dx12: i64 = p1.x - p2.x;
    let dy12: i64 = p1.y - p2.y;
    proof {
        assert(forall|u: int, v: int|
            -8_000_000_000_000_000 <= u <= 8_000_000_000_000_000 && -8_000_000_000_000_000 <= v
                <= 8_000_000_000_000_000 ==> -64_000_000_000_000_000_000_000_000_000_000 <= #[trigger] (
            u * v) <= 64_000_000_000_000_000_000_000_000_000_000) by (nonlinear_arith);
    }
    let a: i128 = (dx13 as i128) * (dy34 as i128) - (dy13 as i128) * (dx34 as i128);
    let b: i128 = (dx12 as i128) * (dy34 as i128) - (dy12 as i128) * (dx34 as i128);
    if b == 0 {
        return Err(ImageError::IntersectionOutOfRange);
    }
    proof {
        assert(-128_000_000_000_000_000_000_000_000_000_000_000_000 <= (a as int) * (
        SCALE as int) <= 128_000_000_000_000_000_000_000_000_000_000_000_000) by (nonlinear_arith)
            requires
                -128_000_000_000_000_000_000_000_000_000_000 <= a
                    <= 128_000_000_000_000_000_000_000_000_000_000,
        ;
    }
    let t128: i128 = tdiv_i128(a * (SCALE as i128), b);
    if t128 < 0 || t128 > SCALE as i128 {
        return Err(ImageError::IntersectionOutOfRange);
    }
    let t: i64 = t128 as i64;
    let ex: i64 = p2.x - p1.x;
    let ey: i64 = p2.y - p1.y;
    proof {
        lemma_fmul_bounds(
            t as int,
            ex as int,
            SCALE as int,
            8_000_000_000_000_000,
            8_000_000_000_000_000,
        );
        lemma_fmul_bounds(
            t as int,
            ey as int,
            SCALE as int,
            8_000_000_000_000_000,
            8_000_000_000_000_000,
        );
        lemma_partial_step(t as int, ex as int);
        lemma_partial_step(t as int, ey as int);
    }
    Ok(Point { x: p1.x + fx_mul(t, ex), y: p1.y + fx_mul(t, ey) })
}

/// A fixed-point fraction of a step never overshoots the step.
proof fn lemma_partial_step(t: int, e: int)
    requires
        0 <= t <= SCALE as int,
    ensures
        e >= 0 ==> 0 <= fmul(t, e) <= e,
        e < 0 ==> e <= fmul(t, e) <= 0,
{
    if e >= 0 {
        assert(0 <= t * e <= e * (SCALE as int)) by (nonlinear_arith)
            requires
                0 <= t <= SCALE as int && e >= 0,
        ;
        lemma_tdiv_nonneg(t * e, SCALE as int);
        lemma_tdiv_bounds(t * e, SCALE as int, e);
    } else {
        assert(-((-e) * (SCALE as int)) <= t * e <= 0) by (nonlinear_arith)
            requires
                0 <= t <= SCALE as int && e < 0,
        ;
        lemma_tdiv_bounds(t * e, SCALE as int, -e);
        lemma_tdiv_ordered(t * e, 0, SCALE as int);
    }
}

/// Opaque black, the fallback color of a failed corner blend.
pub open spec fn black_color() -> Color {
    Color { r: 0, g: 0, b: 0, a: 255 }
}

/// Blend two colors halfway, falling back to opaque black when either is
/// not fully opaque.
pub open spec fn blend_or_black(c1: Color, c2: Color) -> Color {
    if c1.a != 255 || c2.a != 255 {
        black_color()
    } else {
        lerp_color(c1, c2, (SCALE as int) / 2)
    }
}

/// Squared channel distance between two colors, ignoring alpha.
pub open spec fn sq_channel_dist(c1: Color, c2: Color) -> int {
    (c1.r - c2.r) * (c1.r - c2.r) + (c1.g - c2.g) * (c1.g - c2.g) + (c1.b - c2.b) * (c1.b - c2.b)
}

/// An integer grid point lifted to a fixed-point `Point`.
pub open spec fn point_of(t: (int, int)) -> Point {
    Point { x: (t.0 * (SCALE as int)) as i64, y: (t.1 * (SCALE as int)) as i64 }
}

/// Whether the region vote expects the pixel at `(x, y)` to be black:
/// four half-plane tests locate it relative to the rays from the window
/// center through the four edge points.
pub open spec fn vote_black(
    i: int,
    j: int,
    top: (int, int),
    right: (int, int),
    bottom: (int, int),
    left: (int, int),
    x: int,
    y: int,
) -> bool {
    let center_to_top = (top.0 - i) * (y - j) > (top.1 - j) * (x - i);
    let center_to_right = (right.0 - i) * (y - j) > (right.1 - j) * (x - i);
    let bottom_to_center = (i - bottom.0) * (y - bottom.1) > (j - bottom.1) * (x - bottom.0);
    let left_to_center = (i - left.0) * (y - left.1) > (j - left.1) * (x - left.0);
    center_to_top && left_to_center || !center_to_right && !bottom_to_center
}

/// One pixel's region-vote contribution: its unlikelihood against the
/// color the half-plane tests expect there.
pub open spec fn vote_pixel(
    data: Seq<u8>,
    w: int,
    i: int,
    j: int,
    top: (int, int),
    right: (int, int),
    bottom: (int, int),
    left: (int, int),
    x: int,
    y: int,
) -> int {
    let c = pixel_at(data, x, y, w);
    if vote_black(i, j, top, right, bottom, left, x, y) {
        bw_unlikelihood(c, BlackWhite::Black)
    } else {
        bw_unlikelihood(c, BlackWhite::White)
    }
}

/// Region-vote contributions of `rows` pixels down one column, starting
/// at `(x, y)`.
pub open spec fn vote_col_sum(
    data: Seq<u8>,
    w: int,
    i: int,
    j: int,
    top: (int, int),
    right: (int, int),
    bottom: (int, int),
    left: (int, int),
    x: int,
    y: int,
    rows: nat,
) -> int
    decreases rows,
{
    if rows == 0 {
        0
    } else {
        vote_pixel(data, w, i, j, top, right, bottom, left, x, y) + vote_col_sum(
            data,
            w,
            i,
            j,
            top,
            right,
            bottom,
            left,
            x,
            y + 1,
            (rows - 1) as nat,
        )
    }
}

/// Region-vote contributions of a `cols` by `rows` box of pixels whose
/// top-left pixel is `(x, y)`.
pub open spec fn vote_box_sum(
    data: Seq<u8>,
    w: int,
    i: int,
    j: int,
    top: (int, int),
    right: (int, int),
    bottom: (int, int),
    left: (int, int),
    x: int,
    cols: nat,
    y: int,
    rows: nat,
) -> int
    decreases cols,
{
    if cols == 0 {
        0
    } else {
        vote_col_sum(data, w, i, j, top, right, bottom, left, x, y, rows) + vote_box_sum(
            data,
            w,
            i,
            j,
            top,
            right,
            bottom,
            left,
            x + 1,
            (cols - 1) as nat,
            y,
            rows,
        )
    }
}

/// A column sum extends at its far end by one pixel.
proof fn lemma_vote_col_sum_snoc(
    data: Seq<u8>,
    w: int,
    i: int,
    j: int,
    top: (int, int),
    right: (int, int),
    bottom: (int, int),
    left: (int, int),
    x: int,
    y: int,
    rows: nat,
)
    ensures
        vote_col_sum(data, w, i, j, top, right, bottom, left, x, y, (rows + 1) as nat)
            == vote_col_sum(data, w, i, j, top, right, bottom, left, x, y, rows) + vote_pixel(
            data,
            w,
            i,
            j,
            top,
            right,
            bottom,
            left,
            x,
            y + rows,
        ),
    decreases rows,
{
    assert(vote_col_sum(data, w, i, j, top, right, bottom, left, x, y, (rows + 1) as nat)
        == vote_pixel(data, w, i, j, top, right, bottom, left, x, y) + vote_col_sum(
        data,
        w,
        i,
        j,
        top,
        right,
        bottom,
        left,
        x,
        y + 1,
        rows,
    ));
    if rows > 0 {
        lemma_vote_col_sum_snoc(
            data,
            w,
            i,
            j,
            top,
            right,
            bottom,
            left,
            x,
            y + 1,
            (rows - 1) as nat,
        );
        assert(vote_col_sum(data, w, i, j, top, right, bottom, left, x, y, rows) == vote_pixel(
            data,
            w,
            i,
            j,
            top,
            right,
            bottom,
            left,
            x,
            y,
        ) + vote_col_sum(data, w, i, j, top, right, bottom, left, x, y + 1, (rows - 1) as nat));
    } else {
        assert(vote_col_sum(data, w, i, j, top, right, bottom, left, x, y + 1, 0) == 0);
        assert(vote_col_sum(data, w, i, j, top, right, bottom, left, x, y, 0) == 0);
    }
}

/// A box sum extends at its far end by one column.
proof fn lemma_vote_box_sum_snoc(
    data: Seq<u8>,
    w: int,
    i: int,
    j: int,
    top: (int, int),
    right: (int, int),
    bottom: (int, int),
    left: (int, int),
    x: int,
    cols: nat,
    y: int,
    rows: nat,
)
    ensures
        vote_box_sum(data, w, i, j, top, right, bottom, left, x, (cols + 1) as nat, y, rows)
            == vote_box_sum(data, w, i, j, top, right, bottom, left, x, cols, y, rows)
            + vote_col_sum(data, w, i, j, top, right, bottom, left, x + cols, y, rows),
    decreases cols,
{
    assert(vote_box_sum(data, w, i, j, top, right, bottom, left, x, (cols + 1) as nat, y, rows)
        == vote_col_sum(data, w, i, j, top, right, bottom, left, x, y, rows) + vote_box_sum(
        data,
        w,
        i,
        j,
        top,
        right,
        bottom,
        left,
        x + 1,
        cols,
        y,
        rows,
    ));
    if cols > 0 {
        lemma_vote_box_sum_snoc(
            data,
            w,
            i,
            j,
            top,
            right,
            bottom,
            left,
            x + 1,
            (cols - 1) as nat,
            y,
            rows,
        );
        assert(vote_box_sum(data, w, i, j, top, right, bottom, left, x, cols, y, rows)
            == vote_col_sum(data, w, i, j, top, right, bottom, left, x, y, rows) + vote_box_sum(
            data,
            w,
            i,
            j,
            top,
            right,
            bottom,
            left,
            x + 1,
            (cols - 1) as nat,
            y,
            rows,
        ));
    } else {
        assert(vote_box_sum(data, w, i, j, top, right, bottom, left, x + 1, 0, y, rows) == 0);
        assert(vote_box_sum(data, w, i, j, top, right, bottom, left, x, 0, y, rows) == 0);
    }
}

/// Every column sum lies between zero and the per-pixel maximum times its
/// height.
proof fn lemma_vote_col_sum_bound(
    data: Seq<u8>,
    w: int,
    i: int,
    j: int,
    top: (int, int),
    right: (int, int),
    bottom: (int, int),
    left: (int, int),
    x: int,
    y: int,
    rows: nat,
)
    ensures
        0 <= vote_col_sum(data, w, i, j, top, right, bottom, left, x, y, rows) <= rows * (531
            * (SCALE as int)),
    decreases rows,
{
    if rows > 0 {
        crate::color::lemma_bw_unlikelihood_range(pixel_at(data, x, y, w), BlackWhite::Black);
        crate::color::lemma_bw_unlikelihood_range(pixel_at(data, x, y, w), BlackWhite::White);
        lemma_vote_col_sum_bound(
            data,
            w,
            i,
            j,
            top,
            right,
            bottom,
            left,
            x,
            y + 1,
            (rows - 1) as nat,
        );
    }
}

/// Every box sum lies between zero and the per-pixel maximum times its
/// area.
proof fn lemma_vote_box_sum_bound(
    data: Seq<u8>,
    w: int,
    i: int,
    j: int,
    top: (int, int),
    right: (int, int),
    bottom: (int, int),
    left: (int, int),
    x: int,
    cols: nat,
    y: int,
    rows: nat,
)
    ensures
        0 <= vote_box_sum(data, w, i, j, top, right, bottom, left, x, cols, y, rows) <= cols * (
        rows * (531 * (SCALE as int))),
    decreases cols,
{
    if cols > 0 {
        lemma_vote_col_sum_bound(data, w, i, j, top, right, bottom, left, x, y, rows);
        lemma_vote_box_sum_bound(
            data,
            w,
            i,
            j,
            top,
            right,
            bottom,
            left,
            x + 1,
            (cols - 1) as nat,
            y,
            rows,
        );
        assert((cols - 1) * (rows * (531 * (SCALE as int))) + rows * (531 * (SCALE as int))
            == cols * (rows * (531 * (SCALE as int)))) by (nonlinear_arith);
    }
}

/// What scoring one pixel returns: each of the five stages either rejects
/// with its tolerance's error or contributes its weighted term to the
/// final unlikelihood, in the order greyness, polarity, edge transitions,
/// intersection, region vote.
pub open spec fn corner_unlikelihood_spec(
    data: Seq<u8>,
    i: int,
    j: int,
    w: int,
    h: int,
    range: int,
    tol: ToleranceOptions,
    wt: WeightageOptions,
) -> Result<int, ImageError> {
    let im = i - range;
    let jm = j - range;
    let ip = i + range;
    let jp = j + range;
    match ij_spec(data, im, jm, w, h) {
        Err(e) => Err(e),
        Ok(c0) => match ij_spec(data, im, jp, w, h) {
            Err(e) => Err(e),
            Ok(c1) => match ij_spec(data, ip, jm, w, h) {
                Err(e) => Err(e),
                Ok(c2) => match ij_spec(data, ip, jp, w, h) {
                    Err(e) => Err(e),
                    Ok(c3) => match ij_spec(data, i, j, w, h) {
                        Err(e) => Err(e),
                        Ok(ctr) => corner_unlikelihood_stages(
                            data,
                            i,
                            j,
                            w,
                            h,
                            range,
                            tol,
                            wt,
                            c0,
                            c1,
                            c2,
                            c3,
                            ctr,
                        ),
                    },
                },
            },
        },
    }
}

/// The scorer's stages past the five corner reads.
#[verifier::opaque]
pub open spec fn corner_unlikelihood_stages(
    data: Seq<u8>,
    i: int,
    j: int,
    w: int,
    h: int,
    range: int,
    tol: ToleranceOptions,
    wt: WeightageOptions,
    c0: Color,
    c1: Color,
    c2: Color,
    c3: Color,
    ctr: Color,
) -> Result<int, ImageError> {
    let im = i - range;
    let jm = j - range;
    let ip = i + range;
    let jp = j + range;
    let avg = blend_or_black(blend_or_black(c0, c1), blend_or_black(c2, c3));
    let err = sq_channel_dist(avg, ctr) * (SCALE as int);
    if err > tol.center_dist {
        Err(ImageError::ToleranceExceeded(Stage::CenterDist))
    } else {
        let u0 = bw_unlikelihood(c0, BlackWhite::Black);
        let u1 = bw_unlikelihood(c1, BlackWhite::White);
        let u2 = bw_unlikelihood(c2, BlackWhite::White);
        let u3 = bw_unlikelihood(c3, BlackWhite::Black);
        if u0 > tol.black_dist {
            Err(ImageError::ToleranceExceeded(Stage::BlackDist))
        } else if u1 > tol.white_dist {
            Err(ImageError::ToleranceExceeded(Stage::WhiteDist))
        } else if u2 > tol.white_dist {
            Err(ImageError::ToleranceExceeded(Stage::WhiteDist))
        } else if u3 > tol.black_dist {
            Err(ImageError::ToleranceExceeded(Stage::BlackDist))
        } else {
            let len = (2 * range + 1) as nat;
            match transition_spec(data, BlackWhite::Black, im, jm, len, w, h, false) {
                Err(e) => Err(e),
                Ok(top) => match transition_spec(data, BlackWhite::Black, im, jm, len, w, h, true) {
                    Err(e) => Err(e),
                    Ok(left) => match transition_spec(
                        data,
                        BlackWhite::White,
                        ip,
                        jm,
                        len,
                        w,
                        h,
                        true,
                    ) {
                        Err(e) => Err(e),
                        Ok(right) => match transition_spec(
                            data,
                            BlackWhite::White,
                            im,
                            jp,
                            len,
                            w,
                            h,
                            false,
                        ) {
                            Err(e) => Err(e),
                            Ok(bottom) => match intersection_spec(
                                point_of(top),
                                point_of(right),
                                point_of(bottom),
                                point_of(left),
                            ) {
                                Err(e) => Err(e),
                                Ok(q) => {
                                    let distance = tdiv(
                                        dist(q, point_of(top)) + dist(q, point_of(right)) + dist(
                                            q,
                                            point_of(left),
                                        ) + dist(q, point_of(bottom)),
                                        4,
                                    );
                                    if distance > tol.intersect_dist {
                                        Err(ImageError::ToleranceExceeded(Stage::IntersectDist))
                                    } else {
                                        let bsum = vote_box_sum(
                                            data,
                                            w,
                                            i,
                                            j,
                                            top,
                                            right,
                                            bottom,
                                            left,
                                            im,
                                            (2 * range + 1) as nat,
                                            jm,
                                            (2 * range + 1) as nat,
                                        );
                                        let savg = tdiv(bsum, (ip - im) * (jp - jm));
                                        if savg > tol.avg {
                                            Err(ImageError::ToleranceExceeded(Stage::Avg))
                                        } else {
                                            Ok(
                                                fmul(err, wt.center_dist as int) + tdiv(
                                                    fmul(u0 + u3, wt.black_dist as int) + fmul(
                                                        u1 + u2,
                                                        wt.white_dist as int,
                                                    ),
                                                    4,
                                                ) + fmul(distance, wt.intersect_dist as int)
                                                    + fmul(savg, wt.avg as int),
                                            )
                                        }
                                    }
                                },
                            },
                        },
                    },
                },
            }
        }
    }
}

/// Blending a fully opaque color with itself changes nothing.
proof fn lemma_blend_or_black_self(c: Color)
    requires
        c.a == 255,
    ensures
        blend_or_black(c, c) == c,
{
    let s = SCALE as int;
    let t = s / 2;
    assert((c.r as int) * (s - t) + (c.r as int) * t == (c.r as int) * s) by (nonlinear_arith);
    assert((c.g as int) * (s - t) + (c.g as int) * t == (c.g as int) * s) by (nonlinear_arith);
    assert((c.b as int) * (s - t) + (c.b as int) * t == (c.b as int) * s) by (nonlinear_arith);
    assert((c.a as int) * (s - t) + (c.a as int) * t == (c.a as int) * s) by (nonlinear_arith);
    crate::fixed::lemma_tdiv_mul_cancel(c.r as int, s);
    crate::fixed::lemma_tdiv_mul_cancel(c.g as int, s);
    crate::fixed::lemma_tdiv_mul_cancel(c.b as int, s);
    crate::fixed::lemma_tdiv_mul_cancel(c.a as int, s);
}

/// Scoring a window of one uniform, fully opaque color always fails at
/// the polarity check, as long as the black and white tolerances are
/// meaningful (below 220, in fixed point): no color is close enough to
/// black and to white at once.  The greyness stage passes first, since
/// the blended corner colors equal the center exactly.
pub proof fn lemma_uniform_window_fails_polarity(
    data: Seq<u8>,
    i: int,
    j: int,
    w: int,
    h: int,
    range: int,
    tol: ToleranceOptions,
    wt: WeightageOptions,
)
    requires
        0 <= range,
        0 <= i - range,
        i + range < w,
        0 <= j - range,
        j + range < h,
        ({
            let c = pixel_at(data, i - range, j - range, w);
            &&& c.a == 255
            &&& pixel_at(data, i - range, j + range, w) == c
            &&& pixel_at(data, i + range, j - range, w) == c
            &&& pixel_at(data, i + range, j + range, w) == c
            &&& pixel_at(data, i, j, w) == c
        }),
        tol.center_dist >= 0,
        tol.black_dist < 220 * (SCALE as int),
        tol.white_dist < 220 * (SCALE as int),
    ensures
        ({
            let c = pixel_at(data, i - range, j - range, w);
            corner_unlikelihood_spec(data, i, j, w, h, range, tol, wt) == (
            if bw_unlikelihood(c, BlackWhite::Black) > tol.black_dist {
                Err::<int, ImageError>(ImageError::ToleranceExceeded(Stage::BlackDist))
            } else {
                Err::<int, ImageError>(ImageError::ToleranceExceeded(Stage::WhiteDist))
            })
        }),
{
    reveal(corner_unlikelihood_spec);
    reveal(corner_unlikelihood_stages);
    let c = pixel_at(data, i - range, j - range, w);
    assert(ij_spec(data, i - range, j - range, w, h) == Ok::<Color, ImageError>(c));
    assert(ij_spec(data, i - range, j + range, w, h) == Ok::<Color, ImageError>(c));
    assert(ij_spec(data, i + range, j - range, w, h) == Ok::<Color, ImageError>(c));
    assert(ij_spec(data, i + range, j + range, w, h) == Ok::<Color, ImageError>(c));
    assert(ij_spec(data, i, j, w, h) == Ok::<Color, ImageError>(c));
    lemma_blend_or_black_self(c);
    assert(sq_channel_dist(c, c) == 0);
    crate::color::lemma_bw_unlikelihood_split(c);
    if !(bw_unlikelihood(c, BlackWhite::Black) > tol.black_dist) {
        assert(bw_unlikelihood(c, BlackWhite::Black) < 220 * (SCALE as int));
        assert(bw_unlikelihood(c, BlackWhite::White) > tol.white_dist);
    }
}

/// Blend two colors halfway, or fall back to opaque black when either is
/// not fully opaque.
fn blend_half(c1: &Color, c2: &Color) -> (r: Color)
    ensures
        r == blend_or_black(*c1, *c2),
{
    match c1.interpolate(c2, 500_000) {
        Ok(c) => c,
        Err(_) => Color { r: 0, g: 0, b: 0, a: 255 },
    }
}

/// Score how strongly the pixel at `(i, j)` is *not* a checkerboard
/// corner, over the window of half-size `range` around it.  Five stages
/// run in turn - greyness of the center, polarity of the window corners,
/// edge transitions along the window sides, the edge lines' intersection,
/// and a region vote over the whole window - and any stage past its
/// tolerance rejects the pixel with the matching error.
#[verifier::loop_isolation(false)]
#[verifier::rlimit(60)]
pub fn get_corner_unlikelihood(
    data: &Vec<u8>,
    i: u32,
    j: u32,
    width: u32,
    height: u32,
    range: u32,
    options: &ToleranceOptions,
    weightings: &WeightageOptions,
) -> (r: Result<i64, ImageError>)
    requires
        buffer_sized(data@, width as int, height as int),
        width <= 4_000_000_000,
        height <= 4_000_000_000,
        1 <= range <= 46_000,
        weightings.valid(),
    ensures
        match r {
            Ok(v) => corner_unlikelihood_spec(
                data@,
                i as int,
                j as int,
                width as int,
                height as int,
                range as int,
                *options,
                *weightings,
            ) == Ok::<int, ImageError>(v as int),
            Err(e) => corner_unlikelihood_spec(
                data@,
                i as int,
                j as int,
                width as int,
                height as int,
                range as int,
                *options,
                *weightings,
            ) == Err::<int, ImageError>(e),
        },
{
    proof {
        reveal(corner_unlikelihood_spec);
        reveal(corner_unlikelihood_stages);
    }
    let ii: i64 = i as i64;
    let jj: i64 = j as i64;
    let rr: i64 = range as i64;
    let im: i64 = ii - rr;
    let jm: i64 = jj - rr;
    let ip: i64 = ii + rr;
    let jp: i64 = jj + rr;
    let c0 = match ij(data, im, jm, width, height) {
        Ok(c) => c,
        Err(e) => {
            return Err(e);
        },
    };
    let c1 = match ij(data, im, jp, width, height) {
        Ok(c) => c,
        Err(e) => {
            return Err(e);
        },
    };
    let c2 = match ij(data, ip, jm, width, height) {
        Ok(c) => c,
        Err(e) => {
            return Err(e);
        },
    };
    let c3 = match ij(data, ip, jp, width, height) {
        Ok(c) => c,
        Err(e) => {
            return Err(e);
        },
    };
    let ctr = match ij(data, ii, jj, width, height) {
        Ok(c) => c,
        Err(e) => {
            return Err(e);
        },
    };
    proof {
        assert(0 <= im && ip < width && 0 <= jm && jp < height);
    }
    // Greyness: the center should sit between the corner colors.
    let avg = blend_half(&blend_half(&c0, &c1), &blend_half(&c2, &c3));
    let dr: i64 = avg.r as i64 - ctr.r as i64;
    let dg: i64 = avg.g as i64 - ctr.g as i64;
    let db: i64 = avg.b as i64 - ctr.b as i64;
    proof {
        assert(0 <= dr * dr <= 65_025 && 0 <= dg * dg <= 65_025 && 0 <= db * db <= 65_025)
            by (nonlinear_arith)
            requires
                -255 <= dr <= 255 && -255 <= dg <= 255 && -255 <= db <= 255,
        ;
    }
    let errv: i64 = (dr * dr + dg * dg + db * db) * SCALE;
    if errv > options.center_dist {
        return Err(ImageError::ToleranceExceeded(Stage::CenterDist));
    }
    // Polarity: the corners should alternate black and white clockwise.
    let u0 = get_black_white_unlikelihood(&c0, BlackWhite::Black);
    let u1 = get_black_white_unlikelihood(&c1, BlackWhite::White);
    let u2 = get_black_white_unlikelihood(&c2, BlackWhite::White);
    let u3 = get_black_white_unlikelihood(&c3, BlackWhite::Black);
    if u0 > options.black_dist {
        return Err(ImageError::ToleranceExceeded(Stage::BlackDist));
    }
    if u1 > options.white_dist {
        return Err(ImageError::ToleranceExceeded(Stage::WhiteDist));
    }
    if u2 > options.white_dist {
        return Err(ImageError::ToleranceExceeded(Stage::WhiteDist));
    }
    if u3 > options.black_dist {
        return Err(ImageError::ToleranceExceeded(Stage::BlackDist));
    }
    // Edge transitions along the four window sides.
    let length: i64 = 2 * rr + 1;
    let top = match get_black_white_transition(
        data,
        BlackWhite::Black,
        im,
        jm,
        length,
        width,
        height,
        false,
    ) {
        Ok(t) => t,
        Err(e) => {
            return Err(e);
        },
    };
    let left = match get_black_white_transition(
        data,
        BlackWhite::Black,
        im,
        jm,
        length,
        width,
        height,
        true,
    ) {
        Ok(t) => t,
        Err(e) => {
            return Err(e);
        },
    };
    let right = match get_black_white_transition(
        data,
        BlackWhite::White,
        ip,
        jm,
        length,
        width,
        height,
        true,
    ) {
        Ok(t) => t,
        Err(e) => {
            return Err(e);
        },
    };
    let bottom = match get_black_white_transition(
        data,
        BlackWhite::White,
        im,
        jp,
        length,
        width,
        height,
        false,
    ) {
        Ok(t) => t,
        Err(e) => {
            return Err(e);
        },
    };
    let ghost gtop = (top.0 as int, top.1 as int);
    let ghost gleft = (left.0 as int, left.1 as int);
    let ghost gright = (right.0 as int, right.1 as int);
    let ghost gbottom = (bottom.0 as int, bottom.1 as int);
    // Intersection of the two edge chords.
    let top_pt = Point::from_ints(&top);
    let left_pt = Point::from_ints(&left);
    let right_pt = Point::from_ints(&right);
    let bottom_pt = Point::from_ints(&bottom);
    proof {
        assert(top_pt == point_of(gtop));
        assert(left_pt == point_of(gleft));
        assert(right_pt == point_of(gright));
        assert(bottom_pt == point_of(gbottom));
    }
    let q = match get_intersection(top_pt, right_pt, bottom_pt, left_pt) {
        Ok(q) => q,
        Err(e) => {
            return Err(e);
        },
    };
    let d_top = q.distance(&top_pt);
    let d_right = q.distance(&right_pt);
    let d_left = q.distance(&left_pt);
    let d_bottom = q.distance(&bottom_pt);
    let dsum: i64 = d_top + d_right + d_left + d_bottom;
    proof {
        lemma_tdiv_nonneg(dsum as int, 4);
    }
    let distance: i64 = ((dsum as u64) / 4u64) as i64;
    if distance > options.intersect_dist {
        return Err(ImageError::ToleranceExceeded(Stage::IntersectDist));
    }
    // Region vote: every window pixel against the color expected for it.
    let ghost rows = (2 * rr + 1) as nat;
    let mut sum: i64 = 0;
    let mut x: i64 = im;
    while x <= ip
        invariant
            im <= x <= ip + 1,
            sum == vote_box_sum(
                data@,
                width as int,
                ii as int,
                jj as int,
                gtop,
                gright,
                gbottom,
                gleft,
                im as int,
                (x - im) as nat,
                jm as int,
                rows,
            ),
        decreases ip + 1 - x,
    {
        let mut colsum: i64 = 0;
        let mut y: i64 = jm;
        while y <= jp
            invariant
                im <= x <= ip,
                jm <= y <= jp + 1,
                colsum == vote_col_sum(
                    data@,
                    width as int,
                    ii as int,
                    jj as int,
                    gtop,
                    gright,
                    gbottom,
                    gleft,
                    x as int,
                    jm as int,
                    (y - jm) as nat,
                ),
            decreases jp + 1 - y,
        {
            let c = match ij(data, x, y, width, height) {
                Ok(c) => c,
                Err(e) => {
                    return Err(e);
                },
            };
            proof {
                assert(forall|u: int, v: int|
                    -200_000 <= u <= 200_000 && -200_000 <= v <= 200_000
                        ==> -40_000_000_000 <= #[trigger] (u * v) <= 40_000_000_000)
                    by (nonlinear_arith);
            }
            let ct = (top.0 - ii) * (y - jj) > (top.1 - jj) * (x - ii);
            let cr = (right.0 - ii) * (y - jj) > (right.1 - jj) * (x - ii);
            let bc = (ii - bottom.0) * (y - bottom.1) > (jj - bottom.1) * (x - bottom.0);
            let lc = (ii - left.0) * (y - left.1) > (jj - left.1) * (x - left.0);
            let u = if ct && lc || !cr && !bc {
                get_black_white_unlikelihood(&c, BlackWhite::Black)
            } else {
                get_black_white_unlikelihood(&c, BlackWhite::White)
            };
            proof {
                assert(u == vote_pixel(
                    data@,
                    width as int,
                    ii as int,
                    jj as int,
                    gtop,
                    gright,
                    gbottom,
                    gleft,
                    x as int,
                    y as int,
                ));
                lemma_vote_col_sum_snoc(
                    data@,
                    width as int,
                    ii as int,
                    jj as int,
                    gtop,
                    gright,
                    gbottom,
                    gleft,
                    x as int,
                    jm as int,
                    (y - jm) as nat,
                );
                lemma_vote_col_sum_bound(
                    data@,
                    width as int,
                    ii as int,
                    jj as int,
                    gtop,
                    gright,
                    gbottom,
                    gleft,
                    x as int,
                    jm as int,
                    (y - jm) as nat,
                );
                assert((y - jm) * (531 * (SCALE as int)) + 531 * (SCALE as int)
                    <= 92_001 * (531 * (SCALE as int))) by (nonlinear_arith)
                    requires
                        0 <= y - jm <= 92_000,
                ;
            }
            colsum = colsum + u;
            y = y + 1;
        }
        proof {
            lemma_vote_box_sum_snoc(
                data@,
                width as int,
                ii as int,
                jj as int,
                gtop,
                gright,
                gbottom,
                gleft,
                im as int,
                (x - im) as nat,
                jm as int,
                rows,
            );
            lemma_vote_box_sum_bound(
                data@,
                width as int,
                ii as int,
                jj as int,
                gtop,
                gright,
                gbottom,
                gleft,
                im as int,
                (x - im) as nat,
                jm as int,
                rows,
            );
            lemma_vote_col_sum_bound(
                data@,
                width as int,
                ii as int,
                jj as int,
                gtop,
                gright,
                gbottom,
                gleft,
                x as int,
                jm as int,
                rows,
            );
            assert((x - im) * (rows * (531 * (SCALE as int))) + rows * (531 * (SCALE as int))
                <= 92_001 * (92_001 * (531 * (SCALE as int)))) by (nonlinear_arith)
                requires
                    0 <= x - im <= 92_000 && rows <= 92_001,
            ;
        }
        sum = sum + colsum;
        x = x + 1;
    }
    proof {
        assert(4 <= (ip as int - im as int) * (jp as int - jm as int) <= 8_464_000_000)
            by (nonlinear_arith)
            requires
                2 <= ip as int - im as int <= 92_000 && ip as int - im as int == jp as int
                    - jm as int,
        ;
    }
    let area: i64 = (ip - im) * (jp - jm);
    proof {
        lemma_vote_box_sum_bound(
            data@,
            width as int,
            ii as int,
            jj as int,
            gtop,
            gright,
            gbottom,
            gleft,
            im as int,
            rows,
            jm as int,
            rows,
        );
        assert(rows * (rows * (531 * (SCALE as int))) <= 1_195 * (SCALE as int) * ((ip as int
            - im as int) * (jp as int - jm as int))) by (nonlinear_arith)
            requires
                rows == 2 * (rr as int) + 1 && 1 <= rr as int <= 46_000 && ip as int - im as int
                    == 2 * (rr as int) && jp as int - jm as int == 2 * (rr as int),
        ;
        lemma_tdiv_nonneg(sum as int, area as int);
        lemma_tdiv_bounds(sum as int, area as int, 1_195 * (SCALE as int));
    }
    let savg: i64 = ((sum as u64) / (area as u64)) as i64;
    if savg > options.avg {
        return Err(ImageError::ToleranceExceeded(Stage::Avg));
    }
    // The weighted sum of the four contributing stages.
    proof {
        lemma_fmul_bounds(
            errv as int,
            weightings.center_dist as int,
            195_075_000_000,
            SCALE as int,
            195_075_000_000,
        );
        crate::fixed::lemma_fmul_nonneg(errv as int, weightings.center_dist as int);
        lemma_fmul_bounds(
            (u0 + u3) as int,
            weightings.black_dist as int,
            1_062 * (SCALE as int),
            SCALE as int,
            1_062 * (SCALE as int),
        );
        crate::fixed::lemma_fmul_nonneg((u0 + u3) as int, weightings.black_dist as int);
        lemma_fmul_bounds(
            (u1 + u2) as int,
            weightings.white_dist as int,
            1_062 * (SCALE as int),
            SCALE as int,
            1_062 * (SCALE as int),
        );
        crate::fixed::lemma_fmul_nonneg((u1 + u2) as int, weightings.white_dist as int);
        lemma_fmul_bounds(
            distance as int,
            weightings.intersect_dist as int,
            12_000_000_000_000_000,
            SCALE as int,
            12_000_000_000_000_000,
        );
        crate::fixed::lemma_fmul_nonneg(distance as int, weightings.intersect_dist as int);
        lemma_fmul_bounds(
            savg as int,
            weightings.avg as int,
            1_195 * (SCALE as int),
            SCALE as int,
            1_195 * (SCALE as int),
        );
        crate::fixed::lemma_fmul_nonneg(savg as int, weightings.avg as int);
    }
    let t_center = fx_mul(errv, weightings.center_dist);
    let t_black = fx_mul(u0 + u3, weightings.black_dist);
    let t_white = fx_mul(u1 + u2, weightings.white_dist);
    proof {
        lemma_tdiv_nonneg((t_black + t_white) as int, 4);
    }
    let t_polarity: i64 = (((t_black + t_white) as u64) / 4u64) as i64;
    let t_intersect = fx_mul(distance, weightings.intersect_dist);
    let t_avg = fx_mul(savg, weightings.avg);
    Ok(t_center + t_polarity + t_intersect + t_avg)
}

} // verus!
