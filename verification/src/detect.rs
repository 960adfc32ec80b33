//! The full-image corner scan: every pixel is scored, the best few are
//! kept in a bounded candidate list, and nearby candidates are condensed
//! into final corners.  A diagnostic variant renders the scores as a
//! greyscale map instead.

use vstd::prelude::*;

verus! {

use vstd::arithmetic::div_mod::{
    lemma_fundamental_div_mod_converse_div,
    lemma_fundamental_div_mod_converse_mod,
};
use crate::color::Color;
use crate::condense::{clusters_of, condense_corners, sort_desc};
use crate::fixed::{SCALE, tdiv, lemma_tdiv_bounds, lemma_tdiv_nonneg};
use crate::geometry::Point;
use crate::options::{OverallOptions, ToleranceOptions, WeightageOptions};
use crate::remap::lemma_pixel_bytes_disjoint;
use crate::sampler::{buffer_sized, pixel_at, set_color};
use crate::scorer::{corner_unlikelihood_spec, get_corner_unlikelihood, point_of};

/// The score a pixel enters the scan with: its corner unlikelihood, or
/// the largest representable score where the scorer rejected it.
pub open spec fn score_of(
    data: Seq<u8>,
    w: int,
    h: int,
    range: int,
    tol: ToleranceOptions,
    wt: WeightageOptions,
    i: int,
    j: int,
) -> int {
    match corner_unlikelihood_spec(data, i, j, w, h, range, tol, wt) {
        Ok(v) => v,
        Err(_) => i64::MAX as int,
    }
}

/// The candidate list before any pixel was scanned: every slot unfilled,
/// at the worst possible score and the sentinel point.
pub open spec fn init_candidates(pre: nat) -> Seq<(i64, Point)> {
    Seq::new(pre, |k: int| (i64::MAX, Point { x: 0, y: 0 }))
}

/// Insert a candidate into a score-ascending list: it goes before the
/// first strictly larger score, hence after any candidate of equal
/// score.
pub open spec fn asc_insert(s: Seq<(i64, Point)>, c: (i64, Point)) -> Seq<(i64, Point)>
    decreases s.len(),
{
    if s.len() == 0 {
        seq![c]
    } else if c.0 < s[0].0 {
        seq![c] + s
    } else {
        seq![s[0]] + asc_insert(s.drop_first(), c)
    }
}

/// One scan step: a new score enters the fixed-size list only if it
/// beats the current worst (last) entry, which it replaces, the list
/// staying sorted.
pub open spec fn insert_candidate_spec(list: Seq<(i64, Point)>, score: i64, p: Point) -> Seq<
    (i64, Point),
> {
    if list.len() == 0 {
        list
    } else if score < list.last().0 {
        asc_insert(list.drop_last(), (score, p))
    } else {
        list
    }
}

/// Scores never decrease along the candidate list: best first, worst
/// last.
pub open spec fn sorted_asc(s: Seq<(i64, Point)>) -> bool {
    forall|a: int, b: int| 0 <= a <= b < s.len() ==> (#[trigger] s[a]).0 <= (#[trigger] s[b]).0
}

/// The candidate list after the first `n` pixels, scanned column by
/// column down each row of x positions: pixel `n - 1` is at column
/// `(n - 1) / h`, row `(n - 1) % h`.
pub open spec fn scan_spec(
    data: Seq<u8>,
    w: int,
    h: int,
    range: int,
    tol: ToleranceOptions,
    wt: WeightageOptions,
    pre: nat,
    n: nat,
) -> Seq<(i64, Point)>
    decreases n,
{
    if n == 0 {
        init_candidates(pre)
    } else {
        let prev = scan_spec(data, w, h, range, tol, wt, pre, (n - 1) as nat);
        let i = ((n - 1) as int) / h;
        let j = ((n - 1) as int) % h;
        insert_candidate_spec(
            prev,
            score_of(data, w, h, range, tol, wt, i, j) as i64,
            point_of((i, j)),
        )
    }
}

/// `asc_insert` places the new candidate exactly at the first position
/// whose score is strictly larger.
proof fn lemma_asc_insert_at(s: Seq<(i64, Point)>, c: (i64, Point), pos: int)
    requires
        0 <= pos <= s.len(),
        forall|m: int| 0 <= m < pos ==> (#[trigger] s[m]).0 <= c.0,
        pos < s.len() ==> c.0 < s[pos].0,
    ensures
        asc_insert(s, c) == s.subrange(0, pos) + seq![c] + s.subrange(pos, s.len() as int),
    decreases pos,
{
    if pos == 0 {
        assert(asc_insert(s, c) =~= s.subrange(0, 0) + seq![c] + s.subrange(0, s.len() as int));
    } else {
        lemma_asc_insert_at(s.drop_first(), c, pos - 1);
        assert(asc_insert(s, c) =~= s.subrange(0, pos) + seq![c] + s.subrange(
            pos,
            s.len() as int,
        ));
    }
}

/// Every candidate's point lies in the image quadrant the scan covers.
pub open spec fn candidate_coords_ok(s: Seq<(i64, Point)>) -> bool {
    forall|k: int|
        0 <= k < s.len() ==> 0 <= (#[trigger] s[k]).1.x <= 4_000_000_000_000_000 && 0
            <= s[k].1.y <= 4_000_000_000_000_000
}

/// Insertion keeps candidate points within the scanned quadrant.
proof fn lemma_asc_insert_coords(s: Seq<(i64, Point)>, c: (i64, Point))
    requires
        candidate_coords_ok(s),
        0 <= c.1.x <= 4_000_000_000_000_000,
        0 <= c.1.y <= 4_000_000_000_000_000,
    ensures
        candidate_coords_ok(asc_insert(s, c)),
    decreases s.len(),
{
    lemma_asc_insert_len(s, c);
    if s.len() == 0 {
    } else if c.0 < s[0].0 {
        assert forall|m: int|
            0 <= m < asc_insert(s, c).len() implies 0 <= (#[trigger] asc_insert(s, c)[m]).1.x
            <= 4_000_000_000_000_000 && 0 <= asc_insert(s, c)[m].1.y
            <= 4_000_000_000_000_000 by {
            if m > 0 {
                assert(asc_insert(s, c)[m] == s[m - 1]);
            }
        }
    } else {
        assert(candidate_coords_ok(s.drop_first()));
        lemma_asc_insert_coords(s.drop_first(), c);
        lemma_asc_insert_len(s.drop_first(), c);
        assert forall|m: int|
            0 <= m < asc_insert(s, c).len() implies 0 <= (#[trigger] asc_insert(s, c)[m]).1.x
            <= 4_000_000_000_000_000 && 0 <= asc_insert(s, c)[m].1.y
            <= 4_000_000_000_000_000 by {
            if m > 0 {
                assert(asc_insert(s, c)[m] == asc_insert(s.drop_first(), c)[m - 1]);
            }
        }
    }
}

/// A scan step keeps candidate points within the scanned quadrant.
proof fn lemma_insert_candidate_coords(list: Seq<(i64, Point)>, score: i64, p: Point)
    requires
        candidate_coords_ok(list),
        0 <= p.x <= 4_000_000_000_000_000,
        0 <= p.y <= 4_000_000_000_000_000,
    ensures
        candidate_coords_ok(insert_candidate_spec(list, score, p)),
{
    if list.len() > 0 && score < list.last().0 {
        assert(candidate_coords_ok(list.drop_last()));
        lemma_asc_insert_coords(list.drop_last(), (score, p));
    }
}

/// Inserting adds exactly one candidate.
proof fn lemma_asc_insert_len(s: Seq<(i64, Point)>, c: (i64, Point))
    ensures
        asc_insert(s, c).len() == s.len() + 1,
    decreases s.len(),
{
    if s.len() > 0 && !(c.0 < s[0].0) {
        lemma_asc_insert_len(s.drop_first(), c);
    }
}

/// If a score bounds a list and the inserted candidate from above, it
/// bounds the result of the insertion.
proof fn lemma_asc_insert_head_bound(s: Seq<(i64, Point)>, c: (i64, Point), bound: i64)
    requires
        forall|m: int| 0 <= m < s.len() ==> bound <= (#[trigger] s[m]).0,
        bound <= c.0,
    ensures
        forall|m: int|
            0 <= m < asc_insert(s, c).len() ==> bound <= (#[trigger] asc_insert(s, c)[m]).0,
    decreases s.len(),
{
    lemma_asc_insert_len(s, c);
    if s.len() == 0 {
    } else if c.0 < s[0].0 {
    } else {
        assert(forall|m: int|
            0 <= m < s.drop_first().len() ==> bound <= (#[trigger] s.drop_first()[m]).0);
        lemma_asc_insert_head_bound(s.drop_first(), c, bound);
        lemma_asc_insert_len(s.drop_first(), c);
        assert forall|m: int|
            0 <= m < asc_insert(s, c).len() implies bound <= (#[trigger] asc_insert(s, c)[m]).0 by {
            if m > 0 {
                assert(asc_insert(s, c)[m] == asc_insert(s.drop_first(), c)[m - 1]);
            }
        }
    }
}

/// Inserting into a score-ascending list keeps it score-ascending.
proof fn lemma_asc_insert_sorted(s: Seq<(i64, Point)>, c: (i64, Point))
    requires
        sorted_asc(s),
    ensures
        sorted_asc(asc_insert(s, c)),
    decreases s.len(),
{
    lemma_asc_insert_len(s, c);
    if s.len() == 0 {
    } else if c.0 < s[0].0 {
        assert forall|a: int, b: int|
            0 <= a <= b < asc_insert(s, c).len() implies (#[trigger] asc_insert(s, c)[a]).0
            <= (#[trigger] asc_insert(s, c)[b]).0 by {
            if a > 0 {
                assert(asc_insert(s, c)[a] == s[a - 1]);
            }
            if b > 0 {
                assert(asc_insert(s, c)[b] == s[b - 1]);
            }
        }
    } else {
        assert(sorted_asc(s.drop_first()));
        lemma_asc_insert_sorted(s.drop_first(), c);
        lemma_asc_insert_len(s.drop_first(), c);
        let t = asc_insert(s.drop_first(), c);
        assert forall|a: int, b: int|
            0 <= a <= b < asc_insert(s, c).len() implies (#[trigger] asc_insert(s, c)[a]).0
            <= (#[trigger] asc_insert(s, c)[b]).0 by {
            if a > 0 {
                assert(asc_insert(s, c)[a] == t[a - 1]);
            }
            if b > 0 {
                assert(asc_insert(s, c)[b] == t[b - 1]);
            }
            if a == 0 && b > 0 {
                lemma_asc_insert_head_bound(s.drop_first(), c, s[0].0);
            }
        }
    }
}

/// One scan step keeps the candidate list sorted ascending and keeps its
/// length: the list never exceeds its fixed size.
pub proof fn lemma_insert_candidate_sorted(list: Seq<(i64, Point)>, score: i64, p: Point)
    requires
        sorted_asc(list),
    ensures
        sorted_asc(insert_candidate_spec(list, score, p)),
        insert_candidate_spec(list, score, p).len() == list.len(),
{
    if list.len() > 0 && score < list.last().0 {
        assert(sorted_asc(list.drop_last()));
        lemma_asc_insert_sorted(list.drop_last(), (score, p));
        lemma_asc_insert_len(list.drop_last(), (score, p));
    }
}

/// A score at least as bad as the current worst leaves the candidate
/// list unchanged.
pub proof fn lemma_insert_candidate_worse(list: Seq<(i64, Point)>, score: i64, p: Point)
    requires
        list.len() > 0,
        score >= list.last().0,
    ensures
        insert_candidate_spec(list, score, p) == list,
{
}

/// After any number of scanned pixels the candidate list is sorted
/// ascending by score and holds exactly the fixed number of entries.
pub proof fn lemma_scan_sorted(
    data: Seq<u8>,
    w: int,
    h: int,
    range: int,
    tol: ToleranceOptions,
    wt: WeightageOptions,
    pre: nat,
    n: nat,
)
    ensures
        sorted_asc(scan_spec(data, w, h, range, tol, wt, pre, n)),
        scan_spec(data, w, h, range, tol, wt, pre, n).len() == pre,
    decreases n,
{
    if n == 0 {
    } else {
        lemma_scan_sorted(data, w, h, range, tol, wt, pre, (n - 1) as nat);
        let prev = scan_spec(data, w, h, range, tol, wt, pre, (n - 1) as nat);
        let i = ((n - 1) as int) / h;
        let j = ((n - 1) as int) % h;
        lemma_insert_candidate_sorted(
            prev,
            score_of(data, w, h, range, tol, wt, i, j) as i64,
            point_of((i, j)),
        );
    }
}

/// Offer a new score to the bounded candidate list: it enters only if it
/// beats the current worst entry, which it replaces, keeping the list
/// sorted ascending.
pub fn insert_candidate(list: &mut Vec<(i64, Point)>, score: i64, p: Point)
    ensures
        final(list)@ == insert_candidate_spec(old(list)@, score, p),
{
    if list.len() == 0 {
        return ;
    }
    let worst = list[list.len() - 1].0;
    if score < worst {
        let ghost orig = list@;
        list.pop();
        let mut pos: usize = 0;
        while pos < list.len() && score >= list[pos].0
            invariant
                pos <= list@.len(),
                list@ == orig.subrange(0, orig.len() - 1),
                forall|m: int| 0 <= m < pos ==> (#[trigger] list@[m]).0 <= score,
            decreases list@.len() - pos,
        {
            pos = pos + 1;
        }
        proof {
            lemma_asc_insert_at(list@, (score, p), pos as int);
        }
        list.insert(pos, (score, p));
        proof {
            assert(orig.subrange(0, orig.len() - 1) == orig.drop_last());
            assert(list@ =~= asc_insert(orig.drop_last(), (score, p)));
        }
    }
}

/// Detect the most corner-like points of an image: every pixel is
/// scored, the best `pre_corners` are kept (rejected pixels count as
/// worst possible), and the surviving candidates are condensed into at
/// most `post_corners` representative corners, ordered by cluster size
/// descending.
#[verifier::loop_isolation(false)]
#[verifier::rlimit(100)]
pub fn detect_corners(
    in_data: &Vec<u8>,
    width: u32,
    height: u32,
    overall: &OverallOptions,
    tolerances: &ToleranceOptions,
    weightings: &WeightageOptions,
) -> (r: Vec<Point>)
    requires
        buffer_sized(in_data@, width as int, height as int),
        1 <= width <= 4_000_000_000,
        1 <= height <= 4_000_000_000,
        1 <= overall.view_range <= 46_000,
        overall.pre_corners < 0xffff_ffff,
        weightings.valid(),
    ensures
        ({
            let list = scan_spec(
                in_data@,
                width as int,
                height as int,
                overall.view_range as int,
                *tolerances,
                *weightings,
                overall.pre_corners as nat,
                ((width as int) * (height as int)) as nat,
            );
            let pts = Seq::new(list.len(), |k: int| list[k].1);
            let cs = clusters_of(pts, overall.valid_proximity as int, pts.len() as nat);
            let sorted = sort_desc(cs);
            &&& r@.len() == vstd::math::min(cs.len() as int, overall.post_corners as int)
            &&& forall|k: int| 0 <= k < r@.len() ==> r@[k] == (#[trigger] sorted[k]).1
        }),
{
    let ghost range = overall.view_range as int;
    let ghost pre = overall.pre_corners as nat;
    let mut cands: Vec<(i64, Point)> = Vec::new();
    let mut s: u32 = 0;
    while s < overall.pre_corners
        invariant
            s <= overall.pre_corners,
            cands@.len() == s as int,
            forall|k: int|
                0 <= k < s as int ==> (#[trigger] cands@[k]) == (i64::MAX, Point { x: 0, y: 0 }),
        decreases overall.pre_corners - s,
    {
        cands.push((i64::MAX, Point { x: 0, y: 0 }));
        s = s + 1;
    }
    proof {
        assert(cands@ =~= init_candidates(pre));
    }
    let mut i: u32 = 0;
    while i < width
        invariant
            i <= width,
            cands@ == scan_spec(
                in_data@,
                width as int,
                height as int,
                range,
                *tolerances,
                *weightings,
                pre,
                ((i as int) * (height as int)) as nat,
            ),
            candidate_coords_ok(cands@),
        decreases width - i,
    {
        let mut j: u32 = 0;
        while j < height
            invariant
                i < width,
                j <= height,
                cands@ == scan_spec(
                    in_data@,
                    width as int,
                    height as int,
                    range,
                    *tolerances,
                    *weightings,
                    pre,
                    ((i as int) * (height as int) + j as int) as nat,
                ),
                candidate_coords_ok(cands@),
            decreases height - j,
        {
            let score: i64 = match get_corner_unlikelihood(
                in_data,
                i,
                j,
                width,
                height,
                overall.view_range,
                tolerances,
                weightings,
            ) {
                Ok(v) => v,
                Err(_) => i64::MAX,
            };
            let p = Point { x: (i as i64) * SCALE, y: (j as i64) * SCALE };
            let ghost n1 = (i as int) * (height as int) + j as int;
            proof {
                lemma_fundamental_div_mod_converse_div(n1, height as int, i as int, j as int);
                lemma_fundamental_div_mod_converse_mod(n1, height as int, i as int, j as int);
                assert(p == point_of((i as int, j as int)));
                assert(score == score_of(
                    in_data@,
                    width as int,
                    height as int,
                    range,
                    *tolerances,
                    *weightings,
                    i as int,
                    j as int,
                ) as i64);
            }
            proof {
                lemma_insert_candidate_coords(cands@, score, p);
            }
            insert_candidate(&mut cands, score, p);
            proof {
                assert(cands@ == scan_spec(
                    in_data@,
                    width as int,
                    height as int,
                    range,
                    *tolerances,
                    *weightings,
                    pre,
                    (n1 + 1) as nat,
                ));
            }
            j = j + 1;
        }
        proof {
            assert((i as int) * (height as int) + height as int == (i as int + 1) * (
            height as int)) by (nonlinear_arith);
        }
        i = i + 1;
    }
    proof {
        lemma_scan_sorted(
            in_data@,
            width as int,
            height as int,
            range,
            *tolerances,
            *weightings,
            pre,
            ((width as int) * (height as int)) as nat,
        );
    }
    let mut pts: Vec<Point> = Vec::new();
    let mut m: usize = 0;
    while m < cands.len()
        invariant
            m <= cands@.len(),
            pts@.len() == m as int,
            forall|k: int| 0 <= k < m as int ==> (#[trigger] pts@[k]) == cands@[k].1,
        decreases cands@.len() - m,
    {
        let c = cands[m];
        pts.push(c.1);
        m = m + 1;
    }
    proof {
        let list = scan_spec(
            in_data@,
            width as int,
            height as int,
            range,
            *tolerances,
            *weightings,
            pre,
            ((width as int) * (height as int)) as nat,
        );
        assert(pts@ =~= Seq::new(list.len(), |k: int| list[k].1));
    }
    condense_corners(&pts, overall.valid_proximity, overall.post_corners)
}

/// The grey value the diagnostic corner map writes for one pixel: the
/// score clamped into a byte, a rejected pixel counting as the brightest
/// value.
pub open spec fn corner_map_pixel(
    data: Seq<u8>,
    w: int,
    h: int,
    range: int,
    tol: ToleranceOptions,
    wt: WeightageOptions,
    i: int,
    j: int,
) -> Color {
    let v = match corner_unlikelihood_spec(data, i, j, w, h, range, tol, wt) {
        Ok(v) => v,
        Err(_) => 255 * (SCALE as int),
    };
    let g = if v > 255 * (SCALE as int) {
        255
    } else if v < 0 {
        0
    } else {
        tdiv(v, SCALE as int)
    };
    Color { r: g as u8, g: g as u8, b: g as u8, a: 255 }
}

/// Render every pixel's clamped corner score as a greyscale image of the
/// same size: a diagnostic view for tuning tolerances and weights, not
/// for extraction.
#[verifier::loop_isolation(false)]
#[verifier::rlimit(100)]
pub fn corner_map(
    in_data: &Vec<u8>,
    width: u32,
    height: u32,
    range: u32,
    opt: &ToleranceOptions,
    weight: &WeightageOptions,
) -> (r: Vec<u8>)
    requires
        buffer_sized(in_data@, width as int, height as int),
        1 <= width <= 4_000_000_000,
        1 <= height <= 4_000_000_000,
        1 <= range <= 46_000,
        weight.valid(),
    ensures
        r@.len() == in_data@.len(),
        forall|a: int, b: int|
            0 <= a < width && 0 <= b < height ==> pixel_at(r@, a, b, width as int)
                == corner_map_pixel(
                in_data@,
                width as int,
                height as int,
                range as int,
                *opt,
                *weight,
                a,
                b,
            ),
{
    let n = in_data.len();
    let mut output: Vec<u8> = vec![0u8; n];
    let mut i: u32 = 0;
    while i < width
        invariant
            i <= width,
            output@.len() == n,
            forall|a: int, b: int|
                0 <= a < i && 0 <= b < height ==> pixel_at(output@, a, b, width as int)
                    == corner_map_pixel(
                    in_data@,
                    width as int,
                    height as int,
                    range as int,
                    *opt,
                    *weight,
                    a,
                    b,
                ),
        decreases width - i,
    {
        let mut j: u32 = 0;
        while j < height
            invariant
                i < width,
                j <= height,
                output@.len() == n,
                forall|a: int, b: int|
                    0 <= a < i && 0 <= b < height ==> pixel_at(output@, a, b, width as int)
                        == corner_map_pixel(
                        in_data@,
                        width as int,
                        height as int,
                        range as int,
                        *opt,
                        *weight,
                        a,
                        b,
                    ),
                forall|b: int|
                    0 <= b < j ==> pixel_at(output@, i as int, b, width as int)
                        == corner_map_pixel(
                        in_data@,
                        width as int,
                        height as int,
                        range as int,
                        *opt,
                        *weight,
                        i as int,
                        b,
                    ),
            decreases height - j,
        {
            let v: i64 = match get_corner_unlikelihood(in_data, i, j, width, height, range, opt, weight) {
                Ok(v) => v,
                Err(_) => 255 * SCALE,
            };
            let g: u8 = if v > 255 * SCALE {
                255
            } else if v < 0 {
                0
            } else {
                proof {
                    lemma_tdiv_nonneg(v as int, SCALE as int);
                    lemma_tdiv_bounds(v as int, SCALE as int, 255);
                }
                ((v as u64) / (SCALE as u64)) as u8
            };
            let color = Color { r: g, g: g, b: g, a: 255 };
            let ghost before = output@;
            let res = set_color(color, &mut output, i, j, width, height);
            proof {
                assert(res is Ok);
                assert(0 <= ((j as int) * (width as int) + i as int) * 4 && ((j as int) * (
                width as int) + i as int) * 4 + 3 < output@.len()) by (nonlinear_arith)
                    requires
                        0 <= i < width as int && 0 <= j < height as int && output@.len() == (
                        width as int) * (height as int) * 4,
                ;
                assert forall|a: int, b: int|
                    0 <= a < width && 0 <= b < height && (a != i as int || b != j as int) implies
                    pixel_at(output@, a, b, width as int) == pixel_at(
                    before,
                    a,
                    b,
                    width as int,
                ) by {
                    lemma_pixel_bytes_disjoint(width as int, a, b, i as int, j as int);
                    assert(0 <= (b * (width as int) + a) * 4 && (b * (width as int) + a) * 4 + 3
                        < output@.len()) by (nonlinear_arith)
                        requires
                            0 <= a < width as int && 0 <= b < height as int && output@.len() == (
                            width as int) * (height as int) * 4,
                    ;
                }
                assert(pixel_at(output@, i as int, j as int, width as int) == color);
                assert(color == corner_map_pixel(
                    in_data@,
                    width as int,
                    height as int,
                    range as int,
                    *opt,
                    *weight,
                    i as int,
                    j as int,
                ));
                assert forall|a: int, b: int|
                    0 <= a < i && 0 <= b < height implies pixel_at(output@, a, b, width as int)
                    == corner_map_pixel(
                    in_data@,
                    width as int,
                    height as int,
                    range as int,
                    *opt,
                    *weight,
                    a,
                    b,
                ) by {
                    assert(pixel_at(output@, a, b, width as int) == pixel_at(
                        before,
                        a,
                        b,
                        width as int,
                    ));
                }
                assert forall|b: int|
                    0 <= b < j + 1 implies pixel_at(output@, i as int, b, width as int)
                    == corner_map_pixel(
                    in_data@,
                    width as int,
                    height as int,
                    range as int,
                    *opt,
                    *weight,
                    i as int,
                    b,
                ) by {
                    if b < j {
                        assert(pixel_at(output@, i as int, b, width as int) == pixel_at(
                            before,
                            i as int,
                            b,
                            width as int,
                        ));
                    }
                }
            }
            j = j + 1;
        }
        i = i + 1;
    }
    output
}

} // verus!
