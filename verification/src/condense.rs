//! Condensing corner candidates: nearby points are merged into clusters
//! by a first-match running mean, and the clusters with the most members
//! come out first.

use vstd::prelude::*;

verus! {

use crate::fixed::{tdiv, tdiv_i128, lemma_tdiv_bounds, lemma_tdiv_mul_cancel};
use crate::geometry::{Point, coord_ok, dist, MAX_COORD};

/// The unfilled-slot marker of a short candidate list.
pub open spec fn is_sentinel(p: Point) -> bool {
    p.x == 0 && p.y == 0
}

/// A cluster after one more member: the count grows by one and the
/// centroid moves to the running mean, truncated toward zero.
pub open spec fn merged_cluster(c: (u32, Point), p: Point) -> (u32, Point) {
    let n = c.0 as int;
    (
        (n + 1) as u32,
        Point {
            x: tdiv(c.1.x * n + p.x, n + 1) as i64,
            y: tdiv(c.1.y * n + p.y, n + 1) as i64,
        },
    )
}

/// Index of the first cluster at or after `k` whose centroid lies within
/// `prox` of `p`, or the list length if there is none.
pub open spec fn first_within(cs: Seq<(u32, Point)>, p: Point, prox: int, k: int) -> int
    decreases cs.len() - k,
{
    if k < 0 || k >= cs.len() {
        cs.len() as int
    } else if dist(cs[k].1, p) < prox {
        k
    } else {
        first_within(cs, p, prox, k + 1)
    }
}

/// One condensing step: the point joins the first cluster whose centroid
/// is within `prox`, or starts a new singleton cluster.
pub open spec fn merge_point(cs: Seq<(u32, Point)>, p: Point, prox: int) -> Seq<(u32, Point)> {
    let idx = first_within(cs, p, prox, 0);
    if idx < cs.len() {
        cs.update(idx, merged_cluster(cs[idx], p))
    } else {
        cs.push((1u32, p))
    }
}

/// The clusters after the first `n` points, sentinels skipped.
pub open spec fn clusters_of(ps: Seq<Point>, prox: int, n: nat) -> Seq<(u32, Point)>
    decreases n,
{
    if n == 0 {
        Seq::empty()
    } else {
        let prev = clusters_of(ps, prox, (n - 1) as nat);
        let p = ps[n - 1];
        if is_sentinel(p) {
            prev
        } else {
            merge_point(prev, p, prox)
        }
    }
}

/// Insert a cluster into a count-descending list: it goes before the
/// first strictly smaller count, hence after any cluster of equal count.
pub open spec fn insert_desc(s: Seq<(u32, Point)>, c: (u32, Point)) -> Seq<(u32, Point)>
    decreases s.len(),
{
    if s.len() == 0 {
        seq![c]
    } else if c.0 > s[0].0 {
        seq![c] + s
    } else {
        seq![s[0]] + insert_desc(s.drop_first(), c)
    }
}

/// The first `n` clusters sorted by member count descending, earlier
/// clusters first among equals.
pub open spec fn sort_desc_upto(s: Seq<(u32, Point)>, n: nat) -> Seq<(u32, Point)>
    decreases n,
{
    if n == 0 {
        Seq::empty()
    } else {
        insert_desc(sort_desc_upto(s, (n - 1) as nat), s[n - 1])
    }
}

/// The whole cluster list sorted by member count descending.
pub open spec fn sort_desc(s: Seq<(u32, Point)>) -> Seq<(u32, Point)> {
    sort_desc_upto(s, s.len())
}

/// Member counts never grow along the list.
pub open spec fn sorted_desc(s: Seq<(u32, Point)>) -> bool {
    forall|a: int, b: int| 0 <= a <= b < s.len() ==> (#[trigger] s[a]).0 >= (#[trigger] s[b]).0
}

/// Every cluster so far has at least one member, at most `limit`
/// members, and a centroid in the working coordinate range.
pub open spec fn clusters_wf(cs: Seq<(u32, Point)>, limit: int) -> bool {
    forall|k: int|
        0 <= k < cs.len() ==> 1 <= (#[trigger] cs[k]).0 <= limit && coord_ok(cs[k].1.x as int)
            && coord_ok(cs[k].1.y as int)
}

/// `first_within` finds the first match: everything before it is out of
/// range, and what it points at (if anything) is in range.
proof fn lemma_first_within_props(cs: Seq<(u32, Point)>, p: Point, prox: int, k: int)
    requires
        0 <= k <= cs.len(),
    ensures
        k <= first_within(cs, p, prox, k) <= cs.len(),
        first_within(cs, p, prox, k) < cs.len() ==> dist(
            cs[first_within(cs, p, prox, k)].1,
            p,
        ) < prox,
        forall|m: int|
            k <= m < first_within(cs, p, prox, k) ==> !(dist((#[trigger] cs[m]).1, p) < prox),
    decreases cs.len() - k,
{
    if k < cs.len() && !(dist(cs[k].1, p) < prox) {
        lemma_first_within_props(cs, p, prox, k + 1);
    }
}

/// A merged centroid stays in the working range, and the count grows by
/// exactly one.
proof fn lemma_merged_cluster_wf(c: (u32, Point), p: Point)
    requires
        1 <= c.0,
        c.0 < u32::MAX,
        coord_ok(c.1.x as int),
        coord_ok(c.1.y as int),
        coord_ok(p.x as int),
        coord_ok(p.y as int),
    ensures
        merged_cluster(c, p).0 == c.0 + 1,
        coord_ok(merged_cluster(c, p).1.x as int),
        coord_ok(merged_cluster(c, p).1.y as int),
        merged_cluster(c, p).1.x == tdiv(c.1.x * (c.0 as int) + p.x, c.0 as int + 1),
        merged_cluster(c, p).1.y == tdiv(c.1.y * (c.0 as int) + p.y, c.0 as int + 1),
{
    let n = c.0 as int;
    assert(-((MAX_COORD as int) * (n + 1)) <= c.1.x * n + p.x <= (MAX_COORD as int) * (n + 1)
        && -((MAX_COORD as int) * (n + 1)) <= c.1.y * n + p.y <= (MAX_COORD as int) * (n + 1))
        by (nonlinear_arith)
        requires
            1 <= n && -(MAX_COORD as int) <= c.1.x <= MAX_COORD as int && -(MAX_COORD as int)
                <= c.1.y <= MAX_COORD as int && -(MAX_COORD as int) <= p.x <= MAX_COORD as int
                && -(MAX_COORD as int) <= p.y <= MAX_COORD as int,
    ;
    lemma_tdiv_bounds(c.1.x * n + p.x, n + 1, MAX_COORD as int);
    lemma_tdiv_bounds(c.1.y * n + p.y, n + 1, MAX_COORD as int);
}

/// `insert_desc` places the new cluster exactly at the first position
/// whose count is strictly smaller.
proof fn lemma_insert_desc_at(s: Seq<(u32, Point)>, c: (u32, Point), pos: int)
    requires
        0 <= pos <= s.len(),
        forall|m: int| 0 <= m < pos ==> (#[trigger] s[m]).0 >= c.0,
        pos < s.len() ==> c.0 > s[pos].0,
    ensures
        insert_desc(s, c) == s.subrange(0, pos) + seq![c] + s.subrange(pos, s.len() as int),
    decreases pos,
{
    if pos == 0 {
        if s.len() == 0 {
            assert(insert_desc(s, c) =~= s.subrange(0, 0) + seq![c] + s.subrange(0, 0));
        } else {
            assert(insert_desc(s, c) =~= s.subrange(0, 0) + seq![c] + s.subrange(
                0,
                s.len() as int,
            ));
        }
    } else {
        lemma_insert_desc_at(s.drop_first(), c, pos - 1);
        assert(insert_desc(s, c) =~= s.subrange(0, pos) + seq![c] + s.subrange(
            pos,
            s.len() as int,
        ));
    }
}

/// Sorting keeps the length.
proof fn lemma_sort_desc_upto_len(s: Seq<(u32, Point)>, n: nat)
    requires
        n <= s.len(),
    ensures
        sort_desc_upto(s, n).len() == n,
    decreases n,
{
    if n > 0 {
        lemma_sort_desc_upto_len(s, (n - 1) as nat);
        lemma_insert_desc_len(sort_desc_upto(s, (n - 1) as nat), s[n - 1]);
    }
}

/// Inserting adds exactly one cluster.
proof fn lemma_insert_desc_len(s: Seq<(u32, Point)>, c: (u32, Point))
    ensures
        insert_desc(s, c).len() == s.len() + 1,
    decreases s.len(),
{
    if s.len() > 0 && !(c.0 > s[0].0) {
        lemma_insert_desc_len(s.drop_first(), c);
    }
}

/// Inserting into a count-descending list keeps it count-descending.
proof fn lemma_insert_desc_sorted(s: Seq<(u32, Point)>, c: (u32, Point))
    requires
        sorted_desc(s),
    ensures
        sorted_desc(insert_desc(s, c)),
    decreases s.len(),
{
    lemma_insert_desc_len(s, c);
    if s.len() == 0 {
    } else if c.0 > s[0].0 {
        assert forall|a: int, b: int|
            0 <= a <= b < insert_desc(s, c).len() implies (#[trigger] insert_desc(s, c)[a]).0
            >= (#[trigger] insert_desc(s, c)[b]).0 by {
            if a > 0 {
                assert(insert_desc(s, c)[a] == s[a - 1]);
            }
            if b > 0 {
                assert(insert_desc(s, c)[b] == s[b - 1]);
            }
        }
    } else {
        assert(sorted_desc(s.drop_first()));
        lemma_insert_desc_sorted(s.drop_first(), c);
        lemma_insert_desc_len(s.drop_first(), c);
        let t = insert_desc(s.drop_first(), c);
        assert forall|a: int, b: int|
            0 <= a <= b < insert_desc(s, c).len() implies (#[trigger] insert_desc(s, c)[a]).0
            >= (#[trigger] insert_desc(s, c)[b]).0 by {
            if a > 0 {
                assert(insert_desc(s, c)[a] == t[a - 1]);
            }
            if b > 0 {
                assert(insert_desc(s, c)[b] == t[b - 1]);
            }
            if a == 0 && b > 0 {
                // the head of s dominates both its own tail and c
                lemma_insert_desc_head_bound(s.drop_first(), c, s[0].0);
            }
        }
    }
}

/// If a count dominates a list and the inserted cluster, it dominates
/// the result of the insertion.
proof fn lemma_insert_desc_head_bound(s: Seq<(u32, Point)>, c: (u32, Point), bound: u32)
    requires
        forall|m: int| 0 <= m < s.len() ==> bound >= (#[trigger] s[m]).0,
        bound >= c.0,
    ensures
        forall|m: int|
            0 <= m < insert_desc(s, c).len() ==> bound >= (#[trigger] insert_desc(s, c)[m]).0,
    decreases s.len(),
{
    lemma_insert_desc_len(s, c);
    if s.len() == 0 {
    } else if c.0 > s[0].0 {
    } else {
        assert(forall|m: int| 0 <= m < s.drop_first().len() ==> bound >= (#[trigger] s.drop_first()[m]).0);
        lemma_insert_desc_head_bound(s.drop_first(), c, bound);
        lemma_insert_desc_len(s.drop_first(), c);
        assert forall|m: int|
            0 <= m < insert_desc(s, c).len() implies bound >= (#[trigger] insert_desc(s, c)[m]).0 by {
            if m > 0 {
                assert(insert_desc(s, c)[m] == insert_desc(s.drop_first(), c)[m - 1]);
            }
        }
    }
}

/// The cluster sort orders by member count descending and keeps the
/// length: what `condense_corners` truncates is the head of a sorted
/// list.
pub proof fn lemma_sort_desc_sorted(s: Seq<(u32, Point)>)
    ensures
        sorted_desc(sort_desc(s)),
        sort_desc(s).len() == s.len(),
    decreases s.len(),
{
    lemma_sort_desc_upto_sorted(s, s.len());
    lemma_sort_desc_upto_len(s, s.len());
}

proof fn lemma_sort_desc_upto_sorted(s: Seq<(u32, Point)>, n: nat)
    requires
        n <= s.len(),
    ensures
        sorted_desc(sort_desc_upto(s, n)),
    decreases n,
{
    if n > 0 {
        lemma_sort_desc_upto_sorted(s, (n - 1) as nat);
        lemma_insert_desc_sorted(sort_desc_upto(s, (n - 1) as nat), s[n - 1]);
    }
}

/// A point farther than `prox` from every existing centroid always
/// starts a new singleton cluster.
pub proof fn lemma_new_cluster_when_far(cs: Seq<(u32, Point)>, p: Point, prox: int)
    requires
        forall|k: int| 0 <= k < cs.len() ==> dist((#[trigger] cs[k]).1, p) >= prox,
    ensures
        merge_point(cs, p, prox) == cs.push((1u32, p)),
{
    lemma_first_within_props(cs, p, prox, 0);
    let idx = first_within(cs, p, prox, 0);
    if idx < cs.len() {
        assert(dist(cs[idx].1, p) < prox);
    }
}

/// Identical non-sentinel points condense to one cluster whose centroid
/// is that point exactly: the truncated running mean of equal values is
/// exact, so the centroid is their arithmetic mean.
pub proof fn lemma_condense_equal_points(ps: Seq<Point>, p: Point, prox: int, n: nat)
    requires
        n <= ps.len(),
        forall|k: int| 0 <= k < n ==> ps[k] == p,
        !is_sentinel(p),
        prox > 0,
        n <= u32::MAX,
    ensures
        n >= 1 ==> clusters_of(ps, prox, n) =~= seq![(n as u32, p)],
    decreases n,
{
    if n >= 1 {
        lemma_condense_equal_points(ps, p, prox, (n - 1) as nat);
        crate::fixed::lemma_sqrt_floor(0);
        crate::fixed::lemma_sqrt_unique(0, 0, crate::fixed::sqrt_floor(0));
        assert(dist(p, p) == 0);
        if n == 1 {
            lemma_first_within_props(Seq::<(u32, Point)>::empty(), p, prox, 0);
            assert(clusters_of(ps, prox, 0) =~= Seq::<(u32, Point)>::empty());
            assert(ps[0] == p);
            assert(merge_point(Seq::<(u32, Point)>::empty(), p, prox) =~= seq![(1u32, p)]);
            assert(clusters_of(ps, prox, 1) =~= seq![(1u32, p)]);
        } else {
            let prev = clusters_of(ps, prox, (n - 1) as nat);
            assert(prev =~= seq![(((n - 1) as u32), p)]);
            assert(first_within(prev, p, prox, 0) == 0);
            let m = (n - 1) as int;
            assert(p.x * m + p.x == p.x * (m + 1)) by (nonlinear_arith);
            assert(p.y * m + p.y == p.y * (m + 1)) by (nonlinear_arith);
            lemma_tdiv_mul_cancel(p.x as int, m + 1);
            lemma_tdiv_mul_cancel(p.y as int, m + 1);
            assert(merged_cluster(prev[0], p) == ((n as u32), p));
            assert(merge_point(prev, p, prox) =~= seq![((n as u32), p)]);
        }
    }
}

/// Condense candidate points into representative corners: sentinel
/// points are skipped, each point joins the first cluster whose centroid
/// lies within `proximity` (in insertion order) or starts a new one, and
/// the centroids come out ordered by member count descending, truncated
/// to `num_corners`.
pub fn condense_corners(points: &Vec<Point>, proximity: i64, num_corners: u32) -> (r: Vec<Point>)
    requires
        points@.len() < 0xffff_ffff,
        forall|k: int|
            0 <= k < points@.len() ==> coord_ok((#[trigger] points@[k]).x as int) && coord_ok(
                points@[k].y as int,
            ),
    ensures
        ({
            let cs = clusters_of(points@, proximity as int, points@.len() as nat);
            let sorted = sort_desc(cs);
            &&& r@.len() == vstd::math::min(cs.len() as int, num_corners as int)
            &&& forall|k: int| 0 <= k < r@.len() ==> r@[k] == (#[trigger] sorted[k]).1
        }),
{
    let ghost prox = proximity as int;
    let mut output: Vec<(u32, Point)> = Vec::new();
    let mut t: usize = 0;
    while t < points.len()
        invariant
            t <= points@.len(),
            points@.len() < 0xffff_ffff,
            forall|k: int|
                0 <= k < points@.len() ==> coord_ok((#[trigger] points@[k]).x as int) && coord_ok(
                    points@[k].y as int,
                ),
            output@ == clusters_of(points@, prox, t as nat),
            clusters_wf(output@, t as int),
            output@.len() <= t,
            prox == proximity as int,
        decreases points@.len() - t,
    {
        let p = points[t];
        if p.x != 0 || p.y != 0 {
            let mut idx: usize = 0;
            let mut found = false;
            while idx < output.len() && !found
                invariant
                    idx <= output@.len(),
                    clusters_wf(output@, t as int),
                    coord_ok(p.x as int),
                    coord_ok(p.y as int),
                    prox == proximity as int,
                    !found ==> first_within(output@, p, prox, 0) == first_within(
                        output@,
                        p,
                        prox,
                        idx as int,
                    ),
                    found ==> first_within(output@, p, prox, 0) == idx as int && idx
                        < output@.len(),
                decreases
                        output@.len() - idx,
                        (if found {
                            0int
                        } else {
                            1int
                        }),
            {
                let d = output[idx].1.distance(&p);
                if d < proximity {
                    found = true;
                } else {
                    idx = idx + 1;
                }
            }
            proof {
                lemma_first_within_props(output@, p, prox, 0);
                if !found {
                    assert(first_within(output@, p, prox, 0) == output@.len() as int);
                }
            }
            if found {
                let n: u32 = output[idx].0;
                let g: Point = output[idx].1;
                proof {
                    lemma_merged_cluster_wf(output@[idx as int], p);
                    assert(-((MAX_COORD as int) * (n as int + 1)) <= g.x * (n as int) + p.x <= (
                    MAX_COORD as int) * (n as int + 1) && -((MAX_COORD as int) * (n as int + 1))
                        <= g.y * (n as int) + p.y <= (MAX_COORD as int) * (n as int + 1))
                        by (nonlinear_arith)
                        requires
                            1 <= n && -(MAX_COORD as int) <= g.x <= MAX_COORD as int && -(
                            MAX_COORD as int) <= g.y <= MAX_COORD as int && -(MAX_COORD as int)
                                <= p.x <= MAX_COORD as int && -(MAX_COORD as int) <= p.y
                                <= MAX_COORD as int,
                    ;
                    lemma_tdiv_bounds(g.x * (n as int) + p.x, n as int + 1, MAX_COORD as int);
                    lemma_tdiv_bounds(g.y * (n as int) + p.y, n as int + 1, MAX_COORD as int);
                }
                let den: i128 = n as i128 + 1;
                let nx = tdiv_i128((g.x as i128) * (n as i128) + (p.x as i128), den) as i64;
                let ny = tdiv_i128((g.y as i128) * (n as i128) + (p.y as i128), den) as i64;
                output[idx] = (n + 1, Point { x: nx, y: ny });
                proof {
                    assert(output@ =~= merge_point(
                        clusters_of(points@, prox, t as nat),
                        p,
                        prox,
                    ));
                }
            } else {
                output.push((1u32, p));
                proof {
                    assert(output@ =~= merge_point(
                        clusters_of(points@, prox, t as nat),
                        p,
                        prox,
                    ));
                }
            }
        }
        t = t + 1;
    }
    // Sort the clusters by member count, largest first.
    let ghost cs = output@;
    let mut sorted: Vec<(u32, Point)> = Vec::new();
    let mut k: usize = 0;
    while k < output.len()
        invariant
            k <= output@.len(),
            output@ == cs,
            sorted@ == sort_desc_upto(cs, k as nat),
            sorted@.len() == k,
        decreases output@.len() - k,
    {
        let c = output[k];
        let mut pos: usize = 0;
        while pos < sorted.len() && c.0 <= sorted[pos].0
            invariant
                pos <= sorted@.len(),
                forall|m: int| 0 <= m < pos ==> (#[trigger] sorted@[m]).0 >= c.0,
            decreases sorted@.len() - pos,
        {
            pos = pos + 1;
        }
        proof {
            lemma_insert_desc_at(sorted@, c, pos as int);
            lemma_insert_desc_len(sorted@, c);
        }
        sorted.insert(pos, c);
        proof {
            assert(sorted@ =~= sort_desc_upto(cs, (k + 1) as nat));
        }
        k = k + 1;
    }
    sorted.truncate(num_corners as usize);
    let mut out: Vec<Point> = Vec::new();
    let mut m: usize = 0;
    while m < sorted.len()
        invariant
            m <= sorted@.len(),
            sorted@.len() == vstd::math::min(sort_desc(cs).len() as int, num_corners as int),
            forall|q: int| 0 <= q < sorted@.len() ==> sorted@[q] == sort_desc(cs)[q],
            out@.len() == m,
            forall|q: int| 0 <= q < m ==> out@[q] == (#[trigger] sort_desc(cs)[q]).1,
        decreases sorted@.len() - m,
    {
        let c = sorted[m];
        out.push(c.1);
        m = m + 1;
    }
    out
}

} // verus!
