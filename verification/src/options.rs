//! Tolerances, weights and overall settings for the corner detector.

use vstd::prelude::*;

verus! {

use crate::fixed::{SCALE, fdiv, fx_div, lemma_tdiv_bounds, lemma_tdiv_nonneg};

/// Tolerance options: five independent rejection thresholds, in fixed
/// point.  If a single stage exceeds its threshold the scored pixel is
/// rejected.  The default is no rejection: every threshold at the largest
/// representable value.
#[derive(Clone, Copy, Debug, PartialEq, Eq, Structural)]
pub struct ToleranceOptions {
    /// how far the top left and bottom right corners can be from black
    pub black_dist: i64,
    /// how far the bottom left and top right corners can be from white
    pub white_dist: i64,
    /// how far the center color can be from the blend of the four corner
    /// colors: checkerboard centers should be somewhat grey, neither pure
    /// corner color
    pub center_dist: i64,
    /// how high the averaged region-vote unlikelihood can be
    pub avg: i64,
    /// how far the perceived edges can be from their intersection
    pub intersect_dist: i64,
}

impl ToleranceOptions {
    /// No rejection: every threshold at the maximum.
    pub fn new() -> (r: ToleranceOptions)
        ensures
            r.black_dist == i64::MAX,
            r.white_dist == i64::MAX,
            r.center_dist == i64::MAX,
            r.avg == i64::MAX,
            r.intersect_dist == i64::MAX,
    {
        ToleranceOptions {
            black_dist: i64::MAX,
            white_dist: i64::MAX,
            center_dist: i64::MAX,
            avg: i64::MAX,
            intersect_dist: i64::MAX,
        }
    }
}

impl Default for ToleranceOptions {
    fn default() -> (r: ToleranceOptions)
        ensures
            r.black_dist == i64::MAX,
            r.white_dist == i64::MAX,
            r.center_dist == i64::MAX,
            r.avg == i64::MAX,
            r.intersect_dist == i64::MAX,
    {
        ToleranceOptions::new()
    }
}

/// Largest raw weight `lock` accepts, in fixed point.
pub const MAX_RAW_WEIGHT: i64 = 1_000 * 1_000_000;

/// Weightage options: five non-negative weights combined into one scalar
/// score.  Callers normalize them to sum to one with [`WeightageOptions::lock`]
/// before scoring, so that adding more weighted terms cannot silently
/// inflate the score scale.
#[derive(Clone, Copy, Debug, PartialEq, Eq, Structural)]
pub struct WeightageOptions {
    /// weight of the center color's distance to the blended corner colors
    pub center_dist: i64,
    /// weight of the black corners' unlikelihoods
    pub black_dist: i64,
    /// weight of the white corners' unlikelihoods
    pub white_dist: i64,
    /// weight of the mean distance to the edge intersection
    pub intersect_dist: i64,
    /// weight of the averaged region vote
    pub avg: i64,
}

impl WeightageOptions {
    /// Every weight lies in `[0, 1]`, in fixed point: what the scorer
    /// requires, and what `lock` establishes.
    pub open spec fn valid(self) -> bool {
        &&& 0 <= self.center_dist <= SCALE
        &&& 0 <= self.black_dist <= SCALE
        &&& 0 <= self.white_dist <= SCALE
        &&& 0 <= self.intersect_dist <= SCALE
        &&& 0 <= self.avg <= SCALE
    }

    /// Only the region vote counts by default.
    pub fn new() -> (r: WeightageOptions)
        ensures
            r.center_dist == 0,
            r.black_dist == 0,
            r.white_dist == 0,
            r.intersect_dist == 0,
            r.avg == SCALE,
            r.valid(),
    {
        WeightageOptions {
            center_dist: 0,
            black_dist: 0,
            white_dist: 0,
            intersect_dist: 0,
            avg: SCALE,
        }
    }

    /// Normalize the weights so that they sum to one, as a new record:
    /// each weight becomes its share of the old sum.  This keeps the
    /// unlikelihood scale fixed however many terms carry weight.
    pub fn lock(&self) -> (r: WeightageOptions)
        requires
            0 <= self.center_dist <= MAX_RAW_WEIGHT,
            0 <= self.black_dist <= MAX_RAW_WEIGHT,
            0 <= self.white_dist <= MAX_RAW_WEIGHT,
            0 <= self.intersect_dist <= MAX_RAW_WEIGHT,
            0 <= self.avg <= MAX_RAW_WEIGHT,
            self.center_dist + self.black_dist + self.white_dist + self.intersect_dist + self.avg
                > 0,
        ensures
            ({
                let sum = self.center_dist + self.black_dist + self.white_dist
                    + self.intersect_dist + self.avg;
                &&& r.center_dist == fdiv(self.center_dist as int, sum)
                &&& r.black_dist == fdiv(self.black_dist as int, sum)
                &&& r.white_dist == fdiv(self.white_dist as int, sum)
                &&& r.intersect_dist == fdiv(self.intersect_dist as int, sum)
                &&& r.avg == fdiv(self.avg as int, sum)
            }),
            r.valid(),
    {
        let sum: i64 = self.center_dist + self.black_dist + self.white_dist + self.intersect_dist
            + self.avg;
        proof {
            lemma_lock_share(self.center_dist as int, sum as int);
            lemma_lock_share(self.black_dist as int, sum as int);
            lemma_lock_share(self.white_dist as int, sum as int);
            lemma_lock_share(self.intersect_dist as int, sum as int);
            lemma_lock_share(self.avg as int, sum as int);
        }
        WeightageOptions {
            center_dist: fx_div(self.center_dist, sum),
            black_dist: fx_div(self.black_dist, sum),
            white_dist: fx_div(self.white_dist, sum),
            intersect_dist: fx_div(self.intersect_dist, sum),
            avg: fx_div(self.avg, sum),
        }
    }
}

/// A weight no larger than the sum it is divided by gets a share within
/// `[0, 1]`, in fixed point.
proof fn lemma_lock_share(w: int, sum: int)
    requires
        0 <= w <= sum,
        sum > 0,
    ensures
        0 <= fdiv(w, sum) <= SCALE,
{
    assert(w * (SCALE as int) <= (SCALE as int) * sum) by (nonlinear_arith)
        requires
            0 <= w <= sum,
    ;
    lemma_tdiv_bounds(w * (SCALE as int), sum, SCALE as int);
    lemma_tdiv_nonneg(w * (SCALE as int), sum);
}

impl Default for WeightageOptions {
    fn default() -> (r: WeightageOptions)
        ensures
            r.center_dist == 0,
            r.black_dist == 0,
            r.white_dist == 0,
            r.intersect_dist == 0,
            r.avg == SCALE,
    {
        WeightageOptions::new()
    }
}

/// Essential overall settings of the corner detection: the viewbox
/// half-size, the candidate pool size, the clustering distance and the
/// final corner count.  The defaults are not usable; callers set every
/// field.
#[derive(Clone, Copy, Debug, PartialEq, Eq, Structural)]
pub struct OverallOptions {
    /// the detection window half-size
    pub view_range: u32,
    /// the number of pre-condensed corners
    pub pre_corners: u32,
    /// the valid proximity for condensing, in fixed point
    pub valid_proximity: i64,
    /// the number of post-condensed corners
    pub post_corners: u32,
}

impl OverallOptions {
    /// Unusable defaults: all zero.
    pub fn new() -> (r: OverallOptions)
        ensures
            r.view_range == 0,
            r.pre_corners == 0,
            r.valid_proximity == 0,
            r.post_corners == 0,
    {
        OverallOptions { view_range: 0, pre_corners: 0, valid_proximity: 0, post_corners: 0 }
    }
}

impl Default for OverallOptions {
    fn default() -> (r: OverallOptions)
        ensures
            r.view_range == 0,
            r.pre_corners == 0,
            r.valid_proximity == 0,
            r.post_corners == 0,
    {
        OverallOptions::new()
    }
}

} // verus!
