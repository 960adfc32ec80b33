//! The failure kinds of sampling and corner scoring.

use vstd::prelude::*;

verus! {

/// The five rejection stages of the corner scorer, one per tolerance.
#[derive(Clone, Copy, Debug, PartialEq, Eq, Structural)]
pub enum Stage {
    /// The center pixel is too far from the blended corner colors.
    CenterDist,
    /// A corner expected black is too unlike black.
    BlackDist,
    /// A corner expected white is too unlike white.
    WhiteDist,
    /// The edge points stray too far from their lines' intersection.
    IntersectDist,
    /// The region vote's average unlikelihood is too high.
    Avg,
}

/// Everything that can go wrong while sampling a pixel or scoring a
/// candidate corner.
#[derive(Clone, Copy, Debug, PartialEq, Eq, Structural)]
pub enum ImageError {
    /// An index at or beyond the image width or height.
    OutOfBounds,
    /// A sampling coordinate below zero.
    NegativeCoordinate,
    /// Color interpolation on a pixel that is not fully opaque.
    NonOpaqueAlpha,
    /// A scorer stage exceeded its tolerance.
    ToleranceExceeded(Stage),
    /// No black/white flip was found along a window side.
    TransitionNotFound,
    /// The edge lines cross outside the segment parameter range.
    IntersectionOutOfRange,
}

} // verus!
