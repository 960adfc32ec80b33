//! Image-pixel algorithms for a camera-calibration tool: correction and
//! application of radial/tangential lens distortion by inverse pixel
//! remapping with bilinear resampling, and heuristic detection of
//! checkerboard-pattern corners for calibration point extraction.
//!
//! All coordinates, coefficients, tolerances, weights and scores are
//! fixed-point numbers: an `i64` holding the value times [`fixed::SCALE`].

pub mod color;
pub mod condense;
pub mod detect;
pub mod distortion;
pub mod errors;
pub mod fixed;
pub mod geometry;
pub mod options;
pub mod remap;
pub mod sampler;
pub mod scorer;
