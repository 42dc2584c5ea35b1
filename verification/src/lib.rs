//! A five-band dynamics, saturation and reactive-EQ audio engine in Q16.16
//! fixed-point arithmetic.
//!
//! The engine splits a stereo stream into five bands with cascaded
//! Linkwitz-Riley lowpass crossovers, compresses and saturates each band with
//! parameters derived from two macro controls (Amount and Tilt), re-sums the
//! bands through a serial compensation EQ that reacts every sample to the
//! gain reduction actually applied, matches loudness block by block, and
//! blends dry against wet with a constant-power law.

pub mod approx;
pub mod biquad;
pub mod dsp;
pub mod engine;
pub mod qmath;
