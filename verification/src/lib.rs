//! Cognitively-grounded memory retrieval engine.
//!
//! Given a probe and a corpus of memory traces, the library ranks candidate
//! memories under human memory models: ACT-R base-level decay, the MINERVA 2
//! cubic match rule, spreading activation over a weighted association graph,
//! and reconsolidation dynamics.  Companion modules cover spatial familiarity,
//! visual-memory significance, scene detection by perceptual hash, and frame
//! selection for video description.
//!
//! All quantities are held in fixed-point integer units so that every rule can
//! be stated and proved exactly:
//!
//! - dimensionless values in `[0, 1]` (strengths, weights, probabilities,
//!   similarities) are *milli* units: `1000` stands for `1.0`;
//! - timestamps and durations are integer milliseconds;
//! - elapsed days are *milli-days*: `1000` stands for one day.
//!
//! Transcendental curves (logarithms, exponentials, square roots) are left to
//! the caller, which hands their values in as milli units; every decision made
//! on top of them — bucketing, thresholds, ranking, graph traversal — is
//! verified here.

use vstd::prelude::*;

pub mod activation;
pub mod location;
pub mod ranking;
pub mod retrieval;
pub mod scene;
pub mod spreading;
pub mod transcribe;
pub mod video;
pub mod visual;

verus! {

/// Greeting returned once the library is linked and callable.
pub fn init() -> (r: &'static str)
    ensures
        r@ == "lucid-core initialized"@,
{
    "lucid-core initialized"
}

} // verus!
