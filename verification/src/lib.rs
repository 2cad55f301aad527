//! Genetic training of small feed-forward networks.
//!
//! The crate holds the decision core of the trainer: fitness ranking,
//! parent-selection strategies, per-generation slot planning, and the
//! per-weight choices made during recombination and mutation.  Rates and
//! probabilities are fixed-point values on the scale [`RATE_SCALE`], and
//! fitness scores are integers, so every rule is stated and proved exactly.

use vstd::prelude::*;

pub mod activators;
pub mod evotrainer;
pub mod genome;
mod rng;

verus! {

/// Fixed-point scale for rates and probabilities: a rate of 1.0 is
/// `RATE_SCALE`, a rate of 0.5 is `RATE_SCALE / 2`, and so on.
pub const RATE_SCALE: u32 = 1_000_000;

/// Largest magnitude a fitness score may take.  The bound keeps every
/// product of a fitness with `RATE_SCALE`, and every population-wide sum
/// of fitness values, inside the machine integer range.
pub const FITNESS_LIMIT: i64 = 1_000_000_000_000;

} // verus!
