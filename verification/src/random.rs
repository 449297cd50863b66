//! The random draws that the simulation consumes.
//!
//! The generator is handed in by the caller, so that a seeded generator makes
//! a run repeatable. Nothing here is verified: the contracts below are what
//! the generator library documents.

use rand::Rng;
use vstd::prelude::*;

verus! {

/// The `StdRng` type of the `rand` crate: the generator that the draws are
/// made with. Its state is opaque here.
#[verifier::external_type_specification]
#[verifier::external_body]
pub struct ExStdRng(rand::rngs::StdRng);

/// Calls `Rng::gen_range` on the inclusive range from `low` to `high`.
///
/// Assumed: the call returns when the range is not empty, and what it returns
/// lies in the range. Which value comes back is not stated.
#[verifier::external_body]
pub(crate) fn draw_between(rng: &mut rand::rngs::StdRng, low: u64, high: u64) -> (r: u64)
    requires
        low <= high,
    ensures
        low <= r <= high,
{
    rng.gen_range(low..=high)
}

/// Calls `Rng::gen_ratio`, which is `true` with probability
/// `numerator / denominator`.
///
/// Assumed: the call returns when `denominator` is positive and `numerator`
/// does not exceed it; a ratio of one always gives `true` and a ratio of zero
/// always gives `false`. For any other ratio nothing is stated.
#[verifier::external_body]
pub(crate) fn draw_ratio(rng: &mut rand::rngs::StdRng, numerator: u32, denominator: u32) -> (r: bool)
    requires
        0 < denominator,
        numerator <= denominator,
    ensures
        numerator == denominator ==> r,
        numerator == 0 ==> !r,
{
    rng.gen_ratio(numerator, denominator)
}

} // verus!
