//! Trusted boundary around the `rand` crate for weighted selection draws.

use vstd::prelude::*;
use rand::Rng;

verus! {

/// Relies on `rand::thread_rng` / `Rng::gen_range` (rand 0.8): returns some
/// value below `n`; the empty-range panic is excluded by the precondition.
/// Nothing more is promised of the draw.
#[verifier::external_body]
pub fn random_below(n: u64) -> (r: u64)
    requires
        n > 0,
    ensures
        r < n,
{
    rand::thread_rng().gen_range(0..n)
}

} // verus!
