//! Randomness for the `Random` distribution strategy and the randomized
//! heuristic.

use rand::Rng;
use vstd::prelude::*;

verus! {

/// Relies on `rand::rng` and `rand::Rng::random_range` over `0..n`: returns a
/// value drawn from that range, which is non-empty because `n > 0`, so the
/// call does not panic. The draw depends on the process's randomness source,
/// so nothing is claimed beyond the bound.
#[verifier::external_body]
pub(crate) fn random_index_below(n: usize) -> (r: usize)
    requires
        n > 0,
    ensures
        r < n,
{
    rand::rng().random_range(0..n)
}

} // verus!
