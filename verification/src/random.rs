//! The one boundary to the random number generator.
use vstd::prelude::*;
use rand::Rng;

verus! {

/// Relies on `rand::rng()` and `Rng::random_range` over `0..n`: the result is
/// drawn uniformly from the range, so it is strictly below `n`.  The call
/// panics on an empty range, which the precondition rules out.
#[verifier::external_body]
pub(crate) fn random_index(n: usize) -> (r: usize)
    requires
        n > 0,
    ensures
        r < n,
{
    rand::rng().random_range(0..n)
}

/// Growth awarded by a super food: a random amount in `[2, 10)`.
pub(crate) fn random_growth_amount() -> (g: u8)
    ensures
        2 <= g < 10,
{
    let i: usize = random_index(8);
    2 + (i as u8)
}

} // verus!
