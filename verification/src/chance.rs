//! The random choices of the game, drawn from the `rand` crate.

use vstd::prelude::*;
use rand::seq::SliceRandom;

verus! {

/// Draws a number below `n` with `rand::random_range(0..n)`.
/// The documentation of `random_range` promises a value inside the range and
/// a panic on an empty range; which value comes out is left to chance.
#[verifier::external_body]
pub(crate) fn random_below(n: usize) -> (r: usize)
    requires
        n > 0,
    ensures
        r < n,
{
    rand::random_range(0..n)
}

/// Shuffles `items` in place with `SliceRandom::shuffle` and the thread-local
/// generator `rand::rng()`. The source moves the items by swaps only, so the
/// contract claims that the same items come out, in an order left to chance.
#[verifier::external_body]
pub(crate) fn shuffle<T>(items: &mut Vec<T>)
    ensures
        final(items)@.to_multiset() == old(items)@.to_multiset(),
{
    items.shuffle(&mut rand::rng())
}

} // verus!
