//! Random cells, drawn with the `rand` crate.

use rand::Rng;
use vstd::prelude::*;

use crate::grid::CELLS;

verus! {

/// Draws a number below `bound` with `rand::rng().random_range(0..bound)`.
/// Trusted: `random_range` returns a value of the half-open range it is
/// given, and panics on an empty range, which `requires` leaves out. The
/// thread's generator also panics where the operating system's source of
/// randomness fails, which no argument decides. Which value comes back is
/// left to chance and is not stated.
#[verifier::external_body]
pub(crate) fn random_below(bound: usize) -> (r: usize)
    requires
        bound > 0,
    ensures
        r < bound,
{
    let mut rng = rand::rng();
    rng.random_range(0..bound)
}

/// A random cell of the board.
pub fn seed() -> (r: usize)
    ensures
        r < CELLS,
{
    random_below(CELLS)
}

} // verus!
