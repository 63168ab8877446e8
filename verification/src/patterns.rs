//! The patterns of the board's background.

use vstd::prelude::*;

verus! {

/// The checkerboard: 0 or 1 by the parity of `x + y`.
pub fn chess_mash(x: usize, y: usize) -> (r: usize)
    requires
        x + y <= usize::MAX,
    ensures
        r == (x + y) % 2,
{
    (x + y) % 2
}

/// A speckle: the parity of `(x * y) % 3`.
pub fn noise(x: usize, y: usize) -> (r: usize)
    requires
        x * y <= usize::MAX,
    ensures
        r == ((x * y) % 3) % 2,
{
    ((x * y) % 3) % 2
}

} // verus!
