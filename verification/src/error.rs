//! Why a board refuses a request.

use vstd::prelude::*;

verus! {

/// Why a board refuses a request.
#[derive(Debug, PartialEq, Eq, Structural, Copy, Clone)]
pub enum BoardError {
    /// The cell in column `x`, row `y` is not on the board of `width`
    /// columns and `height` rows.
    OutOfBounds { x: usize, y: usize, width: usize, height: usize },
    /// The cell in column `x`, row `y` has not been revealed, so its
    /// neighbours cannot be revealed from it.
    NotRevealed { x: usize, y: usize },
}

} // verus!
