//! What can go wrong.

use vstd::prelude::*;

verus! {

/// Why a game could not be set up, or a tick could not be taken.
#[derive(Clone, Copy, Debug, PartialEq, Eq, Structural)]
pub enum GameError {
    /// The heading asked for is none of the four steps of length one along
    /// an axis.
    InvalidDirection,
    /// The snake lies on the center of every cell: there is no place for food.
    BoardFull,
    /// The tick would move the tail farther than the snake is long.
    InsufficientTailLength,
    /// The tail would have to be moved along a piece without length, which
    /// has no direction.
    GeometricDegeneracy,
    /// A new waypoint would lie farther from the origin than `LIMIT`.
    OutOfRange,
}

} // verus!
