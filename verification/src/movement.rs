//! The four ways the snake can head.

use crate::fixed::UNIT;
use crate::vector::Vector;
use vstd::prelude::*;

verus! {

/// A turn that the player asks for. `Top` points toward smaller `y`.
#[derive(Clone, Copy, Debug, PartialEq, Eq, Structural)]
pub enum Movement {
    Top,
    Right,
    Down,
    Left,
}

/// `v` is one step of length one along an axis: the heading of one of the
/// four movements.
pub open spec fn is_heading(v: Vector) -> bool {
    ||| v == Movement::Top.spec_vector()
    ||| v == Movement::Right.spec_vector()
    ||| v == Movement::Down.spec_vector()
    ||| v == Movement::Left.spec_vector()
}

impl Movement {
    /// The step of length one in this direction.
    pub open spec fn spec_vector(self) -> Vector {
        match self {
            Movement::Top => Vector { x: 0, y: (-UNIT) as i64 },
            Movement::Right => Vector { x: UNIT, y: 0 },
            Movement::Down => Vector { x: 0, y: UNIT },
            Movement::Left => Vector { x: (-UNIT) as i64, y: 0 },
        }
    }

    /// The step of length one in this direction.
    pub fn vector(&self) -> (v: Vector)
        ensures
            v == self.spec_vector(),
            is_heading(v),
    {
        let (x, y): (i64, i64) = match self {
            Movement::Top => (0, -UNIT),
            Movement::Right => (UNIT, 0),
            Movement::Down => (0, UNIT),
            Movement::Left => (-UNIT, 0),
        };
        Vector::new(x, y)
    }

    /// The movement whose heading is `v`, if `v` is a heading at all.
    pub fn from_vector(v: Vector) -> (r: Option<Movement>)
        ensures
            r is Some <==> is_heading(v),
            r matches Some(m) ==> m.spec_vector() == v,
    {
        if v.x == 0 && v.y == -UNIT {
            Some(Movement::Top)
        } else if v.x == UNIT && v.y == 0 {
            Some(Movement::Right)
        } else if v.x == 0 && v.y == UNIT {
            Some(Movement::Down)
        } else if v.x == -UNIT && v.y == 0 {
            Some(Movement::Left)
        } else {
            None
        }
    }
}

} // verus!
