//! The four cursor directions of the spiral walk and its single transition:
//! a counter-clockwise quarter turn.

use vstd::prelude::*;

verus! {

/// The direction the spiral cursor is currently moving in.
#[derive(Clone, Copy, PartialEq, Eq, Structural, Debug)]
pub enum Directions {
    Right,
    Up,
    Left,
    Down,
}

/// The cyclic transition Right -> Up -> Left -> Down -> Right.
pub open spec fn spec_rotate_counter_clockwise(d: Directions) -> Directions {
    match d {
        Directions::Right => Directions::Up,
        Directions::Up => Directions::Left,
        Directions::Left => Directions::Down,
        Directions::Down => Directions::Right,
    }
}

impl Directions {
    /// Turns the direction one quarter counter-clockwise.
    pub fn rotate_counter_clockwise(&self) -> (r: Directions)
        ensures
            r == spec_rotate_counter_clockwise(*self),
    {
        match self {
            Directions::Right => Directions::Up,
            Directions::Up => Directions::Left,
            Directions::Left => Directions::Down,
            Directions::Down => Directions::Right,
        }
    }
}

} // verus!
