//! The four directions a move request can take, with their grid offsets.

use vstd::prelude::*;

verus! {

/// A directional move intent, fed to the engine by the host's input layer.
#[derive(Clone, Copy, Debug, PartialEq, Eq, Structural)]
pub enum Direction {
    Left,
    Right,
    Up,
    Down,
}

/// Row delta of one step in direction `d`.
pub open spec fn delta_row(d: Direction) -> int {
    match d {
        Direction::Left => 0,
        Direction::Right => 0,
        Direction::Up => -1,
        Direction::Down => 1,
    }
}

/// Column delta of one step in direction `d`.
pub open spec fn delta_col(d: Direction) -> int {
    match d {
        Direction::Left => -1,
        Direction::Right => 1,
        Direction::Up => 0,
        Direction::Down => 0,
    }
}

/// The opposite direction.
pub open spec fn spec_invert(d: Direction) -> Direction {
    match d {
        Direction::Left => Direction::Right,
        Direction::Right => Direction::Left,
        Direction::Up => Direction::Down,
        Direction::Down => Direction::Up,
    }
}

impl Direction {
    /// The (row, col) offset of one step in this direction.
    pub fn to_offset(&self) -> (r: (isize, isize))
        ensures
            r.0 as int == delta_row(*self),
            r.1 as int == delta_col(*self),
    {
        match self {
            Direction::Left => (0, -1),
            Direction::Right => (0, 1),
            Direction::Up => (-1, 0),
            Direction::Down => (1, 0),
        }
    }

    /// The opposite direction.
    pub fn invert(&self) -> (r: Direction)
        ensures
            r == spec_invert(*self),
    {
        match self {
            Direction::Left => Direction::Right,
            Direction::Right => Direction::Left,
            Direction::Up => Direction::Down,
            Direction::Down => Direction::Up,
        }
    }
}

/// Inverting a direction twice gives the direction back, and one step in a
/// direction followed by one step in its inverse cancels out.
pub proof fn lemma_invert_involution(d: Direction)
    ensures
        spec_invert(spec_invert(d)) == d,
        delta_row(d) + delta_row(spec_invert(d)) == 0,
        delta_col(d) + delta_col(spec_invert(d)) == 0,
{
}

} // verus!
