//! The four cardinal directions of the flow field.
use vstd::prelude::*;

verus! {

/// A cardinal movement direction.  `Up` is towards larger `y`, `Right`
/// towards larger `x`.
#[derive(Clone, Copy, Debug, PartialEq, Eq, Structural)]
pub enum Direction {
    Up,
    Left,
    Right,
    Down,
}

impl Direction {
    /// The direction with the given index, in the order up, left, right, down.
    pub open spec fn of_index(index: int) -> Direction {
        if index == 0 {
            Direction::Up
        } else if index == 1 {
            Direction::Left
        } else if index == 2 {
            Direction::Right
        } else {
            Direction::Down
        }
    }

    /// Position of this direction in the order up, left, right, down.
    pub open spec fn index_of(self) -> int {
        match self {
            Direction::Up => 0,
            Direction::Left => 1,
            Direction::Right => 2,
            Direction::Down => 3,
        }
    }

    /// Change of the `x` coordinate on one step in this direction.
    pub open spec fn dx(self) -> int {
        match self {
            Direction::Up => 0,
            Direction::Left => -1,
            Direction::Right => 1,
            Direction::Down => 0,
        }
    }

    /// Change of the `y` coordinate on one step in this direction.
    pub open spec fn dy(self) -> int {
        match self {
            Direction::Up => 1,
            Direction::Left => 0,
            Direction::Right => 0,
            Direction::Down => -1,
        }
    }

    /// The direction that undoes a step in this one.
    pub open spec fn reversed(self) -> Direction {
        match self {
            Direction::Up => Direction::Down,
            Direction::Left => Direction::Right,
            Direction::Right => Direction::Left,
            Direction::Down => Direction::Up,
        }
    }

    /// The direction with the given index, in the order up, left, right, down.
    pub fn new(index: usize) -> (direction: Direction)
        requires
            index < 4,
        ensures
            direction == Direction::of_index(index as int),
            direction.index_of() == index,
    {
        match index {
            0 => Direction::Up,
            1 => Direction::Left,
            2 => Direction::Right,
            _ => Direction::Down,
        }
    }

    /// Position of this direction in the order up, left, right, down.
    pub fn index(self) -> (index: usize)
        ensures
            index == self.index_of(),
            index < 4,
    {
        match self {
            Direction::Up => 0,
            Direction::Left => 1,
            Direction::Right => 2,
            Direction::Down => 3,
        }
    }

    /// The unit vector of this direction.
    pub fn offset(self) -> (step: (i64, i64))
        ensures
            step.0 == self.dx(),
            step.1 == self.dy(),
    {
        match self {
            Direction::Up => (0, 1),
            Direction::Left => (-1, 0),
            Direction::Right => (1, 0),
            Direction::Down => (0, -1),
        }
    }

    /// The direction that undoes a step in this one.
    pub fn opposite(self) -> (back: Direction)
        ensures
            back == self.reversed(),
    {
        match self {
            Direction::Up => Direction::Down,
            Direction::Left => Direction::Right,
            Direction::Right => Direction::Left,
            Direction::Down => Direction::Up,
        }
    }
}

} // verus!
