use std::collections::VecDeque;
use vstd::prelude::*;

verus! {

/// The way the snake faces.
#[derive(Clone, Copy, Debug, PartialEq, Eq, Structural)]
pub enum Direction {
    Left,
    Right,
    Up,
    Down,
}

/// A player command, as read from a key at the input boundary.
#[derive(Clone, Copy, Debug, PartialEq, Eq, Structural)]
pub enum Command {
    Left,
    Right,
    Up,
    Down,
    Quit,
    Ignore,
}

/// The direction that reverses `d`.
pub open spec fn opposite(d: Direction) -> Direction {
    match d {
        Direction::Left => Direction::Right,
        Direction::Right => Direction::Left,
        Direction::Up => Direction::Down,
        Direction::Down => Direction::Up,
    }
}

/// Column step of a move in direction `d`.
pub open spec fn step_dx(d: Direction) -> int {
    match d {
        Direction::Left => -1,
        Direction::Right => 1,
        _ => 0,
    }
}

/// Row step of a move in direction `d`.
pub open spec fn step_dy(d: Direction) -> int {
    match d {
        Direction::Up => -1,
        Direction::Down => 1,
        _ => 0,
    }
}

/// The snake: its cells as (row, column), head first, and its heading.
#[derive(Debug)]
pub struct Snake {
    pub cells: VecDeque<(u8, u8)>,
    pub dx: i8,
    pub dy: i8,
    pub direction: Direction,
}

impl Snake {
    /// The step vector agrees with the facing label.
    pub open spec fn heading_ok(&self) -> bool {
        self.dx as int == step_dx(self.direction) && self.dy as int == step_dy(self.direction)
    }

    /// A snake with no cells yet, facing right.
    pub fn new() -> (s: Self)
        ensures
            s.cells@.len() == 0,
            s.direction == Direction::Right,
            s.dx == 1 && s.dy == 0,
            s.heading_ok(),
    {
        Self { cells: VecDeque::new(), dx: 1, dy: 0, direction: Direction::Right }
    }
}

} // verus!
