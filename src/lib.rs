//! A grid-based snake simulation: board, snake, food and score record, with
//! the decisions of each tick and each command stated and proved.
use vstd::prelude::*;

pub mod board;
pub mod random;
pub mod scores;
pub mod signal;
pub mod snake;
pub mod game;
pub mod laws;
