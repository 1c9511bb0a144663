//! The rules of a falling-block puzzle game: the grid and its collisions,
//! the pieces and their rotations, the bag of pieces to come, line clearing,
//! scoring and pacing, and the game's state machine.

pub mod board;
pub mod engine;
pub mod pacing;
pub mod scoring;
pub mod sequence;
pub mod shapes;
