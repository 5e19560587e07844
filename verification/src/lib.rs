//! A solver for the game of Connect Four on the classic 7 x 6 board.
//!
//! The board is held as a pair of 64-bit masks; the solver is a negamax search
//! with alpha-beta pruning and a transposition table.

pub mod bits;
pub mod text;
pub mod mask;
pub mod board;
pub mod position;
pub mod outcome;
pub mod search;
pub mod solver;
pub mod value;
pub mod play;
pub mod symmetry;
pub mod lines;
