//! Constraint-based solver for a five-letter word-guessing game: feedback
//! interpretation, candidate filtering and the per-game solve loop.
pub mod feedback;
pub mod session;
pub mod solver;

pub use feedback::{Tag, SolveError, interpret_tile, interpret_row, is_all_correct, is_all_absent, masked_line};
pub use session::{Phase, Session};
pub use solver::{apply, survives};
