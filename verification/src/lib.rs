//! A two-player line game on a square grid: the board and its rules, the
//! exhaustive search for the best move, the ways in which a side finds its
//! moves, and the scheduler that runs the rounds of a session.
//!
//! The contents of a board are modelled as a sequence of rows of markers,
//! and every contract is stated over that model. The cells themselves live
//! in an array of the `ndarray` crate and chance comes from the `rand`
//! crate; what is taken on trust of the two stands in `grid` and `random`.

pub mod marker;
pub mod rules;
pub mod grid;
pub mod random;
pub mod input;
pub mod board;
pub mod search;
pub mod strategy;
pub mod laws;
pub mod scheduler;
