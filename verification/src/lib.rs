//! Small verified exercises: a number-guessing session, a handful of loops
//! whose results are stated exactly, and two one-line functions.

pub mod control_flow;
pub mod functions;
pub mod guessing_game;
