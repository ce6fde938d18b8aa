//! A five-in-a-row engine for the 19x19 board: packed board state, threat
//! evaluation, move generation, position hashing and alpha-beta search.
//!
//! The executable code lives in [`bits`], [`goban`], [`zobrist_hashing`],
//! [`threat`], [`threat_evaluator`], [`transposition_table`], [`gomoku`] and
//! [`coordinates`]. What it computes is stated over the mathematical models
//! of [`windows`], [`axis_scan`], [`move_generator`], [`drawing`],
//! [`game_tree`] and [`tally`]. The laws that hold of the engine as a whole
//! are proved in [`win_detection`], [`symmetry`] and [`pruning`], and beside
//! the definitions they speak of.

pub mod axis_scan;
pub mod bits;
pub mod coordinates;
pub mod drawing;
pub mod evaluator;
pub mod game_tree;
pub mod goban;
pub mod gomoku;
pub mod move_generator;
pub mod pruning;
pub mod symmetry;
pub mod tally;
pub mod threat;
pub mod threat_evaluator;
pub mod transposition_table;
pub mod win_detection;
pub mod windows;
pub mod zobrist_hashing;
