//! A move-validation engine for a 9x9 Sudoku board.
//!
//! The board is partitioned into nine 3x3 sub-grids. A move places a digit at
//! one cell; the engine always applies the move and then reports every cell
//! that now conflicts with it under the three Sudoku uniqueness constraints
//! (sub-grid, global row, global column). A session layer owns the single
//! authoritative board, records each submitted move, and counts how many
//! submissions were rejected.

pub mod coords;
pub mod duplicates;
pub mod subgrid;
pub mod board;
pub mod session;
