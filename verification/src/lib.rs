//! A 9x9 Sudoku solver based on iterative (non-recursive) backtracking.
//!
//! The board is a flat sequence of 81 cells, each holding 0 (empty) or a
//! digit 1..=9.  `validation` offers read-only duplicate checks over rows,
//! columns and 3x3 boxes; `solver` owns the search state (the immutable
//! givens, the mutable solving board, and a cursor) and drives the
//! exhaustive ordered search to either a complete valid grid or a proof
//! that none exists.

pub mod counting;
pub mod measure;
pub mod regions;
pub mod search;
pub mod solver;
pub mod validation;
