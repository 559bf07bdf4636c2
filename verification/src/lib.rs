//! Core of a nonogram (picture-logic) puzzle: clue derivation by run-length
//! encoding, the three-state cell grid with its toggle semantics, the mapping
//! from pointer coordinates to grid cells, and win-condition detection.

pub mod coords;
pub mod grid;
pub mod puzzle;
pub mod runs;
