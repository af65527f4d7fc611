//! Validator for solved skyscraper puzzles.
//!
//! A puzzle consists of a square grid of building heights together with
//! visibility clues along the four edges. The library parses whitespace
//! separated integer text, checks the structural consistency of the clue
//! and grid sequences, extracts each line of sight, and verifies that the
//! number of visible buildings along every line matches its clue.

pub mod checker;
pub mod errors;
pub mod lines;
pub mod parse;
