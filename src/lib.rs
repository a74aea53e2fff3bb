//! Solvers for small bioinformatics puzzles, built on a verified model of
//! DNA, RNA and protein sequences.

pub mod problems;
pub mod utils;
