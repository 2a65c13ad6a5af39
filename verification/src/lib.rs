//! Positional feedback for a fixed-length word-guessing game.
//!
//! A secret word and a guess, both five letters, are compared to produce a
//! per-position feedback label. A consistency predicate then decides whether
//! a candidate word could still be the secret given a (guess, feedback) pair,
//! and a simulation driver measures how many guess-and-filter rounds it takes
//! for a candidate pool to shrink to the secret alone.

pub mod feedback;
pub mod filter;
pub mod laws;
pub mod sim;
pub mod words;
