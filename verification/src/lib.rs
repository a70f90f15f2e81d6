//! Scoring of a cribbage hand at the show: fifteens, pairs and runs.
//!
//! Every scoring function is executable Rust with a contract that pins its
//! result to a mathematical definition over the sequence of cards. The
//! definitions stand beside the functions, one module a rule; `scoring` lists
//! the rules by name and adds them up, and `laws` holds what is proved of the
//! rules together.

pub mod cards;
pub mod deck;
pub mod fifteens;
pub mod laws;
pub mod pairs;
pub mod runs;
pub mod scoring;
pub mod sorting;
