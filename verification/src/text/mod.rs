//! Text as a sequence of Unicode scalar values.
//!
//! Every contract of the crate speaks of a text by its view, a `Seq<char>`.
//! This module holds the vocabulary for such sequences and the executable
//! functions that compute it.
pub mod chars;
pub mod laws;
pub mod number;
pub mod pieces;
pub mod search;
