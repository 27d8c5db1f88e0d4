//! Speech to text.
pub mod streaming;
