//! Functions over arrays as values.
pub mod closure;
