//! Low-rank adapters of linear layers.
//!
//! An adapter adds to a linear layer `y = x W^T` a term of low rank: with
//! factors `a` and `b` and a scale `s` the layer gives
//! `x W^T + s * ((x a) b)`. A weight-decomposed adapter also carries the norms
//! that the rows of the adapted weight are brought to.
pub mod config;
pub mod exact;
pub mod layers;
pub mod linear;
pub mod numbers;
pub mod selection;
