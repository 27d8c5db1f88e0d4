//! Training.
pub mod clip;
pub mod exact;
pub mod schedulers;
pub mod sgd;
