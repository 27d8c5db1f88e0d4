//! Operations on arrays.
pub mod arithmetic;
pub mod comparison;
pub mod fft;
pub mod indexing;
pub mod linalg;
pub mod quantized;
pub mod reduction;
pub mod shape;
pub mod unary;
