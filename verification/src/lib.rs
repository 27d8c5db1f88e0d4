use vstd::prelude::*;

pub mod array;
pub mod audio;
pub mod dtype;
pub mod embeddings;
pub mod error;
pub mod exact;
pub mod hex;
pub mod lm;
pub mod memory;
pub mod names;
pub mod ops;
pub mod order;
pub mod scalar;
pub mod shape;
pub mod shared;
pub mod stream;
pub mod text;
pub mod transforms;
pub mod vlm;

verus! {
}
