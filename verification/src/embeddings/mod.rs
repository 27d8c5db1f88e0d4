//! Text embeddings.
pub mod encode;
pub mod exact;
pub mod pool;
