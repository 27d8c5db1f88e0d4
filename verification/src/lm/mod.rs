//! Language models: low-rank adapters and training.
pub mod lora;
pub mod quant;
pub mod tuner;
