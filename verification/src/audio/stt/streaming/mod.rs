//! Transcription of audio while it comes in.
pub mod cadence;
pub mod guarantees;
pub mod promotion;
pub mod session;
pub mod transcript;
pub mod types;
