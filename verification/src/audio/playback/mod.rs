//! Playback of samples as they come in.
pub mod config;
pub mod player;
