//! Audio: signal processing, playback and streaming transcription.
pub mod dsp;
pub mod exact;
pub mod playback;
pub mod spectra;
pub mod stt;
