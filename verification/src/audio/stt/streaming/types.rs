//! Settings and events of a transcription session. Times are in nanoseconds.
use vstd::prelude::*;

use crate::array::Array;

verus! {

/// The least time between two decode passes: 50 milliseconds.
pub const MIN_DECODE_INTERVAL: u64 = 50_000_000;

/// The settings of a session.
#[derive(Clone, Copy, Debug)]
pub struct StreamingConfig {
    /// The time between two decode passes.
    pub decode_interval: u64,
    /// The time between two decode passes behind the end of a window.
    pub boundary_decode_interval: u64,
    /// How long the end of a window keeps passes closer together.
    pub boundary_boost: u64,
    /// How many encoded windows the encoder keeps.
    pub max_cached_windows: usize,
    /// Whether a finished window is decoded as a whole.
    pub finalize_completed_windows: bool,
    /// In how many passes a token must come out the same.
    pub min_agreement_passes: usize,
    /// The same behind the end of a window.
    pub boundary_min_agreement_passes: usize,
    /// How long a token must have stood, in milliseconds.
    pub delay_ms: u32,
    /// The most tokens that one pass may give.
    pub max_tokens_per_pass: usize,
}

/// Figures of a decode pass.
#[derive(Clone, Copy, Debug, PartialEq, Eq, Structural)]
pub struct StreamingStats {
    /// How many windows have been encoded.
    pub encoded_window_count: usize,
    /// How many samples have been fed.
    pub total_samples: usize,
    /// How many tokens came out.
    pub generated_tokens: usize,
    /// How long decoding took.
    pub decode_time: u64,
}

/// What a session reports.
#[derive(Clone, Debug)]
pub enum TranscriptionEvent {
    /// All text confirmed so far.
    Confirmed { text: String },
    /// All text confirmed so far and what may still change.
    DisplayUpdate { confirmed_text: String, provisional_text: String },
    /// Figures of the pass.
    Stats(StreamingStats),
    /// The session is over; this is all of its text.
    Ended { full_text: String },
}

/// What the encoder makes of samples.
#[derive(Debug)]
pub struct EncodedFeed {
    /// The features of the windows that were finished, in order.
    pub windows: Vec<Array>,
    /// Whether frames of an unfinished window wait.
    pub has_pending_frames: bool,
}

} // verus!
