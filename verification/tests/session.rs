//! Transcription sessions.
use std::sync::Mutex;

use mlxrs::array::Array;
use mlxrs::audio::stt::streaming::cadence::{Arrival, Cadence};
use mlxrs::audio::stt::streaming::promotion::{promote, Provisional};
use mlxrs::audio::stt::streaming::session::{
    agreement_required, boost_runs, max_final_tokens, max_pass_tokens, window_text, StreamingDecoderBackend,
    StreamingInferenceSession, StreamingTokenizer,
};
use mlxrs::audio::stt::streaming::transcript::{append_text, concat_text};
use mlxrs::audio::stt::streaming::types::{EncodedFeed, StreamingConfig, TranscriptionEvent};
use mlxrs::error::Error;

type Result<T> = std::result::Result<T, Error>;

fn features(rows: usize) -> Array {
    Array::zeros(&[rows, 2]).unwrap()
}

struct MockDecoder {
    tokens: Mutex<Vec<Vec<u32>>>,
    calls: Mutex<Vec<(usize, usize, usize)>>,
}

impl MockDecoder {
    fn with_tokens(seqs: Vec<Vec<u32>>) -> MockDecoder {
        MockDecoder { tokens: Mutex::new(seqs), calls: Mutex::new(Vec::new()) }
    }

    fn call_count(&self) -> usize {
        self.calls.lock().unwrap().len()
    }
}

impl StreamingDecoderBackend for MockDecoder {
    fn decode_all_tokens(
        &self,
        audio_features: &Array,
        confirmed_token_ids: &[u32],
        _config: &StreamingConfig,
        max_tokens: usize,
    ) -> Result<Vec<u32>> {
        let rows = audio_features.shape().first().copied().unwrap_or(0);
        self.calls.lock().unwrap().push((rows, confirmed_token_ids.len(), max_tokens));
        let mut queue = self.tokens.lock().unwrap();
        Ok(if queue.is_empty() { Vec::new() } else { queue.remove(0) })
    }
}

struct MockTokenizer;

impl StreamingTokenizer for MockTokenizer {
    fn decode_ids(&self, ids: &[u32]) -> String {
        ids.iter().map(|id| format!("t{id}")).collect::<Vec<_>>().join(" ")
    }
}

fn config(finalize_completed_windows: bool) -> StreamingConfig {
    StreamingConfig {
        decode_interval: 0,
        boundary_decode_interval: 0,
        boundary_boost: 0,
        max_cached_windows: 4,
        finalize_completed_windows,
        min_agreement_passes: 1,
        boundary_min_agreement_passes: 1,
        delay_ms: 0,
        max_tokens_per_pass: 512,
    }
}

fn audio_session() -> StreamingInferenceSession<MockDecoder, MockTokenizer> {
    let decoder = MockDecoder::with_tokens(vec![vec![10, 11, 12]]);
    StreamingInferenceSession::new(decoder, MockTokenizer, config(false))
}

/// Frames of an unfinished window, and the features that they have.
fn pending() -> Result<Option<EncodedFeed>> {
    Ok(Some(EncodedFeed { windows: Vec::new(), has_pending_frames: true }))
}

fn finished(rows: usize) -> Result<Option<EncodedFeed>> {
    Ok(Some(EncodedFeed { windows: vec![features(rows)], has_pending_frames: true }))
}

#[test]
fn feed_audio_short_input_yields_no_events_until_mel_emits() {
    let mut session = audio_session();
    let events = session.feed_audio(1, Ok(None), || Ok(Some(features(1)))).unwrap();
    assert!(events.is_empty(), "events={events:?}");
    assert_eq!(session.total_samples_fed(), 1);
    assert_eq!(session.decoder().call_count(), 0);
}

#[test]
fn feed_audio_long_input_drives_pending_window_decode_with_recorded_call_shape() {
    let mut session = audio_session();
    let events = session.feed_audio(2400, pending(), || Ok(Some(features(10)))).unwrap();
    assert_eq!(session.decoder().call_count(), 1);
    let (rows, confirmed_count, max_tokens) = session.decoder().calls.lock().unwrap()[0];
    assert!(rows > 0, "expected non-zero pending rows, got {rows}");
    assert_eq!(confirmed_count, 0);
    assert_eq!(max_tokens, 24);
    assert!(
        matches!(events.first(), Some(TranscriptionEvent::Confirmed { .. })),
        "events[0]={:?}",
        events.first()
    );
    assert!(events.iter().any(|e| matches!(e, TranscriptionEvent::Stats(_))));
}

#[test]
fn stop_emits_ended_event_with_accumulated_text() {
    let mut session = audio_session();
    let _ = session.feed_audio(2400, pending(), || Ok(Some(features(10)))).unwrap();
    let stop_events = session.stop(Ok(None), || Ok(None)).unwrap();
    let Some(TranscriptionEvent::Ended { full_text }) = stop_events.last() else {
        panic!("stop events: {stop_events:?}");
    };
    assert_eq!(full_text, "t10 t11 t12");
    assert!(!session.is_active());
}

#[test]
fn cancel_marks_inactive_and_drops_state() {
    let mut session = audio_session();
    let _ = session.feed_audio(2400, pending(), || Ok(Some(features(10)))).unwrap();
    session.cancel();
    assert!(!session.is_active());
    let after = session.feed_audio(2400, pending(), || Ok(Some(features(10)))).unwrap();
    assert!(after.is_empty());
    assert_eq!(session.total_samples_fed(), 2400);
}

#[test]
fn append_text_basic_concatenation_and_trim() {
    let mut base = String::new();
    append_text("hello", &mut base);
    assert_eq!(base, "hello");
    append_text("world", &mut base);
    assert_eq!(base, "hello world");
    append_text("  ", &mut base);
    assert_eq!(base, "hello world");
    append_text("!", &mut base);
    assert_eq!(base, "hello world !");
    assert_eq!(concat_text("a", " b "), "a b");
}

struct ScriptedDecoder {
    results: Mutex<Vec<Result<Vec<u32>>>>,
    calls: Mutex<usize>,
}

impl ScriptedDecoder {
    fn with_results(results: Vec<Result<Vec<u32>>>) -> ScriptedDecoder {
        ScriptedDecoder { results: Mutex::new(results), calls: Mutex::new(0) }
    }

    fn call_count(&self) -> usize {
        *self.calls.lock().unwrap()
    }
}

impl StreamingDecoderBackend for ScriptedDecoder {
    fn decode_all_tokens(
        &self,
        _audio_features: &Array,
        _confirmed_token_ids: &[u32],
        _config: &StreamingConfig,
        _max_tokens: usize,
    ) -> Result<Vec<u32>> {
        *self.calls.lock().unwrap() += 1;
        let mut q = self.results.lock().unwrap();
        if q.is_empty() {
            Ok(Vec::new())
        } else {
            q.remove(0)
        }
    }
}

type FinalizeSession = StreamingInferenceSession<ScriptedDecoder, MockTokenizer>;

fn finalize_session(decoder: ScriptedDecoder) -> FinalizeSession {
    StreamingInferenceSession::new(
        decoder,
        MockTokenizer,
        StreamingConfig { max_cached_windows: 8, ..config(true) },
    )
}

fn drive_two_phase(
    session: &mut FinalizeSession,
) -> (Result<Vec<TranscriptionEvent>>, Result<Vec<TranscriptionEvent>>) {
    let partial_events = session.feed_audio(800, pending(), || Ok(Some(features(3))));
    let boundary_events = session.feed_audio(1200, finished(8), || Ok(Some(features(3))));
    (partial_events, boundary_events)
}

fn scripted_failure() -> Result<Vec<u32>> {
    Err(Error::Backend { message: "scripted finalize failure".into() })
}

#[test]
fn streaming_session_first_window_finalization_runs_full_decode_not_streamed_fallback() {
    let decoder = ScriptedDecoder::with_results(vec![Ok(vec![1, 2, 3]), Ok(vec![9, 8, 7])]);
    let mut session = finalize_session(decoder);
    let (partial_events, boundary_events) = drive_two_phase(&mut session);
    partial_events.unwrap();
    boundary_events.unwrap();
    assert!(
        session.decoder().call_count() >= 2,
        "expected >= 2 decoder calls (pending + finalize), got {}",
        session.decoder().call_count()
    );
}

#[test]
fn streaming_session_first_window_finalization_appends_full_decode_not_partial_text() {
    let decoder = ScriptedDecoder::with_results(vec![Ok(vec![1, 2, 3]), Ok(vec![90, 91, 92])]);
    let mut session = finalize_session(decoder);
    let (partial_events, boundary_events) = drive_two_phase(&mut session);
    partial_events.unwrap();
    boundary_events.unwrap();
    let stop_events = session.stop(Ok(None), || Ok(None)).unwrap();
    let Some(TranscriptionEvent::Ended { full_text }) = stop_events.last() else {
        panic!("last stop event was not Ended: {stop_events:?}");
    };
    assert!(full_text.contains("t90"), "got {full_text:?}");
    assert_eq!(full_text, "t90 t91 t92");
}

#[test]
fn streaming_session_blank_decode_falls_back_on_streamed_text() {
    let decoder = ScriptedDecoder::with_results(vec![Ok(vec![1, 2]), Ok(vec![])]);
    let mut session = finalize_session(decoder);
    let (partial_events, boundary_events) = drive_two_phase(&mut session);
    partial_events.unwrap();
    boundary_events.unwrap();
    let stop_events = session.stop(Ok(None), || Ok(None)).unwrap();
    let Some(TranscriptionEvent::Ended { full_text }) = stop_events.last() else {
        panic!("last stop event was not Ended: {stop_events:?}");
    };
    assert_eq!(full_text, "t1 t2");
}

#[test]
fn streaming_session_decoder_error_keeps_window_for_retry() {
    let decoder = ScriptedDecoder::with_results(vec![
        Ok(vec![1]),
        scripted_failure(),
        Ok(vec![42]),
    ]);
    let mut session = finalize_session(decoder);
    let (partial_events, boundary_events) = drive_two_phase(&mut session);
    partial_events.unwrap();
    assert!(boundary_events.is_err(), "got {boundary_events:?}");
    assert_eq!(session.waiting_window_count(), 1, "the window must wait");
    let retry_events = session.feed_audio(200, pending(), || Ok(Some(features(1)))).unwrap();
    assert_eq!(session.waiting_window_count(), 0, "the retry must take the window up");
    assert!(!retry_events.is_empty(), "retry decode must emit at least the Stats event");
}

#[test]
fn streaming_session_decoder_error_does_not_advance_frozen_window_count() {
    let decoder = ScriptedDecoder::with_results(vec![Ok(vec![1]), scripted_failure()]);
    let mut session = finalize_session(decoder);
    let (partial_events, boundary_events) = drive_two_phase(&mut session);
    partial_events.unwrap();
    assert!(boundary_events.is_err(), "got {boundary_events:?}");
    assert_eq!(session.encoded_window_count(), 1, "exactly one window");
    assert_eq!(session.frozen_window_count(), 0, "an error must not advance the count");
    assert_eq!(session.waiting_window_count(), 1);
}

#[test]
fn waiting_window_is_decoded_by_a_feed_without_frames() {
    let decoder = ScriptedDecoder::with_results(vec![
        Ok(vec![1]),
        scripted_failure(),
        Ok(vec![42, 43]),
    ]);
    let mut session = finalize_session(decoder);
    assert!(drive_two_phase(&mut session).1.is_err());
    let events = session.feed_audio(1, Ok(None), || Ok(None)).unwrap();
    assert_eq!(session.waiting_window_count(), 0);
    assert_eq!(session.total_samples_fed(), 2001);
    let Some(TranscriptionEvent::Stats(stats)) = events.last() else {
        panic!("{events:?}");
    };
    assert_eq!((events.len(), stats.generated_tokens), (1, 2));
}

#[test]
fn next_stop_decodes_a_window_that_failed() {
    let decoder = ScriptedDecoder::with_results(vec![
        Ok(vec![1]),
        scripted_failure(),
        scripted_failure(),
        Ok(vec![42]),
    ]);
    let mut session = finalize_session(decoder);
    assert!(drive_two_phase(&mut session).1.is_err());
    assert!(session.stop(Ok(None), || Ok(None)).is_err());
    assert!(!session.is_active());
    assert_eq!(session.waiting_window_count(), 1);
    assert!(session.feed_audio(9, pending(), || Ok(None)).unwrap().is_empty());
    let events = session.stop(Ok(None), || Ok(None)).unwrap();
    let Some(TranscriptionEvent::Ended { full_text }) = events.last() else {
        panic!("{events:?}");
    };
    assert_eq!(full_text, "t42");
    assert_eq!(session.total_samples_fed(), 2000);
    assert!(session.stop(Ok(None), || Ok(None)).unwrap().is_empty());
}

#[test]
fn boost_lasts_until_its_end() {
    assert!(boost_runs(Some(5), 4));
    assert!(!boost_runs(Some(5), 5));
    assert!(!boost_runs(None, 0));
}

#[test]
fn session_errors_of_the_encoder_are_passed_on() {
    let mut session = audio_session();
    let no = || Error::Backend { message: "encoder".to_string() };
    let r = session.feed_audio(7, Err(no()), || Ok(None));
    assert_eq!(r.unwrap_err().message(), "encoder");
    assert_eq!(session.total_samples_fed(), 7);
    let r = session.feed_audio(7, pending(), || Err(no()));
    assert_eq!(r.unwrap_err().message(), "encoder");
    assert!(session.is_active());
    assert!(session.stop(Err(no()), || Ok(None)).is_err());
    assert!(!session.is_active());
    session.reset();
    assert!(session.is_active());
    assert_eq!(session.total_samples_fed(), 0);
}

#[test]
fn last_pass_decodes_the_unfinished_window_once_more() {
    let decoder = MockDecoder::with_tokens(vec![vec![1], vec![1, 2]]);
    let mut session = StreamingInferenceSession::new(decoder, MockTokenizer, config(false));
    session.feed_audio(100, pending(), || Ok(Some(features(5)))).unwrap();
    let events = session.stop(Ok(None), || Ok(Some(features(6)))).unwrap();
    let Some(TranscriptionEvent::Ended { full_text }) = events.last() else {
        panic!("{events:?}");
    };
    assert_eq!(full_text, "t1 t2");
    assert_eq!(session.decoder().calls.lock().unwrap()[1], (6, 1, 25));
}

#[test]
fn budgets_have_their_bounds() {
    assert_eq!(max_pass_tokens(10, 0, 512), 24);
    assert_eq!(max_pass_tokens(130, 0, 512), 100);
    assert_eq!(max_pass_tokens(131, 0, 512), 101);
    assert_eq!(max_pass_tokens(10, 30, 512), 54);
    assert_eq!(max_pass_tokens(1300, 0, 512), 512);
    assert_eq!(max_final_tokens(30, 512), 54);
    assert_eq!(max_final_tokens(600, 512), 512);
    let cfg = StreamingConfig { boundary_min_agreement_passes: 3, ..config(false) };
    assert_eq!(agreement_required(&cfg, false), 1);
    assert_eq!(agreement_required(&cfg, true), 3);
    let none = StreamingConfig { min_agreement_passes: 0, ..cfg };
    assert_eq!(agreement_required(&none, false), 1);
}

#[test]
fn window_text_prefers_the_full_decode() {
    let streamed = || Some("streamed".to_string());
    assert_eq!(window_text(5, "full".to_string(), streamed()), "full");
    assert_eq!(window_text(5, "  ".to_string(), streamed()), "streamed");
    assert_eq!(window_text(5, "  ".to_string(), None), "  ");
    assert_eq!(window_text(0, "".to_string(), streamed()), "streamed");
    assert_eq!(window_text(0, "".to_string(), None), "");
}

#[test]
fn tokens_are_promoted_when_they_have_stood() {
    let first = promote(&Provisional::new(), &[5, 6], 0, 1_000, 500, 2);
    assert!(first.promoted.is_empty());
    assert_eq!(first.provisional.ids, vec![5, 6]);
    // The second pass agrees on the first token only.
    let second = promote(&first.provisional, &[5, 7], 0, 2_000, 500, 2);
    assert_eq!(second.promoted, vec![5]);
    assert_eq!(second.provisional.ids, vec![7]);
    // Too early, though it agrees.
    let third = promote(&second.provisional, &[5, 7], 1, 2_100, 500, 2);
    assert!(third.promoted.is_empty());
    let fourth = promote(&third.provisional, &[5, 7], 1, 2_500, 500, 2);
    assert_eq!(fourth.promoted, vec![7]);
}

#[test]
fn passes_keep_their_distance() {
    let cfg = StreamingConfig { decode_interval: 1_000_000_000, ..config(true) };
    let at = |now: u64| Arrival { new_windows: false, pending_frames: true, waiting: false, now };
    let mut cadence = Cadence::start();
    assert!(cadence.advance(&cfg, at(0)));
    assert!(!cadence.advance(&cfg, at(999_999_999)));
    assert!(cadence.advance(&cfg, at(1_000_000_000)));
    let finished = Arrival { new_windows: true, ..at(1_000_000_001) };
    assert!(cadence.advance(&cfg, finished));
}
