//! A transcription session.
//!
//! Samples go through an encoder, which gives the features of finished windows
//! and, on demand, those of the unfinished one. The session decides when to
//! decode, which tokens are confirmed, and what text the session has. Finished
//! windows wait in a queue until they have been decoded: an error leaves the
//! window at the front, and the next call tries it again.
use std::collections::VecDeque;
use std::time::Instant;
use vstd::prelude::*;
use vstd::string::*;

use crate::array::{views, Array, Tensor};
use crate::audio::stt::streaming::cadence::{next_cadence, runs, Arrival, Cadence};
use crate::audio::stt::streaming::promotion::{
    behind, entries, is_settled_count, observed, promote, Promotion, Provisional,
};
use crate::audio::stt::streaming::transcript::{
    append_text, appended, appending_keeps_words, concat_text,
};
use crate::audio::stt::streaming::types::{
    EncodedFeed, StreamingConfig, StreamingStats, TranscriptionEvent,
};
use crate::error::{Error, Result};
use crate::text::{trim, trimmed};

verus! {

/// A point in time. Stands for `std::time::Instant`.
#[verifier::external_type_specification]
#[verifier::external_body]
pub struct ExInstant(std::time::Instant);

/// The present. Stands for `Instant::now`, of whose result nothing is said.
#[verifier::external_body]
fn present() -> Instant {
    Instant::now()
}

/// The nanoseconds since `start`. Stands for `Instant::elapsed`, of whose
/// result nothing is said.
#[verifier::external_body]
fn nanos_since(start: &Instant) -> u64 {
    start.elapsed().as_nanos() as u64
}

/// Decodes features into tokens; one for each kind of model.
pub trait StreamingDecoderBackend {
    /// All tokens of `audio_features`, the confirmed ones first, no more than
    /// `max_tokens`.
    fn decode_all_tokens(
        &self,
        audio_features: &Array,
        confirmed_token_ids: &[u32],
        config: &StreamingConfig,
        max_tokens: usize,
    ) -> Result<Vec<u32>>;
}

/// Turns tokens into text.
pub trait StreamingTokenizer {
    /// The text of the tokens.
    fn decode_ids(&self, ids: &[u32]) -> String;
}

// ---------------------------------------------------------------------------
// Budgets
// ---------------------------------------------------------------------------

/// The least number of tokens that a pass is given.
pub const MIN_TOKENS: usize = 24;

pub open spec fn smaller(a: int, b: int) -> int {
    if a < b {
        a
    } else {
        b
    }
}

pub open spec fn greater_of(a: int, b: int) -> int {
    if a < b {
        b
    } else {
        a
    }
}

/// How many tokens a pass may give for `rows` rows of features of the
/// unfinished window with `confirmed` tokens confirmed: ten for each thirteen
/// rows, but never fewer than 24, nor than 24 beyond the confirmed ones, and
/// no more than the limit.
pub open spec fn pass_budget(rows: int, confirmed: int, limit: int) -> int {
    smaller(
        limit,
        greater_of(
            greater_of((10 * rows + 12) / 13, MIN_TOKENS as int),
            smaller(confirmed + MIN_TOKENS, usize::MAX as int),
        ),
    )
}

/// How many tokens the last pass of a session may give.
pub open spec fn final_budget(confirmed: int, limit: int) -> int {
    smaller(limit, smaller(confirmed + MIN_TOKENS, usize::MAX as int))
}

/// How many tokens a pass may give.
pub fn max_pass_tokens(rows: usize, confirmed: usize, limit: usize) -> (n: usize)
    requires
        rows <= 0x7fff_ffff,
    ensures
        n == pass_budget(rows as int, confirmed as int, limit as int),
{
    let by_rows: u64 = (10 * rows as u64 + 12) / 13;
    let a: usize = if by_rows < MIN_TOKENS as u64 {
        MIN_TOKENS
    } else {
        by_rows as usize
    };
    let b: usize = confirmed.saturating_add(MIN_TOKENS);
    let wanted: usize = if a < b {
        b
    } else {
        a
    };
    if limit < wanted {
        limit
    } else {
        wanted
    }
}

/// How many tokens the last pass of a session may give.
pub fn max_final_tokens(confirmed: usize, limit: usize) -> (n: usize)
    ensures
        n == final_budget(confirmed as int, limit as int),
{
    let wanted: usize = confirmed.saturating_add(MIN_TOKENS);
    if limit < wanted {
        limit
    } else {
        wanted
    }
}

/// Whether the time behind the end of a window, which lasts until `fast_until`,
/// goes on at the time `now`.
pub open spec fn boosted(fast_until: Option<u64>, now: u64) -> bool {
    fast_until matches Some(until) && now < until
}

/// Whether the time behind the end of a window goes on at the time `now`.
pub fn boost_runs(fast_until: Option<u64>, now: u64) -> (b: bool)
    ensures
        b == boosted(fast_until, now),
{
    match fast_until {
        Some(until) => now < until,
        None => false,
    }
}

/// In how many passes a token must come out the same: in more behind the end
/// of a window, and in one at least.
pub open spec fn required_passes(cfg: StreamingConfig, boundary: bool) -> int {
    let least = greater_of(cfg.min_agreement_passes as int, 1);
    if boundary {
        greater_of(least, cfg.boundary_min_agreement_passes as int)
    } else {
        least
    }
}

/// In how many passes a token must come out the same at the time `now`.
pub open spec fn passes_at(cfg: StreamingConfig, fast_until: Option<u64>, now: u64) -> usize {
    required_passes(cfg, boosted(fast_until, now)) as usize
}

/// In how many passes a token must come out the same.
pub fn agreement_required(cfg: &StreamingConfig, boundary: bool) -> (n: usize)
    ensures
        n == required_passes(*cfg, boundary),
{
    let least: usize = if cfg.min_agreement_passes < 1 {
        1
    } else {
        cfg.min_agreement_passes
    };
    if boundary && least < cfg.boundary_min_agreement_passes {
        cfg.boundary_min_agreement_passes
    } else {
        least
    }
}

// ---------------------------------------------------------------------------
// Events
// ---------------------------------------------------------------------------

/// What an event says.
pub ghost enum EventModel {
    Confirmed(Seq<char>),
    DisplayUpdate(Seq<char>, Seq<char>),
    Stats(StreamingStats),
    Ended(Seq<char>),
}

/// What an event says.
pub open spec fn event(e: TranscriptionEvent) -> EventModel {
    match e {
        TranscriptionEvent::Confirmed { text } => EventModel::Confirmed(text@),
        TranscriptionEvent::DisplayUpdate {
            confirmed_text,
            provisional_text,
        } => EventModel::DisplayUpdate(confirmed_text@, provisional_text@),
        TranscriptionEvent::Stats(s) => EventModel::Stats(s),
        TranscriptionEvent::Ended { full_text } => EventModel::Ended(full_text@),
    }
}

pub open spec fn events(v: Seq<TranscriptionEvent>) -> Seq<EventModel> {
    v.map_values(|e: TranscriptionEvent| event(e))
}

// ---------------------------------------------------------------------------
// Text and tokens of a session
// ---------------------------------------------------------------------------

/// The text and the tokens of a session.
#[derive(Debug)]
pub struct SessionSharedState {
    /// The text of finished windows.
    pub completed_text: String,
    /// The confirmed tokens of the unfinished window.
    pub confirmed_token_ids: Vec<u32>,
    /// Those that may still change.
    pub provisional: Provisional,
    /// The text of the confirmed tokens.
    pub confirmed_text: String,
}

/// What the text and the tokens of a session stand for.
pub ghost struct SharedModel {
    pub completed: Seq<char>,
    pub confirmed_ids: Seq<u32>,
    pub provisional: Seq<(u32, u64, usize)>,
    pub confirmed: Seq<char>,
}

impl SharedModel {
    /// Without tokens of the unfinished window.
    pub open spec fn cleared(self) -> SharedModel {
        SharedModel {
            completed: self.completed,
            confirmed_ids: Seq::empty(),
            provisional: Seq::empty(),
            confirmed: Seq::empty(),
        }
    }

    /// With the text of a finished window.
    pub open spec fn committed(self, text: Seq<char>) -> SharedModel {
        SharedModel { completed: appended(self.completed, text), ..self.cleared() }
    }

    /// All text: that of finished windows and the confirmed.
    pub open spec fn full_text(self) -> Seq<char> {
        appended(self.completed, self.confirmed)
    }

    /// Those tokens of the unfinished window that may still change.
    pub open spec fn provisional_ids(self) -> Seq<u32> {
        self.provisional.map_values(|e: (u32, u64, usize)| e.0)
    }

    /// All tokens of the unfinished window.
    pub open spec fn all_ids(self) -> Seq<u32> {
        self.confirmed_ids + self.provisional_ids()
    }
}

/// Nothing yet.
pub open spec fn blank() -> SharedModel {
    SharedModel {
        completed: Seq::empty(),
        confirmed_ids: Seq::empty(),
        provisional: Seq::empty(),
        confirmed: Seq::empty(),
    }
}

/// The text of a finished window of `rows` rows: that of its decoding `full`,
/// unless this is blank and there is text from before; for a window without
/// rows, which is not decoded, the text from before.
pub open spec fn text_of_window(rows: int, full: Seq<char>, fallback: Option<Seq<char>>) -> Seq<
    char,
> {
    if rows == 0 {
        match fallback {
            Some(t) => t,
            None => Seq::empty(),
        }
    } else if trimmed(full).len() == 0 && fallback is Some {
        fallback->0
    } else {
        full
    }
}

/// What an optional text is.
pub open spec fn text_opt(t: Option<String>) -> Option<Seq<char>> {
    match t {
        Some(s) => Some(s@),
        None => None,
    }
}

/// The text of a finished window of `rows` rows, given that of its decoding
/// and that from before.
pub fn window_text(rows: usize, full: String, fallback: Option<String>) -> (r: String)
    ensures
        r@ == text_of_window(rows as int, full@, text_opt(fallback)),
{
    match fallback {
        Some(t) => {
            if rows == 0 || trim(full.as_str()).is_empty() {
                t
            } else {
                full
            }
        },
        None => {
            if rows == 0 {
                String::new()
            } else {
                full
            }
        },
    }
}

/// Whatever was streamed for a finished window, the text of its own decoding
/// stands, unless that is blank.
pub proof fn full_decode_wins(rows: int, full: Seq<char>, fallback: Option<Seq<char>>)
    requires
        rows > 0,
        trimmed(full).len() > 0,
    ensures
        text_of_window(rows, full, fallback) == full,
{
}

impl View for SessionSharedState {
    type V = SharedModel;

    open spec fn view(&self) -> SharedModel {
        SharedModel {
            completed: self.completed_text@,
            confirmed_ids: self.confirmed_token_ids@,
            provisional: entries(self.provisional),
            confirmed: self.confirmed_text@,
        }
    }
}

impl SessionSharedState {
    /// Nothing yet.
    pub fn new() -> (s: SessionSharedState)
        ensures
            s@ == blank(),
            s.provisional.wf(),
    {
        let s = SessionSharedState {
            completed_text: String::new(),
            confirmed_token_ids: Vec::new(),
            provisional: Provisional::new(),
            confirmed_text: String::new(),
        };
        assert(s@.provisional =~= Seq::<(u32, u64, usize)>::empty());
        assert(s@.confirmed_ids =~= Seq::<u32>::empty());
        s
    }

    /// Takes up the text of a finished window and drops its tokens.
    pub fn commit_window(&mut self, text: &str)
        ensures
            final(self)@ == old(self)@.committed(text@),
            final(self).provisional.wf(),
    {
        append_text(text, &mut self.completed_text);
        self.confirmed_token_ids = Vec::new();
        self.provisional = Provisional::new();
        self.confirmed_text = String::new();
        assert(self@.provisional =~= Seq::<(u32, u64, usize)>::empty());
        assert(self@.confirmed_ids =~= Seq::<u32>::empty());
    }

    /// All tokens of the unfinished window.
    pub fn all_ids(&self) -> (v: Vec<u32>)
        ensures
            v@ == self@.all_ids(),
    {
        let mut v: Vec<u32> = self.confirmed_token_ids.clone();
        let mut i: usize = 0;
        assert(v@ =~= self@.confirmed_ids);
        while i < self.provisional.ids.len()
            invariant
                0 <= i <= self.provisional.ids@.len(),
                v@ == self@.confirmed_ids + self.provisional.ids@.take(i as int),
            decreases self.provisional.ids@.len() - i,
        {
            let ghost before = v@;
            v.push(self.provisional.ids[i]);
            assert(v@ =~= self@.confirmed_ids + self.provisional.ids@.take(i + 1));
            i = i + 1;
        }
        assert(v@ =~= self@.all_ids());
        v
    }

    /// Takes up the tokens that a pass has promoted.
    pub fn take_promotion(&mut self, p: Promotion)
        requires
            p.provisional.wf(),
        ensures
            final(self)@ == (SharedModel {
                confirmed_ids: old(self)@.confirmed_ids + p.promoted@,
                provisional: entries(p.provisional),
                ..old(self)@
            }),
            final(self).provisional.wf(),
    {
        let mut promoted: Vec<u32> = p.promoted;
        self.confirmed_token_ids.append(&mut promoted);
        self.provisional = p.provisional;
    }

    /// Makes all tokens of the unfinished window confirmed.
    pub fn promote_all(&mut self)
        ensures
            final(self)@ == (SharedModel {
                confirmed_ids: old(self)@.all_ids(),
                provisional: Seq::empty(),
                ..old(self)@
            }),
            final(self).provisional.wf(),
    {
        let ids = self.all_ids();
        self.confirmed_token_ids = ids;
        self.provisional = Provisional::new();
        assert(self@.provisional =~= Seq::<(u32, u64, usize)>::empty());
    }

    /// Makes the tokens of the last pass the confirmed ones.
    pub fn replace_tokens(&mut self, tokens: Vec<u32>, text: String)
        ensures
            final(self)@ == (SharedModel {
                completed: old(self)@.completed,
                confirmed_ids: tokens@,
                provisional: Seq::empty(),
                confirmed: text@,
            }),
            final(self).provisional.wf(),
    {
        self.confirmed_token_ids = tokens;
        self.provisional = Provisional::new();
        self.confirmed_text = text;
        assert(self@.provisional =~= Seq::<(u32, u64, usize)>::empty());
    }

    /// All text: that of finished windows and the confirmed.
    pub fn full_text(&self) -> (s: String)
        ensures
            s@ == self@.full_text(),
    {
        concat_text(self.completed_text.as_str(), self.confirmed_text.as_str())
    }

    /// What a pass reports: the confirmed text where it has grown, the text on
    /// display, and figures.
    pub fn pass_events(&self, grown: bool, provisional_text: String, stats: StreamingStats) -> (v:
        Vec<TranscriptionEvent>)
        ensures
            events(v@) == (if grown {
                seq![EventModel::Confirmed(self@.full_text())]
            } else {
                Seq::empty()
            }) + seq![
                EventModel::DisplayUpdate(self@.full_text(), provisional_text@),
                EventModel::Stats(stats),
            ],
    {
        let mut v: Vec<TranscriptionEvent> = Vec::new();
        if grown {
            v.push(TranscriptionEvent::Confirmed { text: self.full_text() });
        }
        v.push(
            TranscriptionEvent::DisplayUpdate {
                confirmed_text: self.full_text(),
                provisional_text,
            },
        );
        v.push(TranscriptionEvent::Stats(stats));
        assert(events(v@) =~= (if grown {
            seq![EventModel::Confirmed(self@.full_text())]
        } else {
            Seq::empty()
        }) + seq![
            EventModel::DisplayUpdate(self@.full_text(), provisional_text@),
            EventModel::Stats(stats),
        ]);
        v
    }
}

/// Committed text stays: what a session has of finished windows is only ever
/// added to.
pub proof fn committed_text_stays(s: SharedModel, text: Seq<char>)
    ensures
        s.completed.is_prefix_of(s.committed(text).completed),
{
    appending_keeps_words(s.completed, text);
}

// ---------------------------------------------------------------------------
// Calls
// ---------------------------------------------------------------------------

/// Whether `r` may come of decoding `features` with the confirmed tokens and
/// the given budget.
pub open spec fn decodes<D: StreamingDecoderBackend>(
    decoder: D,
    features: Tensor,
    confirmed: Seq<u32>,
    config: StreamingConfig,
    max_tokens: usize,
    r: Result<Vec<u32>>,
) -> bool {
    exists|a: Array, c: &[u32]|
        a@ == features && c@ == confirmed && #[trigger] call_ensures(
            D::decode_all_tokens,
            (&decoder, &a, c, &config, max_tokens),
            r,
        )
}

/// Whether the tokens `ids` may have the text `text`.
pub open spec fn reads<T: StreamingTokenizer>(tokenizer: T, ids: Seq<u32>, text: Seq<char>) -> bool {
    exists|i: &[u32], s: String|
        i@ == ids && s@ == text && #[trigger] call_ensures(T::decode_ids, (&tokenizer, i), s)
}

/// How many rows features have.
pub open spec fn rows_of(a: Tensor) -> int {
    if a.shape.len() > 0 {
        a.shape[0] as int
    } else {
        0
    }
}

/// Whether `text` may be the text of a finished window and `count` the number
/// of its tokens: it is decoded from nothing, unless it has no rows.
pub open spec fn window_done<D: StreamingDecoderBackend, T: StreamingTokenizer>(
    decoder: D,
    tokenizer: T,
    config: StreamingConfig,
    window: Tensor,
    fallback: Option<Seq<char>>,
    text: Seq<char>,
    count: int,
) -> bool {
    if rows_of(window) == 0 {
        text == text_of_window(0, Seq::empty(), fallback) && count == 0
    } else {
        exists|ids: Vec<u32>, full: Seq<char>|
            decodes(
                decoder,
                window,
                Seq::empty(),
                config,
                config.max_tokens_per_pass,
                Ok(ids),
            ) && #[trigger] reads(tokenizer, ids@, full) && count == ids@.len() && text == text_of_window(
                rows_of(window),
                full,
                fallback,
            )
    }
}

/// Whether `texts` may be the texts of the first windows that wait and `counts`
/// the numbers of their tokens; the first of them falls back on what was
/// streamed.
pub open spec fn windows_done<D: StreamingDecoderBackend, T: StreamingTokenizer>(
    decoder: D,
    tokenizer: T,
    config: StreamingConfig,
    queue: Seq<Tensor>,
    fallback: Option<Seq<char>>,
    texts: Seq<Seq<char>>,
    counts: Seq<int>,
) -> bool {
    &&& texts.len() <= queue.len()
    &&& counts.len() == texts.len()
    &&& forall|k: int|
        0 <= k < texts.len() ==> window_done(
            decoder,
            tokenizer,
            config,
            queue[k],
            if k == 0 {
                fallback
            } else {
                None
            },
            #[trigger] texts[k],
            counts[k],
        )
}

/// The sum of the numbers, or the largest number where that is out of range.
pub open spec fn saturated_sum(counts: Seq<int>) -> int
    decreases counts.len(),
{
    if counts.len() == 0 {
        0
    } else {
        saturated(saturated_sum(counts.drop_last()), counts.last())
    }
}

/// Whether `fallback` may be the text of the tokens that were streamed.
pub open spec fn streamed_text<T: StreamingTokenizer>(
    tokenizer: T,
    s: SharedModel,
    fallback: Option<Seq<char>>,
) -> bool {
    match fallback {
        Some(text) => s.all_ids().len() > 0 && reads(tokenizer, s.all_ids(), text),
        None => s.all_ids().len() == 0,
    }
}

/// The session's text and tokens after the texts of several windows.
pub open spec fn committed_all(s: SharedModel, texts: Seq<Seq<char>>) -> SharedModel
    decreases texts.len(),
{
    if texts.len() == 0 {
        s
    } else {
        committed_all(s, texts.drop_last()).committed(texts.last())
    }
}

// ---------------------------------------------------------------------------
// The session
// ---------------------------------------------------------------------------

/// A transcription session.
pub struct StreamingInferenceSession<D: StreamingDecoderBackend, T: StreamingTokenizer> {
    decoder: D,
    tokenizer: T,
    config: StreamingConfig,
    shared: SessionSharedState,
    cadence: Cadence,
    is_active: bool,
    total_samples_fed: usize,
    encoded_windows: usize,
    frozen_windows: usize,
    queue: VecDeque<Array>,
    epoch: Instant,
}

/// What a session stands for.
pub ghost struct SessionModel {
    pub config: StreamingConfig,
    pub shared: SharedModel,
    pub cadence: Cadence,
    /// Whether the session goes on.
    pub active: bool,
    /// How many samples have been fed.
    pub samples: int,
    /// How many windows have been encoded.
    pub encoded: int,
    /// How many of them are in finished text.
    pub frozen: int,
    /// Those that wait to be decoded.
    pub queue: Seq<Tensor>,
}

/// `a + b`, or the largest number where that is out of range.
pub open spec fn saturated(a: int, b: int) -> int {
    smaller(a + b, usize::MAX as int)
}

impl SessionModel {
    /// Each encoded window of a session that goes on is in finished text or
    /// waits to be decoded; without finalizing none waits.
    pub open spec fn windows_accounted(self) -> bool {
        if self.config.finalize_completed_windows {
            self.encoded < usize::MAX ==> self.frozen + self.queue.len() == self.encoded
        } else {
            self.queue.len() == 0 && self.frozen <= self.encoded
        }
    }

    /// At the beginning.
    pub open spec fn fresh(config: StreamingConfig) -> SessionModel {
        SessionModel {
            config,
            shared: blank(),
            cadence: Cadence::start(),
            active: true,
            samples: 0,
            encoded: 0,
            frozen: 0,
            queue: Seq::empty(),
        }
    }

    /// With windows that the encoder has finished.
    pub open spec fn with_windows(self, windows: Seq<Tensor>) -> SessionModel {
        SessionModel {
            encoded: saturated(self.encoded, windows.len() as int),
            queue: if self.config.finalize_completed_windows {
                self.queue + windows
            } else {
                self.queue
            },
            ..self
        }
    }

    /// Whether `other` comes of this by decoding waiting windows: some of them,
    /// from the front, have left the queue into the text.
    pub open spec fn decodes_to(self, other: SessionModel) -> bool {
        let n = self.queue.len() - other.queue.len();
        &&& 0 <= n
        &&& other.queue == self.queue.skip(n)
        &&& other.frozen == saturated(self.frozen, n)
        &&& self.shared.completed.is_prefix_of(other.shared.completed)
        &&& n == 0 ==> other.shared == self.shared
        &&& n > 0 ==> other.shared == other.shared.cleared()
        &&& other == (SessionModel {
            queue: other.queue,
            frozen: other.frozen,
            shared: other.shared,
            ..self
        })
    }
}

impl<D: StreamingDecoderBackend, T: StreamingTokenizer> View for StreamingInferenceSession<D, T> {
    type V = SessionModel;

    closed spec fn view(&self) -> SessionModel {
        SessionModel {
            config: self.config,
            shared: self.shared@,
            cadence: self.cadence,
            active: self.is_active,
            samples: self.total_samples_fed as int,
            encoded: self.encoded_windows as int,
            frozen: self.frozen_windows as int,
            queue: views(self.queue@),
        }
    }
}

/// Whether `v` is what decoding the waiting windows reports: figures, with the
/// number of tokens that were decoded.
pub open spec fn finalize_report(v: Seq<EventModel>, s: SessionModel, generated_tokens: int) -> bool {
    &&& v.len() == 1
    &&& v[0] matches EventModel::Stats(x) && x.encoded_window_count == s.encoded && x.total_samples
        == s.samples && x.generated_tokens == generated_tokens
}

/// Whether `after` and `r` may come of decoding the windows that wait in
/// `before`: all of them, or those before the one whose decoding failed.
pub open spec fn finalized<D: StreamingDecoderBackend, T: StreamingTokenizer>(
    decoder: D,
    tokenizer: T,
    before: SessionModel,
    after: SessionModel,
    r: Result<Vec<TranscriptionEvent>>,
) -> bool {
    let n = before.queue.len() - after.queue.len();
    &&& before.decodes_to(after)
    &&& exists|fallback: Option<Seq<char>>, texts: Seq<Seq<char>>, counts: Seq<int>|
        {
            &&& texts.len() == n
            &&& streamed_text(tokenizer, before.shared, fallback)
            &&& #[trigger] windows_done(
                decoder,
                tokenizer,
                before.config,
                before.queue,
                fallback,
                texts,
                counts,
            )
            &&& after.shared == committed_all(before.shared, texts)
            &&& r is Ok ==> finalize_report(events(r->Ok_0@), after, saturated_sum(counts))
        }
    &&& match r {
        Ok(_) => after.queue.len() == 0,
        Err(e) => {
            &&& after.queue.len() > 0
            &&& rows_of(after.queue[0]) > 0
            &&& decodes(
                decoder,
                after.queue[0],
                Seq::empty(),
                before.config,
                before.config.max_tokens_per_pass,
                Err(e),
            )
        },
    }
}

/// A window whose decoding failed is neither lost nor counted: it waits in
/// front of those behind it, and just the windows before it are in the text.
pub proof fn failed_window_waits<D: StreamingDecoderBackend, T: StreamingTokenizer>(
    decoder: D,
    tokenizer: T,
    before: SessionModel,
    after: SessionModel,
    r: Result<Vec<TranscriptionEvent>>,
)
    requires
        finalized(decoder, tokenizer, before, after, r),
        r is Err,
    ensures
        ({
            let n = before.queue.len() - after.queue.len();
            &&& 0 <= n < before.queue.len()
            &&& after.queue == before.queue.skip(n)
            &&& after.frozen == saturated(before.frozen, n)
            &&& after.encoded == before.encoded
            &&& before.shared.completed.is_prefix_of(after.shared.completed)
        }),
{
}

/// Whether `after` may come of `before` by making all tokens finished text,
/// where windows were finished since the last time.
pub open spec fn frozen_to<T: StreamingTokenizer>(
    tokenizer: T,
    before: SessionModel,
    after: SessionModel,
) -> bool {
    if before.encoded <= before.frozen {
        after == before
    } else {
        exists|text: Seq<char>|
            (if before.shared.all_ids().len() == 0 {
                text == Seq::<char>::empty()
            } else {
                reads(tokenizer, before.shared.all_ids(), text)
            }) && after == (SessionModel {
                frozen: before.encoded,
                shared: #[trigger] before.shared.committed(text),
                ..before
            })
    }
}

/// A call that changes a session.
pub ghost enum SessionCall {
    /// So many samples are fed.
    Feed(int),
    Stop,
    Cancel,
    Reset,
}

/// What a call does to the number of samples: a feed adds its own while the
/// session goes on, a reset begins anew, and nothing else changes it.
pub open spec fn counts_to(before: SessionModel, call: SessionCall, after: SessionModel) -> bool {
    match call {
        SessionCall::Feed(n) => after.samples == if before.active {
            saturated(before.samples, n)
        } else {
            before.samples
        },
        SessionCall::Stop => after.samples == before.samples,
        SessionCall::Cancel => after.samples == before.samples,
        SessionCall::Reset => after.samples == 0,
    }
}

/// How many samples the first `n` of the calls feed to a session that goes on,
/// since the last reset among them.
pub open spec fn samples_of(states: Seq<SessionModel>, calls: Seq<SessionCall>, n: int) -> int
    decreases n,
{
    if n <= 0 {
        0
    } else {
        match calls[n - 1] {
            SessionCall::Feed(k) => samples_of(states, calls, n - 1) + if states[n - 1].active {
                k
            } else {
                0
            },
            SessionCall::Reset => 0,
            _ => samples_of(states, calls, n - 1),
        }
    }
}

/// The number of samples of a session is the sum of all that were fed while it
/// went on, since its beginning or the last reset, or the largest number where
/// that is out of range; whatever else was called has no part in it.
pub proof fn samples_add_up(states: Seq<SessionModel>, calls: Seq<SessionCall>, n: int)
    requires
        0 <= n <= calls.len(),
        states.len() == calls.len() + 1,
        states[0].samples == 0,
        forall|i: int|
            0 <= i < calls.len() ==> counts_to(states[i], #[trigger] calls[i], states[i + 1]),
        forall|i: int| 0 <= i < calls.len() ==> (#[trigger] calls[i] matches SessionCall::Feed(k)
            ==> k >= 0),
    ensures
        samples_of(states, calls, n) >= 0,
        states[n].samples == smaller(samples_of(states, calls, n), usize::MAX as int),
    decreases n,
{
    if n > 0 {
        samples_add_up(states, calls, n - 1);
        assert(counts_to(states[n - 1], calls[n - 1], states[n - 1 + 1]));
    }
}

/// Whether `after` and `v` may come of `before` by a pass that gave `tokens`:
/// behind the confirmed tokens, those that have settled are confirmed and the
/// others observed.
pub open spec fn promoted_to<T: StreamingTokenizer>(
    tokenizer: T,
    before: SessionModel,
    after: SessionModel,
    tokens: Seq<u32>,
    required: usize,
    v: Seq<EventModel>,
) -> bool {
    let confirmed = before.shared.confirmed_ids;
    let rest = behind(tokens, confirmed.len() as int);
    let k = after.shared.confirmed_ids.len() - confirmed.len();
    &&& after == (SessionModel { shared: after.shared, ..before })
    &&& after.shared.completed == before.shared.completed
    &&& 0 <= k <= rest.len()
    &&& after.shared.confirmed_ids == confirmed + rest.take(k)
    &&& exists|now: u64|
        {
            let new = #[trigger] observed(before.shared.provisional, rest, now);
            &&& is_settled_count(
                new,
                k,
                now,
                (before.config.delay_ms * 1_000_000) as u64,
                required,
            )
            &&& after.shared.provisional == new.skip(k)
        }
    &&& if k > 0 {
        reads(tokenizer, after.shared.confirmed_ids, after.shared.confirmed)
    } else {
        after.shared.confirmed == before.shared.confirmed
    }
    &&& exists|shown: Seq<char>| #[trigger]
        reads(tokenizer, after.shared.provisional_ids(), shown) && is_pass_report(
            v,
            after,
            k > 0,
            shown,
            tokens.len() as int,
        )
}

/// Whether `after` and `v` may come of `before` by a pass that gave `tokens`:
/// for some time `now`, those tokens are confirmed that have come out the same
/// in as many passes as are required at that time.
pub open spec fn pass_promotes<T: StreamingTokenizer>(
    tokenizer: T,
    before: SessionModel,
    after: SessionModel,
    tokens: Seq<u32>,
    v: Seq<EventModel>,
) -> bool {
    exists|now: u64| #[trigger]
        promoted_to(
            tokenizer,
            before,
            after,
            tokens,
            passes_at(before.config, before.cadence.fast_until, now),
            v,
        )
}

/// Whether `v` is what a pass reports: the confirmed text where it has grown,
/// the text on display, and figures.
pub open spec fn is_pass_report(
    v: Seq<EventModel>,
    s: SessionModel,
    grown: bool,
    shown: Seq<char>,
    generated_tokens: int,
) -> bool {
    &&& v.len() == if grown {
        3int
    } else {
        2int
    }
    &&& grown ==> v[0] == EventModel::Confirmed(s.shared.full_text())
    &&& v[v.len() - 2] == EventModel::DisplayUpdate(s.shared.full_text(), shown)
    &&& v.last() matches EventModel::Stats(x) && x.encoded_window_count == s.encoded
        && x.total_samples == s.samples && x.generated_tokens == generated_tokens
}

/// Whether `after` and `r` may come of a pass over the unfinished window, for
/// whose features `pending` came back: without rows nothing is done.
pub open spec fn passed_over<D: StreamingDecoderBackend, T: StreamingTokenizer>(
    decoder: D,
    tokenizer: T,
    before: SessionModel,
    after: SessionModel,
    pending: Result<Option<Array>>,
    r: Result<Vec<TranscriptionEvent>>,
) -> bool {
    match pending {
        Err(e) => after == before && r == Err::<Vec<TranscriptionEvent>, Error>(e),
        Ok(None) => after == before && r is Ok && r->Ok_0@.len() == 0,
        Ok(Some(f)) => if rows_of(f@) == 0 {
            after == before && r is Ok && r->Ok_0@.len() == 0
        } else {
            exists|decoded: Result<Vec<u32>>|
                {
                    &&& #[trigger] decodes(
                        decoder,
                        f@,
                        before.shared.confirmed_ids,
                        before.config,
                        pass_budget(
                            rows_of(f@),
                            before.shared.confirmed_ids.len() as int,
                            before.config.max_tokens_per_pass as int,
                        ) as usize,
                        decoded,
                    )
                    &&& match decoded {
                        Err(e) => after == before && r == Err::<Vec<TranscriptionEvent>, Error>(e),
                        Ok(tokens) => r is Ok && pass_promotes(
                            tokenizer,
                            before,
                            after,
                            tokens@,
                            events(r->Ok_0@),
                        ),
                    }
                }
        },
    }
}

/// Whether `after` and `r` may come of a decode pass: over the windows that
/// wait where there are any, else over the unfinished window, for whose
/// features `pending` came back.
pub open spec fn ran_pass<D: StreamingDecoderBackend, T: StreamingTokenizer>(
    decoder: D,
    tokenizer: T,
    before: SessionModel,
    after: SessionModel,
    pending: Result<Option<Array>>,
    r: Result<Vec<TranscriptionEvent>>,
) -> bool {
    if before.config.finalize_completed_windows {
        if before.queue.len() > 0 {
            finalized(decoder, tokenizer, before, after, r)
        } else {
            passed_over(decoder, tokenizer, before, after, pending, r)
        }
    } else {
        exists|mid: SessionModel| #[trigger]
            frozen_to(tokenizer, before, mid) && passed_over(
                decoder,
                tokenizer,
                mid,
                after,
                pending,
                r,
            )
    }
}

/// How many rows features have.
fn row_count(a: &Array) -> (n: usize)
    ensures
        n <= 0x7fff_ffff,
        n == rows_of(a@),
{
    let s = a.dims();
    if s.len() > 0 {
        s[0]
    } else {
        0
    }
}

impl<D: StreamingDecoderBackend, T: StreamingTokenizer> StreamingInferenceSession<D, T> {
    /// Whether each provisional token has its time and its count, every window
    /// is accounted for while the session goes on, and none waits without
    /// finalizing.
    pub closed spec fn wf(&self) -> bool {
        &&& self.shared.provisional.wf()
        &&& self.is_active ==> self@.windows_accounted()
        &&& !self.config.finalize_completed_windows ==> self.queue@.len() == 0
    }

    pub closed spec fn spec_decoder(&self) -> D {
        self.decoder
    }

    pub closed spec fn spec_tokenizer(&self) -> T {
        self.tokenizer
    }

    /// Whether this session has the decoder and the tokenizer of `other`.
    pub open spec fn keeps_parts(&self, other: &Self) -> bool {
        self.spec_decoder() == other.spec_decoder() && self.spec_tokenizer()
            == other.spec_tokenizer()
    }

    /// Every window of a session that goes on is accounted for.
    pub proof fn windows_are_accounted_for(&self)
        requires
            self.wf(),
            self@.active,
        ensures
            self@.windows_accounted(),
    {
    }

    /// A session at its beginning.
    pub fn new(decoder: D, tokenizer: T, config: StreamingConfig) -> (s: Self)
        ensures
            s.wf(),
            s@ == SessionModel::fresh(config),
            s.spec_decoder() == decoder,
            s.spec_tokenizer() == tokenizer,
    {
        let s = StreamingInferenceSession {
            decoder,
            tokenizer,
            config,
            shared: SessionSharedState::new(),
            cadence: Cadence::start(),
            is_active: true,
            total_samples_fed: 0,
            encoded_windows: 0,
            frozen_windows: 0,
            queue: VecDeque::new(),
            epoch: present(),
        };
        assert(s@.queue =~= Seq::<Tensor>::empty());
        s
    }

    /// The settings.
    pub fn config(&self) -> (c: &StreamingConfig)
        ensures
            *c == self@.config,
    {
        &self.config
    }

    /// The decoder.
    pub fn decoder(&self) -> (d: &D)
        ensures
            *d == self.spec_decoder(),
    {
        &self.decoder
    }

    /// How many samples have been fed.
    pub fn total_samples_fed(&self) -> (n: usize)
        ensures
            n == self@.samples,
    {
        self.total_samples_fed
    }

    /// How many windows have been encoded.
    pub fn encoded_window_count(&self) -> (n: usize)
        ensures
            n == self@.encoded,
    {
        self.encoded_windows
    }

    /// How many windows are in finished text.
    pub fn frozen_window_count(&self) -> (n: usize)
        ensures
            n == self@.frozen,
    {
        self.frozen_windows
    }

    /// How many windows wait to be decoded.
    pub fn waiting_window_count(&self) -> (n: usize)
        ensures
            n == self@.queue.len(),
    {
        self.queue.len()
    }

    /// Whether the session goes on.
    pub fn is_active(&self) -> (r: bool)
        ensures
            r == self@.active,
    {
        self.is_active
    }

    fn take_windows(&mut self, windows: Vec<Array>)
        requires
            old(self).wf(),
        ensures
            final(self)@ == old(self)@.with_windows(views(windows@)),
            final(self).wf(),
            final(self).keeps_parts(old(self)),
    {
        let ghost added = views(windows@);
        self.encoded_windows = self.encoded_windows.saturating_add(windows.len());
        if self.config.finalize_completed_windows {
            let ghost before = self.queue@;
            let ghost all = windows@;
            let mut windows: Vec<Array> = windows;
            while windows.len() > 0
                invariant
                    windows@.len() <= all.len(),
                    windows@ == all.skip(all.len() - windows@.len()),
                    self.queue@ == before + all.take(all.len() - windows@.len()),
                    self.decoder == old(self).decoder,
                    self.tokenizer == old(self).tokenizer,
                    self.config == old(self).config,
                    self.shared == old(self).shared,
                    self.cadence == old(self).cadence,
                    self.is_active == old(self).is_active,
                    self.total_samples_fed == old(self).total_samples_fed,
                    self.encoded_windows == saturated(
                        old(self).encoded_windows as int,
                        all.len() as int,
                    ),
                    self.frozen_windows == old(self).frozen_windows,
                decreases windows@.len(),
            {
                let ghost k = all.len() - windows@.len();
                self.queue.push_back(windows.remove(0));
                assert(windows@ =~= all.skip(k + 1));
                assert(self.queue@ =~= before + all.take(k + 1));
            }
            assert(views(self.queue@) =~= old(self)@.queue + added);
        }
    }

    fn stats(&self, generated_tokens: usize, decode_time: u64) -> (s: StreamingStats)
        ensures
            s == (StreamingStats {
                encoded_window_count: self@.encoded as usize,
                total_samples: self@.samples as usize,
                generated_tokens,
                decode_time,
            }),
    {
        StreamingStats {
            encoded_window_count: self.encoded_windows,
            total_samples: self.total_samples_fed,
            generated_tokens,
            decode_time,
        }
    }

    /// Decodes the waiting windows one by one. An error leaves the window that
    /// it came of, and those behind it, waiting; text and tokens of the
    /// unfinished window go with the first that is taken up.
    fn finalize_completed_windows(&mut self) -> (r: Result<Vec<TranscriptionEvent>>)
        requires
            old(self).wf(),
        ensures
            final(self).wf(),
            final(self).keeps_parts(old(self)),
            old(self)@.queue.len() == 0 ==> final(self)@ == old(self)@ && r is Ok
                && r->Ok_0@.len() == 0,
            old(self)@.queue.len() > 0 ==> finalized(
                old(self).spec_decoder(),
                old(self).spec_tokenizer(),
                old(self)@,
                final(self)@,
                r,
            ),
    {
        let mut out: Vec<TranscriptionEvent> = Vec::new();
        if self.queue.len() == 0 {
            assert(views(self.queue@).skip(0) =~= views(self.queue@));
            return Ok(out);
        }
        let mut decode_time: u64 = 0;
        let mut generated: usize = 0;
        let streamed = self.shared.all_ids();
        let mut fallback: Option<String> = if streamed.len() == 0 {
            None
        } else {
            Some(self.tokenizer.decode_ids(streamed.as_slice()))
        };
        let ghost first = text_opt(fallback);
        let ghost mut texts: Seq<Seq<char>> = Seq::empty();
        let ghost mut counts: Seq<int> = Seq::empty();
        let ghost start_state = self@;
        assert(streamed_text(self.tokenizer, self@.shared, first)) by {
            if streamed@.len() > 0 {
                assert(reads(self.tokenizer, streamed@, fallback->0@));
            }
        }
        assert(views(self.queue@).skip(0) =~= views(self.queue@));
        while self.queue.len() > 0
            invariant
                self.wf(),
                start_state == old(self)@,
                start_state.decodes_to(self@),
                self.keeps_parts(old(self)),
                texts.len() == start_state.queue.len() - self@.queue.len(),
                streamed_text(self.tokenizer, start_state.shared, first),
                windows_done(
                    self.decoder,
                    self.tokenizer,
                    start_state.config,
                    start_state.queue,
                    first,
                    texts,
                    counts,
                ),
                generated == saturated_sum(counts),
                self@.shared == committed_all(start_state.shared, texts),
                match fallback {
                    Some(t) => texts.len() == 0 && first == Some(t@),
                    None => texts.len() > 0 || first is None,
                },
                self@.queue.len() == 0 ==> texts.len() > 0,
            decreases self.queue@.len(),
        {
            let ghost before = self@;
            let ghost front = self.queue@[0]@;
            let rows: usize = row_count(&self.queue[0]);
            let candidate = fallback;
            let ghost given = text_opt(candidate);
            fallback = None;
            let ghost mut count: int = 0;
            proof {
                let n = start_state.queue.len() - before.queue.len();
                assert(before.queue[0] == front);
                assert(start_state.queue.skip(n)[0] == start_state.queue[n]);
            }
            let full: String = if rows == 0 {
                String::new()
            } else {
                let start = present();
                let none: &[u32] = &[];
                let decoded = self.decoder.decode_all_tokens(
                    &self.queue[0],
                    none,
                    &self.config,
                    self.config.max_tokens_per_pass,
                );
                assert(none@ =~= Seq::<u32>::empty());
                assert(decodes(
                    self.decoder,
                    front,
                    Seq::empty(),
                    self.config,
                    self.config.max_tokens_per_pass,
                    decoded,
                ));
                let ids = match decoded {
                    Ok(ids) => ids,
                    Err(e) => {
                        return Err(e);
                    },
                };
                decode_time = decode_time.saturating_add(nanos_since(&start));
                generated = generated.saturating_add(ids.len());
                proof {
                    count = ids@.len() as int;
                }
                let text = self.tokenizer.decode_ids(ids.as_slice());
                assert(reads(self.tokenizer, ids@, text@));
                text
            };
            let text = window_text(rows, full, candidate);
            assert(full@ =~= Seq::<char>::empty() || rows > 0);
            assert(window_done(
                self.decoder,
                self.tokenizer,
                start_state.config,
                front,
                given,
                text@,
                count,
            ));
            self.shared.commit_window(text.as_str());
            let _ = self.queue.pop_front();
            self.frozen_windows = self.frozen_windows.saturating_add(1);
            proof {
                committed_text_stays(before.shared, text@);
                let n = start_state.queue.len() - before.queue.len();
                assert(views(self.queue@) =~= before.queue.skip(1));
                assert(before.queue.skip(1) =~= start_state.queue.skip(n + 1));
                lemma_prefix_chain(
                    start_state.shared.completed,
                    before.shared.completed,
                    self@.shared.completed,
                );
                let more = texts.push(text@);
                assert(more.drop_last() =~= texts);
                assert(counts.push(count).drop_last() =~= counts);
                texts = more;
                counts = counts.push(count);
            }
        }
        out.push(TranscriptionEvent::Stats(self.stats(generated, decode_time)));
        assert(finalize_report(events(out@), self@, saturated_sum(counts)));
        Ok(out)
    }

    /// Takes up the tokens of windows that were finished since the last time.
    fn freeze_completed_windows(&mut self)
        requires
            old(self).wf(),
            !old(self)@.config.finalize_completed_windows,
            old(self)@.queue.len() == 0,
        ensures
            final(self).wf(),
            final(self).keeps_parts(old(self)),
            frozen_to(old(self).spec_tokenizer(), old(self)@, final(self)@),
    {
        if self.encoded_windows <= self.frozen_windows {
            return ;
        }
        let ids = self.shared.all_ids();
        let text: String = if ids.len() == 0 {
            String::new()
        } else {
            self.tokenizer.decode_ids(ids.as_slice())
        };
        proof {
            committed_text_stays(self.shared@, text@);
            if ids@.len() == 0 {
                assert(text@ =~= Seq::<char>::empty());
            } else {
                assert(reads(self.tokenizer, ids@, text@));
            }
        }
        self.shared.commit_window(text.as_str());
        self.frozen_windows = self.encoded_windows;
        assert(self@.shared == old(self)@.shared.committed(text@));
    }
}

proof fn lemma_prefix_chain(a: Seq<char>, b: Seq<char>, c: Seq<char>)
    requires
        a.is_prefix_of(b),
        b.is_prefix_of(c),
    ensures
        a.is_prefix_of(c),
{
    assert(a =~= c.take(a.len() as int));
}

impl<D: StreamingDecoderBackend, T: StreamingTokenizer> StreamingInferenceSession<D, T> {
    /// Takes up the tokens of a pass over the unfinished window.
    fn promote_tokens(&mut self, tokens: &[u32], required: usize, decode_time: u64) -> (v: Vec<
        TranscriptionEvent,
    >)
        requires
            old(self).wf(),
        ensures
            final(self).wf(),
            final(self).keeps_parts(old(self)),
            promoted_to(
                old(self).spec_tokenizer(),
                old(self)@,
                final(self)@,
                tokens@,
                required,
                events(v@),
            ),
    {
        let now: u64 = nanos_since(&self.epoch);
        let delay: u64 = self.config.delay_ms as u64 * 1_000_000;
        let confirmed: usize = self.shared.confirmed_token_ids.len();
        let p = promote(&self.shared.provisional, tokens, confirmed, now, delay, required);
        let ghost new = observed(
            self@.shared.provisional,
            behind(tokens@, confirmed as int),
            now,
        );
        let grown: bool = p.promoted.len() > 0;
        self.shared.take_promotion(p);
        if grown {
            self.shared.confirmed_text = self.tokenizer.decode_ids(
                self.shared.confirmed_token_ids.as_slice(),
            );
            assert(reads(self.tokenizer, self@.shared.confirmed_ids, self@.shared.confirmed));
        }
        assert(new == observed(
            old(self)@.shared.provisional,
            behind(tokens@, confirmed as int),
            now,
        ));
        let shown = self.tokenizer.decode_ids(self.shared.provisional.ids.as_slice());
        assert(self.shared.provisional.ids@ =~= self@.shared.provisional_ids());
        assert(reads(self.tokenizer, self@.shared.provisional_ids(), shown@));
        let stats = self.stats(tokens.len(), decode_time);
        self.shared.pass_events(grown, shown, stats)
    }

    /// One decode pass: over the waiting windows where there are any, else over
    /// the unfinished window, whose features `encode_pending` gives.
    fn run_decode_pass<F: FnOnce() -> Result<Option<Array>>>(&mut self, encode_pending: F) -> (r:
        Result<Vec<TranscriptionEvent>>)
        requires
            old(self).wf(),
            old(self)@.active,
            call_requires(encode_pending, ()),
        ensures
            final(self).wf(),
            final(self).keeps_parts(old(self)),
            exists|pending: Result<Option<Array>>|
                (old(self)@.queue.len() == 0 ==> call_ensures(encode_pending, (), pending))
                    && #[trigger] ran_pass(
                    old(self).spec_decoder(),
                    old(self).spec_tokenizer(),
                    old(self)@,
                    final(self)@,
                    pending,
                    r,
                ),
    {
        if self.config.finalize_completed_windows {
            if self.queue.len() > 0 {
                let ghost unasked: Result<Option<Array>> = Ok(None);
                let r = self.finalize_completed_windows();
                assert(ran_pass(
                    old(self).spec_decoder(),
                    old(self).spec_tokenizer(),
                    old(self)@,
                    self@,
                    unasked,
                    r,
                ));
                return r;
            }
        } else {
            self.freeze_completed_windows();
        }
        let ghost mid = self@;
        let pending = encode_pending();
        let ghost came = pending;
        let r = self.pass_over(pending);
        assert(ran_pass(
            old(self).spec_decoder(),
            old(self).spec_tokenizer(),
            old(self)@,
            self@,
            came,
            r,
        ));
        r
    }

    /// A pass over the unfinished window, for whose features `pending` came
    /// back.
    fn pass_over(&mut self, pending: Result<Option<Array>>) -> (r: Result<Vec<TranscriptionEvent>>)
        requires
            old(self).wf(),
        ensures
            final(self).wf(),
            final(self).keeps_parts(old(self)),
            passed_over(
                old(self).spec_decoder(),
                old(self).spec_tokenizer(),
                old(self)@,
                final(self)@,
                pending,
                r,
            ),
    {
        let none: Vec<TranscriptionEvent> = Vec::new();
        let features = match pending {
            Ok(Some(f)) => f,
            Ok(None) => {
                return Ok(none);
            },
            Err(e) => {
                return Err(e);
            },
        };
        let rows: usize = row_count(&features);
        if rows == 0 {
            return Ok(none);
        }
        let max_tokens: usize = max_pass_tokens(
            rows,
            self.shared.confirmed_token_ids.len(),
            self.config.max_tokens_per_pass,
        );
        let now: u64 = nanos_since(&self.epoch);
        let boundary: bool = boost_runs(self.cadence.fast_until, now);
        let required: usize = agreement_required(&self.config, boundary);
        let start = present();
        let decoded = self.decoder.decode_all_tokens(
            &features,
            self.shared.confirmed_token_ids.as_slice(),
            &self.config,
            max_tokens,
        );
        assert(self@ == old(self)@);
        assert(decodes(
            old(self).spec_decoder(),
            features@,
            old(self)@.shared.confirmed_ids,
            old(self)@.config,
            pass_budget(
                rows_of(features@),
                old(self)@.shared.confirmed_ids.len() as int,
                old(self)@.config.max_tokens_per_pass as int,
            ) as usize,
            decoded,
        ));
        let tokens = match decoded {
            Ok(t) => t,
            Err(e) => {
                return Err(e);
            },
        };
        let decode_time: u64 = nanos_since(&start);
        let ghost given: Result<Vec<u32>> = Ok(tokens);
        let v = self.promote_tokens(tokens.as_slice(), required, decode_time);
        assert(promoted_to(
            old(self).spec_tokenizer(),
            old(self)@,
            self@,
            given->Ok_0@,
            passes_at(old(self)@.config, old(self)@.cadence.fast_until, now),
            events(v@),
        ));
        assert(pass_promotes(
            old(self).spec_tokenizer(),
            old(self)@,
            self@,
            given->Ok_0@,
            events(v@),
        ));
        Ok(v)
    }

    /// Takes up samples and decodes where it is time. `feed` is what the
    /// encoder made of the samples, nothing where they are too few for a
    /// frame; `encode_pending` gives the features of the unfinished window.
    /// Windows that wait are decoded in any case, unless the encoder failed.
    pub fn feed_audio<F: FnOnce() -> Result<Option<Array>>>(
        &mut self,
        samples: usize,
        feed: Result<Option<EncodedFeed>>,
        encode_pending: F,
    ) -> (r: Result<Vec<TranscriptionEvent>>)
        requires
            old(self).wf(),
            call_requires(encode_pending, ()),
        ensures
            final(self).wf(),
            final(self).keeps_parts(old(self)),
            counts_to(old(self)@, SessionCall::Feed(samples as int), final(self)@),
            !old(self)@.active ==> final(self)@ == old(self)@ && r is Ok && r->Ok_0@.len() == 0,
            old(self)@.active ==> {
                let counted = SessionModel {
                    samples: saturated(old(self)@.samples, samples as int),
                    ..old(self)@
                };
                match feed {
                    Err(e) => final(self)@ == counted && r == Err::<Vec<TranscriptionEvent>, Error>(
                        e,
                    ),
                    Ok(None) => if counted.config.finalize_completed_windows
                        && counted.queue.len() > 0 {
                        finalized(
                            old(self).spec_decoder(),
                            old(self).spec_tokenizer(),
                            counted,
                            final(self)@,
                            r,
                        )
                    } else {
                        final(self)@ == counted && r is Ok && r->Ok_0@.len() == 0
                    },
                    Ok(Some(f)) => exists|now: u64, pending: Result<Option<Array>>| #[trigger]
                        took_up(
                            old(self).spec_decoder(),
                            old(self).spec_tokenizer(),
                            encode_pending,
                            counted,
                            f,
                            now,
                            pending,
                            final(self)@,
                            r,
                        ),
                }
            },
    {
        let none: Vec<TranscriptionEvent> = Vec::new();
        if !self.is_active {
            return Ok(none);
        }
        self.total_samples_fed = self.total_samples_fed.saturating_add(samples);
        let ghost counted = self@;
        let f = match feed {
            Ok(Some(f)) => f,
            Ok(None) => {
                assert(counted.queue.skip(0) =~= counted.queue);
                if self.config.finalize_completed_windows {
                    return self.finalize_completed_windows();
                }
                return Ok(none);
            },
            Err(e) => {
                return Err(e);
            },
        };
        let now: u64 = nanos_since(&self.epoch);
        let arrival = Arrival {
            new_windows: f.windows.len() > 0,
            pending_frames: f.has_pending_frames,
            waiting: self.queue.len() > 0,
            now,
        };
        assert(arrival == arrival_of(counted, f, now));
        let run: bool = self.cadence.advance(&self.config, arrival);
        let ghost mid = self@;
        self.take_windows(f.windows);
        let ghost ready = self@;
        assert(ready.queue.skip(0) =~= ready.queue);
        if run {
            let r = self.run_decode_pass(encode_pending);
            proof {
                let pending = choose|pending: Result<Option<Array>>|
                    (ready.queue.len() == 0 ==> call_ensures(encode_pending, (), pending))
                        && #[trigger] ran_pass(
                        old(self).spec_decoder(),
                        old(self).spec_tokenizer(),
                        ready,
                        self@,
                        pending,
                        r,
                    );
                assert(took_up(
                    old(self).spec_decoder(),
                    old(self).spec_tokenizer(),
                    encode_pending,
                    counted,
                    f,
                    now,
                    pending,
                    self@,
                    r,
                ));
            }
            r
        } else {
            let ghost unasked: Result<Option<Array>> = Ok(None);
            let r: Result<Vec<TranscriptionEvent>> = Ok(none);
            assert(took_up(
                old(self).spec_decoder(),
                old(self).spec_tokenizer(),
                encode_pending,
                counted,
                f,
                now,
                unasked,
                self@,
                r,
            ));
            r
        }
    }
}

/// Whether `after` and `r` may come of `counted` by taking up `f` at the time
/// `now`: its windows wait, and where it is time there is a decode pass, in
/// which `pending` came back for the features of the unfinished window, unless
/// windows waited.
pub open spec fn took_up<
    D: StreamingDecoderBackend,
    T: StreamingTokenizer,
    F: FnOnce() -> Result<Option<Array>>,
>(
    decoder: D,
    tokenizer: T,
    encode_pending: F,
    counted: SessionModel,
    f: EncodedFeed,
    now: u64,
    pending: Result<Option<Array>>,
    after: SessionModel,
    r: Result<Vec<TranscriptionEvent>>,
) -> bool {
    let arrival = arrival_of(counted, f, now);
    let ready = SessionModel {
        cadence: next_cadence(counted.cadence, counted.config, arrival),
        ..counted.with_windows(views(f.windows@))
    };
    if runs(counted.cadence, counted.config, arrival) {
        &&& ready.queue.len() == 0 ==> call_ensures(encode_pending, (), pending)
        &&& ran_pass(decoder, tokenizer, ready, after, pending, r)
    } else {
        after == ready && r is Ok && r->Ok_0@.len() == 0
    }
}

/// Whether `after` and `v` may come of `before` by bringing all finished
/// windows into the text.
pub open spec fn closed_windows<D: StreamingDecoderBackend, T: StreamingTokenizer>(
    decoder: D,
    tokenizer: T,
    before: SessionModel,
    after: SessionModel,
    v: Result<Vec<TranscriptionEvent>>,
) -> bool {
    if before.config.finalize_completed_windows && before.queue.len() > 0 {
        finalized(decoder, tokenizer, before, after, v)
    } else {
        &&& v is Ok
        &&& v->Ok_0@.len() == 0
        &&& if before.config.finalize_completed_windows {
            after == before
        } else {
            frozen_to(tokenizer, before, after)
        }
    }
}

/// Whether `shared` may be the text and the tokens after the last pass of a
/// session, or the error that it ended with: the tokens of the unfinished
/// window are decoded once more, or else all of them are confirmed.
pub open spec fn last_pass<D: StreamingDecoderBackend, T: StreamingTokenizer>(
    decoder: D,
    tokenizer: T,
    s: SessionModel,
    pending: Result<Option<Array>>,
    shared: core::result::Result<SharedModel, Error>,
) -> bool {
    match pending {
        Err(e) => shared == Err::<SharedModel, Error>(e),
        Ok(None) => {
            let all = s.shared.all_ids();
            &&& shared matches Ok(x) && x == (SharedModel {
                confirmed_ids: all,
                provisional: Seq::empty(),
                confirmed: x.confirmed,
                ..s.shared
            }) && if all.len() > 0 {
                reads(tokenizer, all, x.confirmed)
            } else {
                x.confirmed == s.shared.confirmed
            }
        },
        Ok(Some(f)) => if rows_of(f@) == 0 {
            shared == Ok::<SharedModel, Error>(s.shared)
        } else {
            exists|decoded: Result<Vec<u32>>|
                {
                    &&& #[trigger] decodes(
                        decoder,
                        f@,
                        s.shared.confirmed_ids,
                        s.config,
                        final_budget(
                            s.shared.confirmed_ids.len() as int,
                            s.config.max_tokens_per_pass as int,
                        ) as usize,
                        decoded,
                    )
                    &&& match decoded {
                        Err(e) => shared == Err::<SharedModel, Error>(e),
                        Ok(tokens) => shared matches Ok(x) && x == (SharedModel {
                            completed: s.shared.completed,
                            confirmed_ids: tokens@,
                            provisional: Seq::empty(),
                            confirmed: x.confirmed,
                        }) && reads(tokenizer, tokens@, x.confirmed),
                    }
                }
        },
    }
}

/// Whether `after` and `r` may come of ending the session `before`, whose
/// samples have all been taken up: `mid` and `v` came of its finished windows,
/// and then `pending` for the features of the unfinished one.
pub open spec fn ended<
    D: StreamingDecoderBackend,
    T: StreamingTokenizer,
    F: FnOnce() -> Result<Option<Array>>,
>(
    decoder: D,
    tokenizer: T,
    encode_pending: F,
    before: SessionModel,
    mid: SessionModel,
    v: Result<Vec<TranscriptionEvent>>,
    pending: Result<Option<Array>>,
    after: SessionModel,
    r: Result<Vec<TranscriptionEvent>>,
) -> bool {
    &&& closed_windows(decoder, tokenizer, before, mid, v)
    &&& match v {
        Err(e) => after == mid && r == Err::<Vec<TranscriptionEvent>, Error>(e),
        Ok(first) => {
            &&& call_ensures(encode_pending, (), pending)
            &&& match r {
                Err(e) => after == mid && last_pass(decoder, tokenizer, mid, pending, Err(e)),
                Ok(all) => {
                    &&& last_pass(decoder, tokenizer, mid, pending, Ok(after.shared))
                    &&& after == (SessionModel {
                        shared: after.shared,
                        encoded: 0,
                        cadence: Cadence { fast_until: None, ..mid.cadence },
                        ..mid
                    })
                    &&& events(all@) == events(first@).push(
                        EventModel::Ended(after.shared.full_text()),
                    )
                },
            }
        },
    }
}

/// Whether `after` and `r` may come of ending the session `before`, whose
/// samples have all been taken up, with whatever came of its finished windows
/// and of the features of the unfinished one.
pub open spec fn may_end<
    D: StreamingDecoderBackend,
    T: StreamingTokenizer,
    F: FnOnce() -> Result<Option<Array>>,
>(
    decoder: D,
    tokenizer: T,
    encode_pending: F,
    before: SessionModel,
    after: SessionModel,
    r: Result<Vec<TranscriptionEvent>>,
) -> bool {
    exists|
        mid: SessionModel,
        v: Result<Vec<TranscriptionEvent>>,
        pending: Result<Option<Array>>,
    | #[trigger]
        ended(decoder, tokenizer, encode_pending, before, mid, v, pending, after, r)
}

/// No window is lost: where ending a session succeeds, every window that
/// waited has been decoded, also one whose decoding failed before.
pub proof fn ending_decodes_every_window<
    D: StreamingDecoderBackend,
    T: StreamingTokenizer,
    F: FnOnce() -> Result<Option<Array>>,
>(
    decoder: D,
    tokenizer: T,
    encode_pending: F,
    before: SessionModel,
    after: SessionModel,
    r: Result<Vec<TranscriptionEvent>>,
)
    requires
        may_end(decoder, tokenizer, encode_pending, before, after, r),
        before.config.finalize_completed_windows,
        r is Ok,
    ensures
        after.queue.len() == 0,
        before.queue.len() > 0 ==> after.frozen == saturated(
            before.frozen,
            before.queue.len() as int,
        ),
        before.shared.completed.is_prefix_of(after.shared.completed),
{
}

/// What has come in with `f` at the time `now`.
pub open spec fn arrival_of(s: SessionModel, f: EncodedFeed, now: u64) -> Arrival {
    Arrival {
        new_windows: f.windows@.len() > 0,
        pending_frames: f.has_pending_frames,
        waiting: s.queue.len() > 0,
        now,
    }
}

impl<D: StreamingDecoderBackend, T: StreamingTokenizer> StreamingInferenceSession<D, T> {
    /// Ends the session: decodes what waits and the unfinished window, and
    /// reports all text. `flush` is what the encoder made of the last samples.
    /// After an error no more samples are taken up, and windows that still wait
    /// are decoded by the next call of this.
    pub fn stop<F: FnOnce() -> Result<Option<Array>>>(
        &mut self,
        flush: Result<Option<EncodedFeed>>,
        encode_pending: F,
    ) -> (r: Result<Vec<TranscriptionEvent>>)
        requires
            old(self).wf(),
            call_requires(encode_pending, ()),
        ensures
            final(self).wf(),
            final(self).keeps_parts(old(self)),
            !final(self)@.active,
            counts_to(old(self)@, SessionCall::Stop, final(self)@),
            !old(self)@.active && old(self)@.queue.len() == 0 ==> final(self)@ == old(self)@ && r is Ok
                && r->Ok_0@.len() == 0,
            old(self)@.active || old(self)@.queue.len() > 0 ==> {
                let quiet = SessionModel { active: false, ..old(self)@ };
                match flush {
                    Err(e) => final(self)@ == quiet && r == Err::<Vec<TranscriptionEvent>, Error>(
                        e,
                    ),
                    Ok(f) => {
                        let taken = match f {
                            Some(f) => quiet.with_windows(views(f.windows@)),
                            None => quiet,
                        };
                        may_end(
                            old(self).spec_decoder(),
                            old(self).spec_tokenizer(),
                            encode_pending,
                            taken,
                            final(self)@,
                            r,
                        )
                    },
                }
            },
    {
        let mut out: Vec<TranscriptionEvent> = Vec::new();
        if !self.is_active && self.queue.len() == 0 {
            return Ok(out);
        }
        self.is_active = false;
        match flush {
            Err(e) => {
                return Err(e);
            },
            Ok(Some(f)) => {
                self.take_windows(f.windows);
            },
            Ok(None) => {},
        }
        let ghost taken = self@;
        let ghost unasked: Result<Option<Array>> = Ok(None);
        let closed = self.close_windows();
        let ghost mid = self@;
        let ghost came = closed;
        match closed {
            Ok(mut v) => {
                out.append(&mut v);
            },
            Err(e) => {
                assert(ended(
                    old(self).spec_decoder(),
                    old(self).spec_tokenizer(),
                    encode_pending,
                    taken,
                    mid,
                    came,
                    unasked,
                    self@,
                    Err(e),
                ));
                return Err(e);
            },
        }
        let pending = encode_pending();
        match self.finish(pending) {
            Ok(_) => {},
            Err(e) => {
                assert(ended(
                    old(self).spec_decoder(),
                    old(self).spec_tokenizer(),
                    encode_pending,
                    taken,
                    mid,
                    came,
                    pending,
                    self@,
                    Err(e),
                ));
                return Err(e);
            },
        }
        let ghost before = out@;
        out.push(TranscriptionEvent::Ended { full_text: self.shared.full_text() });
        assert(events(out@) =~= events(before).push(
            EventModel::Ended(self@.shared.full_text()),
        ));
        self.encoded_windows = 0;
        self.cadence.fast_until = None;
        assert(ended(
            old(self).spec_decoder(),
            old(self).spec_tokenizer(),
            encode_pending,
            taken,
            mid,
            came,
            pending,
            self@,
            Ok(out),
        ));
        Ok(out)
    }

    /// Brings all finished windows into the text.
    fn close_windows(&mut self) -> (r: Result<Vec<TranscriptionEvent>>)
        requires
            old(self).wf(),
            !old(self)@.config.finalize_completed_windows ==> old(self)@.queue.len() == 0,
        ensures
            final(self).wf(),
            final(self).keeps_parts(old(self)),
            final(self)@.active == old(self)@.active,
            closed_windows(
                old(self).spec_decoder(),
                old(self).spec_tokenizer(),
                old(self)@,
                final(self)@,
                r,
            ),
    {
        if self.config.finalize_completed_windows {
            self.finalize_completed_windows()
        } else {
            self.freeze_completed_windows();
            Ok(Vec::new())
        }
    }

    /// The last pass of a session, for whose unfinished window `pending` came
    /// back.
    fn finish(&mut self, pending: Result<Option<Array>>) -> (r: Result<()>)
        requires
            old(self).wf(),
        ensures
            final(self).wf(),
            final(self).keeps_parts(old(self)),
            final(self)@ == (SessionModel { shared: final(self)@.shared, ..old(self)@ }),
            last_pass(
                old(self).spec_decoder(),
                old(self).spec_tokenizer(),
                old(self)@,
                pending,
                match r {
                    Ok(_) => Ok(final(self)@.shared),
                    Err(e) => Err(e),
                },
            ),
            r is Err ==> final(self)@ == old(self)@,
    {
        match pending {
            Err(e) => {
                return Err(e);
            },
            Ok(Some(features)) => {
                if row_count(&features) > 0 {
                    let max_tokens: usize = max_final_tokens(
                        self.shared.confirmed_token_ids.len(),
                        self.config.max_tokens_per_pass,
                    );
                    let decoded = self.decoder.decode_all_tokens(
                        &features,
                        self.shared.confirmed_token_ids.as_slice(),
                        &self.config,
                        max_tokens,
                    );
                    assert(decodes(
                        old(self).spec_decoder(),
                        features@,
                        old(self)@.shared.confirmed_ids,
                        old(self)@.config,
                        final_budget(
                            old(self)@.shared.confirmed_ids.len() as int,
                            old(self)@.config.max_tokens_per_pass as int,
                        ) as usize,
                        decoded,
                    ));
                    let tokens = match decoded {
                        Ok(t) => t,
                        Err(e) => {
                            return Err(e);
                        },
                    };
                    let ghost ids = tokens@;
                    let text = self.tokenizer.decode_ids(tokens.as_slice());
                    assert(reads(self.tokenizer, ids, text@));
                    self.shared.replace_tokens(tokens, text);
                }
            },
            Ok(None) => {
                self.shared.promote_all();
                if self.shared.confirmed_token_ids.len() > 0 {
                    self.shared.confirmed_text = self.tokenizer.decode_ids(
                        self.shared.confirmed_token_ids.as_slice(),
                    );
                    assert(reads(
                        self.tokenizer,
                        self@.shared.confirmed_ids,
                        self@.shared.confirmed,
                    ));
                }
            },
        }
        Ok(())
    }

    /// Ends the session and drops its text.
    pub fn cancel(&mut self)
        requires
            old(self).wf(),
        ensures
            final(self).wf(),
            final(self)@ == (SessionModel {
                active: false,
                encoded: 0,
                cadence: Cadence { fast_until: None, ..old(self)@.cadence },
                shared: blank(),
                queue: Seq::empty(),
                ..old(self)@
            }),
            final(self).keeps_parts(old(self)),
            counts_to(old(self)@, SessionCall::Cancel, final(self)@),
    {
        self.is_active = false;
        self.encoded_windows = 0;
        self.cadence.fast_until = None;
        self.shared = SessionSharedState::new();
        self.queue.clear();
        assert(self@.queue =~= Seq::<Tensor>::empty());
    }

    /// Begins anew, as a new session does.
    pub fn reset(&mut self)
        requires
            old(self).wf(),
        ensures
            final(self).wf(),
            final(self)@ == SessionModel::fresh(old(self)@.config),
            final(self).keeps_parts(old(self)),
            counts_to(old(self)@, SessionCall::Reset, final(self)@),
    {
        self.is_active = true;
        self.total_samples_fed = 0;
        self.cadence = Cadence::start();
        self.frozen_windows = 0;
        self.encoded_windows = 0;
        self.shared = SessionSharedState::new();
        self.queue.clear();
        assert(self@.queue =~= Seq::<Tensor>::empty());
    }
}

} // verus!
