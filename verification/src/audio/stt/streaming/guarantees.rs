//! What holds of every transcription session.
use vstd::prelude::*;

use crate::array::{views, Array, Tensor};
use crate::audio::stt::streaming::cadence::{next_cadence, runs};
use crate::audio::stt::streaming::promotion::{
    agreeing_tokens_grow_older, behind, is_settled, is_settled_count, observed,
};
use crate::audio::stt::streaming::session::{
    arrival_of, committed_all, counts_to, decodes, ended, event, events, final_budget, finalize_report,
    finalized, frozen_to, last_pass, pass_budget, pass_promotes, passed_over, passes_at,
    promoted_to, ran_pass, reads, required_passes, rows_of, saturated_sum, streamed_text,
    text_of_window, took_up, window_done, windows_done, EventModel, SessionCall, SessionModel,
    SharedModel, StreamingDecoderBackend, StreamingTokenizer,
};
use crate::audio::stt::streaming::transcript::{appended, appending_keeps_words};
use crate::audio::stt::streaming::types::{EncodedFeed, StreamingConfig, TranscriptionEvent};
use crate::error::{Error, Result};
use crate::text::trimmed;

verus! {

// ---------------------------------------------------------------------------
// Budgets
// ---------------------------------------------------------------------------

/// A pass may give no more tokens than the limit. Below it there is room for
/// 24 tokens, for 24 beyond the confirmed ones and for ten to every thirteen
/// rows, and for no more than one of these needs.
pub proof fn pass_budget_has_room(rows: int, confirmed: int, limit: int)
    requires
        0 <= rows,
        0 <= confirmed,
        confirmed + 24 <= usize::MAX,
        0 <= limit,
    ensures
        ({
            let n = pass_budget(rows, confirmed, limit);
            &&& n <= limit
            &&& n < limit ==> n >= 24 && n >= confirmed + 24 && 13 * n >= 10 * rows
            &&& n <= 24 || n <= confirmed + 24 || 13 * (n - 1) < 10 * rows
        }),
{
}

/// The last pass may give 24 tokens beyond the confirmed ones, but no more
/// than the limit.
pub proof fn final_budget_has_room(confirmed: int, limit: int)
    requires
        0 <= confirmed,
        confirmed + 24 <= usize::MAX,
    ensures
        limit <= confirmed + 24 ==> final_budget(confirmed, limit) == limit,
        limit >= confirmed + 24 ==> final_budget(confirmed, limit) == confirmed + 24,
{
}

/// A token must come out the same in one pass at least and in as many as are
/// asked for; behind the end of a window, and only there, also in as many as
/// are asked for there; and in no more than one of these.
pub proof fn agreement_is_as_asked_for(cfg: StreamingConfig, boundary: bool)
    ensures
        ({
            let n = required_passes(cfg, boundary);
            &&& n >= 1
            &&& n >= cfg.min_agreement_passes
            &&& boundary ==> n >= cfg.boundary_min_agreement_passes
            &&& n == 1 || n == cfg.min_agreement_passes || (boundary && n
                == cfg.boundary_min_agreement_passes)
        }),
{
}

/// The end of a window asks for its own number of passes until its time is
/// over.
pub proof fn agreement_returns_to_normal(
    cfg: StreamingConfig,
    fast_until: Option<u64>,
    now: u64,
)
    ensures
        (fast_until is None || now >= fast_until->0) && cfg.min_agreement_passes >= 1
            ==> passes_at(cfg, fast_until, now) == cfg.min_agreement_passes,
        fast_until is Some && now < fast_until->0 && cfg.boundary_min_agreement_passes
            >= cfg.min_agreement_passes && cfg.boundary_min_agreement_passes >= 1 ==> passes_at(
            cfg,
            fast_until,
            now,
        ) == cfg.boundary_min_agreement_passes,
{
}

// ---------------------------------------------------------------------------
// Windows
// ---------------------------------------------------------------------------

/// Where the decoding of a finished window is blank, what was streamed for it
/// stands, and so it does for a window without rows; without anything streamed
/// the decoding stands.
pub proof fn streamed_text_stands_in(rows: int, full: Seq<char>, streamed: Seq<char>)
    requires
        0 <= rows,
    ensures
        rows == 0 || trimmed(full).len() == 0 ==> text_of_window(rows, full, Some(streamed))
            == streamed,
        rows > 0 ==> text_of_window(rows, full, None) == full,
        rows == 0 ==> text_of_window(rows, full, None).len() == 0,
{
}

/// Windows that the encoder has finished are counted. They wait behind those
/// that waited before, in their order, where windows are decoded again; else
/// none waits.
pub proof fn finished_windows_wait_in_order(s: SessionModel, windows: Seq<Tensor>)
    requires
        s.encoded + windows.len() <= usize::MAX,
    ensures
        s.with_windows(windows).encoded == s.encoded + windows.len(),
        s.config.finalize_completed_windows ==> s.with_windows(windows).queue == s.queue + windows,
        !s.config.finalize_completed_windows ==> s.with_windows(windows).queue == s.queue,
        s.with_windows(windows).shared == s.shared,
        s.with_windows(windows).frozen == s.frozen,
        s.with_windows(windows).samples == s.samples,
        s.with_windows(windows).cadence == s.cadence,
        s.with_windows(windows).active == s.active,
{
}

/// The text of a session with that of one more window is the text before and
/// the window's own behind it, and the tokens of the unfinished window are
/// gone.
pub proof fn committing_moves_text(s: SharedModel, text: Seq<char>)
    ensures
        s.committed(text).completed == appended(s.completed, text),
        s.committed(text).all_ids().len() == 0,
        s.committed(text).confirmed.len() == 0,
        s.committed(text).full_text() == appended(s.completed, text),
{
    let c = s.committed(text);
    assert(c.provisional_ids() =~= Seq::<u32>::empty());
    assert(trimmed(Seq::<char>::empty()).len() == 0) by {
        crate::text::trim_is_final(Seq::<char>::empty());
    }
}

/// The text of a session shows the finished text first and the confirmed text
/// last.
pub proof fn full_text_shows_both(s: SharedModel)
    ensures
        s.completed.is_prefix_of(s.full_text()),
        s.full_text().skip(s.full_text().len() - trimmed(s.confirmed).len()) == trimmed(
            s.confirmed,
        ),
{
    appending_keeps_words(s.completed, s.confirmed);
    let t = s.full_text();
    if trimmed(s.confirmed).len() == 0 {
        assert(t.skip(t.len() as int) =~= trimmed(s.confirmed));
    }
}

/// Texts of windows are committed one after the other.
pub proof fn windows_are_committed_in_order(
    s: SharedModel,
    texts: Seq<Seq<char>>,
    text: Seq<char>,
)
    ensures
        committed_all(s, Seq::empty()) == s,
        committed_all(s, texts.push(text)).completed == appended(
            committed_all(s, texts).completed,
            text,
        ),
        committed_all(s, texts.push(text)).confirmed_ids.len() == 0,
        committed_all(s, texts.push(text)).provisional.len() == 0,
{
    assert(texts.push(text).drop_last() =~= texts);
}

/// Without decoding windows again, the tokens of the unfinished window become
/// finished text when windows have been finished since the last time, and
/// then all finished windows count as such; else nothing changes.
pub proof fn tokens_are_frozen_with_their_window<T: StreamingTokenizer>(
    tokenizer: T,
    before: SessionModel,
    after: SessionModel,
)
    requires
        frozen_to(tokenizer, before, after),
    ensures
        before.encoded <= before.frozen ==> after == before,
        before.encoded > before.frozen ==> {
            &&& after.frozen == before.encoded
            &&& after.shared.all_ids().len() == 0
            &&& before.shared.completed.is_prefix_of(after.shared.completed)
            &&& before.shared.all_ids().len() == 0 ==> after.shared.completed
                == before.shared.completed
            &&& before.shared.all_ids().len() > 0 ==> exists|text: Seq<char>| #[trigger]
                reads(tokenizer, before.shared.all_ids(), text) && after.shared.completed
                    == appended(before.shared.completed, text)
            &&& after == (SessionModel { frozen: after.frozen, shared: after.shared, ..before })
        },
{
    if before.encoded > before.frozen {
        let text = choose|text: Seq<char>|
            (if before.shared.all_ids().len() == 0 {
                text == Seq::<char>::empty()
            } else {
                reads(tokenizer, before.shared.all_ids(), text)
            }) && after == (SessionModel {
                frozen: before.encoded,
                shared: #[trigger] before.shared.committed(text),
                ..before
            });
        committing_moves_text(before.shared, text);
        appending_keeps_words(before.shared.completed, text);
        crate::text::trim_is_final(Seq::<char>::empty());
    }
}

// ---------------------------------------------------------------------------
// Passes
// ---------------------------------------------------------------------------

/// A pass changes nothing of the finished text, keeps every confirmed token
/// and loses none of those that came out behind them: some of these are
/// confirmed now, from the first on, and the others stay provisional.
pub proof fn pass_keeps_every_token<T: StreamingTokenizer>(
    tokenizer: T,
    before: SessionModel,
    after: SessionModel,
    tokens: Seq<u32>,
    required: usize,
    v: Seq<EventModel>,
)
    requires
        promoted_to(tokenizer, before, after, tokens, required, v),
    ensures
        after.shared.completed == before.shared.completed,
        before.shared.confirmed_ids.is_prefix_of(after.shared.confirmed_ids),
        before.shared.confirmed_ids.len() <= tokens.len() ==> after.shared.all_ids()
            == before.shared.confirmed_ids + tokens.skip(before.shared.confirmed_ids.len() as int),
        before.shared.confirmed_ids.len() > tokens.len() ==> after.shared.all_ids()
            == before.shared.confirmed_ids,
        after.queue == before.queue,
        after.encoded == before.encoded,
        after.frozen == before.frozen,
        after.samples == before.samples,
        after.cadence == before.cadence,
        after.active == before.active,
{
    let confirmed = before.shared.confirmed_ids;
    let rest = behind(tokens, confirmed.len() as int);
    let k = after.shared.confirmed_ids.len() - confirmed.len();
    let now = choose|now: u64|
        {
            let new = #[trigger] observed(before.shared.provisional, rest, now);
            &&& is_settled_count(
                new,
                k,
                now,
                (before.config.delay_ms * 1_000_000) as u64,
                required,
            )
            &&& after.shared.provisional == new.skip(k)
        };
    let new = observed(before.shared.provisional, rest, now);
    assert(after.shared.provisional == new.skip(k));
    assert(after.shared.confirmed_ids.take(confirmed.len() as int) =~= confirmed);
    assert(after.shared.provisional_ids() =~= rest.skip(k)) by {
        assert forall|i: int| 0 <= i < rest.len() - k implies after.shared.provisional_ids()[i]
            == rest.skip(k)[i] by {
            agreeing_tokens_grow_older(before.shared.provisional, rest, now, i + k);
        }
    }
    assert(after.shared.all_ids() =~= confirmed + rest);
}

/// A token is confirmed by a pass only where it, and all before it, came out
/// the same in as many passes in a row as are required, this one among them,
/// and was first seen as long ago as is asked for.
pub proof fn confirmed_tokens_have_agreed<T: StreamingTokenizer>(
    tokenizer: T,
    before: SessionModel,
    after: SessionModel,
    tokens: Seq<u32>,
    required: usize,
    v: Seq<EventModel>,
    i: int,
)
    requires
        promoted_to(tokenizer, before, after, tokens, required, v),
        required >= 2,
        before.shared.confirmed_ids.len() <= i < after.shared.confirmed_ids.len(),
    ensures
        ({
            let j = i - before.shared.confirmed_ids.len();
            &&& after.shared.confirmed_ids[i] == tokens[i]
            &&& j < before.shared.provisional.len()
            &&& before.shared.provisional[j].0 == tokens[i]
            &&& before.shared.provisional[j].2 + 1 >= required
        }),
{
    let confirmed = before.shared.confirmed_ids;
    let rest = behind(tokens, confirmed.len() as int);
    let k = after.shared.confirmed_ids.len() - confirmed.len();
    let delay = (before.config.delay_ms * 1_000_000) as u64;
    let now = choose|now: u64|
        {
            let new = #[trigger] observed(before.shared.provisional, rest, now);
            &&& is_settled_count(new, k, now, delay, required)
            &&& after.shared.provisional == new.skip(k)
        };
    let j = i - confirmed.len();
    let new = observed(before.shared.provisional, rest, now);
    assert(is_settled(new[j], now, delay, required));
    agreeing_tokens_grow_older(before.shared.provisional, rest, now, j);
    let previous = before.shared.provisional;
    if j >= previous.len() || exists|q: int|
        #![trigger previous[q]]
        0 <= q <= j && previous[q].0 != rest[q] {
        assert(new[j].2 == 1);
    }
    assert(previous[j].0 == rest[j]);
}

/// Each token that a pass confirms was first seen, at the time of the pass, at
/// least as many milliseconds ago as are asked for, or is new where none are;
/// and the tokens that are new in the pass carry its time.
pub proof fn confirmed_tokens_have_stood<T: StreamingTokenizer>(
    tokenizer: T,
    before: SessionModel,
    after: SessionModel,
    tokens: Seq<u32>,
    required: usize,
    v: Seq<EventModel>,
) -> (now: u64)
    requires
        promoted_to(tokenizer, before, after, tokens, required, v),
    ensures
        before.config.delay_ms > 0 ==> after.shared.confirmed_ids.len()
            - before.shared.confirmed_ids.len() <= before.shared.provisional.len(),
        forall|j: int|
            #![trigger before.shared.provisional[j]]
            0 <= j < after.shared.confirmed_ids.len() - before.shared.confirmed_ids.len()
                && before.config.delay_ms > 0 ==> now - before.shared.provisional[j].1
                >= before.config.delay_ms * 1_000_000,
        forall|j: int|
            #![trigger after.shared.provisional[j]]
            before.shared.provisional.len() <= after.shared.confirmed_ids.len()
                - before.shared.confirmed_ids.len() + j && 0 <= j < after.shared.provisional.len()
                ==> after.shared.provisional[j].1 == now,
{
    let confirmed = before.shared.confirmed_ids;
    let rest = behind(tokens, confirmed.len() as int);
    let k = after.shared.confirmed_ids.len() - confirmed.len();
    let delay = (before.config.delay_ms * 1_000_000) as u64;
    let now = choose|now: u64|
        {
            let new = #[trigger] observed(before.shared.provisional, rest, now);
            &&& is_settled_count(new, k, now, delay, required)
            &&& after.shared.provisional == new.skip(k)
        };
    let new = observed(before.shared.provisional, rest, now);
    let previous = before.shared.provisional;
    assert forall|j: int|
        #![trigger before.shared.provisional[j]]
        0 <= j < after.shared.confirmed_ids.len() - before.shared.confirmed_ids.len()
            && before.config.delay_ms > 0 implies j < before.shared.provisional.len() && now
        - before.shared.provisional[j].1 >= before.config.delay_ms * 1_000_000 by {
        assert(is_settled(new[j], now, delay, required));
        agreeing_tokens_grow_older(previous, rest, now, j);
        if j >= previous.len() || exists|q: int|
            #![trigger previous[q]]
            0 <= q <= j && previous[q].0 != rest[q] {
            assert(new[j].1 == now);
        } else {
            assert(forall|q: int| #![trigger previous[q]] 0 <= q <= j ==> previous[q].0 == rest[q]);
        }
    }
    if before.config.delay_ms > 0 && k > previous.len() {
        let last = previous.len() as int;
        assert(before.shared.provisional[last].1 == previous[last].1);
    }
    assert forall|j: int|
        previous.len() <= k + j && 0 <= j < after.shared.provisional.len() implies (
    #[trigger] after.shared.provisional[j]).1 == now by {
        agreeing_tokens_grow_older(previous, rest, now, k + j);
    }
    now
}

/// A pass that fails, or finds no rows, changes nothing of the session.
pub proof fn failed_pass_changes_nothing<D: StreamingDecoderBackend, T: StreamingTokenizer>(
    decoder: D,
    tokenizer: T,
    before: SessionModel,
    after: SessionModel,
    pending: Result<Option<Array>>,
    r: Result<Vec<TranscriptionEvent>>,
)
    requires
        passed_over(decoder, tokenizer, before, after, pending, r),
        r is Err || pending is Err || pending == Ok::<Option<Array>, Error>(None),
    ensures
        after == before,
        pending is Err ==> r is Err && r->Err_0 == pending->Err_0,
        pending == Ok::<Option<Array>, Error>(None) ==> r is Ok && r->Ok_0@.len() == 0,
{
}

/// Whatever is taken up, the finished text is only added to, the samples stay
/// as counted and the session goes on; and where no pass runs nothing is
/// reported and no text changes.
pub proof fn taking_up_adds_to_the_text<
    D: StreamingDecoderBackend,
    T: StreamingTokenizer,
    F: FnOnce() -> Result<Option<Array>>,
>(
    decoder: D,
    tokenizer: T,
    encode_pending: F,
    counted: SessionModel,
    f: EncodedFeed,
    now: u64,
    pending: Result<Option<Array>>,
    after: SessionModel,
    r: Result<Vec<TranscriptionEvent>>,
)
    requires
        took_up(decoder, tokenizer, encode_pending, counted, f, now, pending, after, r),
        counted.encoded + f.windows@.len() <= usize::MAX,
        counted.queue.len() == 0 || counted.config.finalize_completed_windows,
    ensures
        counted.shared.completed.is_prefix_of(after.shared.completed),
        after.samples == counted.samples,
        after.active == counted.active,
        after.encoded == counted.encoded + f.windows@.len(),
        !runs(counted.cadence, counted.config, arrival_of(counted, f, now)) ==> {
            &&& r is Ok
            &&& r->Ok_0@.len() == 0
            &&& after.shared == counted.shared
            &&& after.frozen == counted.frozen
            &&& counted.config.finalize_completed_windows ==> after.queue == counted.queue + views(
                f.windows@,
            )
        },
{
    let arrival = arrival_of(counted, f, now);
    let ready = SessionModel {
        cadence: next_cadence(
            counted.cadence,
            counted.config,
            arrival,
        ),
        ..counted.with_windows(views(f.windows@))
    };
    assert(views(f.windows@).len() == f.windows@.len());
    assert(counted.shared.completed.is_prefix_of(counted.shared.completed));
    if runs(counted.cadence, counted.config, arrival) {
        if !counted.config.finalize_completed_windows {
            let mid = choose|mid: SessionModel| #[trigger]
                frozen_to(tokenizer, ready, mid) && passed_over(
                    decoder,
                    tokenizer,
                    mid,
                    after,
                    pending,
                    r,
                );
            tokens_are_frozen_with_their_window(tokenizer, ready, mid);
        }
    }
}

/// What is reported of an arrival is what arrived.
pub proof fn arrivals_are_reported(s: SessionModel, f: EncodedFeed, now: u64)
    ensures
        arrival_of(s, f, now).new_windows == (f.windows@.len() > 0),
        arrival_of(s, f, now).pending_frames == f.has_pending_frames,
        arrival_of(s, f, now).waiting == (s.queue.len() > 0),
        arrival_of(s, f, now).now == now,
{
}

// ---------------------------------------------------------------------------
// The end
// ---------------------------------------------------------------------------

/// A session that has ended reports all of its text last: the finished text
/// and behind it that of the unfinished window. Nothing provisional is left,
/// and where the unfinished window has no features all its tokens are in the
/// text.
pub proof fn ended_session_reports_all_text<
    D: StreamingDecoderBackend,
    T: StreamingTokenizer,
    F: FnOnce() -> Result<Option<Array>>,
>(
    decoder: D,
    tokenizer: T,
    encode_pending: F,
    before: SessionModel,
    mid: SessionModel,
    v: Result<Vec<TranscriptionEvent>>,
    pending: Result<Option<Array>>,
    after: SessionModel,
    r: Result<Vec<TranscriptionEvent>>,
)
    requires
        ended(decoder, tokenizer, encode_pending, before, mid, v, pending, after, r),
        r is Ok,
    ensures
        r->Ok_0@.len() > 0,
        r->Ok_0@.last() matches TranscriptionEvent::Ended { full_text } && full_text@
            == after.shared.full_text(),
        after.shared.completed == mid.shared.completed,
        after.encoded == 0,
        after.cadence.fast_until is None,
        after.samples == mid.samples,
        pending == Ok::<Option<Array>, Error>(None) ==> after.shared.confirmed_ids
            == mid.shared.all_ids() && after.shared.provisional.len() == 0 && (
        mid.shared.all_ids().len() > 0 ==> reads(
            tokenizer,
            mid.shared.all_ids(),
            after.shared.confirmed,
        )),
{
    let all = r->Ok_0@;
    let first = v->Ok_0@;
    let said = events(first).push(EventModel::Ended(after.shared.full_text()));
    assert(events(all) == said);
    assert(events(all).len() == all.len());
    assert(events(all)[all.len() - 1] == event(all[all.len() - 1]));
    assert(said[said.len() - 1] == EventModel::Ended(after.shared.full_text()));
}

/// Ending that fails leaves the unfinished window as it was.
pub proof fn failed_ending_keeps_the_tokens<
    D: StreamingDecoderBackend,
    T: StreamingTokenizer,
    F: FnOnce() -> Result<Option<Array>>,
>(
    decoder: D,
    tokenizer: T,
    encode_pending: F,
    before: SessionModel,
    mid: SessionModel,
    v: Result<Vec<TranscriptionEvent>>,
    pending: Result<Option<Array>>,
    after: SessionModel,
    r: Result<Vec<TranscriptionEvent>>,
)
    requires
        ended(decoder, tokenizer, encode_pending, before, mid, v, pending, after, r),
        r is Err,
    ensures
        after == mid,
        v is Err ==> r->Err_0 == v->Err_0,
        v is Ok && pending is Err ==> r->Err_0 == pending->Err_0,
{
}

// ---------------------------------------------------------------------------
// Reports and calls
// ---------------------------------------------------------------------------

/// Features have as many rows as their first axis is long.
pub proof fn rows_are_the_first_axis(a: Tensor)
    ensures
        a.shape.len() > 0 ==> rows_of(a) == a.shape[0],
        a.shape.len() == 0 ==> rows_of(a) == 0,
{
}

/// A pass reports the text on display, all confirmed text and what may still
/// change, and before it the confirmed text where it has grown; behind it stand
/// the figures of the session and the number of tokens that came out.
pub proof fn passes_report_their_text<T: StreamingTokenizer>(
    tokenizer: T,
    before: SessionModel,
    after: SessionModel,
    tokens: Seq<u32>,
    required: usize,
    v: Seq<EventModel>,
)
    requires
        promoted_to(tokenizer, before, after, tokens, required, v),
    ensures
        ({
            let grown = after.shared.confirmed_ids.len() > before.shared.confirmed_ids.len();
            let n: int = if grown {
                3
            } else {
                2
            };
            &&& v.len() == n
            &&& grown ==> v[0] == EventModel::Confirmed(after.shared.full_text()) && reads(
                tokenizer,
                after.shared.confirmed_ids,
                after.shared.confirmed,
            )
            &&& !grown ==> after.shared.confirmed == before.shared.confirmed
            &&& v[n - 2] is DisplayUpdate
            &&& v[n - 2]->DisplayUpdate_0 == after.shared.full_text()
            &&& reads(tokenizer, after.shared.provisional_ids(), v[n - 2]->DisplayUpdate_1)
            &&& v[n - 1] is Stats
            &&& v[n - 1]->Stats_0.encoded_window_count == after.encoded
            &&& v[n - 1]->Stats_0.total_samples == after.samples
            &&& v[n - 1]->Stats_0.generated_tokens == tokens.len()
        }),
{
}

/// Decoding the windows that wait reports figures alone, with the tokens of
/// all of them.
pub proof fn finished_windows_report_figures<D: StreamingDecoderBackend, T: StreamingTokenizer>(
    decoder: D,
    tokenizer: T,
    before: SessionModel,
    after: SessionModel,
    r: Result<Vec<TranscriptionEvent>>,
) -> (counts: Seq<int>)
    requires
        finalized(decoder, tokenizer, before, after, r),
        r is Ok,
    ensures
        r->Ok_0@.len() == 1,
        r->Ok_0@[0] matches TranscriptionEvent::Stats(x) && x.encoded_window_count == after.encoded
            && x.total_samples == after.samples && x.generated_tokens == saturated_sum(counts),
        counts.len() == before.queue.len(),
        after.queue.len() == 0,
{
    let n = before.queue.len() - after.queue.len();
    let (fallback, texts, counts) = choose|
        fallback: Option<Seq<char>>,
        texts: Seq<Seq<char>>,
        counts: Seq<int>,
    |
        {
            &&& texts.len() == n
            &&& streamed_text(tokenizer, before.shared, fallback)
            &&& #[trigger] windows_done(
                decoder,
                tokenizer,
                before.config,
                before.queue,
                fallback,
                texts,
                counts,
            )
            &&& after.shared == committed_all(before.shared, texts)
            &&& r is Ok ==> finalize_report(events(r->Ok_0@), after, saturated_sum(counts))
        };
    let all = r->Ok_0@;
    assert(events(all).len() == all.len());
    assert(events(all)[0] == event(all[0]));
    counts
}

/// A finished window is decoded from nothing, with the whole budget of a pass,
/// and its text is that of the tokens that came out, or what was streamed where
/// that is blank; without rows it is not decoded.
pub proof fn finished_windows_are_decoded_from_nothing<
    D: StreamingDecoderBackend,
    T: StreamingTokenizer,
>(
    decoder: D,
    tokenizer: T,
    config: StreamingConfig,
    window: Tensor,
    fallback: Option<Seq<char>>,
    text: Seq<char>,
    count: int,
)
    requires
        window_done(decoder, tokenizer, config, window, fallback, text, count),
    ensures
        rows_of(window) == 0 ==> count == 0 && text == match fallback {
            Some(t) => t,
            None => Seq::empty(),
        },
        rows_of(window) > 0 ==> exists|ids: Vec<u32>, full: Seq<char>|
            decodes(
                decoder,
                window,
                Seq::empty(),
                config,
                config.max_tokens_per_pass,
                Ok(ids),
            ) && #[trigger] reads(tokenizer, ids@, full) && count == ids@.len() && text == (
            if trimmed(full).len() == 0 && fallback is Some {
                fallback->0
            } else {
                full
            }),
{
    if rows_of(window) > 0 {
        let (ids, full) = choose|ids: Vec<u32>, full: Seq<char>|
            decodes(
                decoder,
                window,
                Seq::empty(),
                config,
                config.max_tokens_per_pass,
                Ok(ids),
            ) && #[trigger] reads(tokenizer, ids@, full) && count == ids@.len() && text
                == text_of_window(rows_of(window), full, fallback);
        assert(reads(tokenizer, ids@, full));
    }
}

/// Only the first of the windows that wait falls back on what was streamed,
/// which is the text of all tokens of the unfinished window.
pub proof fn first_window_falls_back<D: StreamingDecoderBackend, T: StreamingTokenizer>(
    decoder: D,
    tokenizer: T,
    config: StreamingConfig,
    s: SharedModel,
    queue: Seq<Tensor>,
    fallback: Option<Seq<char>>,
    texts: Seq<Seq<char>>,
    counts: Seq<int>,
    k: int,
)
    requires
        windows_done(decoder, tokenizer, config, queue, fallback, texts, counts),
        streamed_text(tokenizer, s, fallback),
        0 <= k < texts.len(),
    ensures
        k == 0 ==> window_done(decoder, tokenizer, config, queue[0], fallback, texts[0], counts[0]),
        k > 0 ==> window_done(decoder, tokenizer, config, queue[k], None, texts[k], counts[k]),
        fallback is Some <==> s.all_ids().len() > 0,
        fallback matches Some(t) ==> reads(tokenizer, s.all_ids(), t),
{
}

/// A pass over the unfinished window goes on from the confirmed tokens, with
/// the budget that its rows and these allow.
pub proof fn passes_go_on_from_confirmed_tokens<D: StreamingDecoderBackend, T: StreamingTokenizer>(
    decoder: D,
    tokenizer: T,
    before: SessionModel,
    after: SessionModel,
    features: Array,
    r: Result<Vec<TranscriptionEvent>>,
)
    requires
        passed_over(decoder, tokenizer, before, after, Ok(Some(features)), r),
    ensures
        rows_of(features@) == 0 ==> after == before && r is Ok && r->Ok_0@.len() == 0,
        rows_of(features@) > 0 ==> exists|decoded: Result<Vec<u32>>|
            #![trigger decoded is Ok]
            decodes(
                decoder,
                features@,
                before.shared.confirmed_ids,
                before.config,
                pass_budget(
                    rows_of(features@),
                    before.shared.confirmed_ids.len() as int,
                    before.config.max_tokens_per_pass as int,
                ) as usize,
                decoded,
            ) && (decoded is Err ==> r is Err && r->Err_0 == decoded->Err_0) && (decoded is Ok
                ==> r is Ok && exists|now: u64| #[trigger]
                promoted_to(
                    tokenizer,
                    before,
                    after,
                    decoded->Ok_0@,
                    passes_at(before.config, before.cadence.fast_until, now),
                    events(r->Ok_0@),
                )),
{
    if rows_of(features@) > 0 {
        let decoded = choose|decoded: Result<Vec<u32>>|
            {
                &&& #[trigger] decodes(
                    decoder,
                    features@,
                    before.shared.confirmed_ids,
                    before.config,
                    pass_budget(
                        rows_of(features@),
                        before.shared.confirmed_ids.len() as int,
                        before.config.max_tokens_per_pass as int,
                    ) as usize,
                    decoded,
                )
                &&& match decoded {
                    Err(e) => after == before && r == Err::<Vec<TranscriptionEvent>, Error>(e),
                    Ok(tokens) => r is Ok && pass_promotes(
                        tokenizer,
                        before,
                        after,
                        tokens@,
                        events(r->Ok_0@),
                    ),
                }
            };
        assert(decoded is Ok || decoded is Err);
    }
}

/// The last pass goes on from the confirmed tokens too, with room for 24 more,
/// and what comes out of it takes their place.
pub proof fn last_pass_goes_on_from_confirmed_tokens<
    D: StreamingDecoderBackend,
    T: StreamingTokenizer,
>(
    decoder: D,
    tokenizer: T,
    s: SessionModel,
    features: Array,
    shared: SharedModel,
)
    requires
        last_pass(decoder, tokenizer, s, Ok(Some(features)), Ok(shared)),
    ensures
        shared.completed == s.shared.completed,
        rows_of(features@) == 0 ==> shared == s.shared,
        rows_of(features@) > 0 ==> shared.provisional.len() == 0 && reads(
            tokenizer,
            shared.confirmed_ids,
            shared.confirmed,
        ) && exists|ids: Vec<u32>|
            ids@ == shared.confirmed_ids && #[trigger] decodes(
                decoder,
                features@,
                s.shared.confirmed_ids,
                s.config,
                final_budget(
                    s.shared.confirmed_ids.len() as int,
                    s.config.max_tokens_per_pass as int,
                ) as usize,
                Ok(ids),
            ),
{
}

/// Where windows wait a pass decodes them, and else the unfinished window;
/// without decoding windows again their tokens become finished text first.
pub proof fn waiting_windows_come_first<D: StreamingDecoderBackend, T: StreamingTokenizer>(
    decoder: D,
    tokenizer: T,
    before: SessionModel,
    after: SessionModel,
    pending: Result<Option<Array>>,
    r: Result<Vec<TranscriptionEvent>>,
)
    requires
        ran_pass(decoder, tokenizer, before, after, pending, r),
    ensures
        before.config.finalize_completed_windows && before.queue.len() > 0 ==> finalized(
            decoder,
            tokenizer,
            before,
            after,
            r,
        ),
        before.config.finalize_completed_windows && before.queue.len() == 0 ==> passed_over(
            decoder,
            tokenizer,
            before,
            after,
            pending,
            r,
        ),
        !before.config.finalize_completed_windows ==> exists|mid: SessionModel| #[trigger]
            frozen_to(tokenizer, before, mid) && passed_over(
                decoder,
                tokenizer,
                mid,
                after,
                pending,
                r,
            ),
{
}

/// A new session has nothing: no text, no tokens, no samples and no windows,
/// and goes on.
pub proof fn new_sessions_are_empty(config: StreamingConfig)
    ensures
        ({
            let s = SessionModel::fresh(config);
            &&& s.config == config
            &&& s.active
            &&& s.samples == 0
            &&& s.encoded == 0
            &&& s.frozen == 0
            &&& s.queue.len() == 0
            &&& s.shared.completed.len() == 0
            &&& s.shared.confirmed.len() == 0
            &&& s.shared.confirmed_ids.len() == 0
            &&& s.shared.provisional.len() == 0
            &&& s.cadence.last_decode is None
            &&& s.cadence.fast_until is None
            &&& !s.cadence.has_new_content
        }),
{
}

/// Samples count while a session goes on, up to the largest number; nothing
/// else counts, and a reset begins at zero.
pub proof fn samples_count_while_it_goes_on(
    before: SessionModel,
    call: SessionCall,
    after: SessionModel,
)
    requires
        counts_to(before, call, after),
        0 <= before.samples <= usize::MAX,
    ensures
        call matches SessionCall::Feed(n) ==> (before.active && before.samples + n <= usize::MAX
            ==> after.samples == before.samples + n) && (!before.active ==> after.samples
            == before.samples),
        call is Stop || call is Cancel ==> after.samples == before.samples,
        call is Reset ==> after.samples == 0,
{
}

} // verus!
