//! When a session decodes.
use vstd::prelude::*;

use crate::audio::stt::streaming::types::{StreamingConfig, MIN_DECODE_INTERVAL};

verus! {

/// What decides when the next decode pass runs.
#[derive(Clone, Copy, Debug, PartialEq, Eq, Structural)]
pub struct Cadence {
    /// When the last pass ran that was not for a finished window.
    pub last_decode: Option<u64>,
    /// Until when passes are closer together.
    pub fast_until: Option<u64>,
    /// Whether the encoder has something that no pass has seen.
    pub has_new_content: bool,
}

/// What has come in.
#[derive(Clone, Copy, Debug, PartialEq, Eq, Structural)]
pub struct Arrival {
    /// Whether a window was finished.
    pub new_windows: bool,
    /// Whether frames of an unfinished window wait.
    pub pending_frames: bool,
    /// Whether finished windows wait to be decoded again.
    pub waiting: bool,
    pub now: u64,
}

pub open spec fn at_least(x: u64, least: u64) -> u64 {
    if x < least {
        least
    } else {
        x
    }
}

/// Until when passes are closer together: a finished window begins such a
/// time anew.
pub open spec fn fast_until(c: Cadence, cfg: StreamingConfig, a: Arrival) -> Option<u64> {
    if a.new_windows {
        if cfg.boundary_boost > 0 {
            Some(
                if a.now + cfg.boundary_boost <= u64::MAX {
                    (a.now + cfg.boundary_boost) as u64
                } else {
                    u64::MAX
                },
            )
        } else {
            None
        }
    } else {
        c.fast_until
    }
}

/// Whether passes are closer together now.
pub open spec fn is_fast(c: Cadence, cfg: StreamingConfig, a: Arrival) -> bool {
    fast_until(c, cfg, a) matches Some(until) && a.now < until
}

/// The time between two passes.
pub open spec fn interval(c: Cadence, cfg: StreamingConfig, a: Arrival) -> u64 {
    let normal = at_least(cfg.decode_interval, MIN_DECODE_INTERVAL);
    let fast = at_least(cfg.boundary_decode_interval, MIN_DECODE_INTERVAL);
    if is_fast(c, cfg, a) && fast < normal {
        fast
    } else {
        normal
    }
}

/// Whether there is something to decode.
pub open spec fn has_content(c: Cadence, a: Arrival) -> bool {
    c.has_new_content || a.new_windows || a.pending_frames
}

/// Whether finished windows wait to be decoded again.
pub open spec fn has_retries(cfg: StreamingConfig, a: Arrival) -> bool {
    cfg.finalize_completed_windows && a.waiting
}

/// Whether a finished window is decoded as a whole.
pub open spec fn finalizes(cfg: StreamingConfig, a: Arrival) -> bool {
    cfg.finalize_completed_windows && a.new_windows
}

/// Whether a pass is due: at once for a finished window or one to be decoded
/// again, else when the time between two passes is over, and the first time
/// when there is something to decode.
pub open spec fn is_due(c: Cadence, cfg: StreamingConfig, a: Arrival) -> bool {
    if finalizes(cfg, a) || has_retries(cfg, a) {
        true
    } else {
        match c.last_decode {
            Some(last) => a.now - last >= interval(c, cfg, a),
            None => has_content(c, a),
        }
    }
}

/// Whether a pass runs: one is due and there is something to decode.
pub open spec fn runs(c: Cadence, cfg: StreamingConfig, a: Arrival) -> bool {
    is_due(c, cfg, a) && (has_content(c, a) || has_retries(cfg, a))
}

/// The state after samples have come in.
pub open spec fn next_cadence(c: Cadence, cfg: StreamingConfig, a: Arrival) -> Cadence {
    Cadence {
        last_decode: if runs(c, cfg, a) && !finalizes(cfg, a) {
            Some(a.now)
        } else {
            c.last_decode
        },
        fast_until: if is_fast(c, cfg, a) {
            fast_until(c, cfg, a)
        } else {
            None
        },
        has_new_content: has_content(c, a) && !runs(c, cfg, a),
    }
}

impl Cadence {
    /// Before anything has come in.
    pub open spec fn spec_start() -> Cadence {
        Cadence { last_decode: None, fast_until: None, has_new_content: false }
    }

    /// Before anything has come in.
    #[verifier::when_used_as_spec(spec_start)]
    pub fn start() -> (c: Cadence)
        ensures
            c == Cadence::spec_start(),
    {
        Cadence { last_decode: None, fast_until: None, has_new_content: false }
    }

    /// Decides whether a pass runs now that samples have come in.
    pub fn advance(&mut self, cfg: &StreamingConfig, a: Arrival) -> (run: bool)
        ensures
            run == runs(*old(self), *cfg, a),
            *final(self) == next_cadence(*old(self), *cfg, a),
    {
        let content: bool = self.has_new_content || a.new_windows || a.pending_frames;
        let until: Option<u64> = if a.new_windows {
            if cfg.boundary_boost > 0 {
                Some(a.now.saturating_add(cfg.boundary_boost))
            } else {
                None
            }
        } else {
            self.fast_until
        };
        let fast: bool = match until {
            Some(u) => a.now < u,
            None => false,
        };
        let normal_interval: u64 = if cfg.decode_interval < MIN_DECODE_INTERVAL {
            MIN_DECODE_INTERVAL
        } else {
            cfg.decode_interval
        };
        let fast_interval: u64 = if cfg.boundary_decode_interval < MIN_DECODE_INTERVAL {
            MIN_DECODE_INTERVAL
        } else {
            cfg.boundary_decode_interval
        };
        let between: u64 = if fast && fast_interval < normal_interval {
            fast_interval
        } else {
            normal_interval
        };
        let finalizing: bool = cfg.finalize_completed_windows && a.new_windows;
        let retries: bool = cfg.finalize_completed_windows && a.waiting;
        let due: bool = if finalizing || retries {
            true
        } else {
            match self.last_decode {
                Some(last) => a.now >= last && a.now - last >= between,
                None => content,
            }
        };
        let run: bool = due && (content || retries);
        self.fast_until = if fast {
            until
        } else {
            None
        };
        if run && !finalizing {
            self.last_decode = Some(a.now);
        }
        self.has_new_content = content && !run;
        run
    }
}

/// A finished window is decoded at once where windows are finalized, and so is
/// one that waits to be decoded again, whatever the time.
pub proof fn finished_windows_run_at_once(c: Cadence, cfg: StreamingConfig, a: Arrival)
    requires
        cfg.finalize_completed_windows,
        a.new_windows || a.waiting,
    ensures
        runs(c, cfg, a),
{
}

/// No two ordinary passes run within the least interval.
pub proof fn ordinary_passes_keep_apart(c: Cadence, cfg: StreamingConfig, a: Arrival)
    requires
        runs(c, cfg, a),
        !finalizes(cfg, a),
        !has_retries(cfg, a),
        c.last_decode is Some,
    ensures
        a.now - c.last_decode->0 >= MIN_DECODE_INTERVAL,
{
}

/// Content is never forgotten: it is decoded now or still new afterwards.
pub proof fn content_is_not_forgotten(c: Cadence, cfg: StreamingConfig, a: Arrival)
    requires
        has_content(c, a),
    ensures
        runs(c, cfg, a) || next_cadence(c, cfg, a).has_new_content,
{
}

/// An ordinary pass, for no finished window, runs when there is something to
/// decode and the time since the last one is over, and the first of them as
/// soon as there is something to decode. That time is the one asked for;
/// shortly behind the end of a window it is the one asked for there, if that is
/// less; and it is never below 50 milliseconds.
pub proof fn passes_wait_out_their_time(c: Cadence, cfg: StreamingConfig, a: Arrival)
    requires
        !cfg.finalize_completed_windows || !(a.new_windows || a.waiting),
    ensures
        ({
            let content = c.has_new_content || a.new_windows || a.pending_frames;
            let short = if a.new_windows {
                cfg.boundary_boost > 0 && a.now < u64::MAX
            } else {
                c.fast_until matches Some(u) && a.now < u
            };
            match c.last_decode {
                None => runs(c, cfg, a) == content,
                Some(last) => {
                    let waited = a.now - last;
                    let long_enough = waited >= 50_000_000 && (waited >= cfg.decode_interval || (
                    short && waited >= cfg.boundary_decode_interval));
                    runs(c, cfg, a) == (content && long_enough)
                },
            }
        }),
{
}

/// A pass is remembered by its time, unless it was for a finished window; what
/// it has seen is no longer new; and the time behind the end of a window begins
/// with the window, lasts as long as asked for, and is forgotten when it is
/// over.
pub proof fn passes_are_remembered(c: Cadence, cfg: StreamingConfig, a: Arrival)
    ensures
        ({
            let n = next_cadence(c, cfg, a);
            let finishing = cfg.finalize_completed_windows && a.new_windows;
            &&& runs(c, cfg, a) && !finishing ==> n.last_decode == Some(a.now)
            &&& !runs(c, cfg, a) || finishing ==> n.last_decode == c.last_decode
            &&& runs(c, cfg, a) ==> !n.has_new_content
            &&& !runs(c, cfg, a) ==> n.has_new_content == (c.has_new_content || a.new_windows
                || a.pending_frames)
            &&& a.new_windows && cfg.boundary_boost > 0 && a.now + cfg.boundary_boost <= u64::MAX
                ==> n.fast_until == Some((a.now + cfg.boundary_boost) as u64)
            &&& a.new_windows && cfg.boundary_boost == 0 ==> n.fast_until is None
            &&& !a.new_windows && c.fast_until is Some && a.now < c.fast_until->0 ==> n.fast_until
                == c.fast_until
            &&& !a.new_windows && (c.fast_until is None || a.now >= c.fast_until->0)
                ==> n.fast_until is None
        }),
{
}

/// Without finalizing, and with it where no window is finished or waits, a
/// pass runs only where there is something to decode.
pub proof fn nothing_new_is_not_decoded(c: Cadence, cfg: StreamingConfig, a: Arrival)
    requires
        !c.has_new_content,
        !a.new_windows,
        !a.pending_frames,
    ensures
        runs(c, cfg, a) ==> cfg.finalize_completed_windows && a.waiting,
{
}

} // verus!
