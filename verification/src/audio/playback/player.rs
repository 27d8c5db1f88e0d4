//! The queue and the state of a player.
//!
//! Samples are written at one end and the device takes them at the other. A
//! write is taken up whole or not at all, and where the device asks for more
//! than there is the rest is silence.
use std::collections::VecDeque;
use vstd::prelude::*;

use crate::audio::playback::config::{PlaybackConfig, SampleFormat, StreamConfig};
use crate::error::{backend, Error, Result};
use crate::scalar::{clamp_unit_is_idempotent, F32};
use crate::text::{concat, decimal, decimal_text, matches_at};

verus! {

/// What a player does.
#[derive(Clone, Copy, Debug, PartialEq, Eq, Structural)]
pub enum PlayerState {
    Stopped,
    Running,
    Paused,
}

impl PlayerState {
    /// The number by which a state is reported.
    pub open spec fn spec_code(self) -> u8 {
        match self {
            PlayerState::Stopped => 0,
            PlayerState::Running => 1,
            PlayerState::Paused => 2,
        }
    }

    /// The number by which a state is reported.
    #[verifier::when_used_as_spec(spec_code)]
    pub fn code(self) -> (n: u8)
        ensures
            n == self.spec_code(),
    {
        match self {
            PlayerState::Stopped => 0,
            PlayerState::Running => 1,
            PlayerState::Paused => 2,
        }
    }
}

/// How often a flush looks whether all samples have been taken, in
/// milliseconds.
pub const FLUSH_POLL_INTERVAL_MS: u64 = 10;

/// How long a flush waits at most, in nanoseconds.
pub const FLUSH_TIMEOUT_NS: u64 = 30_000_000_000;

/// A sink for samples.
pub trait AudioOutputStream {
    /// Takes up samples, all of them or none.
    fn write_samples(&mut self, samples: &[F32]) -> Result<usize>;

    /// Waits until all samples have been played.
    fn flush(&mut self) -> Result<()>;

    /// Stops and drops what waits.
    fn stop(&mut self) -> Result<()>;

    /// Whether samples are being played.
    fn is_running(&self) -> bool;
}

/// The queue and the state of a player.
#[derive(Debug)]
pub struct AudioPlayer {
    queue: VecDeque<F32>,
    capacity: usize,
    state: PlayerState,
    volume: F32,
    callback_error: Option<String>,
    config: PlaybackConfig,
}

/// What a flush does next.
#[derive(Clone, Copy, Debug, PartialEq, Eq, Structural)]
pub enum FlushStep {
    /// All samples have been played.
    Done,
    /// It waits and looks again.
    Wait,
}

/// What a player stands for.
pub ghost struct PlayerModel {
    pub queue: Seq<F32>,
    pub capacity: int,
    pub state: PlayerState,
    pub volume: F32,
    pub error: Option<Seq<char>>,
    pub config: PlaybackConfig,
}

impl View for AudioPlayer {
    type V = PlayerModel;

    closed spec fn view(&self) -> PlayerModel {
        PlayerModel {
            queue: self.queue@,
            capacity: self.capacity as int,
            state: self.state,
            volume: self.volume,
            error: match self.callback_error {
                Some(e) => Some(e@),
                None => None,
            },
            config: self.config,
        }
    }
}

/// The samples that wait at most.
pub open spec fn capacity_of(c: PlaybackConfig) -> int {
    c.queue_capacity_frames * c.channels.count()
}

/// Whether a player can be made of the settings.
pub open spec fn playable(c: PlaybackConfig) -> bool {
    c.sample_format == SampleFormat::F32 && c.channels.count() != 0 && capacity_of(c) <= usize::MAX
}

impl PlayerModel {
    /// Without the error of the device.
    pub open spec fn acknowledged(self) -> PlayerModel {
        PlayerModel { error: None, ..self }
    }
}

/// The error that the device has reported.
pub open spec fn reported(r: Result<()>, error: Option<Seq<char>>) -> bool {
    match error {
        Some(text) => r is Err && r->Err_0 is Backend && r->Err_0.text() == text,
        None => r is Ok,
    }
}

/// What becomes of a player that is told to go over to `state`, where `tell`
/// tells its device: an error that the device has reported comes first.
pub open spec fn switched<F: FnOnce() -> Result<()>>(
    before: PlayerModel,
    after: PlayerModel,
    state: PlayerState,
    tell: F,
    r: Result<()>,
) -> bool {
    match before.error {
        Some(_) => reported(r, before.error) && after == before.acknowledged(),
        None => {
            &&& tell.ensures((), r)
            &&& after == if r is Ok {
                PlayerModel { state, ..before }
            } else {
                before
            }
        },
    }
}

/// Why samples are not taken up: there is not enough room for them.
pub open spec fn overflow_text(capacity: int, waiting: nat, pushed: nat) -> Seq<char> {
    "AudioPlayer::write_samples: queue overflow (capacity "@ + decimal(capacity as nat)
        + " samples, current "@ + decimal(waiting) + " samples, tried to push "@ + decimal(pushed)
        + ")"@
}

/// Why samples are not taken up, if they are not.
pub open spec fn write_refusal(p: PlayerModel, pushed: nat) -> Option<Seq<char>> {
    if p.queue.len() + pushed > usize::MAX {
        Some("AudioPlayer::write_samples: queue length + new samples overflows usize"@)
    } else if p.queue.len() + pushed > p.capacity {
        Some(overflow_text(p.capacity, p.queue.len(), pushed))
    } else {
        None
    }
}

/// Why a flush does not go on, `elapsed_ns` nanoseconds after it began, if it
/// does not: samples wait that are not being played, or it has waited for too
/// long.
pub open spec fn flush_refusal(p: PlayerModel, elapsed_ns: u64) -> Option<Seq<char>> {
    if p.queue.len() == 0 {
        None
    } else if p.state != PlayerState::Running {
        Some(
            "AudioPlayer::flush: queue has "@ + decimal(p.queue.len())
                + " samples but state is "@ + decimal(p.state.code() as nat)
                + " (not running) — call start() before flush()"@,
        )
    } else if elapsed_ns > FLUSH_TIMEOUT_NS {
        Some(
            "AudioPlayer::flush: timed out after 30s with "@ + decimal(p.queue.len())
                + " samples still queued"@,
        )
    } else {
        None
    }
}

/// Why no player is made of the settings, where that does not lie in the
/// channel count.
pub open spec fn settings_refusal(c: PlaybackConfig) -> Option<Seq<char>> {
    if c.sample_format != SampleFormat::F32 {
        Some(
            "AudioPlayer: only SampleFormat::F32 is currently supported (got "@
                + c.sample_format.name()@
                + "); non-F32 device negotiation is reserved for a follow-up"@,
        )
    } else if c.channels.count() != 0 && capacity_of(c) > usize::MAX {
        Some("AudioPlayer: queue_capacity_frames * channels overflows usize"@)
    } else {
        None
    }
}

impl PlayerModel {
    /// How many of the samples that wait the device gets when it asks for `n`:
    /// none while the player does not run.
    pub open spec fn taken(self, n: int) -> int {
        if self.state != PlayerState::Running {
            0
        } else if self.queue.len() < n {
            self.queue.len() as int
        } else {
            n
        }
    }

    /// The player after the device has taken `k` samples.
    pub open spec fn advanced(self, k: int) -> PlayerModel {
        PlayerModel { queue: self.queue.skip(k), ..self }
    }
}

/// Samples without sound.
pub open spec fn silence(n: nat) -> Seq<F32> {
    Seq::new(n, |i: int| F32::zero())
}

impl AudioPlayer {
    /// There is the room that the settings ask for, no more samples wait than
    /// there is room for, and the volume is between zero and one.
    pub closed spec fn wf(&self) -> bool {
        &&& self.capacity == capacity_of(self.config)
        &&& self.queue@.len() <= self.capacity
        &&& !self.volume.is_nan()
        &&& 0 <= self.volume.rank() <= F32::one().rank()
    }

    /// No more samples wait than the settings leave room for.
    pub proof fn queue_is_bounded(&self)
        requires
            self.wf(),
        ensures
            self@.capacity == capacity_of(self@.config),
            self@.queue.len() <= capacity_of(self@.config),
    {
    }

    /// The volume is between zero and one.
    pub proof fn volume_is_bounded(&self)
        requires
            self.wf(),
        ensures
            !self@.volume.is_nan(),
            0 <= self@.volume.rank() <= F32::one().rank(),
    {
    }

    /// A player that is stopped, and what its device is opened with. Refused
    /// for samples that are not single-precision numbers, without channels,
    /// and where the room is too large to count.
    pub fn new(config: PlaybackConfig) -> (r: Result<(AudioPlayer, StreamConfig)>)
        ensures
            match r {
                Ok((p, s)) => {
                    &&& playable(config)
                    &&& p.wf()
                    &&& p@ == (PlayerModel {
                        queue: Seq::empty(),
                        capacity: capacity_of(config),
                        state: PlayerState::Stopped,
                        volume: F32::one(),
                        error: None,
                        config,
                    })
                    &&& s == (StreamConfig {
                        channels: config.channels.count(),
                        sample_rate: config.sample_rate,
                        buffer_size: config.buffer_size_frames,
                    })
                },
                Err(e) => {
                    &&& e is Backend
                    &&& !playable(config)
                    &&& match settings_refusal(config) {
                        Some(text) => e.text() == text,
                        None => exists|i: int| #[trigger]
                            matches_at(e.text(), "channel count"@, i),
                    }
                },
            },
    {
        if config.sample_format != SampleFormat::F32 {
            let mut text = concat(
                "AudioPlayer: only SampleFormat::F32 is currently supported (got ",
                config.sample_format.name(),
            );
            text.append("); non-F32 device negotiation is reserved for a follow-up");
            return Err(backend(text.as_str()));
        }
        let stream = config.stream_config()?;
        let capacity: usize = match config.queue_capacity_frames.checked_mul(
            config.channels.count() as usize,
        ) {
            Some(n) => n,
            None => {
                return Err(backend("AudioPlayer: queue_capacity_frames * channels overflows usize"));
            },
        };
        let p = AudioPlayer {
            queue: VecDeque::new(),
            capacity,
            state: PlayerState::Stopped,
            volume: F32::one(),
            callback_error: None,
            config,
        };
        Ok((p, stream))
    }

    /// The settings.
    pub fn config(&self) -> (c: &PlaybackConfig)
        ensures
            *c == self@.config,
    {
        &self.config
    }

    /// How many samples wait.
    pub fn buffer_depth(&self) -> (n: usize)
        ensures
            n == self@.queue.len(),
    {
        self.queue.len()
    }

    /// Whether samples are being played.
    pub fn is_running(&self) -> (r: bool)
        ensures
            r == (self@.state == PlayerState::Running),
    {
        self.state == PlayerState::Running
    }

    /// Whether playing is interrupted.
    pub fn is_paused(&self) -> (r: bool)
        ensures
            r == (self@.state == PlayerState::Paused),
    {
        self.state == PlayerState::Paused
    }

    /// The factor of the samples.
    pub fn volume(&self) -> (v: F32)
        ensures
            v == self@.volume,
    {
        self.volume
    }

    /// Sets the factor of the samples, kept between zero and one; what is no
    /// number counts as zero.
    pub fn set_volume(&mut self, v: F32)
        requires
            old(self).wf(),
        ensures
            final(self).wf(),
            final(self)@ == (PlayerModel { volume: v.clamp_unit(), ..old(self)@ }),
    {
        self.volume = v.clamp_unit();
        proof {
            clamp_unit_is_idempotent(v);
        }
    }

    /// Keeps an error of the device until it is asked for; one that came
    /// before stays.
    pub fn report_error(&mut self, text: &str)
        requires
            old(self).wf(),
        ensures
            final(self).wf(),
            final(self)@ == (PlayerModel {
                error: match old(self)@.error {
                    Some(e) => Some(e),
                    None => Some(text@),
                },
                ..old(self)@
            }),
    {
        if self.callback_error.is_none() {
            self.callback_error = Some(text.to_owned());
        }
    }

    /// Takes the error of the device, if there is one.
    pub fn take_callback_error(&mut self) -> (r: Result<()>)
        requires
            old(self).wf(),
        ensures
            final(self).wf(),
            final(self)@ == old(self)@.acknowledged(),
            reported(r, old(self)@.error),
    {
        match self.callback_error.take() {
            Some(text) => Err(backend(text.as_str())),
            None => Ok(()),
        }
    }

    /// Begins to play, or goes on: `play` tells the device to. Refused where
    /// the device has reported an error, which is taken, and where it does not
    /// do as it is told.
    pub fn start<F: FnOnce() -> Result<()>>(&mut self, play: F) -> (r: Result<()>)
        requires
            old(self).wf(),
            play.requires(()),
        ensures
            final(self).wf(),
            switched(old(self)@, final(self)@, PlayerState::Running, play, r),
    {
        match self.take_callback_error() {
            Ok(_) => {},
            Err(e) => {
                return Err(e);
            },
        }
        let r = play();
        if r.is_ok() {
            self.state = PlayerState::Running;
        }
        r
    }

    /// Interrupts playing: `pause` tells the device to. What waits stays.
    pub fn pause<F: FnOnce() -> Result<()>>(&mut self, pause: F) -> (r: Result<()>)
        requires
            old(self).wf(),
            pause.requires(()),
        ensures
            final(self).wf(),
            switched(old(self)@, final(self)@, PlayerState::Paused, pause, r),
    {
        match self.take_callback_error() {
            Ok(_) => {},
            Err(e) => {
                return Err(e);
            },
        }
        let r = pause();
        if r.is_ok() {
            self.state = PlayerState::Paused;
        }
        r
    }

    /// Goes on after an interruption.
    pub fn resume<F: FnOnce() -> Result<()>>(&mut self, play: F) -> (r: Result<()>)
        requires
            old(self).wf(),
            play.requires(()),
        ensures
            final(self).wf(),
            switched(old(self)@, final(self)@, PlayerState::Running, play, r),
    {
        self.start(play)
    }

    /// Stops playing: `pause` tells the device to. From then on nothing is
    /// handed to it, and where it does as it is told, what waits and the error
    /// are dropped.
    pub fn stop<F: FnOnce() -> Result<()>>(&mut self, pause: F) -> (r: Result<()>)
        requires
            old(self).wf(),
            pause.requires(()),
        ensures
            final(self).wf(),
            pause.ensures((), r),
            final(self)@ == if r is Ok {
                PlayerModel {
                    queue: Seq::empty(),
                    error: None,
                    state: PlayerState::Stopped,
                    ..old(self)@
                }
            } else {
                PlayerModel { state: PlayerState::Stopped, ..old(self)@ }
            },
    {
        self.state = PlayerState::Stopped;
        let r = pause();
        if r.is_ok() {
            self.queue.clear();
            self.callback_error = None;
            assert(self@.queue =~= Seq::<F32>::empty());
        }
        r
    }

    /// Takes up samples, all of them or none: refused where there is no room,
    /// and where the device has reported an error, which is taken.
    pub fn write_samples(&mut self, samples: &[F32]) -> (r: Result<usize>)
        requires
            old(self).wf(),
        ensures
            final(self).wf(),
            match old(self)@.error {
                Some(text) => {
                    &&& r is Err && r->Err_0 is Backend && r->Err_0.text() == text
                    &&& final(self)@ == old(self)@.acknowledged()
                },
                None => match write_refusal(old(self)@, samples@.len()) {
                    Some(text) => {
                        &&& r is Err && r->Err_0 is Backend && r->Err_0.text() == text
                        &&& final(self)@ == old(self)@
                    },
                    None => {
                        &&& r == Ok::<usize, Error>(samples@.len() as usize)
                        &&& final(self)@ == (PlayerModel {
                            queue: old(self)@.queue + samples@,
                            ..old(self)@
                        })
                    },
                },
            },
    {
        match self.take_callback_error() {
            Ok(_) => {},
            Err(e) => {
                return Err(e);
            },
        }
        let n: usize = samples.len();
        if self.queue.len().checked_add(n).is_none() {
            return Err(
                backend("AudioPlayer::write_samples: queue length + new samples overflows usize"),
            );
        }
        if n > self.capacity - self.queue.len() {
            let mut text = concat(
                "AudioPlayer::write_samples: queue overflow (capacity ",
                decimal_text(self.capacity as u64).as_str(),
            );
            text.append(" samples, current ");
            text.append(decimal_text(self.queue.len() as u64).as_str());
            text.append(" samples, tried to push ");
            text.append(decimal_text(n as u64).as_str());
            text.append(")");
            return Err(backend(text.as_str()));
        }
        let ghost before = self.queue@;
        let mut i: usize = 0;
        while i < n
            invariant
                n == samples@.len(),
                0 <= i <= n,
                before.len() + n <= self.capacity,
                self.queue@ == before + samples@.take(i as int),
                self.capacity == old(self).capacity,
                self.state == old(self).state,
                self.volume == old(self).volume,
                self.callback_error is None,
                self.config == old(self).config,
            decreases n - i,
        {
            self.queue.push_back(samples[i]);
            assert(self.queue@ =~= before + samples@.take(i + 1));
            i = i + 1;
        }
        assert(samples@.take(n as int) =~= samples@);
        Ok(n)
    }

    /// Takes samples off the front, at most `n`: while the player runs those
    /// that wait, and else none.
    pub fn drain(&mut self, n: usize) -> (out: Vec<F32>)
        requires
            old(self).wf(),
        ensures
            final(self).wf(),
            out@ == old(self)@.queue.take(old(self)@.taken(n as int)),
            final(self)@ == old(self)@.advanced(old(self)@.taken(n as int)),
    {
        let mut out: Vec<F32> = Vec::new();
        if self.state != PlayerState::Running {
            assert(self.queue@.skip(0) =~= self.queue@);
            assert(out@ =~= self.queue@.take(0));
            return out;
        }
        let k: usize = if self.queue.len() < n {
            self.queue.len()
        } else {
            n
        };
        let ghost before = self.queue@;
        let mut i: usize = 0;
        assert(before.skip(0) =~= before);
        assert(out@ =~= before.take(0));
        while i < k
            invariant
                0 <= i <= k <= before.len(),
                out@ == before.take(i as int),
                self.queue@ == before.skip(i as int),
                self.capacity == old(self).capacity,
                self.state == old(self).state,
                self.volume == old(self).volume,
                self.callback_error == old(self).callback_error,
                self.config == old(self).config,
            decreases k - i,
        {
            match self.queue.pop_front() {
                Some(x) => {
                    out.push(x);
                },
                None => {},
            }
            assert(out@ =~= before.take(i + 1));
            assert(self.queue@ =~= before.skip(i + 1));
            i = i + 1;
        }
        out
    }

    /// What the device gets when it asks for `n` samples: those that are taken
    /// off the front, and silence behind them.
    pub fn fill(&mut self, n: usize) -> (out: Vec<F32>)
        requires
            old(self).wf(),
        ensures
            final(self).wf(),
            ({
                let k = old(self)@.taken(n as int);
                &&& out@ == old(self)@.queue.take(k) + silence((n - k) as nat)
                &&& final(self)@ == old(self)@.advanced(k)
            }),
    {
        let mut out: Vec<F32> = self.drain(n);
        let ghost front = out@;
        let ghost k = out@.len() as int;
        assert(out@ =~= front + silence(0));
        while out.len() < n
            invariant
                k == front.len(),
                k <= out@.len() <= n,
                out@ == front + silence((out@.len() - k) as nat),
            decreases n - out@.len(),
        {
            let ghost m = (out@.len() - k) as nat;
            out.push(F32::zero());
            assert(out@ =~= front + silence(m + 1));
        }
        out
    }

    /// What a flush does next, `elapsed_ns` nanoseconds after it began: it is
    /// done when nothing waits, waits while samples are being played, and is
    /// refused otherwise and when it has waited for too long. An error that the
    /// device has reported comes first and is taken.
    pub fn flush_step(&mut self, elapsed_ns: u64) -> (r: Result<FlushStep>)
        requires
            old(self).wf(),
        ensures
            final(self).wf(),
            final(self)@ == old(self)@.acknowledged(),
            match old(self)@.error {
                Some(text) => r is Err && r->Err_0 is Backend && r->Err_0.text() == text,
                None => match flush_refusal(old(self)@, elapsed_ns) {
                    Some(text) => r is Err && r->Err_0 is Backend && r->Err_0.text() == text,
                    None => r == Ok::<FlushStep, Error>(
                        if old(self)@.queue.len() == 0 {
                            FlushStep::Done
                        } else {
                            FlushStep::Wait
                        },
                    ),
                },
            },
    {
        match self.take_callback_error() {
            Ok(_) => {},
            Err(e) => {
                return Err(e);
            },
        }
        if self.queue.len() == 0 {
            return Ok(FlushStep::Done);
        }
        if self.state != PlayerState::Running {
            let mut text = concat(
                "AudioPlayer::flush: queue has ",
                decimal_text(self.queue.len() as u64).as_str(),
            );
            text.append(" samples but state is ");
            text.append(decimal_text(self.state.code() as u64).as_str());
            text.append(" (not running) — call start() before flush()");
            return Err(backend(text.as_str()));
        }
        if elapsed_ns > FLUSH_TIMEOUT_NS {
            let mut text = concat(
                "AudioPlayer::flush: timed out after 30s with ",
                decimal_text(self.queue.len() as u64).as_str(),
            );
            text.append(" samples still queued");
            return Err(backend(text.as_str()));
        }
        Ok(FlushStep::Wait)
    }
}

/// Samples come out in the order in which they were written, each once:
/// draining `a` and then `b` samples of a running player gives what draining
/// both at once does.
pub proof fn draining_keeps_order(queue: Seq<F32>, a: int, b: int)
    requires
        0 <= a,
        0 <= b,
        a + b <= queue.len(),
    ensures
        queue.take(a) + queue.skip(a).take(b) == queue.take(a + b),
        queue.skip(a).skip(b) == queue.skip(a + b),
{
    assert(queue.take(a) + queue.skip(a).take(b) =~= queue.take(a + b));
    assert(queue.skip(a).skip(b) =~= queue.skip(a + b));
}

/// What was written comes out unchanged: with `samples` behind `queue`, the
/// samples behind the first `queue.len()` are `samples`.
pub proof fn written_samples_come_out(queue: Seq<F32>, samples: Seq<F32>)
    ensures
        (queue + samples).take(queue.len() as int) == queue,
        (queue + samples).skip(queue.len() as int) == samples,
{
    assert((queue + samples).take(queue.len() as int) =~= queue);
    assert((queue + samples).skip(queue.len() as int) =~= samples);
}

/// The device gets as many samples as it asks for or as wait, whichever is
/// less, while the player runs, and else none; and nothing but the queue
/// changes, which loses just these.
pub proof fn device_gets_what_waits(p: PlayerModel, n: int)
    requires
        0 <= n,
    ensures
        ({
            let k = p.taken(n);
            &&& p.state != PlayerState::Running ==> k == 0
            &&& p.state == PlayerState::Running ==> 0 <= k <= n && k <= p.queue.len() && (k == n
                || k == p.queue.len())
            &&& p.queue == p.queue.take(k) + p.advanced(k).queue
            &&& p.advanced(k) == (PlayerModel { queue: p.advanced(k).queue, ..p })
        }),
{
    let k = p.taken(n);
    assert(p.queue =~= p.queue.take(k) + p.queue.skip(k));
}

/// Samples are refused exactly where there is no room for all of them.
pub proof fn writes_are_refused_without_room(p: PlayerModel, pushed: nat)
    requires
        0 <= p.capacity <= usize::MAX,
    ensures
        p.queue.len() + pushed <= p.capacity ==> write_refusal(p, pushed) is None,
        p.queue.len() + pushed > p.capacity ==> write_refusal(p, pushed) is Some,
{
}

/// A flush is refused exactly where samples wait that are not being played, or
/// that have not been played after thirty seconds.
pub proof fn flushes_are_refused_without_progress(p: PlayerModel, elapsed_ns: u64)
    ensures
        flush_refusal(p, elapsed_ns) is Some <==> p.queue.len() > 0 && (p.state
            != PlayerState::Running || elapsed_ns > 30_000_000_000),
{
}

/// A player goes over to the state that its device was told to take, unless
/// the device had reported an error, which is then told of and told nothing,
/// or does not do as it is told; nothing that waits is lost in either case.
pub proof fn players_follow_their_device<F: FnOnce() -> Result<()>>(
    before: PlayerModel,
    after: PlayerModel,
    state: PlayerState,
    tell: F,
    r: Result<()>,
)
    requires
        switched(before, after, state, tell, r),
    ensures
        r is Ok ==> after.state == state && before.error is None,
        r is Err ==> after.state == before.state,
        before.error is Some ==> r is Err && r->Err_0.text() == before.error->0,
        before.error is None ==> tell.ensures((), r),
        after.error is None,
        after.queue == before.queue,
        after.volume == before.volume,
        after.capacity == before.capacity,
        after.config == before.config,
{
}

/// The room of a player is that of so many frames of all its channels, and it
/// can be made exactly of single-precision samples in at least one channel,
/// with room that can be counted.
pub proof fn room_is_counted_in_frames(c: PlaybackConfig)
    ensures
        capacity_of(c) == c.queue_capacity_frames * c.channels.count(),
        playable(c) <==> c.sample_format == SampleFormat::F32 && c.channels.count() >= 1
            && c.queue_capacity_frames * c.channels.count() <= usize::MAX,
        !playable(c) && c.channels.count() >= 1 ==> settings_refusal(c) is Some,
        playable(c) ==> settings_refusal(c) is None,
{
}

/// Silence is made of zeros.
pub proof fn silence_is_zero(n: nat)
    ensures
        silence(n).len() == n,
        forall|i: int| 0 <= i < n ==> (#[trigger] silence(n)[i]).is_zero(),
{
}

} // verus!
