//! The settings of a player.
use vstd::prelude::*;

use crate::error::{backend, Result};
use crate::text::matches_at;

verus! {

/// How many channels a frame has.
#[derive(Clone, Copy, Debug, PartialEq, Eq, Structural)]
pub enum ChannelLayout {
    Mono,
    Stereo,
    Channels(u16),
}

impl ChannelLayout {
    /// The number of channels.
    pub open spec fn spec_count(self) -> u16 {
        match self {
            ChannelLayout::Mono => 1,
            ChannelLayout::Stereo => 2,
            ChannelLayout::Channels(n) => n,
        }
    }

    /// The number of channels.
    #[verifier::when_used_as_spec(spec_count)]
    pub fn count(self) -> (n: u16)
        ensures
            n == self.spec_count(),
    {
        match self {
            ChannelLayout::Mono => 1,
            ChannelLayout::Stereo => 2,
            ChannelLayout::Channels(n) => n,
        }
    }
}

/// The form of a sample.
#[derive(Clone, Copy, Debug, PartialEq, Eq, Structural)]
pub enum SampleFormat {
    F32,
    I16,
    U16,
}

impl SampleFormat {
    /// What the form is called.
    pub open spec fn spec_name(self) -> &'static str {
        match self {
            SampleFormat::F32 => "F32",
            SampleFormat::I16 => "I16",
            SampleFormat::U16 => "U16",
        }
    }

    /// What the form is called.
    #[verifier::when_used_as_spec(spec_name)]
    pub fn name(self) -> (n: &'static str)
        ensures
            n == self.spec_name(),
    {
        match self {
            SampleFormat::F32 => "F32",
            SampleFormat::I16 => "I16",
            SampleFormat::U16 => "U16",
        }
    }
}

/// The settings of a player.
#[derive(Clone, Copy, Debug, PartialEq, Eq, Structural)]
pub struct PlaybackConfig {
    /// Frames in a second.
    pub sample_rate: u32,
    pub channels: ChannelLayout,
    pub sample_format: SampleFormat,
    /// The frames that the device asks for at a time, where that is fixed.
    pub buffer_size_frames: Option<u32>,
    /// The frames that wait at most.
    pub queue_capacity_frames: usize,
}

/// What a device is opened with.
#[derive(Clone, Copy, Debug, PartialEq, Eq, Structural)]
pub struct StreamConfig {
    pub channels: u16,
    pub sample_rate: u32,
    /// The frames asked for at a time; the device's own choice where none.
    pub buffer_size: Option<u32>,
}

/// How many seconds of samples wait at most where nothing else is asked for.
pub const QUEUE_SECONDS: usize = 4;

/// The frames that wait at most: four seconds of samples of each channel.
pub open spec fn default_capacity(sample_rate: u32, channels: int) -> int {
    let n = sample_rate * QUEUE_SECONDS * channels;
    if n < usize::MAX {
        n
    } else {
        usize::MAX as int
    }
}

fn capacity_for(sample_rate: u32, channels: usize) -> (n: usize)
    requires
        1 <= channels <= 2,
    ensures
        n == default_capacity(sample_rate, channels as int),
{
    let n: u64 = if channels == 1 {
        sample_rate as u64 * 4
    } else {
        sample_rate as u64 * 8
    };
    assert(n == sample_rate * QUEUE_SECONDS * channels) by (nonlinear_arith)
        requires
            channels == 1 && n == sample_rate * 4 || channels == 2 && n == sample_rate * 8,
            QUEUE_SECONDS == 4,
    ;
    if n < usize::MAX as u64 {
        n as usize
    } else {
        usize::MAX
    }
}

impl PlaybackConfig {
    /// One channel.
    pub fn mono(sample_rate: u32) -> (c: PlaybackConfig)
        ensures
            c == (PlaybackConfig {
                sample_rate,
                channels: ChannelLayout::Mono,
                sample_format: SampleFormat::F32,
                buffer_size_frames: None,
                queue_capacity_frames: default_capacity(sample_rate, 1) as usize,
            }),
    {
        PlaybackConfig {
            sample_rate,
            channels: ChannelLayout::Mono,
            sample_format: SampleFormat::F32,
            buffer_size_frames: None,
            queue_capacity_frames: capacity_for(sample_rate, 1),
        }
    }

    /// Two channels.
    pub fn stereo(sample_rate: u32) -> (c: PlaybackConfig)
        ensures
            c == (PlaybackConfig {
                sample_rate,
                channels: ChannelLayout::Stereo,
                sample_format: SampleFormat::F32,
                buffer_size_frames: None,
                queue_capacity_frames: default_capacity(sample_rate, 2) as usize,
            }),
    {
        PlaybackConfig {
            sample_rate,
            channels: ChannelLayout::Stereo,
            sample_format: SampleFormat::F32,
            buffer_size_frames: None,
            queue_capacity_frames: capacity_for(sample_rate, 2),
        }
    }

    /// What a device is opened with. Refused without channels, and the error
    /// speaks of the channel count.
    pub fn stream_config(&self) -> (r: Result<StreamConfig>)
        ensures
            match r {
                Ok(s) => self.channels.count() != 0 && s == (StreamConfig {
                    channels: self.channels.count(),
                    sample_rate: self.sample_rate,
                    buffer_size: self.buffer_size_frames,
                }),
                Err(e) => {
                    &&& self.channels.count() == 0
                    &&& e is Backend
                    &&& exists|i: int| #[trigger] matches_at(e.text(), "channel count"@, i)
                },
            },
    {
        if self.channels.count() == 0 {
            proof {
                let text = "PlaybackConfig: the channel count must be at least one";
                reveal_strlit("PlaybackConfig: the channel count must be at least one");
                reveal_strlit("channel count");
                assert(text@.subrange(20, 33) =~= "channel count"@);
                assert(matches_at(text@, "channel count"@, 20));
            }
            return Err(backend("PlaybackConfig: the channel count must be at least one"));
        }
        Ok(
            StreamConfig {
                channels: self.channels.count(),
                sample_rate: self.sample_rate,
                buffer_size: self.buffer_size_frames,
            },
        )
    }
}

impl Default for PlaybackConfig {
    fn default() -> (c: PlaybackConfig)
        ensures
            c == (PlaybackConfig {
                sample_rate: 24_000,
                channels: ChannelLayout::Mono,
                sample_format: SampleFormat::F32,
                buffer_size_frames: None,
                queue_capacity_frames: 96_000,
            }),
    {
        PlaybackConfig {
            sample_rate: 24_000,
            channels: ChannelLayout::Mono,
            sample_format: SampleFormat::F32,
            buffer_size_frames: None,
            queue_capacity_frames: 96_000,
        }
    }
}

/// Where nothing else is asked for, four seconds of samples of each channel
/// wait at most.
pub proof fn four_seconds_wait(sample_rate: u32, channels: int)
    requires
        channels >= 0,
    ensures
        4 * sample_rate * channels < usize::MAX ==> default_capacity(sample_rate, channels) == 4
            * sample_rate * channels,
        default_capacity(sample_rate, channels) <= usize::MAX,
{
    assert(sample_rate * QUEUE_SECONDS * channels == 4 * sample_rate * channels)
        by (nonlinear_arith)
        requires
            QUEUE_SECONDS == 4,
    ;
}

} // verus!
