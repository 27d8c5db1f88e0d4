//! Settings, queue and states of a player.
use std::sync::{Arc, Mutex};

use mlxrs::audio::playback::config::{
    ChannelLayout, PlaybackConfig, SampleFormat,
};
use mlxrs::audio::playback::player::{AudioOutputStream, AudioPlayer, FlushStep, FLUSH_TIMEOUT_NS};
use mlxrs::error::Error;
use mlxrs::scalar::F32;

type Result<T> = std::result::Result<T, Error>;

fn num(v: f32) -> F32 {
    F32::from_bits(v.to_bits())
}

fn nums(v: &[f32]) -> Vec<F32> {
    v.iter().map(|x| num(*x)).collect()
}

struct RecordingSink {
    buffer: Arc<Mutex<Vec<F32>>>,
    capacity: usize,
    running: bool,
}

impl RecordingSink {
    fn new(capacity: usize) -> RecordingSink {
        RecordingSink { buffer: Arc::new(Mutex::new(Vec::new())), capacity, running: true }
    }
}

impl AudioOutputStream for RecordingSink {
    fn write_samples(&mut self, samples: &[F32]) -> Result<usize> {
        if !self.running {
            return Err(Error::Backend { message: "RecordingSink: stream stopped".to_string() });
        }
        let mut buf = self.buffer.lock().unwrap();
        if buf.len() + samples.len() > self.capacity {
            return Err(Error::Backend {
                message: format!("RecordingSink: capacity {} exceeded", self.capacity),
            });
        }
        buf.extend_from_slice(samples);
        Ok(samples.len())
    }

    fn flush(&mut self) -> Result<()> {
        self.buffer.lock().unwrap().clear();
        Ok(())
    }

    fn stop(&mut self) -> Result<()> {
        self.running = false;
        self.buffer.lock().unwrap().clear();
        Ok(())
    }

    fn is_running(&self) -> bool {
        self.running
    }
}

#[test]
fn playback_config_default_sample_rate_matches_swift_default() {
    let cfg = PlaybackConfig::default();
    assert_eq!(cfg.sample_rate, 24_000);
    assert_eq!(cfg.channels, ChannelLayout::Mono);
    assert_eq!(cfg.sample_format, SampleFormat::F32);
    assert_eq!(cfg.buffer_size_frames, None);
    assert_eq!(cfg.queue_capacity_frames, 96_000);
}

#[test]
fn playback_config_mono_constructor() {
    let cfg = PlaybackConfig::mono(48_000);
    assert_eq!(cfg.sample_rate, 48_000);
    assert_eq!(cfg.channels, ChannelLayout::Mono);
    assert_eq!(cfg.channels.count(), 1);
    assert_eq!(cfg.queue_capacity_frames, 48_000 * 4);
}

#[test]
fn playback_config_stereo_constructor() {
    let cfg = PlaybackConfig::stereo(44_100);
    assert_eq!(cfg.channels, ChannelLayout::Stereo);
    assert_eq!(cfg.channels.count(), 2);
    assert_eq!(cfg.queue_capacity_frames, 44_100 * 4 * 2);
}

#[test]
fn channel_layout_count_arbitrary() {
    assert_eq!(ChannelLayout::Mono.count(), 1);
    assert_eq!(ChannelLayout::Stereo.count(), 2);
    assert_eq!(ChannelLayout::Channels(6).count(), 6);
}

fn config(channels: ChannelLayout, sample_format: SampleFormat) -> PlaybackConfig {
    PlaybackConfig {
        sample_rate: 16_000,
        channels,
        sample_format,
        buffer_size_frames: None,
        queue_capacity_frames: 1024,
    }
}

#[test]
fn playback_config_cpal_config_rejects_zero_channels() {
    let cfg = config(ChannelLayout::Channels(0), SampleFormat::F32);
    let err = cfg.stream_config().unwrap_err();
    assert!(
        matches!(err, Error::Backend { ref message } if message.contains("channel count")),
        "expected Backend(channel count) error, got {err:?}"
    );
}

#[test]
fn playback_config_cpal_config_passes_buffer_hint() {
    let with_hint = PlaybackConfig {
        buffer_size_frames: Some(256),
        ..config(ChannelLayout::Mono, SampleFormat::F32)
    };
    let stream = with_hint.stream_config().unwrap();
    assert_eq!(stream.channels, 1);
    assert_eq!(stream.sample_rate, 16_000);
    assert_eq!(stream.buffer_size, Some(256));
    let stream = PlaybackConfig::mono(16_000).stream_config().unwrap();
    assert_eq!(stream.buffer_size, None);
}

#[test]
fn audio_output_stream_writes_samples_returns_count() {
    let mut sink = RecordingSink::new(4096);
    let written = sink.write_samples(&nums(&[0.5; 1024])).unwrap();
    assert_eq!(written, 1024);
    assert!(sink.is_running());
}

#[test]
fn audio_output_stream_flush_drains_buffer() {
    let mut sink = RecordingSink::new(4096);
    sink.write_samples(&nums(&[0.1; 256])).unwrap();
    assert_eq!(sink.buffer.lock().unwrap().len(), 256);
    sink.flush().unwrap();
    assert_eq!(sink.buffer.lock().unwrap().len(), 0);
}

#[test]
fn audio_output_stream_stop_marks_not_running_and_rejects_writes() {
    let mut sink = RecordingSink::new(4096);
    assert!(sink.is_running());
    sink.stop().unwrap();
    assert!(!sink.is_running());
    let err = sink.write_samples(&nums(&[0.0; 32])).unwrap_err();
    assert!(
        matches!(err, Error::Backend { ref message } if message.contains("stopped")),
        "expected stopped-stream Backend error, got {err:?}"
    );
}

#[test]
fn audio_output_stream_overflow_returns_err() {
    let mut sink = RecordingSink::new(1024);
    sink.write_samples(&nums(&[0.0; 512])).unwrap();
    sink.write_samples(&nums(&[0.0; 512])).unwrap();
    let err = sink.write_samples(&nums(&[0.0; 1])).unwrap_err();
    assert!(
        matches!(err, Error::Backend { ref message } if message.contains("capacity")),
        "expected capacity-overflow Backend error, got {err:?}"
    );
}

#[test]
fn audio_player_rejects_non_f32_sample_format_pre_device() {
    let cfg = config(ChannelLayout::Mono, SampleFormat::I16);
    assert_eq!(cfg.sample_format, SampleFormat::I16);
    assert!(cfg.stream_config().is_ok());
    assert!(matches!(AudioPlayer::new(cfg), Err(Error::Backend { .. })));
    assert_eq!(
        AudioPlayer::new(cfg).unwrap_err().message(),
        "AudioPlayer: only SampleFormat::F32 is currently supported (got I16); non-F32 device \
         negotiation is reserved for a follow-up"
    );
}

#[test]
fn audio_player_queue_capacity_frames_multiplied_by_channels() {
    let cfg = config(ChannelLayout::Stereo, SampleFormat::F32);
    let samples = cfg.queue_capacity_frames * usize::from(cfg.channels.count());
    assert_eq!(samples, 2048);
    let (mut player, _) = AudioPlayer::new(cfg).unwrap();
    assert_eq!(player.write_samples(&nums(&[0.0; 2048])).unwrap(), 2048);
    assert_eq!(
        player.write_samples(&nums(&[0.0; 3])).unwrap_err().message(),
        "AudioPlayer::write_samples: queue overflow (capacity 2048 samples, current 2048 samples, \
         tried to push 3)"
    );
    let huge = PlaybackConfig { queue_capacity_frames: usize::MAX, ..cfg };
    assert_eq!(
        AudioPlayer::new(huge).unwrap_err().message(),
        "AudioPlayer: queue_capacity_frames * channels overflows usize"
    );
}

fn player() -> AudioPlayer {
    AudioPlayer::new(config(ChannelLayout::Mono, SampleFormat::F32)).unwrap().0
}

fn fails() -> Result<()> {
    Err(Error::Backend { message: "device".to_string() })
}

#[test]
fn player_goes_through_its_states() {
    let mut p = player();
    assert!(!p.is_running() && !p.is_paused());
    assert!(p.start(fails).is_err());
    assert!(!p.is_running());
    p.start(|| Ok(())).unwrap();
    assert!(p.is_running());
    p.pause(|| Ok(())).unwrap();
    assert!(p.is_paused() && !p.is_running());
    p.resume(|| Ok(())).unwrap();
    assert!(p.is_running());
    p.write_samples(&nums(&[1.0, 2.0])).unwrap();
    assert!(p.stop(fails).is_err());
    assert!(!p.is_running());
    assert_eq!(p.buffer_depth(), 2);
    p.stop(|| Ok(())).unwrap();
    assert_eq!(p.buffer_depth(), 0);
}

#[test]
fn samples_come_out_in_order_while_running() {
    let mut p = player();
    p.write_samples(&nums(&[1.0, 2.0, 3.0])).unwrap();
    assert!(p.drain(2).is_empty());
    p.start(|| Ok(())).unwrap();
    assert_eq!(p.drain(2), nums(&[1.0, 2.0]));
    p.write_samples(&nums(&[4.0])).unwrap();
    assert_eq!(p.drain(9), nums(&[3.0, 4.0]));
    assert_eq!(p.buffer_depth(), 0);
}

#[test]
fn the_device_gets_silence_where_samples_are_missing() {
    let mut p = player();
    p.write_samples(&nums(&[1.0, 2.0, 3.0])).unwrap();
    assert_eq!(p.fill(2), nums(&[0.0, 0.0]));
    p.start(|| Ok(())).unwrap();
    assert_eq!(p.fill(2), nums(&[1.0, 2.0]));
    assert_eq!(p.fill(4), nums(&[3.0, 0.0, 0.0, 0.0]));
    assert_eq!(p.fill(0), nums(&[]));
    assert_eq!(p.buffer_depth(), 0);
}

#[test]
fn volume_is_clamped() {
    let mut p = player();
    assert_eq!(p.volume(), num(1.0));
    p.set_volume(num(0.25));
    assert_eq!(p.volume(), num(0.25));
    p.set_volume(num(2.0));
    assert_eq!(p.volume(), num(1.0));
    p.set_volume(num(-1.0));
    assert_eq!(p.volume(), num(0.0));
    p.set_volume(num(0.5));
    p.set_volume(num(f32::NAN));
    assert_eq!(p.volume(), num(0.0));
}

#[test]
fn device_errors_are_reported_once_and_the_first_stays() {
    let mut p = player();
    p.report_error("first");
    p.report_error("second");
    let err = p.write_samples(&nums(&[0.0])).unwrap_err();
    assert_eq!(err.message(), "first");
    assert_eq!(p.buffer_depth(), 0);
    assert_eq!(p.write_samples(&nums(&[0.0])).unwrap(), 1);
    p.report_error("third");
    assert_eq!(p.start(|| Ok(())).unwrap_err().message(), "third");
    assert!(!p.is_running());
}

#[test]
fn flush_waits_only_while_samples_are_played() {
    let mut p = player();
    assert_eq!(p.flush_step(0).unwrap(), FlushStep::Done);
    p.write_samples(&nums(&[0.0])).unwrap();
    assert_eq!(
        p.flush_step(0).unwrap_err().message(),
        "AudioPlayer::flush: queue has 1 samples but state is 0 (not running) \u{2014} call start() \
         before flush()"
    );
    p.pause(|| Ok(())).unwrap();
    assert!(p.flush_step(0).unwrap_err().message().contains("state is 2 (not running)"));
    p.start(|| Ok(())).unwrap();
    assert_eq!(p.flush_step(FLUSH_TIMEOUT_NS).unwrap(), FlushStep::Wait);
    assert_eq!(
        p.flush_step(FLUSH_TIMEOUT_NS + 1).unwrap_err().message(),
        "AudioPlayer::flush: timed out after 30s with 1 samples still queued"
    );
    p.report_error("device");
    assert_eq!(p.flush_step(0).unwrap_err().message(), "device");
}
