//! Streams of work on a device.
//!
//! A stream is a place in a list that the backend keeps for each thread. The
//! thread's default stream is made once and handed out from then on, until all
//! of the thread's streams are destroyed.
use vstd::prelude::*;

use crate::error::{backend, Error, Result};

verus! {

/// What computes.
#[derive(Clone, Copy, Debug, PartialEq, Eq, Structural)]
pub enum DeviceKind {
    Cpu,
    Gpu,
}

/// One device.
#[derive(Clone, Copy, Debug, PartialEq, Eq, Structural)]
pub struct Device {
    pub kind: DeviceKind,
    pub index: i32,
}

/// A stream: the device that it targets and its place among that device's
/// streams.
#[derive(Clone, Copy, Debug, PartialEq, Eq, Structural)]
pub struct Stream {
    device: Device,
    index: i32,
}

impl Stream {
    pub closed spec fn spec_device(self) -> Device {
        self.device
    }

    pub closed spec fn spec_index(self) -> i32 {
        self.index
    }

    /// The stream at a place.
    pub fn at(device: Device, index: i32) -> (s: Stream)
        ensures
            s.spec_device() == device,
            s.spec_index() == index,
    {
        Stream { device, index }
    }

    /// The device that the stream targets.
    pub fn device(&self) -> (d: Device)
        ensures
            d == self.spec_device(),
    {
        self.device
    }

    /// The stream's place among the streams of its device.
    pub fn index(&self) -> (i: i32)
        ensures
            i == self.spec_index(),
    {
        self.index
    }

    /// A second handle on the same stream.
    pub fn try_clone(&self) -> (r: Result<Stream>)
        ensures
            r == Ok::<Stream, Error>(*self),
    {
        Ok(*self)
    }

    /// Whether two handles name the same stream: the devices and the places
    /// are the same.
    pub fn equal(&self, other: &Stream) -> (r: bool)
        ensures
            r == (self.spec_device() == other.spec_device() && self.spec_index()
                == other.spec_index()),
            r == (*self == *other),
    {
        self.device == other.device && self.index == other.index
    }
}

/// Where the default stream comes from.
#[derive(Clone, Copy, Debug, PartialEq, Eq, Structural)]
pub enum DefaultStream {
    /// The one that was made before.
    Cached(Stream),
    /// A new one is to be made.
    Make,
}

/// What a thread remembers of its default stream.
#[derive(Debug)]
pub struct StreamCache {
    cached: Option<Stream>,
}

impl StreamCache {
    pub closed spec fn cached(&self) -> Option<Stream> {
        self.cached
    }

    /// Nothing is remembered at first.
    pub fn new() -> (c: StreamCache)
        ensures
            c.cached() is None,
    {
        StreamCache { cached: None }
    }

    /// Where the default stream comes from now.
    pub fn default_stream(&self) -> (d: DefaultStream)
        ensures
            d == match self.cached() {
                Some(s) => DefaultStream::Cached(s),
                None => DefaultStream::Make,
            },
    {
        match self.cached {
            Some(s) => DefaultStream::Cached(s),
            None => DefaultStream::Make,
        }
    }

    /// Remembers a stream that was made; there is none where the device is
    /// not available, and then nothing changes.
    pub fn made(&mut self, s: Option<Stream>) -> (r: Result<Stream>)
        ensures
            match s {
                Some(s) => r == Ok::<Stream, Error>(s) && final(self).cached() == Some(s),
                None => {
                    &&& r is Err
                    &&& r->Err_0 is Backend
                    &&& r->Err_0.text()
                        == "mlx_default_gpu_stream_new returned NULL ctx — GPU unavailable or initialization failed. Aborting."@
                    &&& final(self).cached() == old(self).cached()
                },
            },
    {
        match s {
            Some(s) => {
                self.cached = Some(s);
                Ok(s)
            },
            None => Err(
                backend(
                    "mlx_default_gpu_stream_new returned NULL ctx — GPU unavailable or initialization failed. Aborting.",
                ),
            ),
        }
    }

    /// Forgets the default stream, so that the next use makes a new one.
    pub fn reset_default_stream_cache(&mut self)
        ensures
            final(self).cached() is None,
    {
        self.cached = None;
    }

    /// Takes note that all streams of the thread were destroyed; `status` is
    /// what the backend reported of it. The default stream is forgotten
    /// whatever it reported.
    pub fn clear_current_thread_streams(&mut self, status: i32) -> (r: Result<()>)
        ensures
            final(self).cached() is None,
            r is Ok <==> status == 0,
            r is Err ==> r->Err_0 is Backend && r->Err_0.text()
                == "mlxrs_shim_clear_streams: mlx::core::clear_streams() threw"@,
    {
        self.reset_default_stream_cache();
        if status == 0 {
            Ok(())
        } else {
            Err(backend("mlxrs_shim_clear_streams: mlx::core::clear_streams() threw"))
        }
    }
}

} // verus!
