//! Real-time audio I/O support types and the verified stream lifecycle.
//!
//! The platform driver itself (device enumeration, the callback thread) is
//! an external collaborator and lives outside the verified library; this
//! module holds the plain data types it exchanges with the core, the error
//! kinds the core surfaces, and the stream lifecycle state machine whose
//! transition rules are verified here.

use vstd::prelude::*;

verus! {

/// Audio API backend specifier.
#[derive(Debug, Clone, Copy, PartialEq, Eq, Structural)]
pub enum Api {
    /// Search for a working compiled API (default).
    Unspecified,
    /// macOS CoreAudio API.
    CoreAudio,
    /// Linux ALSA API.
    Alsa,
    /// Linux PulseAudio API.
    Pulse,
    /// Linux OSS API.
    Oss,
    /// Jack Audio Connection Kit.
    Jack,
    /// Windows WASAPI API.
    Wasapi,
    /// Windows ASIO API.
    Asio,
    /// Windows DirectSound API.
    DirectSound,
    /// Dummy API for testing (no audio).
    Dummy,
}

impl Default for Api {
    /// The default backend is auto-detection.
    fn default() -> (r: Self)
        ensures
            r == Api::Unspecified,
    {
        Api::Unspecified
    }
}

impl Api {
    /// The backend's display name.
    pub fn name(&self) -> (r: &'static str)
        ensures
            r@ == match self {
                Api::Unspecified => "Unspecified"@,
                Api::CoreAudio => "CoreAudio"@,
                Api::Alsa => "ALSA"@,
                Api::Pulse => "PulseAudio"@,
                Api::Oss => "OSS"@,
                Api::Jack => "Jack"@,
                Api::Wasapi => "WASAPI"@,
                Api::Asio => "ASIO"@,
                Api::DirectSound => "DirectSound"@,
                Api::Dummy => "Dummy"@,
            },
    {
        match self {
            Api::Unspecified => "Unspecified",
            Api::CoreAudio => "CoreAudio",
            Api::Alsa => "ALSA",
            Api::Pulse => "PulseAudio",
            Api::Oss => "OSS",
            Api::Jack => "Jack",
            Api::Wasapi => "WASAPI",
            Api::Asio => "ASIO",
            Api::DirectSound => "DirectSound",
            Api::Dummy => "Dummy",
        }
    }
}

/// Audio sample format specifier.
#[derive(Debug, Clone, Copy, PartialEq, Eq, Structural)]
pub enum SampleFormat {
    /// 8-bit signed integer.
    Int8,
    /// 16-bit signed integer.
    Int16,
    /// 24-bit signed integer (packed in 3 bytes).
    Int24,
    /// 32-bit signed integer.
    Int32,
    /// 32-bit floating point normalized between plus and minus one.
    Float32,
    /// 64-bit floating point normalized between plus and minus one.
    Float64,
}

impl Default for SampleFormat {
    /// The default format is 64-bit floating point.
    fn default() -> (r: Self)
        ensures
            r == SampleFormat::Float64,
    {
        SampleFormat::Float64
    }
}

impl SampleFormat {
    /// The size in bytes of one sample in this format.
    pub fn byte_size(&self) -> (r: usize)
        ensures
            r == match self {
                SampleFormat::Int8 => 1usize,
                SampleFormat::Int16 => 2usize,
                SampleFormat::Int24 => 3usize,
                SampleFormat::Int32 => 4usize,
                SampleFormat::Float32 => 4usize,
                SampleFormat::Float64 => 8usize,
            },
    {
        match self {
            SampleFormat::Int8 => 1,
            SampleFormat::Int16 => 2,
            SampleFormat::Int24 => 3,
            SampleFormat::Int32 => 4,
            SampleFormat::Float32 => 4,
            SampleFormat::Float64 => 8,
        }
    }
}

/// Stream configuration flags.
#[derive(Debug, Clone, Copy, PartialEq, Eq, Structural)]
pub struct StreamFlags {
    /// Use non-interleaved buffers (default: interleaved).
    pub noninterleaved: bool,
    /// Attempt to minimize latency.
    pub minimize_latency: bool,
    /// Attempt to grab the device for exclusive use.
    pub hog_device: bool,
    /// Try to select realtime scheduling for the callback thread.
    pub schedule_realtime: bool,
}

impl Default for StreamFlags {
    /// All flags are off by default.
    fn default() -> (r: Self)
        ensures
            r == (StreamFlags {
                noninterleaved: false,
                minimize_latency: false,
                hog_device: false,
                schedule_realtime: false,
            }),
    {
        StreamFlags {
            noninterleaved: false,
            minimize_latency: false,
            hog_device: false,
            schedule_realtime: false,
        }
    }
}

/// Stream status indicators passed to the callback.
#[derive(Debug, Clone, Copy, PartialEq, Eq, Structural)]
pub struct StreamStatus {
    /// Input data was discarded because of an overflow.
    pub input_overflow: bool,
    /// The output buffer ran empty (underflow).
    pub output_underflow: bool,
}

impl Default for StreamStatus {
    /// No overflow and no underflow by default.
    fn default() -> (r: Self)
        ensures
            r == (StreamStatus { input_overflow: false, output_underflow: false }),
    {
        StreamStatus { input_overflow: false, output_underflow: false }
    }
}

/// Stream parameter specification for input or output.
#[derive(Debug, Clone, Copy, PartialEq, Eq, Structural)]
pub struct StreamParameters {
    /// Device identifier (0 = first device).
    pub device_id: usize,
    /// Number of channels to open.
    pub num_channels: usize,
    /// First channel index on the device.
    pub first_channel: usize,
}

impl Default for StreamParameters {
    /// The first device, stereo, starting at its first channel.
    fn default() -> (r: Self)
        ensures
            r == (StreamParameters { device_id: 0usize, num_channels: 2usize, first_channel: 0usize }),
    {
        StreamParameters { device_id: 0, num_channels: 2, first_channel: 0 }
    }
}

/// Optional stream configuration options.
#[derive(Debug, Clone)]
pub struct StreamOptions {
    /// Stream configuration flags.
    pub flags: StreamFlags,
    /// Number of buffers for the stream (0 = automatic).
    pub number_of_buffers: usize,
    /// Stream name (for JACK and similar backends).
    pub stream_name: String,
    /// Scheduling priority (1 to 99, 0 = default).
    pub priority: i32,
}

impl Default for StreamOptions {
    /// Default flags, automatic buffering, an empty name, default priority.
    fn default() -> (r: Self)
        ensures
            r.flags == (StreamFlags {
                noninterleaved: false,
                minimize_latency: false,
                hog_device: false,
                schedule_realtime: false,
            }),
            r.number_of_buffers == 0usize,
            r.stream_name@ == Seq::<char>::empty(),
            r.priority == 0i32,
    {
        StreamOptions {
            flags: StreamFlags::default(),
            number_of_buffers: 0,
            stream_name: String::new(),
            priority: 0,
        }
    }
}

/// Information about an audio device.
#[derive(Debug, Clone)]
pub struct DeviceInfo {
    /// Device identifier.
    pub id: usize,
    /// Device name.
    pub name: String,
    /// Maximum output channels supported.
    pub output_channels: usize,
    /// Maximum input channels supported.
    pub input_channels: usize,
    /// Maximum simultaneous input/output channels.
    pub duplex_channels: usize,
    /// Whether this is the default output device.
    pub is_default_output: bool,
    /// Whether this is the default input device.
    pub is_default_input: bool,
    /// Supported sample rates.
    pub sample_rates: Vec<usize>,
    /// Preferred sample rate.
    pub preferred_sample_rate: usize,
    /// Native sample formats supported.
    pub native_formats: Vec<SampleFormat>,
}

impl Default for DeviceInfo {
    /// An unnamed device supporting the common studio rates.
    fn default() -> (r: Self)
        ensures
            r.id == 0usize,
            r.name@ == Seq::<char>::empty(),
            r.output_channels == 0usize,
            r.input_channels == 0usize,
            r.duplex_channels == 0usize,
            r.is_default_output == false,
            r.is_default_input == false,
            r.sample_rates@ == seq![44100usize, 48000usize, 96000usize],
            r.preferred_sample_rate == 44100usize,
            r.native_formats@ == seq![SampleFormat::Float32],
    {
        let mut sample_rates: Vec<usize> = Vec::new();
        sample_rates.push(44100);
        sample_rates.push(48000);
        sample_rates.push(96000);
        let mut native_formats: Vec<SampleFormat> = Vec::new();
        native_formats.push(SampleFormat::Float32);
        proof {
            assert(sample_rates@ =~= seq![44100usize, 48000usize, 96000usize]);
            assert(native_formats@ =~= seq![SampleFormat::Float32]);
        }
        DeviceInfo {
            id: 0,
            name: String::new(),
            output_channels: 0,
            input_channels: 0,
            duplex_channels: 0,
            is_default_output: false,
            is_default_input: false,
            sample_rates,
            preferred_sample_rate: 44100,
            native_formats,
        }
    }
}

/// The error kinds the core surfaces.
#[derive(Debug, Clone, Copy, PartialEq, Eq, Structural)]
pub enum MKAudioError {
    /// Underlying file open, read or write failure.
    Io,
    /// Container header neither `RIFF` nor `FORM`.
    BadMagic,
    /// Header fields internally inconsistent.
    BadFormat,
    /// Audio encoding not PCM or IEEE float.
    UnsupportedCodec,
    /// Bits per sample not 8, 16, 24 or 32.
    UnsupportedBitDepth,
    /// AIFF ten-byte sample rate absent from the lookup table.
    UnsupportedSampleRate,
    /// Declared payload exceeds the file length.
    Truncated,
    /// A required chunk is missing.
    ChunkNotFound,
    /// An invalid parameter was passed.
    InvalidParameter,
    /// Lifecycle misuse, such as starting a running stream.
    InvalidUse,
}

impl MKAudioError {
    /// A short description of the error.
    pub fn message(&self) -> (r: &'static str)
        ensures
            r@ == match self {
                MKAudioError::Io => "file open, read or write failure"@,
                MKAudioError::BadMagic => "container header is neither RIFF nor FORM"@,
                MKAudioError::BadFormat => "header fields are internally inconsistent"@,
                MKAudioError::UnsupportedCodec => "audio encoding is not PCM or IEEE float"@,
                MKAudioError::UnsupportedBitDepth => "bits per sample is not 8, 16, 24 or 32"@,
                MKAudioError::UnsupportedSampleRate => "sample rate is not in the lookup table"@,
                MKAudioError::Truncated => "declared payload exceeds the file length"@,
                MKAudioError::ChunkNotFound => "a required chunk is missing"@,
                MKAudioError::InvalidParameter => "an invalid parameter was passed"@,
                MKAudioError::InvalidUse => "lifecycle misuse"@,
            },
    {
        match self {
            MKAudioError::Io => "file open, read or write failure",
            MKAudioError::BadMagic => "container header is neither RIFF nor FORM",
            MKAudioError::BadFormat => "header fields are internally inconsistent",
            MKAudioError::UnsupportedCodec => "audio encoding is not PCM or IEEE float",
            MKAudioError::UnsupportedBitDepth => "bits per sample is not 8, 16, 24 or 32",
            MKAudioError::UnsupportedSampleRate => "sample rate is not in the lookup table",
            MKAudioError::Truncated => "declared payload exceeds the file length",
            MKAudioError::ChunkNotFound => "a required chunk is missing",
            MKAudioError::InvalidParameter => "an invalid parameter was passed",
            MKAudioError::InvalidUse => "lifecycle misuse",
        }
    }
}

/// Result type for audio operations.
pub type MKAudioResult<T> = Result<T, MKAudioError>;

/// The audio stream lifecycle: Closed, Stopped (open but idle), Running.
#[derive(Debug, Clone, Copy, PartialEq, Eq, Structural)]
pub enum StreamState {
    /// No stream is open.
    Closed,
    /// A stream is open but not running.
    Stopped,
    /// A stream is running.
    Running,
}

/// The verified stream lifecycle state machine. The platform driver asks
/// it before every transition: opening requires a closed stream, starting
/// a stopped one, stopping a running one, and closing is always allowed.
#[derive(Debug, Clone, Copy, PartialEq, Eq, Structural)]
pub struct StreamLifecycle {
    state: StreamState,
}

impl StreamLifecycle {
    /// The current state.
    pub closed spec fn state_spec(&self) -> StreamState {
        self.state
    }

    /// A fresh lifecycle starts closed.
    pub fn new() -> (r: Self)
        ensures
            r.state_spec() == StreamState::Closed,
    {
        StreamLifecycle { state: StreamState::Closed }
    }

    /// The current state.
    pub fn state(&self) -> (r: StreamState)
        ensures
            r == self.state_spec(),
    {
        self.state
    }

    /// Whether a stream is open (stopped or running).
    pub fn is_open(&self) -> (r: bool)
        ensures
            r == (self.state_spec() != StreamState::Closed),
    {
        match self.state {
            StreamState::Closed => false,
            _ => true,
        }
    }

    /// Whether a stream is running.
    pub fn is_running(&self) -> (r: bool)
        ensures
            r == (self.state_spec() == StreamState::Running),
    {
        match self.state {
            StreamState::Running => true,
            _ => false,
        }
    }

    /// Open a stream. Rejected with `InvalidParameter` when neither output
    /// nor input is requested, with `InvalidUse` when a stream is already
    /// open; otherwise the stream becomes Stopped.
    pub fn open(&mut self, has_output: bool, has_input: bool) -> (r: MKAudioResult<()>)
        ensures
            !has_output && !has_input ==> r == MKAudioResult::<()>::Err(
                MKAudioError::InvalidParameter,
            ) && final(self).state_spec() == old(self).state_spec(),
            (has_output || has_input) && old(self).state_spec() != StreamState::Closed ==> r
                == MKAudioResult::<()>::Err(MKAudioError::InvalidUse) && final(self).state_spec()
                == old(self).state_spec(),
            (has_output || has_input) && old(self).state_spec() == StreamState::Closed ==> r
                == MKAudioResult::<()>::Ok(()) && final(self).state_spec()
                == StreamState::Stopped,
    {
        if !has_output && !has_input {
            return Err(MKAudioError::InvalidParameter);
        }
        match self.state {
            StreamState::Closed => {
                self.state = StreamState::Stopped;
                Ok(())
            },
            _ => Err(MKAudioError::InvalidUse),
        }
    }

    /// Start the open stream. Rejected with `InvalidUse` unless the stream
    /// is Stopped; otherwise it becomes Running.
    pub fn start(&mut self) -> (r: MKAudioResult<()>)
        ensures
            old(self).state_spec() == StreamState::Stopped ==> r == MKAudioResult::<()>::Ok(())
                && final(self).state_spec() == StreamState::Running,
            old(self).state_spec() != StreamState::Stopped ==> r == MKAudioResult::<()>::Err(
                MKAudioError::InvalidUse,
            ) && final(self).state_spec() == old(self).state_spec(),
    {
        match self.state {
            StreamState::Stopped => {
                self.state = StreamState::Running;
                Ok(())
            },
            _ => Err(MKAudioError::InvalidUse),
        }
    }

    /// Stop the running stream. Rejected with `InvalidUse` unless the
    /// stream is Running; otherwise it becomes Stopped.
    pub fn stop(&mut self) -> (r: MKAudioResult<()>)
        ensures
            old(self).state_spec() == StreamState::Running ==> r == MKAudioResult::<()>::Ok(())
                && final(self).state_spec() == StreamState::Stopped,
            old(self).state_spec() != StreamState::Running ==> r == MKAudioResult::<()>::Err(
                MKAudioError::InvalidUse,
            ) && final(self).state_spec() == old(self).state_spec(),
    {
        match self.state {
            StreamState::Running => {
                self.state = StreamState::Stopped;
                Ok(())
            },
            _ => Err(MKAudioError::InvalidUse),
        }
    }

    /// Close the stream, stopping it first if needed. Valid in any state.
    pub fn close(&mut self)
        ensures
            final(self).state_spec() == StreamState::Closed,
    {
        self.state = StreamState::Closed;
    }
}

} // verus!
