use mkaudiolibrary::processor::ChannelLayout;
use mkaudiolibrary::realtime::{
    Api, MKAudioError, SampleFormat, StreamFlags, StreamLifecycle, StreamParameters, StreamState,
    StreamStatus,
};

#[test]
fn stream_lifecycle_follows_the_rules() {
    let mut stream = StreamLifecycle::new();
    assert_eq!(stream.state(), StreamState::Closed);
    assert!(!stream.is_open());
    // Starting or stopping a closed stream is misuse.
    assert_eq!(stream.start(), Err(MKAudioError::InvalidUse));
    assert_eq!(stream.stop(), Err(MKAudioError::InvalidUse));
    // Opening with neither direction is an invalid parameter.
    assert_eq!(stream.open(false, false), Err(MKAudioError::InvalidParameter));
    assert_eq!(stream.open(true, false), Ok(()));
    assert_eq!(stream.state(), StreamState::Stopped);
    assert!(stream.is_open());
    // Opening twice is misuse.
    assert_eq!(stream.open(true, true), Err(MKAudioError::InvalidUse));
    assert_eq!(stream.start(), Ok(()));
    assert!(stream.is_running());
    // Starting a running stream is misuse.
    assert_eq!(stream.start(), Err(MKAudioError::InvalidUse));
    assert_eq!(stream.stop(), Ok(()));
    assert_eq!(stream.state(), StreamState::Stopped);
    assert_eq!(stream.stop(), Err(MKAudioError::InvalidUse));
    // Closing is valid in any state.
    stream.close();
    assert_eq!(stream.state(), StreamState::Closed);
    stream.close();
    assert_eq!(stream.state(), StreamState::Closed);
}

#[test]
fn sample_format_byte_sizes() {
    assert_eq!(SampleFormat::Int8.byte_size(), 1);
    assert_eq!(SampleFormat::Int16.byte_size(), 2);
    assert_eq!(SampleFormat::Int24.byte_size(), 3);
    assert_eq!(SampleFormat::Int32.byte_size(), 4);
    assert_eq!(SampleFormat::Float32.byte_size(), 4);
    assert_eq!(SampleFormat::Float64.byte_size(), 8);
    assert_eq!(SampleFormat::default(), SampleFormat::Float64);
}

#[test]
fn channel_layout_counts() {
    assert_eq!(ChannelLayout::Mono.num_channels(), 1);
    assert_eq!(ChannelLayout::Stereo.num_channels(), 2);
    assert_eq!(ChannelLayout::LCR.num_channels(), 3);
    assert_eq!(ChannelLayout::Quad.num_channels(), 4);
    assert_eq!(ChannelLayout::Surround5p1.num_channels(), 6);
    assert_eq!(ChannelLayout::Surround7p1.num_channels(), 8);
    assert_eq!(ChannelLayout::Surround7p1p2.num_channels(), 10);
    assert_eq!(ChannelLayout::Surround7p1p4.num_channels(), 12);
}

#[test]
fn support_type_defaults() {
    assert_eq!(Api::default(), Api::Unspecified);
    assert_eq!(Api::Dummy.name(), "Dummy");
    let flags = StreamFlags::default();
    assert!(!flags.noninterleaved && !flags.minimize_latency);
    let status = StreamStatus::default();
    assert!(!status.input_overflow && !status.output_underflow);
    let params = StreamParameters::default();
    assert_eq!(params.num_channels, 2);
    assert_eq!(params.device_id, 0);
}
