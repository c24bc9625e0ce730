//! The plugin-facing processing types the core publishes.
//!
//! The plugin ABI itself (dynamic loading, the `Processor` trait over
//! floating-point parameters and buffers) is an external collaborator and
//! lives outside the verified library; this module holds the channel
//! layout the audio I/O containers are built from.

use vstd::prelude::*;

verus! {

/// Standard speaker layouts for audio I/O containers.
#[derive(Debug, Clone, Copy, PartialEq, Eq, Structural)]
pub enum ChannelLayout {
    /// One channel.
    Mono,
    /// Two channels, left and right.
    Stereo,
    /// Left, center, right.
    LCR,
    /// Four corner channels.
    Quad,
    /// Five full-range channels and one low-frequency channel.
    Surround5p1,
    /// Seven full-range channels and one low-frequency channel.
    Surround7p1,
    /// A 7.1 bed with two height channels.
    Surround7p1p2,
    /// A 7.1 bed with four height channels.
    Surround7p1p4,
}

impl ChannelLayout {
    /// The number of channels the layout carries.
    pub fn num_channels(&self) -> (r: usize)
        ensures
            r == match self {
                ChannelLayout::Mono => 1usize,
                ChannelLayout::Stereo => 2usize,
                ChannelLayout::LCR => 3usize,
                ChannelLayout::Quad => 4usize,
                ChannelLayout::Surround5p1 => 6usize,
                ChannelLayout::Surround7p1 => 8usize,
                ChannelLayout::Surround7p1p2 => 10usize,
                ChannelLayout::Surround7p1p4 => 12usize,
            },
    {
        match self {
            ChannelLayout::Mono => 1,
            ChannelLayout::Stereo => 2,
            ChannelLayout::LCR => 3,
            ChannelLayout::Quad => 4,
            ChannelLayout::Surround5p1 => 6,
            ChannelLayout::Surround7p1 => 8,
            ChannelLayout::Surround7p1p2 => 10,
            ChannelLayout::Surround7p1p4 => 12,
        }
    }
}

} // verus!
