//! The shape of Opus streams.
//!
//! Packets are always one 20 ms frame, so encoder and decoder frame sizes agree
//! on both ends.

use crate::buffer::Sample;
use crate::errors::{joined, AudioError};
use crate::text::{append_decimal, decimal};
use vstd::prelude::*;
use vstd::string::StringExecFns;

verus! {

/// Opus frame duration in milliseconds.
pub const OPUS_FRAME_DURATION_MS: u32 = 20;

/// Maximum size of a single Opus packet (larger than the 1275-byte maximum of
/// the codec, so truncation is never a concern).
pub const MAX_OPUS_PACKET_BYTES: usize = 4000;

/// The channel layouts Opus supports.
#[derive(Debug, Clone, Copy, PartialEq, Eq, Structural)]
pub enum ChannelLayout {
    Mono,
    Stereo,
}

/// The layout for a number of channels, where there is one.
pub open spec fn layout_for(channels: u16) -> Option<ChannelLayout> {
    if channels == 1 {
        Some(ChannelLayout::Mono)
    } else if channels == 2 {
        Some(ChannelLayout::Stereo)
    } else {
        None
    }
}

/// Why `channels` channels have no layout.
pub open spec fn layout_complaint(channels: u16) -> Seq<char> {
    "Opus supports 1 or 2 channels, got "@ + decimal(channels as nat)
}

/// `error` is a processing error with this reason.
pub open spec fn is_processing_error(error: AudioError, reason: Seq<char>) -> bool {
    error matches AudioError::ProcessingError(s) && s@ == reason
}

/// Map a channel count to a layout; Opus knows only mono and stereo.
pub fn channel_setting(channels: u16) -> (r: Result<ChannelLayout, AudioError>)
    ensures
        match r {
            Ok(layout) => layout_for(channels) == Some(layout),
            Err(e) => layout_for(channels) is None && is_processing_error(
                e,
                layout_complaint(channels),
            ),
        },
        r is Ok <==> channels == 1 || channels == 2,
        r matches Ok(layout) ==> (layout == ChannelLayout::Mono <==> channels == 1),
{
    if channels == 1 {
        Ok(ChannelLayout::Mono)
    } else if channels == 2 {
        Ok(ChannelLayout::Stereo)
    } else {
        let mut reason: String = String::from_str("Opus supports 1 or 2 channels, got ");
        append_decimal(&mut reason, channels as u64);
        Err(AudioError::ProcessingError(reason))
    }
}

/// Frames per channel in one 20 ms Opus frame at `sample_rate`.
pub fn opus_frame_size(sample_rate: u32) -> (n: usize)
    ensures
        n == spec_opus_frame_size(sample_rate),
{
    let duration: u64 = OPUS_FRAME_DURATION_MS as u64;
    proof {
        assert(sample_rate * duration == sample_rate * 20) by (nonlinear_arith)
            requires
                duration == 20,
        ;
    }
    (sample_rate as u64 * duration / 1000) as usize
}

/// Frames per channel in one 20 ms Opus frame at `sample_rate`.
pub open spec fn spec_opus_frame_size(sample_rate: u32) -> int {
    sample_rate as int * 20 / 1000
}

/// The fixed configuration of an encoder or decoder.
#[derive(Debug, Clone, Copy, PartialEq, Eq, Structural)]
pub struct OpusSettings {
    pub sample_rate: u32,
    pub channels: u16,
    pub layout: ChannelLayout,
}

impl OpusSettings {
    /// The layout is that of the channel count.
    pub open spec fn wf(self) -> bool {
        layout_for(self.channels) == Some(self.layout)
    }

    /// Settings for a stream; refused when Opus has no layout for it.
    pub fn new(sample_rate: u32, channels: u16) -> (r: Result<Self, AudioError>)
        ensures
            match r {
                Ok(s) => s.wf() && s.sample_rate == sample_rate && s.channels == channels,
                Err(e) => layout_for(channels) is None && is_processing_error(
                    e,
                    layout_complaint(channels),
                ),
            },
    {
        match channel_setting(channels) {
            Ok(layout) => Ok(OpusSettings { sample_rate, channels, layout }),
            Err(e) => Err(e),
        }
    }

    /// Frames per channel for one encoded packet.
    pub fn frame_size(&self) -> (n: usize)
        ensures
            n == spec_opus_frame_size(self.sample_rate),
    {
        opus_frame_size(self.sample_rate)
    }

    /// Samples that a decoder must have room for: a generous frame of 120 ms.
    /// A packet itself carries its real duration.
    pub fn decode_capacity(&self) -> (n: usize)
        requires
            self.wf(),
        ensures
            n == self.sample_rate as int * 120 / 1000 * self.channels,
    {
        let per_channel: u64 = self.sample_rate as u64 * 120 / 1000;
        proof {
            assert(per_channel * self.channels <= 2 * per_channel) by (nonlinear_arith)
                requires
                    self.channels <= 2,
                    per_channel >= 0,
            ;
        }
        (per_channel * self.channels as u64) as usize
    }

    /// Cut a decode buffer down to the `frames` per channel that were decoded.
    pub fn trim_decoded(&self, out: Vec<Sample>, frames: usize) -> (decoded: Vec<Sample>)
        requires
            frames * self.channels <= usize::MAX,
        ensures
            decoded@ == out@.take(
                if frames * self.channels <= out@.len() {
                    frames * self.channels
                } else {
                    out@.len() as int
                },
            ),
    {
        let mut decoded: Vec<Sample> = out;
        let ghost before = decoded@;
        let len: usize = frames * self.channels as usize;
        if len <= decoded.len() {
            decoded.truncate(len);
            assert(decoded@ =~= before.take(len as int));
        } else {
            assert(before.take(before.len() as int) =~= before);
        }
        decoded
    }
}

/// The error for an encoder that could not be created.
pub fn encoder_unavailable(reason: &str) -> (e: AudioError)
    ensures
        is_processing_error(e, "failed to create Opus encoder: "@ + reason@),
{
    AudioError::ProcessingError(joined("failed to create Opus encoder: ", reason))
}

/// The error for a decoder that could not be created.
pub fn decoder_unavailable(reason: &str) -> (e: AudioError)
    ensures
        is_processing_error(e, "failed to create Opus decoder: "@ + reason@),
{
    AudioError::ProcessingError(joined("failed to create Opus decoder: ", reason))
}

/// The error for a frame that could not be encoded.
pub fn encode_failed(reason: &str) -> (e: AudioError)
    ensures
        is_processing_error(e, "Opus encode failed: "@ + reason@),
{
    AudioError::ProcessingError(joined("Opus encode failed: ", reason))
}

/// The error for a packet that could not be decoded.
pub fn decode_failed(reason: &str) -> (e: AudioError)
    ensures
        is_processing_error(e, "Opus decode failed: "@ + reason@),
{
    AudioError::ProcessingError(joined("Opus decode failed: ", reason))
}

/// A second of audio is fifty frames, at every rate that divides evenly.
pub proof fn law_fifty_frames_per_second(sample_rate: u32)
    requires
        sample_rate % 50 == 0,
    ensures
        spec_opus_frame_size(sample_rate) * 50 == sample_rate,
{
}

/// One channel is mono and two are stereo; no other number has a layout.
pub proof fn law_layouts(channels: u16)
    ensures
        layout_for(channels) == Some(ChannelLayout::Mono) <==> channels == 1,
        layout_for(channels) == Some(ChannelLayout::Stereo) <==> channels == 2,
        layout_for(channels) is None <==> channels != 1 && channels != 2,
{
}

/// A frame is as many samples per channel as fit into a fiftieth of a second, at
/// every rate.
pub proof fn law_frame_is_a_fiftieth_of_a_second(sample_rate: u32)
    ensures
        50 * spec_opus_frame_size(sample_rate) <= sample_rate,
        sample_rate < 50 * (spec_opus_frame_size(sample_rate) + 1),
{
}

} // verus!
