//! The parameters and sample layouts of Android's `AudioTrack` and
//! `AudioRecord`.

use crate::text::{append_decimal, append_signed, decimal, signed_decimal};
use vstd::prelude::*;
use vstd::string::StringExecFns;

verus! {

// AudioTrack constants (android.media.AudioManager / AudioFormat / AudioTrack).
pub const STREAM_MUSIC: i32 = 3;

pub const CHANNEL_OUT_MONO: i32 = 4;

pub const CHANNEL_OUT_STEREO: i32 = 12;

pub const ENCODING_PCM_16BIT: i32 = 2;

pub const MODE_STREAM: i32 = 1;

// AudioRecord constants (android.media.MediaRecorder / AudioFormat).
pub const AUDIO_SOURCE_MIC: i32 = 1;

pub const CHANNEL_IN_MONO: i32 = 16;

/// The output channel mask for a number of channels.
pub fn channel_config(channels: u16) -> (mask: i32)
    ensures
        mask == if channels <= 1 {
            CHANNEL_OUT_MONO
        } else {
            CHANNEL_OUT_STEREO
        },
        mask == if channels < 2 {
            4
        } else {
            12int
        },
{
    if channels <= 1 {
        CHANNEL_OUT_MONO
    } else {
        CHANNEL_OUT_STEREO
    }
}

/// Twice the minimum buffer size that the platform reports, at least 4 KiB.
pub open spec fn buffer_size_for(min_buffer: i32) -> int {
    if min_buffer * 2 >= 4096 {
        min_buffer * 2
    } else {
        4096
    }
}

/// The size of a playback buffer.
pub fn track_buffer_size(min_buffer: i32) -> (size: i32)
    requires
        i32::MIN <= min_buffer * 2 <= i32::MAX,
    ensures
        size == buffer_size_for(min_buffer),
        size >= 4096,
        size >= 2 * min_buffer,
        size == 4096 || size == 2 * min_buffer,
{
    if min_buffer * 2 >= 4096 {
        min_buffer * 2
    } else {
        4096
    }
}

/// The size of a recording buffer; the platform reports an error as a minimum
/// that is not positive.
pub fn record_buffer_size(min_buffer: i32) -> (size: Result<i32, String>)
    requires
        min_buffer * 2 <= i32::MAX,
    ensures
        match size {
            Ok(size) => {
                &&& min_buffer > 0
                &&& size == buffer_size_for(min_buffer)
                &&& size >= 4096
                &&& size >= 2 * min_buffer
                &&& size == 4096 || size == 2 * min_buffer
            },
            Err(reason) => min_buffer <= 0 && reason@ == "AudioRecord.getMinBufferSize returned "@
                + signed_decimal(min_buffer as int),
        },
{
    if min_buffer <= 0 {
        let mut reason: String = String::from_str("AudioRecord.getMinBufferSize returned ");
        append_signed(&mut reason, min_buffer);
        return Err(reason);
    }
    Ok(track_buffer_size(min_buffer))
}

/// The 16-bit sample with these bytes, least significant first.
pub open spec fn sample_from_bytes(low: u8, high: u8) -> i16 {
    let unsigned = low + 256 * high;
    if unsigned < 0x8000 {
        unsigned as i16
    } else {
        (unsigned - 0x1_0000) as i16
    }
}

/// The bytes of a 16-bit sample, least significant first.
pub open spec fn sample_to_bytes(v: i16) -> Seq<u8> {
    let unsigned = if v < 0 {
        v + 0x1_0000
    } else {
        v as int
    };
    seq![(unsigned % 256) as u8, (unsigned / 256) as u8]
}

/// The bytes of all samples, one after the other.
pub open spec fn samples_to_bytes(samples: Seq<i16>) -> Seq<u8> {
    Seq::new(2 * samples.len(), |i: int| sample_to_bytes(samples[i / 2])[i % 2])
}

/// The bytes of all samples, one after the other.
pub fn pack_samples(samples: &[i16]) -> (bytes: Vec<u8>)
    requires
        2 * samples@.len() <= usize::MAX,
    ensures
        bytes@ == samples_to_bytes(samples@),
{
    let mut bytes: Vec<u8> = Vec::new();
    let mut i: usize = 0;
    assert(samples_to_bytes(samples@.take(0)) =~= Seq::empty());
    while i < samples.len()
        invariant
            i <= samples@.len(),
            bytes@ == samples_to_bytes(samples@.take(i as int)),
        decreases samples@.len() - i,
    {
        let v: i16 = samples[i];
        let unsigned: u32 = if v < 0 {
            (v as i32 + 0x1_0000) as u32
        } else {
            v as u32
        };
        bytes.push((unsigned % 256) as u8);
        bytes.push((unsigned / 256) as u8);
        assert(samples_to_bytes(samples@.take(i + 1)) =~= samples_to_bytes(samples@.take(i as int))
            + sample_to_bytes(v));
        i = i + 1;
    }
    assert(samples@.take(samples@.len() as int) =~= samples@);
    bytes
}

/// How many bytes a blocking read returned; the platform reports a stopped
/// stream and errors as zero or less.
pub fn bytes_read(read: i32) -> (n: usize)
    ensures
        n == if read <= 0 {
            0
        } else {
            read as int
        },
{
    if read <= 0 {
        0
    } else {
        read as usize
    }
}

/// Take the samples out of the bytes that a read returned. Returns how many
/// there are; `out` holds as many of them as it has room for.
pub fn unpack_samples(bytes: &[u8], out: &mut [i16]) -> (n: usize)
    ensures
        n == bytes@.len() / 2,
        final(out)@.len() == old(out)@.len(),
        forall|i: int|
            0 <= i < old(out)@.len() ==> #[trigger] final(out)@[i] == if i < n {
                sample_from_bytes(bytes@[2 * i], bytes@[2 * i + 1])
            } else {
                old(out)@[i]
            },
{
    let total: usize = bytes.len();
    let n: usize = total / 2;
    let ghost before = out@;
    let mut i: usize = 0;
    while i < n && i < out.len()
        invariant
            i <= n,
            total == bytes@.len(),
            n == total / 2,
            i <= out@.len(),
            out@.len() == before.len(),
            forall|k: int|
                0 <= k < out@.len() ==> #[trigger] out@[k] == if k < i {
                    sample_from_bytes(bytes@[2 * k], bytes@[2 * k + 1])
                } else {
                    before[k]
                },
        decreases n - i,
    {
        let unsigned: i32 = bytes[2 * i] as i32 + 256 * bytes[2 * i + 1] as i32;
        let v: i16 = if unsigned < 0x8000 {
            unsigned as i16
        } else {
            (unsigned - 0x1_0000) as i16
        };
        out[i] = v;
        i = i + 1;
    }
    n
}

/// A blocking write must take all bytes.
pub fn check_written(written: i32, len: usize) -> (r: Result<(), String>)
    requires
        len <= i32::MAX,
    ensures
        match r {
            Ok(_) => written == len,
            Err(reason) => written != len && reason@ == "AudioTrack write short: "@
                + signed_decimal(written as int) + " of "@ + decimal(len as nat) + " bytes"@,
        },
{
    if written == len as i32 {
        return Ok(());
    }
    let mut reason: String = String::from_str("AudioTrack write short: ");
    append_signed(&mut reason, written);
    reason.append(" of ");
    append_decimal(&mut reason, len as u64);
    reason.append(" bytes");
    Err(reason)
}

/// Unpacking gives back the sample that was packed.
pub proof fn law_sample_bytes_round_trip(v: i16)
    ensures
        sample_to_bytes(v).len() == 2,
        sample_from_bytes(sample_to_bytes(v)[0], sample_to_bytes(v)[1]) == v,
{
}

/// The bytes of a sample are its value, least significant first, in two's
/// complement.
pub proof fn law_samples_are_little_endian(samples: Seq<i16>, i: int, low: u8, high: u8)
    requires
        0 <= i < samples.len(),
    ensures
        samples_to_bytes(samples).len() == 2 * samples.len(),
        ({
            let unsigned = samples_to_bytes(samples)[2 * i] + 0x100 * samples_to_bytes(
                samples,
            )[2 * i + 1];
            unsigned == if samples[i] >= 0 {
                samples[i] as int
            } else {
                samples[i] + 0x1_0000
            }
        }),
        high < 0x80 ==> sample_from_bytes(low, high) == low + 0x100 * high,
        high >= 0x80 ==> sample_from_bytes(low, high) == low + 0x100 * high - 0x1_0000,
{
    let bytes = samples_to_bytes(samples);
    assert((2 * i) / 2 == i && (2 * i) % 2 == 0 && (2 * i + 1) / 2 == i && (2 * i + 1) % 2 == 1);
    assert(bytes[2 * i] == sample_to_bytes(samples[i])[0]);
    assert(bytes[2 * i + 1] == sample_to_bytes(samples[i])[1]);
}

/// A buffer is as large as the larger of 4 KiB and twice the minimum.
pub proof fn law_buffers_are_large_enough(min_buffer: i32)
    ensures
        buffer_size_for(min_buffer) >= 4096,
        buffer_size_for(min_buffer) >= 2 * min_buffer,
        buffer_size_for(min_buffer) == 4096 || buffer_size_for(min_buffer) == 2 * min_buffer,
{
}

} // verus!
