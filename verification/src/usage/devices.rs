//! Calls about audio devices and codecs.

use crate::android::{bytes_read, channel_config, check_written, pack_samples, record_buffer_size, sample_to_bytes, samples_to_bytes, track_buffer_size, unpack_samples};
use crate::buffer::{AudioRingBuffer, Sample};
use crate::capture::{choose_output_config, from_offset_binary, play_from, select_input_device, select_output_device, stream_conversion, to_offset_binary, AudioDeviceInfo, CaptureError, Conversion, DeviceChoice, FormatRange, SampleFormat, StreamFormat};
use crate::codec::{channel_setting, opus_frame_size, ChannelLayout, OpusSettings};
use crate::errors::AudioError;
use crate::startup::{check_receiver_slot, check_transmitter_slot, ReceiveStep, RebuildStep, TransmitStep};
use vstd::prelude::*;

verus! {

/// A device asked for by its index is opened if there is one, and only then;
/// without an index it is the default one.
pub proof fn law_selecting_devices(
    index: Option<usize>,
    count: Result<usize, String>,
    has_default: bool,
    input: Result<DeviceChoice, CaptureError>,
    output: Result<DeviceChoice, CaptureError>,
)
    requires
        call_ensures(select_input_device, (index, count, has_default), input),
        call_ensures(select_output_device, (index, count, has_default), output),
    ensures
        input matches Ok(DeviceChoice::Nth(i)) ==> index == Some(i) && (count matches Ok(n) && i
            < n),
        output matches Ok(DeviceChoice::Nth(i)) ==> index == Some(i) && (count matches Ok(n) && i
            < n),
        input matches Ok(DeviceChoice::Default) ==> index is None && has_default,
        output matches Ok(DeviceChoice::Default) ==> index is None && has_default,
        index is None && has_default ==> input is Ok && output is Ok,
        index is None && !has_default ==> input == Err::<DeviceChoice, CaptureError>(
            CaptureError::NoDefaultInput,
        ) && output == Err::<DeviceChoice, CaptureError>(CaptureError::NoDefaultOutput),
        index matches Some(i) ==> (count matches Ok(n) ==> (i < n ==> input is Ok && output is Ok)),
        index matches Some(i) ==> (count matches Ok(n) ==> (i >= n ==> input == Err::<
            DeviceChoice,
            CaptureError,
        >(CaptureError::DeviceNotFound { index: i }) && output == Err::<
            DeviceChoice,
            CaptureError,
        >(CaptureError::DeviceNotFound { index: i }))),
        index is Some ==> (count matches Err(reason) ==> input == Err::<DeviceChoice, CaptureError>(
            CaptureError::DeviceQuery(reason),
        ) && output == Err::<DeviceChoice, CaptureError>(CaptureError::DeviceQuery(reason))),
{
}

/// The requested stream is chosen whenever some range has it, in the format of the
/// first such range; otherwise the device's default is.
pub proof fn law_choosing_a_stream(
    default: StreamFormat,
    ranges: &[FormatRange],
    sample_rate: u32,
    channels: u16,
    chosen: StreamFormat,
    i: int,
)
    requires
        call_ensures(choose_output_config, (default, ranges, sample_rate, channels), chosen),
    ensures
        0 <= i < ranges@.len() && ranges@[i].channels == channels && ranges@[i].min_sample_rate
            <= sample_rate && sample_rate <= ranges@[i].max_sample_rate ==> chosen.sample_rate
            == sample_rate && chosen.channels == channels,
        0 <= i < ranges@.len() && ranges@[i].channels == channels && ranges@[i].min_sample_rate
            <= sample_rate && sample_rate <= ranges@[i].max_sample_rate && (forall|j: int|
            0 <= j < i ==> (#[trigger] ranges@[j]).channels != channels || sample_rate
                < ranges@[j].min_sample_rate || ranges@[j].max_sample_rate < sample_rate)
            ==> chosen.sample_format == ranges@[i].sample_format,
        (forall|j: int|
            0 <= j < ranges@.len() ==> (#[trigger] ranges@[j]).channels != channels || sample_rate
                < ranges@[j].min_sample_rate || ranges@[j].max_sample_rate < sample_rate) ==> chosen
            == default,
{
    if forall|j: int|
        0 <= j < ranges@.len() ==> (#[trigger] ranges@[j]).channels != channels || sample_rate
            < ranges@[j].min_sample_rate || ranges@[j].max_sample_rate < sample_rate {
        assert forall|j: int| 0 <= j < ranges@.len() implies !ranges@[j].covers(
            sample_rate,
            channels,
        ) by {}
    }
    if 0 <= i < ranges@.len() {
        assert(ranges@[i].covers(sample_rate, channels) <==> ranges@[i].channels == channels
            && ranges@[i].min_sample_rate <= sample_rate && sample_rate
            <= ranges@[i].max_sample_rate);
    }
}

/// Four formats can be converted, each in its own way; an unsupported one is named
/// in the error.
pub proof fn law_converting_formats(format: SampleFormat, r: Result<Conversion, CaptureError>)
    requires
        call_ensures(stream_conversion, (format,), r),
    ensures
        r matches Ok(c) ==> match c {
            Conversion::F32 => format == SampleFormat::F32,
            Conversion::I16 => format == SampleFormat::I16,
            Conversion::U16 => format == SampleFormat::U16,
            Conversion::I32 => format == SampleFormat::I32,
        },
        r is Ok <==> format == SampleFormat::F32 || format == SampleFormat::I16 || format
            == SampleFormat::U16 || format == SampleFormat::I32,
        r matches Err(e) ==> e == CaptureError::UnsupportedSampleFormat(format),
{
}

/// Offset binary keeps the order of the samples, has silence in its middle, and
/// can be taken back.
pub proof fn law_offset_binary(v: i16, w: i16, u: u16, x: u16, back: i16)
    requires
        call_ensures(to_offset_binary, (v,), u),
        call_ensures(to_offset_binary, (w,), x),
        call_ensures(from_offset_binary, (u,), back),
    ensures
        back == v,
        v < w ==> u < x,
        v == 0 ==> u == 0x8000,
{
}

/// A device is summed up as it was found, and marked exactly when it has the name
/// of the default one.
pub proof fn law_describing_a_device(
    index: usize,
    name: String,
    default_name: String,
    format: StreamFormat,
    info: AudioDeviceInfo,
    other: AudioDeviceInfo,
    unknown: AudioDeviceInfo,
)
    requires
        call_ensures(AudioDeviceInfo::new, (index, Some(name), Some(default_name), Some(format)), info),
        call_ensures(AudioDeviceInfo::new, (index, Some(name), None, Some(format)), other),
        call_ensures(AudioDeviceInfo::new, (index, Some(name), None, None), unknown),
    ensures
        info.index == index && info.name@ == name@ && info.sample_rate == format.sample_rate
            && info.channels == format.channels,
        info.is_default <==> name@ == default_name@,
        !other.is_default,
        unknown.index == index && unknown.name@ == name@ && unknown.sample_rate == 0
            && unknown.channels == 0 && unknown.sample_format@.len() == 0,
{
}

/// A playback buffer gets the front of the queue, and silence where the queue ran
/// out.
pub proof fn law_playing_from_a_queue(ring: &mut AudioRingBuffer, data: &mut [Sample], n: usize)
    requires
        call_ensures(play_from, (ring, data), n),
    ensures
        n <= old(data)@.len(),
        n == old(data)@.len() || final(ring)@.len() == 0,
        final(data)@.len() == old(data)@.len(),
        final(data)@.take(n as int) + final(ring)@ == old(ring)@,
        forall|i: int| n <= i < old(data)@.len() ==> #[trigger] final(data)@[i] == 0,
{
    assert(final(data)@.take(n as int) =~= old(ring)@.take(n as int));
    assert(old(ring)@.take(n as int) + old(ring)@.skip(n as int) =~= old(ring)@);
}

/// One channel, or none, is mono; more are stereo.
pub proof fn law_channel_masks(channels: u16, mask: i32)
    requires
        call_ensures(channel_config, (channels,), mask),
    ensures
        channels <= 1 ==> mask == 4,
        channels >= 2 ==> mask == 12,
{
}

/// A buffer has twice the minimum, or 4 KiB if that is more; a minimum that is not
/// positive is an error for a recording.
pub proof fn law_sizing_buffers(min_buffer: i32, track: i32, record: Result<i32, String>)
    requires
        call_ensures(track_buffer_size, (min_buffer,), track),
        call_ensures(record_buffer_size, (min_buffer,), record),
    ensures
        min_buffer >= 2048 ==> track == 2 * min_buffer,
        min_buffer <= 2048 ==> track == 4096,
        record is Ok <==> min_buffer > 0,
        record matches Ok(size) ==> size == track,
{
}

/// What is packed is unpacked again, sample by sample.
pub proof fn law_packing_and_unpacking(
    samples: &[i16],
    bytes: Vec<u8>,
    packed: &[u8],
    out: &mut [i16],
    n: usize,
)
    requires
        call_ensures(pack_samples, (samples,), bytes),
        call_ensures(unpack_samples, (packed, out), n),
        packed@ == bytes@,
    ensures
        n == samples@.len(),
        forall|i: int|
            0 <= i < n && i < old(out)@.len() ==> #[trigger] final(out)@[i] == samples@[i],
        forall|i: int| n <= i < old(out)@.len() ==> #[trigger] final(out)@[i] == old(out)@[i],
{
    assert(bytes@.len() == 2 * samples@.len());
    assert forall|i: int| 0 <= i < n && i < old(out)@.len() implies #[trigger] final(out)@[i]
        == samples@[i] by {
        assert((2 * i) / 2 == i && (2 * i) % 2 == 0 && (2 * i + 1) / 2 == i && (2 * i + 1) % 2 == 1);
        assert(samples_to_bytes(samples@)[2 * i] == sample_to_bytes(samples@[i])[0]);
        assert(samples_to_bytes(samples@)[2 * i + 1] == sample_to_bytes(samples@[i])[1]);
    }
}

/// A read returns what the platform says unless that is an error, and a write has
/// to take everything.
pub proof fn law_platform_results(read: i32, n: usize, written: i32, len: usize, r: Result<(), String>)
    requires
        call_ensures(bytes_read, (read,), n),
        call_ensures(check_written, (written, len), r),
    ensures
        read > 0 ==> n == read,
        read <= 0 ==> n == 0,
        r is Ok <==> written == len,
{
}

/// Opus carries one or two channels, in frames of a fiftieth of a second, and a
/// decoder has room for six of them.
pub proof fn law_opus_streams(
    sample_rate: u32,
    channels: u16,
    layout: Result<ChannelLayout, AudioError>,
    settings: Result<OpusSettings, AudioError>,
    n: usize,
)
    requires
        call_ensures(channel_setting, (channels,), layout),
        call_ensures(OpusSettings::new, (sample_rate, channels), settings),
        call_ensures(opus_frame_size, (sample_rate,), n),
    ensures
        layout is Ok <==> channels == 1 || channels == 2,
        layout matches Ok(l) ==> (l == ChannelLayout::Mono <==> channels == 1),
        settings is Ok <==> channels == 1 || channels == 2,
        settings matches Ok(s) ==> s.sample_rate == sample_rate && s.channels == channels && (
        s.layout == ChannelLayout::Mono <==> channels == 1),
        50 * n <= sample_rate < 50 * (n + 1),
{
}

/// What a decoder made is cut to whole frames; nothing is made up.
pub proof fn law_trimming(
    settings: &OpusSettings,
    out: Vec<Sample>,
    frames: usize,
    decoded: Vec<Sample>,
    room: usize,
)
    requires
        call_ensures(OpusSettings::trim_decoded, (settings, out, frames), decoded),
        call_ensures(OpusSettings::decode_capacity, (settings,), room),
    ensures
        decoded@.is_prefix_of(out@),
        decoded@.len() <= frames * settings.channels,
        decoded@ == out@ || decoded@.len() == frames * settings.channels,
        room == settings.sample_rate as int * 120 / 1000 * settings.channels,
{
    if frames * settings.channels > out@.len() {
        assert(out@.take(out@.len() as int) =~= out@);
    }
}

/// A session can be started exactly while there is none.
pub proof fn law_slots(occupied: bool, receiver: Result<(), &'static str>, transmitter: Result<(), &'static str>)
    requires
        call_ensures(check_receiver_slot, (occupied,), receiver),
        call_ensures(check_transmitter_slot, (occupied,), transmitter),
    ensures
        receiver is Ok <==> !occupied,
        transmitter is Ok <==> !occupied,
{
}

/// A start goes from step to step while all goes well, says nothing on the way but
/// when a transmitter starts or stops, and ends with a message otherwise; only a
/// microphone that ran is released.
pub proof fn law_starting(
    r: ReceiveStep,
    t: TransmitStep,
    b: RebuildStep,
    outcome: Result<(), String>,
    address: &str,
    receive: (ReceiveStep, Option<String>),
    transmit: (TransmitStep, Option<String>),
    rebuild: (RebuildStep, Option<String>),
)
    requires
        call_ensures(ReceiveStep::advance, (r, outcome), receive),
        call_ensures(TransmitStep::advance, (t, outcome, address), transmit),
        call_ensures(RebuildStep::advance, (b, outcome), rebuild),
    ensures
        outcome is Ok ==> receive.1 is None && rebuild.1 is None,
        outcome is Ok ==> (transmit.1 is Some <==> t == TransmitStep::CreateTransmitter || t
            == TransmitStep::Release),
        outcome is Err ==> receive.0 == ReceiveStep::Done && rebuild.0 == RebuildStep::Abandoned,
        outcome is Err ==> receive.1 is Some && transmit.1 is Some && rebuild.1 is Some,
        outcome is Err ==> (transmit.0 == TransmitStep::Release <==> t == TransmitStep::Run),
        outcome is Err ==> (transmit.0 == TransmitStep::Done <==> t != TransmitStep::Run),
        outcome is Ok && r == ReceiveStep::ParseAddress ==> receive.0 == ReceiveStep::StartRuntime,
        outcome is Ok && r == ReceiveStep::StartRuntime ==> receive.0 == ReceiveStep::BindSocket,
        outcome is Ok && r == ReceiveStep::BindSocket ==> receive.0 == ReceiveStep::Run,
        outcome is Ok && r == ReceiveStep::Run ==> receive.0 == ReceiveStep::Done,
        outcome is Ok && t == TransmitStep::ParseAddress ==> transmit.0 == TransmitStep::OpenSocket,
        outcome is Ok && t == TransmitStep::OpenSocket ==> transmit.0
            == TransmitStep::ConnectSocket,
        outcome is Ok && t == TransmitStep::ConnectSocket ==> transmit.0
            == TransmitStep::OpenMicrophone,
        outcome is Ok && t == TransmitStep::OpenMicrophone ==> transmit.0
            == TransmitStep::CreateTransmitter,
        outcome is Ok && t == TransmitStep::CreateTransmitter ==> transmit.0 == TransmitStep::Run,
        outcome is Ok && t == TransmitStep::Run ==> transmit.0 == TransmitStep::Release,
        outcome is Ok && t == TransmitStep::Release ==> transmit.0 == TransmitStep::Done,
        outcome is Ok && b == RebuildStep::CreateContext ==> rebuild.0
            == RebuildStep::AccessWorklet,
        outcome is Ok && b == RebuildStep::AccessWorklet ==> rebuild.0 == RebuildStep::LoadModule,
        outcome is Ok && b == RebuildStep::LoadModule ==> rebuild.0 == RebuildStep::CreateGain,
        outcome is Ok && b == RebuildStep::CreateGain ==> rebuild.0 == RebuildStep::CreateNode,
        outcome is Ok && b == RebuildStep::CreateNode ==> rebuild.0 == RebuildStep::ConnectGraph,
        outcome is Ok && b == RebuildStep::ConnectGraph ==> rebuild.0 == RebuildStep::Install,
{
}

} // verus!
