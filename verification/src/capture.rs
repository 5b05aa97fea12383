//! Audio devices: what is known of them and how streams on them are set up.

use crate::buffer::{min_len, AudioRingBuffer, Sample, SILENCE};
use crate::config::AudioConfig;
use crate::errors::joined;
use crate::text::{append_decimal, decimal, digits_value, with_number};
use vstd::prelude::*;
use vstd::string::StringExecFns;

verus! {

/// Default capacity of a device's ring buffer, in samples across all channels.
/// At 48 kHz stereo this is about 2.7 seconds of audio.
pub const DEFAULT_BUFFER_CAPACITY_FRAMES: usize = 262_144;

/// How a device represents one sample.
#[derive(Debug, Clone, Copy, PartialEq, Eq, Structural)]
pub enum SampleFormat {
    I8,
    I16,
    I32,
    I64,
    U8,
    U16,
    U32,
    U64,
    F32,
    F64,
}

impl SampleFormat {
    /// The name of the format.
    pub open spec fn spec_name(self) -> Seq<char> {
        match self {
            SampleFormat::I8 => "I8"@,
            SampleFormat::I16 => "I16"@,
            SampleFormat::I32 => "I32"@,
            SampleFormat::I64 => "I64"@,
            SampleFormat::U8 => "U8"@,
            SampleFormat::U16 => "U16"@,
            SampleFormat::U32 => "U32"@,
            SampleFormat::U64 => "U64"@,
            SampleFormat::F32 => "F32"@,
            SampleFormat::F64 => "F64"@,
        }
    }

    pub fn name(self) -> (s: &'static str)
        ensures
            s@ == self.spec_name(),
    {
        match self {
            SampleFormat::I8 => "I8",
            SampleFormat::I16 => "I16",
            SampleFormat::I32 => "I32",
            SampleFormat::I64 => "I64",
            SampleFormat::U8 => "U8",
            SampleFormat::U16 => "U16",
            SampleFormat::U32 => "U32",
            SampleFormat::U64 => "U64",
            SampleFormat::F32 => "F32",
            SampleFormat::F64 => "F64",
        }
    }
}

/// Errors produced while enumerating devices or managing streams.
#[derive(Debug)]
pub enum CaptureError {
    NoDefaultInput,
    NoDefaultOutput,
    DeviceNotFound { index: usize },
    DeviceQuery(String),
    UnsupportedSampleFormat(SampleFormat),
    BuildStream(String),
    StartStream(String),
    StopStream(String),
}

impl CaptureError {
    /// What the error says to a user.
    pub open spec fn text(self) -> Seq<char> {
        match self {
            CaptureError::NoDefaultInput =>
                "no default audio input device available; run `list-devices` and pass --device <index>"@,
            CaptureError::NoDefaultOutput =>
                "no default audio output device available; run `list-devices` and pass --device <index>"@,
            CaptureError::DeviceNotFound { index } => "audio device #"@ + decimal(index as nat)
                + " not found; run `list-devices` to see available devices"@,
            CaptureError::DeviceQuery(reason) => "failed to query audio device: "@ + reason@,
            CaptureError::UnsupportedSampleFormat(format) => "unsupported sample format "@
                + format.spec_name(),
            CaptureError::BuildStream(reason) => "failed to build audio stream: "@ + reason@,
            CaptureError::StartStream(reason) => "failed to start audio stream: "@ + reason@,
            CaptureError::StopStream(reason) => "failed to stop audio stream: "@ + reason@,
        }
    }

    pub fn message(&self) -> (s: String)
        ensures
            s@ == self.text(),
    {
        match self {
            CaptureError::NoDefaultInput => String::from_str(
                "no default audio input device available; run `list-devices` and pass --device <index>",
            ),
            CaptureError::NoDefaultOutput => String::from_str(
                "no default audio output device available; run `list-devices` and pass --device <index>",
            ),
            CaptureError::DeviceNotFound { index } => with_number(
                "audio device #",
                *index as u64,
                " not found; run `list-devices` to see available devices",
            ),
            CaptureError::DeviceQuery(reason) => joined(
                "failed to query audio device: ",
                reason.as_str(),
            ),
            CaptureError::UnsupportedSampleFormat(format) => joined(
                "unsupported sample format ",
                format.name(),
            ),
            CaptureError::BuildStream(reason) => joined(
                "failed to build audio stream: ",
                reason.as_str(),
            ),
            CaptureError::StartStream(reason) => joined(
                "failed to start audio stream: ",
                reason.as_str(),
            ),
            CaptureError::StopStream(reason) => joined(
                "failed to stop audio stream: ",
                reason.as_str(),
            ),
        }
    }
}

/// A summary of one audio device.
#[derive(Debug, Clone)]
pub struct AudioDeviceInfo {
    /// Stable position in the enumeration order, used with `--device <index>`.
    pub index: usize,
    pub name: String,
    pub is_default: bool,
    pub sample_rate: u32,
    pub channels: u16,
    pub sample_format: String,
}

/// What a device can be asked for its default stream.
#[derive(Debug, Clone, Copy, PartialEq, Eq, Structural)]
pub struct StreamFormat {
    pub sample_rate: u32,
    pub channels: u16,
    pub sample_format: SampleFormat,
}

impl AudioDeviceInfo {
    /// Sum up the device at `index`. A name or a default format that cannot be
    /// read is made up for; the device is the default one when it has the
    /// default device's name.
    pub fn new(
        index: usize,
        name: Option<String>,
        default_name: Option<String>,
        format: Option<StreamFormat>,
    ) -> (info: Self)
        ensures
            info.index == index,
            info.name@ == (match name {
                Some(n) => n@,
                None => "(unknown)"@,
            }),
            info.is_default == (default_name matches Some(d) && d@ == info.name@),
            match format {
                Some(f) => {
                    &&& info.sample_rate == f.sample_rate
                    &&& info.channels == f.channels
                    &&& info.sample_format@ == f.sample_format.spec_name()
                },
                None => {
                    &&& info.sample_rate == 0
                    &&& info.channels == 0
                    &&& info.sample_format@ == Seq::<char>::empty()
                },
            },
    {
        let name: String = match name {
            Some(n) => n,
            None => String::from_str("(unknown)"),
        };
        let is_default: bool = match default_name {
            Some(d) => crate::text::spells(
                crate::text::chars_of(d.as_str()).as_slice(),
                name.as_str(),
            ),
            None => false,
        };
        match format {
            Some(f) => AudioDeviceInfo {
                index,
                name,
                is_default,
                sample_rate: f.sample_rate,
                channels: f.channels,
                sample_format: String::from_str(f.sample_format.name()),
            },
            None => AudioDeviceInfo {
                index,
                name,
                is_default,
                sample_rate: 0,
                channels: 0,
                sample_format: String::new(),
            },
        }
    }

    /// The line that lists the device.
    pub fn line(&self) -> (s: String)
        ensures
            s@ == "  ["@ + decimal(self.index as nat) + "] "@ + self.name@ + (if self.is_default {
                " (default)"@
            } else {
                ""@
            }) + " — "@ + decimal(self.sample_rate as nat) + " Hz, "@ + decimal(
                self.channels as nat,
            ) + " ch, "@ + self.sample_format@,
    {
        let mut s: String = with_number("  [", self.index as u64, "] ");
        s.append(self.name.as_str());
        let mark: &str = if self.is_default {
            " (default)"
        } else {
            ""
        };
        s.append(mark);
        s.append(" — ");
        append_decimal(&mut s, self.sample_rate as u64);
        s.append(" Hz, ");
        append_decimal(&mut s, self.channels as u64);
        s.append(" ch, ");
        s.append(self.sample_format.as_str());
        s
    }
}

/// Which device to open.
#[derive(Debug, Clone, Copy, PartialEq, Eq, Structural)]
pub enum DeviceChoice {
    /// The device at this position of the enumeration.
    Nth(usize),
    /// The system default.
    Default,
}

/// Pick an input device by enumeration index, falling back to the system
/// default when `index` is `None`. `count` is how many devices there are, or
/// why they could not be listed.
pub fn select_input_device(
    index: Option<usize>,
    count: Result<usize, String>,
    has_default: bool,
) -> (r: Result<DeviceChoice, CaptureError>)
    ensures
        is_selection(index, count, has_default, CaptureError::NoDefaultInput, r),
        index matches Some(i) ==> (count matches Ok(n) ==> (i < n ==> r == Ok::<
            DeviceChoice,
            CaptureError,
        >(DeviceChoice::Nth(i)))),
        index matches Some(i) ==> (count matches Ok(n) ==> (n <= i ==> r == Err::<
            DeviceChoice,
            CaptureError,
        >(CaptureError::DeviceNotFound { index: i }))),
        index is Some ==> (count matches Err(reason) ==> r == Err::<DeviceChoice, CaptureError>(
            CaptureError::DeviceQuery(reason),
        )),
        index is None && has_default ==> r == Ok::<DeviceChoice, CaptureError>(
            DeviceChoice::Default,
        ),
        index is None && !has_default ==> r == Err::<DeviceChoice, CaptureError>(
            CaptureError::NoDefaultInput,
        ),
{
    select_device(index, count, has_default, CaptureError::NoDefaultInput)
}

/// Pick an output device by enumeration index, falling back to the system
/// default when `index` is `None`.
pub fn select_output_device(
    index: Option<usize>,
    count: Result<usize, String>,
    has_default: bool,
) -> (r: Result<DeviceChoice, CaptureError>)
    ensures
        is_selection(index, count, has_default, CaptureError::NoDefaultOutput, r),
        index matches Some(i) ==> (count matches Ok(n) ==> (i < n ==> r == Ok::<
            DeviceChoice,
            CaptureError,
        >(DeviceChoice::Nth(i)))),
        index matches Some(i) ==> (count matches Ok(n) ==> (n <= i ==> r == Err::<
            DeviceChoice,
            CaptureError,
        >(CaptureError::DeviceNotFound { index: i }))),
        index is Some ==> (count matches Err(reason) ==> r == Err::<DeviceChoice, CaptureError>(
            CaptureError::DeviceQuery(reason),
        )),
        index is None && has_default ==> r == Ok::<DeviceChoice, CaptureError>(
            DeviceChoice::Default,
        ),
        index is None && !has_default ==> r == Err::<DeviceChoice, CaptureError>(
            CaptureError::NoDefaultOutput,
        ),
{
    select_device(index, count, has_default, CaptureError::NoDefaultOutput)
}

/// The outcome of picking a device.
pub open spec fn is_selection(
    index: Option<usize>,
    count: Result<usize, String>,
    has_default: bool,
    no_default: CaptureError,
    r: Result<DeviceChoice, CaptureError>,
) -> bool {
    match index {
        Some(index) => match count {
            Err(reason) => r == Err::<DeviceChoice, CaptureError>(CaptureError::DeviceQuery(reason)),
            Ok(n) => if index < n {
                r == Ok::<DeviceChoice, CaptureError>(DeviceChoice::Nth(index))
            } else {
                r == Err::<DeviceChoice, CaptureError>(CaptureError::DeviceNotFound { index })
            },
        },
        None => if has_default {
            r == Ok::<DeviceChoice, CaptureError>(DeviceChoice::Default)
        } else {
            r == Err::<DeviceChoice, CaptureError>(no_default)
        },
    }
}

fn select_device(
    index: Option<usize>,
    count: Result<usize, String>,
    has_default: bool,
    no_default: CaptureError,
) -> (r: Result<DeviceChoice, CaptureError>)
    ensures
        is_selection(index, count, has_default, no_default, r),
{
    match index {
        Some(index) => match count {
            Err(reason) => Err(CaptureError::DeviceQuery(reason)),
            Ok(n) => if index < n {
                Ok(DeviceChoice::Nth(index))
            } else {
                Err(CaptureError::DeviceNotFound { index })
            },
        },
        None => if has_default {
            Ok(DeviceChoice::Default)
        } else {
            Err(no_default)
        },
    }
}

/// A range of stream configurations that a device supports.
#[derive(Debug, Clone, Copy, PartialEq, Eq, Structural)]
pub struct FormatRange {
    pub channels: u16,
    pub min_sample_rate: u32,
    pub max_sample_rate: u32,
    pub sample_format: SampleFormat,
}

impl FormatRange {
    /// Whether a stream with these parameters lies in the range.
    pub open spec fn covers(self, sample_rate: u32, channels: u16) -> bool {
        self.channels == channels && self.min_sample_rate <= sample_rate <= self.max_sample_rate
    }
}

/// Prefer the requested configuration; fall back to the device default when
/// unsupported.
pub fn choose_output_config(
    default: StreamFormat,
    ranges: &[FormatRange],
    sample_rate: u32,
    channels: u16,
) -> (chosen: StreamFormat)
    ensures
        (forall|i: int| 0 <= i < ranges@.len() ==> !ranges@[i].covers(sample_rate, channels))
            ==> chosen == default,
        forall|i: int|
            0 <= i < ranges@.len() && #[trigger] ranges@[i].covers(sample_rate, channels) && (forall|
                j: int,
            |
                0 <= j < i ==> !ranges@[j].covers(sample_rate, channels)) ==> chosen == (
            StreamFormat { sample_rate, channels, sample_format: ranges@[i].sample_format }),
        (exists|i: int|
            #![trigger ranges@[i]]
            0 <= i < ranges@.len() && ranges@[i].channels == channels
                && ranges@[i].min_sample_rate <= sample_rate <= ranges@[i].max_sample_rate)
            ==> chosen.sample_rate == sample_rate && chosen.channels == channels,
        chosen == default || exists|i: int|
            #![trigger ranges@[i]]
            0 <= i < ranges@.len() && ranges@[i].channels == channels
                && ranges@[i].min_sample_rate <= sample_rate <= ranges@[i].max_sample_rate
                && ranges@[i].sample_format == chosen.sample_format,
{
    let mut i: usize = 0;
    while i < ranges.len()
        invariant
            i <= ranges@.len(),
            forall|j: int| 0 <= j < i ==> !ranges@[j].covers(sample_rate, channels),
        decreases ranges@.len() - i,
    {
        let range: FormatRange = ranges[i];
        if range.channels == channels && range.min_sample_rate <= sample_rate && sample_rate
            <= range.max_sample_rate {
            assert(ranges@[i as int].covers(sample_rate, channels));
            return StreamFormat { sample_rate, channels, sample_format: range.sample_format };
        }
        assert(!ranges@[i as int].covers(sample_rate, channels));
        i = i + 1;
    }
    default
}

impl StreamFormat {
    /// The rate and channels of the stream.
    pub fn config(&self) -> (config: AudioConfig)
        ensures
            config == (AudioConfig { sample_rate: self.sample_rate, channels: self.channels }),
    {
        AudioConfig { sample_rate: self.sample_rate, channels: self.channels }
    }
}

/// The formats that streams can convert to and from.
#[derive(Debug, Clone, Copy, PartialEq, Eq, Structural)]
pub enum Conversion {
    /// Samples pass through unchanged.
    F32,
    /// Signed 16-bit, full scale at 32768.
    I16,
    /// Offset binary 16-bit.
    U16,
    /// Signed 32-bit.
    I32,
}

/// The conversion for a device's sample format.
pub open spec fn conversion_for(format: SampleFormat) -> Option<Conversion> {
    match format {
        SampleFormat::F32 => Some(Conversion::F32),
        SampleFormat::I16 => Some(Conversion::I16),
        SampleFormat::U16 => Some(Conversion::U16),
        SampleFormat::I32 => Some(Conversion::I32),
        _ => None,
    }
}

/// Find the conversion for a device's sample format.
pub fn stream_conversion(format: SampleFormat) -> (r: Result<Conversion, CaptureError>)
    ensures
        match r {
            Ok(c) => conversion_for(format) == Some(c),
            Err(e) => conversion_for(format) is None && e == CaptureError::UnsupportedSampleFormat(
                format,
            ),
        },
{
    match format {
        SampleFormat::F32 => Ok(Conversion::F32),
        SampleFormat::I16 => Ok(Conversion::I16),
        SampleFormat::U16 => Ok(Conversion::U16),
        SampleFormat::I32 => Ok(Conversion::I32),
        other => Err(CaptureError::UnsupportedSampleFormat(other)),
    }
}

/// A signed sample in offset binary, where silence is 0x8000.
pub fn to_offset_binary(v: i16) -> (u: u16)
    ensures
        u == v + 0x8000,
{
    (v as i32 + 0x8000) as u16
}

/// An offset binary sample as a signed one.
pub fn from_offset_binary(u: u16) -> (v: i16)
    ensures
        v == u - 0x8000,
{
    (u as i32 - 0x8000) as i16
}

/// Overwrite `data` from `from` on.
pub fn fill_tail<T: Copy>(data: &mut [T], from: usize, value: T)
    requires
        from <= old(data)@.len(),
    ensures
        final(data)@ == old(data)@.take(from as int) + Seq::new(
            (old(data)@.len() - from) as nat,
            |i: int| value,
        ),
{
    let ghost before = data@;
    let mut i: usize = from;
    while i < data.len()
        invariant
            from <= i <= data@.len(),
            data@.len() == before.len(),
            forall|k: int| 0 <= k < from ==> data@[k] == before[k],
            forall|k: int| from <= k < i ==> data@[k] == value,
        decreases data@.len() - i,
    {
        data[i] = value;
        i = i + 1;
    }
    assert(data@ =~= before.take(from as int) + Seq::new(
        (before.len() - from) as nat,
        |i: int| value,
    ));
}

/// Fill a device's playback buffer from `ring`; silence where there is not
/// enough. Returns how many samples are real.
pub fn play_from(ring: &mut AudioRingBuffer, data: &mut [Sample]) -> (n: usize)
    requires
        old(ring).wf(),
    ensures
        final(ring).wf(),
        final(ring).spec_capacity() == old(ring).spec_capacity(),
        n == min_len(old(data)@.len(), old(ring)@.len()),
        final(ring)@ == old(ring)@.skip(n as int),
        final(data)@ == old(ring)@.take(n as int) + Seq::new(
            (old(data)@.len() - n) as nat,
            |i: int| SILENCE,
        ),
{
    let ghost held = ring@;
    let n: usize = ring.pop(data);
    let ghost popped = data@;
    fill_tail(data, n, SILENCE);
    assert(popped.take(n as int) =~= held.take(n as int));
    n
}

/// A device that was asked for by its index is the one that is opened, whether or
/// not there is a default one; the default one is opened only when none was asked
/// for. An index without a device is an error that names it.
pub proof fn law_the_device_asked_for_is_opened(
    index: Option<usize>,
    count: Result<usize, String>,
    has_default: bool,
    no_default: CaptureError,
    r: Result<DeviceChoice, CaptureError>,
)
    requires
        is_selection(index, count, has_default, no_default, r),
    ensures
        r matches Ok(DeviceChoice::Nth(i)) ==> index == Some(i),
        r matches Ok(DeviceChoice::Default) ==> index is None && has_default,
        index matches Some(i) ==> (count matches Ok(n) ==> (if i < n {
            r == Ok::<DeviceChoice, CaptureError>(DeviceChoice::Nth(i))
        } else {
            r == Err::<DeviceChoice, CaptureError>(CaptureError::DeviceNotFound { index: i })
        })),
        index is Some ==> (count matches Err(reason) ==> r == Err::<DeviceChoice, CaptureError>(
            CaptureError::DeviceQuery(reason),
        )),
        index is None && has_default ==> r == Ok::<DeviceChoice, CaptureError>(
            DeviceChoice::Default,
        ),
        index is None && !has_default ==> r == Err::<DeviceChoice, CaptureError>(no_default),
{
}

/// A range covers a stream with its number of channels and a rate between its
/// limits, the limits included.
pub proof fn law_range_covers_its_limits(range: FormatRange, sample_rate: u32, channels: u16)
    ensures
        range.covers(sample_rate, channels) <==> range.channels == channels && sample_rate
            >= range.min_sample_rate && sample_rate <= range.max_sample_rate,
{
}

/// Floating-point and 16-bit samples and signed 32-bit ones can be converted,
/// each in its own way, and no others.
pub proof fn law_convertible_formats(format: SampleFormat)
    ensures
        conversion_for(format) is Some <==> format == SampleFormat::F32 || format
            == SampleFormat::I16 || format == SampleFormat::U16 || format == SampleFormat::I32,
        conversion_for(format) == Some(Conversion::F32) <==> format == SampleFormat::F32,
        conversion_for(format) == Some(Conversion::I16) <==> format == SampleFormat::I16,
        conversion_for(format) == Some(Conversion::U16) <==> format == SampleFormat::U16,
        conversion_for(format) == Some(Conversion::I32) <==> format == SampleFormat::I32,
{
}

/// Every error says what is wrong, and which device, format or reason it is about.
pub proof fn law_texts(e: CaptureError)
    ensures
        match e {
            CaptureError::NoDefaultInput => e.text()
                == "no default audio input device available; run `list-devices` and pass --device <index>"@,
            CaptureError::NoDefaultOutput => e.text()
                == "no default audio output device available; run `list-devices` and pass --device <index>"@,
            CaptureError::DeviceNotFound { index } => e.text() == "audio device #"@ + decimal(
                index as nat,
            ) + " not found; run `list-devices` to see available devices"@,
            CaptureError::DeviceQuery(reason) => e.text() == "failed to query audio device: "@
                + reason@,
            CaptureError::UnsupportedSampleFormat(format) => e.text()
                == "unsupported sample format "@ + format.spec_name(),
            CaptureError::BuildStream(reason) => e.text() == "failed to build audio stream: "@
                + reason@,
            CaptureError::StartStream(reason) => e.text() == "failed to start audio stream: "@
                + reason@,
            CaptureError::StopStream(reason) => e.text() == "failed to stop audio stream: "@
                + reason@,
        },
{
}

/// A format's name is its kind, `I`, `U` or `F`, and its width in bits.
pub proof fn law_format_names(format: SampleFormat)
    ensures
        ({
            let name = format.spec_name();
            let kind = name[0];
            let bits = digits_value(name.skip(1));
            match format {
                SampleFormat::I8 => kind == 'I' && bits == 8,
                SampleFormat::I16 => kind == 'I' && bits == 16,
                SampleFormat::I32 => kind == 'I' && bits == 32,
                SampleFormat::I64 => kind == 'I' && bits == 64,
                SampleFormat::U8 => kind == 'U' && bits == 8,
                SampleFormat::U16 => kind == 'U' && bits == 16,
                SampleFormat::U32 => kind == 'U' && bits == 32,
                SampleFormat::U64 => kind == 'U' && bits == 64,
                SampleFormat::F32 => kind == 'F' && bits == 32,
                SampleFormat::F64 => kind == 'F' && bits == 64,
            }
        }),
{
    reveal_strlit("I8");
    reveal_strlit("I16");
    reveal_strlit("I32");
    reveal_strlit("I64");
    reveal_strlit("U8");
    reveal_strlit("U16");
    reveal_strlit("U32");
    reveal_strlit("U64");
    reveal_strlit("F32");
    reveal_strlit("F64");
    let digits = format.spec_name().skip(1);
    reveal_with_fuel(digits_value, 3);
}

} // verus!
