//! What the programs around the pipeline decide between two waits for the
//! outside world.

use crate::buffer::Sample;
use crate::bytes::{bytes_to_words, lemma_words_len, lemma_words_round_trip, words_to_bytes};
use crate::protocol;
use crate::protocol::v2;
use crate::protocol::{ProtocolError, MAGIC, MAX_PAYLOAD_BYTES};
use crate::text::{append_decimal, append_signed, decimal, signed_decimal, with_number};
use crate::udp::RECEIVE_BUFFER_BYTES;
use vstd::prelude::*;
use vstd::string::StringExecFns;

verus! {

/// A capture stream: samples in, datagrams out.
pub struct CaptureSession {
    sample_rate: u32,
    channels: u16,
    sequence: u32,
    sent_packets: u64,
    sent_bytes: usize,
}

/// The state of a capture stream.
pub struct CaptureModel {
    pub sample_rate: u32,
    pub channels: u16,
    /// The number of the next packet.
    pub sequence: u32,
    pub sent_packets: nat,
    pub sent_bytes: nat,
}

impl View for CaptureSession {
    type V = CaptureModel;

    closed spec fn view(&self) -> CaptureModel {
        CaptureModel {
            sample_rate: self.sample_rate,
            channels: self.channels,
            sequence: self.sequence,
            sent_packets: self.sent_packets as nat,
            sent_bytes: self.sent_bytes as nat,
        }
    }
}

/// Refuse packets whose payload would not fit a datagram.
pub fn check_packet_frames(packet_frames: usize) -> (r: Result<(), String>)
    requires
        packet_frames * 4 <= usize::MAX,
    ensures
        match r {
            Ok(_) => packet_frames * 4 <= MAX_PAYLOAD_BYTES && packet_frames <= 300,
            Err(reason) => packet_frames * 4 > MAX_PAYLOAD_BYTES && packet_frames > 300 && reason@ == "--packet-frames "@
                + decimal(packet_frames as nat) + " would produce a "@ + decimal(
                (packet_frames * 4) as nat,
            ) + "-byte payload; keep it at or below "@ + decimal(300),
        },
{
    let payload_bytes: usize = packet_frames * 4;
    if payload_bytes > MAX_PAYLOAD_BYTES {
        let mut reason: String = with_number(
            "--packet-frames ",
            packet_frames as u64,
            " would produce a ",
        );
        append_decimal(&mut reason, payload_bytes as u64);
        reason.append("-byte payload; keep it at or below ");
        append_decimal(&mut reason, (MAX_PAYLOAD_BYTES / 4) as u64);
        return Err(reason);
    }
    Ok(())
}

impl CaptureSession {
    pub fn new(sample_rate: u32, channels: u16) -> (session: Self)
        ensures
            session@ == (CaptureModel {
                sample_rate,
                channels,
                sequence: 0,
                sent_packets: 0,
                sent_bytes: 0,
            }),
    {
        CaptureSession { sample_rate, channels, sequence: 0, sent_packets: 0, sent_bytes: 0 }
    }

    /// The datagram for what one read returned; none when it returned nothing,
    /// in which case the caller waits and reads again.
    pub fn datagram(&mut self, samples: &[Sample]) -> (bytes: Option<Vec<u8>>)
        requires
            4 * samples@.len() <= usize::MAX,
        ensures
            match bytes {
                Some(b) => {
                    &&& samples@.len() > 0
                    &&& b@ == protocol::encoded(
                        protocol::PacketModel {
                            sequence: old(self)@.sequence,
                            sample_rate: old(self)@.sample_rate,
                            channels: old(self)@.channels,
                            samples: samples@,
                        },
                    )
                    &&& final(self)@ == (CaptureModel {
                        sequence: old(self)@.sequence.wrapping_add(1),
                        ..old(self)@
                    })
                },
                None => samples@.len() == 0 && final(self)@ == old(self)@,
            },
    {
        if samples.len() == 0 {
            return None;
        }
        let mut copy: Vec<Sample> = Vec::new();
        copy.extend_from_slice(samples);
        assert(copy@ =~= samples@);
        let packet = protocol::PcmPacket {
            sequence: self.sequence,
            sample_rate: self.sample_rate,
            channels: self.channels,
            samples: copy,
        };
        self.sequence = self.sequence.wrapping_add(1);
        let mut bytes: Vec<u8> = Vec::new();
        packet.encode(&mut bytes);
        assert(bytes@ =~= protocol::encoded(packet@));
        Some(bytes)
    }

    /// Count a datagram of `len` bytes that was sent. Returns whether a report
    /// is due, which is every 500 packets.
    pub fn sent(&mut self, len: usize) -> (report: bool)
        requires
            old(self)@.sent_packets < u64::MAX,
            old(self)@.sent_bytes + len <= usize::MAX,
        ensures
            final(self)@ == (CaptureModel {
                sent_packets: old(self)@.sent_packets + 1,
                sent_bytes: old(self)@.sent_bytes + len as nat,
                ..old(self)@
            }),
            report == (final(self)@.sent_packets % 500 == 0),
    {
        self.sent_packets = self.sent_packets + 1;
        self.sent_bytes = self.sent_bytes + len;
        self.sent_packets % 500 == 0
    }

    pub fn sent_packets(&self) -> (n: u64)
        ensures
            n == self@.sent_packets,
    {
        self.sent_packets
    }

    pub fn sent_bytes(&self) -> (n: usize)
        ensures
            n == self@.sent_bytes,
    {
        self.sent_bytes
    }
}

/// The rate and channels of a stream that plays.
pub type StreamShape = (u32, u16);

/// A playback stream fed by datagrams in the first wire format.
pub struct ReceiveSession {
    sink_config: Option<StreamShape>,
    received_packets: u64,
}

/// The state of a playback stream.
pub struct ReceiveModel {
    /// What the open output stream was configured for.
    pub sink: Option<StreamShape>,
    pub received: nat,
}

impl View for ReceiveSession {
    type V = ReceiveModel;

    closed spec fn view(&self) -> ReceiveModel {
        ReceiveModel { sink: self.sink_config, received: self.received_packets as nat }
    }
}

impl ReceiveSession {
    pub fn new() -> (session: Self)
        ensures
            session@ == (ReceiveModel { sink: None, received: 0 }),
    {
        ReceiveSession { sink_config: None, received_packets: 0 }
    }

    /// Take in a datagram: its packet, and whether the output stream has to be
    /// (re)opened because the sender's configuration changed.
    pub fn receive(&mut self, data: &[u8]) -> (r: Result<
        (protocol::PcmPacket, bool),
        ProtocolError,
    >)
        requires
            old(self)@.received < u64::MAX,
        ensures
            match r {
                Ok((packet, reopen)) => {
                    &&& protocol::decoded(data@) == Ok::<protocol::PacketModel, ProtocolError>(
                        packet@,
                    )
                    &&& reopen == (old(self)@.sink != Some((packet.sample_rate, packet.channels)))
                    &&& final(self)@ == (ReceiveModel {
                        received: old(self)@.received + 1,
                        ..old(self)@
                    })
                },
                Err(e) => {
                    &&& protocol::decoded(data@) == Err::<protocol::PacketModel, ProtocolError>(e)
                    &&& final(self)@ == old(self)@
                },
            },
    {
        match protocol::PcmPacket::decode(data) {
            Ok(packet) => {
                self.received_packets = self.received_packets + 1;
                let reopen: bool = differs(self.sink_config, packet.sample_rate, packet.channels);
                Ok((packet, reopen))
            },
            Err(e) => Err(e),
        }
    }

    /// An output stream for this configuration is open.
    pub fn opened(&mut self, sample_rate: u32, channels: u16)
        ensures
            final(self)@ == (ReceiveModel {
                sink: Some((sample_rate, channels)),
                ..old(self)@
            }),
    {
        self.sink_config = Some((sample_rate, channels));
    }

    /// Whether a report is due, which is every 1000 packets.
    pub fn report_due(&self) -> (due: bool)
        ensures
            due == (self@.received % 1000 == 0),
    {
        self.received_packets % 1000 == 0
    }

    pub fn received_packets(&self) -> (n: u64)
        ensures
            n == self@.received,
    {
        self.received_packets
    }
}

/// Whether `open` is a stream other than one with this rate and channels.
fn differs(open: Option<StreamShape>, sample_rate: u32, channels: u16) -> (b: bool)
    ensures
        b == (open != Some((sample_rate, channels))),
{
    match open {
        Some((rate, count)) => rate != sample_rate || count != channels,
        None => true,
    }
}

/// Why a datagram is refused.
#[derive(Debug, Clone, Copy, PartialEq, Eq, Structural)]
pub enum DatagramError {
    /// It claims the first wire format.
    First(ProtocolError),
    /// It has to be in the second wire format.
    Second(v2::ProtocolError),
}

impl DatagramError {
    /// What the error says to a user.
    pub open spec fn text(self) -> Seq<char> {
        match self {
            DatagramError::First(e) => e.text(),
            DatagramError::Second(e) => e.text(),
        }
    }

    pub fn message(&self) -> (s: String)
        ensures
            s@ == self.text(),
    {
        match self {
            DatagramError::First(e) => e.message(),
            DatagramError::Second(e) => e.message(),
        }
    }
}

/// What a datagram of either wire format brings to the pipeline. One of the
/// first format is a packet of uncompressed samples.
pub open spec fn understood(data: Seq<u8>) -> Result<v2::PacketModel, DatagramError> {
    if data.len() > 4 && data.take(4) == MAGIC@ && data[4] == protocol::VERSION {
        match protocol::decoded(data) {
            Ok(p) => Ok(
                v2::PacketModel {
                    sequence: p.sequence,
                    sample_rate: p.sample_rate,
                    channels: p.channels,
                    codec: v2::Codec::Pcm,
                    payload: words_to_bytes(p.samples),
                },
            ),
            Err(e) => Err(DatagramError::First(e)),
        }
    } else {
        match v2::decoded(data) {
            Ok(p) => Ok(p),
            Err(e) => Err(DatagramError::Second(e)),
        }
    }
}

/// Take a datagram of either wire format apart.
pub fn understand(data: &[u8]) -> (r: Result<v2::PcmPacket, DatagramError>)
    ensures
        match r {
            Ok(packet) => understood(data@) == Ok::<v2::PacketModel, DatagramError>(packet@),
            Err(e) => understood(data@) == Err::<v2::PacketModel, DatagramError>(e),
        },
{
    if protocol::claimed_version(data) == Some(protocol::VERSION) {
        match protocol::PcmPacket::decode(data) {
            Ok(p) => {
                let len: usize = data.len();
                assert(4 * p.samples@.len() <= len) by {
                    reveal(bytes_to_words);
                }
                Ok(
                    v2::PcmPacket::from_pcm(
                        p.sequence,
                        p.sample_rate,
                        p.channels,
                        p.samples.as_slice(),
                    ),
                )
            },
            Err(e) => Err(DatagramError::First(e)),
        }
    } else {
        match v2::PcmPacket::decode(data) {
            Ok(p) => Ok(p),
            Err(e) => Err(DatagramError::Second(e)),
        }
    }
}

/// What a sender puts into a datagram of the first wire format is what the
/// pipeline takes out of it.
pub proof fn law_first_format_is_understood(p: protocol::PacketModel)
    requires
        4 * p.samples.len() <= u32::MAX,
    ensures
        understood(protocol::encoded(p)) matches Ok(q) && q.samples() == Some(p.samples)
            && q.sequence == p.sequence && q.sample_rate == p.sample_rate && q.channels
            == p.channels,
{
    let data = protocol::encoded(p);
    protocol::law_decode_inverts_encode(p, Seq::empty());
    assert(data + Seq::<u8>::empty() =~= data);
    lemma_words_round_trip(p.samples);
    lemma_words_len(p.samples);
}

/// What a sender puts into a datagram of the second wire format is what the
/// pipeline takes out of it.
pub proof fn law_second_format_is_understood(p: v2::PacketModel)
    requires
        p.payload.len() <= u32::MAX,
        p.codec == v2::Codec::Pcm ==> p.payload.len() % 4 == 0,
    ensures
        understood(v2::encoded(p)) == Ok::<v2::PacketModel, DatagramError>(p),
{
    let data = v2::encoded(p);
    v2::law_decode_inverts_encode(p, Seq::empty());
    assert(data + Seq::<u8>::empty() =~= data);
}

/// A playback stream fed by datagrams of either wire format.
pub struct PlaybackSession {
    player: Option<StreamShape>,
    packets: u64,
}

impl View for PlaybackSession {
    type V = ReceiveModel;

    closed spec fn view(&self) -> ReceiveModel {
        ReceiveModel { sink: self.player, received: self.packets as nat }
    }
}

impl PlaybackSession {
    pub fn new() -> (session: Self)
        ensures
            session@ == (ReceiveModel { sink: None, received: 0 }),
    {
        PlaybackSession { player: None, packets: 0 }
    }

    /// Take in a datagram: its packet, and whether the player has to be built
    /// (again) because the sender's configuration changed.
    pub fn receive(&self, data: &[u8]) -> (r: Result<(v2::PcmPacket, bool), DatagramError>)
        ensures
            match r {
                Ok((packet, rebuild)) => {
                    &&& understood(data@) == Ok::<v2::PacketModel, DatagramError>(packet@)
                    &&& rebuild == (self@.sink != Some((packet.sample_rate, packet.channels)))
                },
                Err(e) => understood(data@) == Err::<v2::PacketModel, DatagramError>(e),
            },
    {
        match understand(data) {
            Ok(packet) => {
                let rebuild: bool = differs(self.player, packet.sample_rate, packet.channels);
                Ok((packet, rebuild))
            },
            Err(e) => Err(e),
        }
    }

    /// A player for this configuration is running. Returns what to tell the
    /// user.
    pub fn rebuilt(&mut self, sample_rate: u32, channels: u16) -> (status: String)
        ensures
            final(self)@ == (ReceiveModel {
                sink: Some((sample_rate, channels)),
                ..old(self)@
            }),
            status@ == "playing "@ + decimal(sample_rate as nat) + " Hz / "@ + decimal(
                channels as nat,
            ) + " ch"@,
    {
        self.player = Some((sample_rate, channels));
        let mut status: String = with_number("playing ", sample_rate as u64, " Hz / ");
        append_decimal(&mut status, channels as u64);
        status.append(" ch");
        status
    }

    /// How many packets went through the pipeline.
    pub fn packets(&self) -> (n: u64)
        ensures
            n == self@.received,
    {
        self.packets
    }

    /// Count a packet that went through the pipeline. Returns whether
    /// statistics are due, which is every 200 packets.
    pub fn processed(&mut self) -> (due: bool)
        requires
            old(self)@.received < u64::MAX,
        ensures
            final(self)@ == (ReceiveModel {
                received: old(self)@.received + 1,
                ..old(self)@
            }),
            due == (final(self)@.received % 200 == 0),
    {
        self.packets = self.packets + 1;
        self.packets % 200 == 0
    }
}

/// What a microphone loop does next.
#[derive(Debug, Clone, Copy, PartialEq, Eq, Structural)]
pub enum MicStep {
    /// Leave the loop.
    Stop,
    /// Nothing was read: wait a little and read again.
    Wait,
    /// Process this many samples.
    Process(usize),
}

/// A microphone stream.
pub struct MicSession {
    sent_packets: u64,
    sent_bytes: u64,
}

/// The counters of a microphone stream.
pub struct MicModel {
    pub sent_packets: nat,
    pub sent_bytes: nat,
}

impl View for MicSession {
    type V = MicModel;

    closed spec fn view(&self) -> MicModel {
        MicModel { sent_packets: self.sent_packets as nat, sent_bytes: self.sent_bytes as nat }
    }
}

impl MicSession {
    pub fn new() -> (session: Self)
        ensures
            session@ == (MicModel { sent_packets: 0, sent_bytes: 0 }),
    {
        MicSession { sent_packets: 0, sent_bytes: 0 }
    }

    /// What to do after a read of `n` samples; an empty read may mean that the
    /// stream was stopped.
    pub fn after_read(&self, n: usize, stop_requested: bool) -> (step: MicStep)
        ensures
            step == if n > 0 {
                MicStep::Process(n)
            } else if stop_requested {
                MicStep::Stop
            } else {
                MicStep::Wait
            },
    {
        if n == 0 {
            if stop_requested {
                return MicStep::Stop;
            }
            return MicStep::Wait;
        }
        MicStep::Process(n)
    }

    /// Count a datagram of `len` bytes that was sent.
    pub fn sent(&mut self, len: usize)
        requires
            old(self)@.sent_packets < u64::MAX,
            old(self)@.sent_bytes + len <= u64::MAX,
        ensures
            final(self)@ == (MicModel {
                sent_packets: old(self)@.sent_packets + 1,
                sent_bytes: old(self)@.sent_bytes + len as nat,
            }),
    {
        self.sent_packets = self.sent_packets + 1;
        self.sent_bytes = self.sent_bytes + len as u64;
    }

    /// The numbers of packets and bytes sent.
    pub fn counters(&self) -> (counters: (u64, u64))
        ensures
            counters.0 == self@.sent_packets,
            counters.1 == self@.sent_bytes,
    {
        (self.sent_packets, self.sent_bytes)
    }

    /// The counters to report, once per loop while they stand at a positive
    /// multiple of 100 packets.
    pub fn report(&self) -> (counters: Option<(u64, u64)>)
        ensures
            match counters {
                Some((packets, bytes)) => {
                    &&& packets == self@.sent_packets
                    &&& bytes == self@.sent_bytes
                    &&& packets > 0
                    &&& packets % 100 == 0
                },
                None => self@.sent_packets == 0 || self@.sent_packets % 100 != 0,
            },
    {
        if self.sent_packets > 0 && self.sent_packets % 100 == 0 {
            Some((self.sent_packets, self.sent_bytes))
        } else {
            None
        }
    }
}

/// The socket address text for a host and a port.
pub fn address_text(host: &str, port: i32) -> (s: String)
    ensures
        s@ == host@ + ":"@ + signed_decimal(port as int),
{
    let mut s: String = String::from_str(host);
    s.append(":");
    append_signed(&mut s, port);
    s
}

/// A receiver gets the samples that a captured datagram was made of, under the
/// stream's settings.
pub proof fn law_captured_samples_are_received(model: CaptureModel, samples: Seq<Sample>)
    requires
        4 * samples.len() <= u32::MAX,
    ensures
        ({
            let packet = protocol::PacketModel {
                sequence: model.sequence,
                sample_rate: model.sample_rate,
                channels: model.channels,
                samples,
            };
            protocol::decoded(protocol::encoded(packet)) == Ok::<
                protocol::PacketModel,
                ProtocolError,
            >(packet)
        }),
{
    let packet = protocol::PacketModel {
        sequence: model.sequence,
        sample_rate: model.sample_rate,
        channels: model.channels,
        samples,
    };
    protocol::law_decode_inverts_encode(packet, Seq::empty());
    assert(protocol::encoded(packet) + Seq::<u8>::empty() =~= protocol::encoded(packet));
}

/// A datagram whose size was accepted fits the buffer that it is received into,
/// so it is never cut short there.
pub proof fn law_captured_datagrams_fit(model: CaptureModel, samples: Seq<Sample>)
    requires
        samples.len() * 4 <= MAX_PAYLOAD_BYTES,
    ensures
        protocol::encoded(
            protocol::PacketModel {
                sequence: model.sequence,
                sample_rate: model.sample_rate,
                channels: model.channels,
                samples,
            },
        ).len() <= RECEIVE_BUFFER_BYTES,
{
    protocol::law_encoded_len(
        protocol::PacketModel {
            sequence: model.sequence,
            sample_rate: model.sample_rate,
            channels: model.channels,
            samples,
        },
    );
}

/// The version byte behind the magic bytes decides which format a datagram is
/// taken in; one without them has to be in the second.
pub proof fn law_version_decides_the_format(data: Seq<u8>)
    ensures
        ({
            let first = data.len() > 4 && data[0] == 83 && data[1] == 83 && data[2] == 80 && data[3]
                == 49 && data[4] == 1;
            match understood(data) {
                Ok(p) => {
                    &&& first ==> protocol::decoded(data) is Ok && p.codec == v2::Codec::Pcm
                        && p.samples() == Some(protocol::decoded(data)->Ok_0.samples) && p.sequence
                        == protocol::decoded(data)->Ok_0.sequence && p.sample_rate
                        == protocol::decoded(data)->Ok_0.sample_rate && p.channels
                        == protocol::decoded(data)->Ok_0.channels
                    &&& !first ==> v2::decoded(data) == Ok::<v2::PacketModel, v2::ProtocolError>(p)
                },
                Err(DatagramError::First(e)) => first && protocol::decoded(data) == Err::<
                    protocol::PacketModel,
                    ProtocolError,
                >(e),
                Err(DatagramError::Second(e)) => !first && v2::decoded(data) == Err::<
                    v2::PacketModel,
                    v2::ProtocolError,
                >(e),
            }
        }),
{
    assert(MAGIC@ =~= seq![83u8, 83, 80, 49]);
    if data.len() > 4 {
        let head = data.take(4);
        assert(head[0] == data[0] && head[1] == data[1] && head[2] == data[2] && head[3]
            == data[3]);
        if head[0] == 83 && head[1] == 83 && head[2] == 80 && head[3] == 49 {
            assert(head =~= MAGIC@);
        }
        if let Ok(p) = protocol::decoded(data) {
            lemma_words_round_trip(p.samples);
            lemma_words_len(p.samples);
        }
    }
}

} // verus!
