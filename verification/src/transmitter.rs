//! The transmit pipeline: interleaved samples in, ready-to-send packets out.
//!
//! Opus input is accumulated into one 20 ms frame per packet; PCM is chunked
//! into packets that stay under the UDP datagram limit.

use crate::buffer::Sample;
use crate::bytes::{bytes_to_words, lemma_words_round_trip, words_to_bytes};
use crate::codec::{channel_setting, is_processing_error, layout_complaint, layout_for, opus_frame_size, spec_opus_frame_size};
use crate::errors::AudioError;
use crate::protocol::v2::{Codec, PacketModel, PcmPacket};
use crate::protocol::MAX_PAYLOAD_BYTES;
use vstd::prelude::*;

verus! {

#[derive(Debug, Clone, Copy, PartialEq, Eq, Structural)]
pub struct TransmitterConfig {
    pub sample_rate: u32,
    pub channels: u16,
    pub codec: Codec,
}

impl Default for TransmitterConfig {
    fn default() -> (config: Self)
        ensures
            config == (TransmitterConfig {
                sample_rate: 48_000,
                channels: 1,
                codec: Codec::Opus,
            }),
    {
        TransmitterConfig { sample_rate: 48_000, channels: 1, codec: Codec::Opus }
    }
}

impl TransmitterConfig {
    /// Frames per channel in one packet: an Opus frame, or as many as keep the
    /// payload under the datagram limit.
    pub open spec fn frames_per_packet(self) -> int {
        match self.codec {
            Codec::Opus => spec_opus_frame_size(self.sample_rate),
            Codec::Pcm => 300int / (if self.channels >= 1 {
                self.channels as int
            } else {
                1
            }),
        }
    }

    /// Samples in one packet.
    pub open spec fn frame_samples(self) -> int {
        self.frames_per_packet() * self.channels
    }
}

/// The state of a transmitter.
#[verifier::ext_equal]
pub struct TransmitterModel {
    pub config: TransmitterConfig,
    /// Samples that do not fill a packet yet.
    pub pending: Seq<Sample>,
    /// The sequence number of the next packet.
    pub sequence: u32,
}

/// The PCM packet that carries `samples`.
pub open spec fn pcm_packet(
    config: TransmitterConfig,
    sequence: u32,
    samples: Seq<Sample>,
) -> PacketModel {
    PacketModel {
        sequence,
        sample_rate: config.sample_rate,
        channels: config.channels,
        codec: Codec::Pcm,
        payload: words_to_bytes(samples),
    }
}

/// The packets that `samples` fill, numbered from `sequence` on.
pub open spec fn pcm_packets(
    config: TransmitterConfig,
    sequence: u32,
    samples: Seq<Sample>,
) -> Seq<PacketModel>
    decreases samples.len(),
{
    let n = config.frame_samples();
    if n <= 0 || samples.len() < n {
        Seq::empty()
    } else {
        seq![pcm_packet(config, sequence, samples.take(n))] + pcm_packets(
            config,
            sequence.wrapping_add(1),
            samples.skip(n),
        )
    }
}

/// What is left of `samples` when every whole frame has been taken.
pub open spec fn leftover(frame_samples: int, samples: Seq<Sample>) -> Seq<Sample>
    decreases samples.len(),
{
    if frame_samples <= 0 || samples.len() < frame_samples {
        samples
    } else {
        leftover(frame_samples, samples.skip(frame_samples))
    }
}

/// The contents of a sequence of packets.
pub open spec fn views(packets: Seq<PcmPacket>) -> Seq<PacketModel> {
    packets.map_values(|p: PcmPacket| p@)
}

/// Converts samples into packets.
pub struct Transmitter {
    config: TransmitterConfig,
    frames_per_packet: usize,
    pending: Vec<Sample>,
    sequence: u32,
}

impl View for Transmitter {
    type V = TransmitterModel;

    closed spec fn view(&self) -> TransmitterModel {
        TransmitterModel {
            config: self.config,
            pending: self.pending@,
            sequence: self.sequence,
        }
    }
}

impl Transmitter {
    pub closed spec fn wf(&self) -> bool {
        self.frames_per_packet == self.config.frames_per_packet()
    }

    /// A transmitter for `config`; refused when Opus cannot carry its channels.
    pub fn new(config: TransmitterConfig) -> (r: Result<Self, AudioError>)
        ensures
            match r {
                Ok(t) => {
                    &&& t.wf()
                    &&& t@ == (TransmitterModel { config, pending: Seq::empty(), sequence: 0 })
                    &&& config.codec == Codec::Opus ==> layout_for(config.channels) is Some
                },
                Err(e) => {
                    &&& config.codec == Codec::Opus
                    &&& layout_for(config.channels) is None
                    &&& is_processing_error(e, layout_complaint(config.channels))
                },
            },
    {
        if config.codec == Codec::Opus {
            match channel_setting(config.channels) {
                Ok(_) => {},
                Err(e) => {
                    return Err(e);
                },
            }
        }
        let frames_per_packet: usize = match config.codec {
            Codec::Opus => opus_frame_size(config.sample_rate),
            // Keep PCM packets under the 1200-byte UDP payload limit once
            // interleaved channels are accounted for.
            Codec::Pcm => {
                let channels: usize = if config.channels < 1 {
                    1
                } else {
                    config.channels as usize
                };
                (MAX_PAYLOAD_BYTES / 4) / channels
            },
        };
        Ok(Transmitter { config, frames_per_packet, pending: Vec::new(), sequence: 0 })
    }

    /// Samples in one packet.
    pub fn frame_samples(&self) -> (n: usize)
        requires
            self.wf(),
            self@.config.frame_samples() <= usize::MAX,
        ensures
            n == self@.config.frame_samples(),
    {
        self.frames_per_packet * self.config.channels as usize
    }

    /// Add interleaved samples behind those that wait for a whole frame.
    pub fn feed(&mut self, samples: &[Sample])
        requires
            old(self).wf(),
        ensures
            final(self).wf(),
            final(self)@ == (TransmitterModel {
                pending: old(self)@.pending + samples@,
                ..old(self)@
            }),
    {
        let ghost before = self.pending@;
        self.pending.extend_from_slice(samples);
        assert(self.pending@ =~= before + samples@);
    }

    /// Take the next whole frame, if there is one.
    pub fn next_frame(&mut self) -> (frame: Option<Vec<Sample>>)
        requires
            old(self).wf(),
            0 < old(self)@.config.frame_samples() <= usize::MAX,
        ensures
            final(self).wf(),
            ({
                let n = old(self)@.config.frame_samples();
                let pending = old(self)@.pending;
                match frame {
                    Some(f) => {
                        &&& n <= pending.len()
                        &&& f@ == pending.take(n)
                        &&& final(self)@ == (TransmitterModel {
                            pending: pending.skip(n),
                            ..old(self)@
                        })
                    },
                    None => pending.len() < n && final(self)@ == old(self)@,
                }
            }),
    {
        let n: usize = self.frame_samples();
        if self.pending.len() < n {
            return None;
        }
        let ghost before = self.pending@;
        let mut frame: Vec<Sample> = self.pending.split_off(n);
        std::mem::swap(&mut frame, &mut self.pending);
        assert(frame@ =~= before.take(n as int));
        assert(self.pending@ =~= before.skip(n as int));
        Some(frame)
    }

    /// The packet that carries one encoded Opus frame.
    pub fn opus_packet(&mut self, payload: Vec<u8>) -> (packet: PcmPacket)
        requires
            old(self).wf(),
        ensures
            final(self).wf(),
            packet@ == (PacketModel {
                sequence: old(self)@.sequence,
                sample_rate: old(self)@.config.sample_rate,
                channels: old(self)@.config.channels,
                codec: Codec::Opus,
                payload: payload@,
            }),
            final(self)@ == (TransmitterModel {
                sequence: old(self)@.sequence.wrapping_add(1),
                ..old(self)@
            }),
    {
        PcmPacket::from_opus(
            self.next_sequence(),
            self.config.sample_rate,
            self.config.channels,
            payload,
        )
    }

    /// Feed interleaved samples and get every PCM packet they fill.
    pub fn process_pcm(&mut self, samples: &[Sample]) -> (packets: Vec<PcmPacket>)
        requires
            old(self).wf(),
            old(self)@.config.codec == Codec::Pcm,
            0 < old(self)@.config.frame_samples(),
        ensures
            final(self).wf(),
            ({
                let all = old(self)@.pending + samples@;
                let sent = pcm_packets(old(self)@.config, old(self)@.sequence, all);
                &&& views(packets@) == sent
                &&& final(self)@.config == old(self)@.config
                &&& final(self)@.pending == leftover(old(self)@.config.frame_samples(), all)
                &&& final(self)@.sequence == (old(self)@.sequence + sent.len()) % 0x1_0000_0000
            }),
    {
        let ghost config = self@.config;
        let ghost n = config.frame_samples();
        let ghost all = self@.pending + samples@;
        let ghost first = self@.sequence;
        proof {
            lemma_pcm_frame_fits(config);
        }
        self.feed(samples);
        let mut packets: Vec<PcmPacket> = Vec::new();
        assert(views(packets@) + pcm_packets(config, first, all) =~= pcm_packets(config, first, all));
        let frame_samples: usize = self.frame_samples();
        while self.pending.len() >= frame_samples
            invariant
                self.wf(),
                self@.config == config,
                config.codec == Codec::Pcm,
                n == config.frame_samples(),
                frame_samples == n,
                0 < n <= 300,
                views(packets@) + pcm_packets(config, self@.sequence, self@.pending)
                    == pcm_packets(config, first, all),
                leftover(n, self@.pending) == leftover(n, all),
                self@.sequence == (first + packets@.len()) % 0x1_0000_0000,
            decreases self@.pending.len(),
        {
            let ghost rest = self@.pending;
            let ghost before = views(packets@);
            let ghost number = self@.sequence;
            if let Some(frame) = self.next_frame() {
                let packet: PcmPacket = PcmPacket::from_pcm(
                    self.next_sequence(),
                    self.config.sample_rate,
                    self.config.channels,
                    frame.as_slice(),
                );
                packets.push(packet);
                proof {
                    assert(views(packets@) =~= before.push(pcm_packet(config, number, frame@)));
                    assert(views(packets@) + pcm_packets(config, self@.sequence, self@.pending)
                        =~= before + pcm_packets(config, number, rest));
                }
            }
        }
        assert(views(packets@) + Seq::<PacketModel>::empty() =~= views(packets@));
        packets
    }

    fn next_sequence(&mut self) -> (sequence: u32)
        ensures
            sequence == old(self)@.sequence,
            final(self)@ == (TransmitterModel {
                sequence: old(self)@.sequence.wrapping_add(1),
                ..old(self)@
            }),
            final(self).wf() == old(self).wf(),
    {
        let sequence: u32 = self.sequence;
        self.sequence = self.sequence.wrapping_add(1);
        sequence
    }
}

/// A PCM frame is at most 300 samples.
proof fn lemma_pcm_frame_fits(config: TransmitterConfig)
    requires
        config.codec == Codec::Pcm,
    ensures
        0 <= config.frame_samples() <= 300,
{
    let c = config.channels as int;
    if c >= 1 {
        assert(300int / c * c <= 300 && 0 <= 300int / c * c) by (nonlinear_arith)
            requires
                c >= 1,
        ;
    } else {
        assert(config.frames_per_packet() * 0 == 0);
    }
}

/// Every packet carries one whole frame under the stream's settings, the
/// packets are numbered without a gap, and no payload exceeds the datagram
/// limit.
pub proof fn law_packets_are_whole_and_contiguous(
    config: TransmitterConfig,
    sequence: u32,
    samples: Seq<Sample>,
    i: int,
)
    requires
        config.codec == Codec::Pcm,
        0 < config.frame_samples(),
        0 <= i < pcm_packets(config, sequence, samples).len(),
    ensures
        ({
            let p = pcm_packets(config, sequence, samples)[i];
            &&& p.sequence == (sequence + i) % 0x1_0000_0000
            &&& p.sample_rate == config.sample_rate
            &&& p.channels == config.channels
            &&& p.codec == Codec::Pcm
            &&& p.payload.len() == 4 * config.frame_samples()
            &&& p.payload.len() <= MAX_PAYLOAD_BYTES
            &&& p.samples() is Some
            &&& p.samples()->0.len() == config.frames_per_packet() * config.channels
        }),
    decreases samples.len(),
{
    let n = config.frame_samples();
    lemma_pcm_frame_fits(config);
    if i == 0 {
        lemma_words_round_trip(samples.take(n));
    } else {
        law_packets_are_whole_and_contiguous(
            config,
            sequence.wrapping_add(1),
            samples.skip(n),
            i - 1,
        );
    }
}

/// The samples of the packets, one packet after the other.
pub open spec fn packet_samples(packets: Seq<PacketModel>) -> Seq<Sample>
    decreases packets.len(),
{
    if packets.len() == 0 {
        Seq::empty()
    } else {
        bytes_to_words(packets[0].payload) + packet_samples(packets.skip(1))
    }
}

/// No sample is dropped, repeated or moved: the samples of the packets followed
/// by those left waiting are the samples fed, and less than one frame waits.
pub proof fn law_packets_conserve_samples(
    config: TransmitterConfig,
    sequence: u32,
    samples: Seq<Sample>,
)
    requires
        0 < config.frame_samples(),
    ensures
        packet_samples(pcm_packets(config, sequence, samples)) + leftover(
            config.frame_samples(),
            samples,
        ) == samples,
        leftover(config.frame_samples(), samples).len() < config.frame_samples(),
    decreases samples.len(),
{
    let n = config.frame_samples();
    let packets = pcm_packets(config, sequence, samples);
    if samples.len() < n {
        assert(packet_samples(packets) + samples =~= samples);
    } else {
        let rest = pcm_packets(config, sequence.wrapping_add(1), samples.skip(n));
        law_packets_conserve_samples(config, sequence.wrapping_add(1), samples.skip(n));
        lemma_words_round_trip(samples.take(n));
        assert(packets.skip(1) =~= rest);
        let left = leftover(n, samples.skip(n));
        assert(samples.take(n) + packet_samples(rest) + left =~= samples.take(n) + (packet_samples(
            rest,
        ) + left));
        assert(samples.take(n) + samples.skip(n) =~= samples);
    }
}

/// It does not matter how the samples are cut into calls: feeding `a` and then
/// `b` sends the packets that feeding both at once sends.
pub proof fn law_feeding_in_parts(
    config: TransmitterConfig,
    sequence: u32,
    a: Seq<Sample>,
    b: Seq<Sample>,
)
    requires
        0 < config.frame_samples(),
    ensures
        ({
            let n = config.frame_samples();
            let sent = pcm_packets(config, sequence, a);
            let next = ((sequence + sent.len()) % 0x1_0000_0000) as u32;
            &&& sent + pcm_packets(config, next, leftover(n, a) + b) == pcm_packets(
                config,
                sequence,
                a + b,
            )
            &&& leftover(n, leftover(n, a) + b) == leftover(n, a + b)
        }),
    decreases a.len(),
{
    let n = config.frame_samples();
    let sent = pcm_packets(config, sequence, a);
    if a.len() < n {
        assert(sent + pcm_packets(config, sequence, a + b) =~= pcm_packets(config, sequence, a + b));
    } else {
        let later = sequence.wrapping_add(1);
        law_feeding_in_parts(config, later, a.skip(n), b);
        let rest = pcm_packets(config, later, a.skip(n));
        let next = ((later + rest.len()) % 0x1_0000_0000) as u32;
        assert(next == (sequence + sent.len()) % 0x1_0000_0000);
        assert((a + b).take(n) =~= a.take(n));
        assert((a + b).skip(n) =~= a.skip(n) + b);
        let head = seq![pcm_packet(config, sequence, a.take(n))];
        assert(head + rest + pcm_packets(config, next, leftover(n, a.skip(n)) + b) =~= head + (rest
            + pcm_packets(config, next, leftover(n, a.skip(n)) + b)));
    }
}

/// A PCM packet holds whole frames, as many as its payload of 1200 bytes can
/// carry: not one more would fit.
pub proof fn law_pcm_packets_are_full(config: TransmitterConfig)
    requires
        config.codec == Codec::Pcm,
    ensures
        config.channels > 0 ==> config.frame_samples() % (config.channels as int) == 0,
        config.frame_samples() == config.frames_per_packet() * config.channels,
        4 * config.frame_samples() <= 1200,
        config.channels > 0 ==> 4 * (config.frame_samples() + config.channels) > 1200,
        config.channels == 0 ==> config.frame_samples() == 0,
{
    lemma_pcm_frame_fits(config);
    let c = config.channels as int;
    if c > 0 {
        let q = 300int / c;
        assert(q * c + c > 300 && (q * c) % c == 0) by (nonlinear_arith)
            requires
                c > 0,
                q == 300int / c,
        ;
    } else {
        assert(config.frames_per_packet() * 0 == 0);
    }
}

/// An Opus packet holds a fiftieth of a second, for every channel.
pub proof fn law_opus_packets_last_a_fiftieth_of_a_second(config: TransmitterConfig)
    requires
        config.codec == Codec::Opus,
    ensures
        50 * config.frames_per_packet() <= config.sample_rate,
        config.sample_rate < 50 * (config.frames_per_packet() + 1),
        config.frame_samples() == config.frames_per_packet() * config.channels,
{
}

/// As soon as a packet's worth of samples is there, it is sent.
pub proof fn law_packets_are_sent_as_soon_as_they_are_full(
    config: TransmitterConfig,
    sequence: u32,
    samples: Seq<Sample>,
)
    requires
        0 < config.frame_samples(),
    ensures
        pcm_packets(config, sequence, samples).len() * config.frame_samples() <= samples.len(),
        samples.len() < (pcm_packets(config, sequence, samples).len() + 1)
            * config.frame_samples(),
    decreases samples.len(),
{
    let n = config.frame_samples();
    let sent = pcm_packets(config, sequence, samples);
    if samples.len() >= n {
        let rest = pcm_packets(config, sequence.wrapping_add(1), samples.skip(n));
        law_packets_are_sent_as_soon_as_they_are_full(
            config,
            sequence.wrapping_add(1),
            samples.skip(n),
        );
        let k = rest.len() as int;
        assert((k + 1) * n == k * n + n && (k + 2) * n == (k + 1) * n + n) by (nonlinear_arith);
    } else {
        assert(0 * n == 0 && 1 * n == n) by (nonlinear_arith);
    }
}

} // verus!
