//! The receiver pipeline: decoded packets in, playable samples out.
//!
//! A packet's samples pass through the dynamic jitter buffer; what comes out is
//! resampled by the caller in the direction the pipeline decides.

use crate::buffer::{Sample, SILENCE};
use crate::bytes::bytes_to_words;
use crate::duration::{lemma_duration_is_its_length, Duration};
use crate::errors::AudioError;
use crate::jitter::history::{distinct, law_packets_are_heard_in_order, lemma_one_more_call, played, pushed, unwrapped, JitterCall};
use crate::jitter::model::{first_key, lemma_first_key, JitterModel, LatencyFrames};
use crate::jitter::playout::{joined, numbered};
use crate::jitter::{fresh, is_feasible, lemma_fresh_room, JitterBuffer, JitterBufferConfig, JitterStats};
use crate::protocol::v2::{Codec, PacketModel, PcmPacket};
use crate::resampler::{adjust_for_occupancy, drift_for, Drift};
use vstd::prelude::*;

verus! {

/// Frames read from the jitter buffer per packet.
pub const READ_CHUNK_FRAMES: usize = 4096;

#[derive(Debug, Clone, Copy, PartialEq, Eq, Structural)]
pub struct ReceiverConfig {
    /// Initial jitter buffer latency; grows/shrinks with network conditions.
    pub buffer_latency: Duration,
}

impl Default for ReceiverConfig {
    fn default() -> (config: Self)
        ensures
            config.buffer_latency.wf(),
            config.buffer_latency.total_nanos() == 60_000_000,
    {
        ReceiverConfig { buffer_latency: Duration::from_millis(60) }
    }
}

/// Cumulative receiver statistics, surfaced to the UI.
#[derive(Debug, Clone, Copy, PartialEq, Eq, Structural)]
pub struct ReceiverStats {
    pub packets_received: u64,
    pub packets_lost: u64,
    pub late_packets: u64,
    pub underruns: u64,
    pub latency_ms: u64,
}

impl Default for ReceiverStats {
    fn default() -> (stats: Self)
        ensures
            stats.totals() == ReceiverTotals::zero(),
            stats.latency_ms == 0,
    {
        ReceiverStats {
            packets_received: 0,
            packets_lost: 0,
            late_packets: 0,
            underruns: 0,
            latency_ms: 0,
        }
    }
}

impl ReceiverStats {
    /// The counters.
    pub open spec fn totals(self) -> ReceiverTotals {
        ReceiverTotals {
            received: self.packets_received as nat,
            lost: self.packets_lost as nat,
            late: self.late_packets as nat,
            underruns: self.underruns as nat,
        }
    }
}

/// What a receiver has counted since it was made.
pub struct ReceiverTotals {
    pub received: nat,
    pub lost: nat,
    pub late: nat,
    pub underruns: nat,
}

impl ReceiverTotals {
    /// Nothing counted yet.
    pub open spec fn zero() -> ReceiverTotals {
        ReceiverTotals { received: 0, lost: 0, late: 0, underruns: 0 }
    }

    /// The totals once a jitter buffer has counted on from `before` to `after`.
    pub open spec fn plus(self, before: JitterModel, after: JitterModel) -> ReceiverTotals {
        ReceiverTotals {
            received: (self.received + after.received - before.received) as nat,
            lost: (self.lost + after.lost - before.lost) as nat,
            late: (self.late + after.late - before.late) as nat,
            underruns: (self.underruns + after.underruns - before.underruns) as nat,
        }
    }

    /// No counter exceeds that of `other`.
    pub open spec fn at_most(self, other: ReceiverTotals) -> bool {
        &&& self.received <= other.received
        &&& self.lost <= other.lost
        &&& self.late <= other.late
        &&& self.underruns <= other.underruns
    }

    /// Every counter fits the type that holds it.
    pub open spec fn countable(self) -> bool {
        &&& self.received <= u64::MAX
        &&& self.lost <= u64::MAX
        &&& self.late <= u64::MAX
        &&& self.underruns <= u64::MAX
    }

    /// The counters can take one more packet, whatever it brings.
    pub open spec fn has_room(self) -> bool {
        &&& self.received + 1 <= u64::MAX
        &&& self.lost + 0x2_0000_0000 <= u64::MAX
        &&& self.late + 1 <= u64::MAX
        &&& self.underruns + 1 <= u64::MAX
    }
}

/// What became of a packet's payload outside the pipeline.
pub enum Decoded {
    /// A PCM payload needs no decoder.
    NotNeeded,
    /// The decoder that the packet calls for could not be created.
    NoDecoder(AudioError),
    /// The decoder refused the payload.
    Failed(AudioError),
    /// The decoder's output.
    Samples(Vec<Sample>),
}

/// Samples ready for playback and the way to resample them.
#[derive(Debug)]
pub struct Playout {
    pub samples: Vec<Sample>,
    pub drift: Drift,
}

/// A jitter buffer's state beside its setup.
#[verifier::ext_equal]
pub struct Stage {
    pub state: JitterModel,
    pub setup: JitterBufferConfig,
    pub frames: LatencyFrames,
}

/// The state of a receiver.
#[verifier::ext_equal]
pub struct ReceiverModel {
    pub config: ReceiverConfig,
    pub has_decoder: bool,
    pub stage: Option<Stage>,
    pub output_rate: u32,
    pub chunk_len: nat,
    pub totals: ReceiverTotals,
    pub latency_ms: u64,
}

impl ReceiverModel {
    /// The pipeline has to be set up for `p`: it is the first packet, or the
    /// sample rate has changed.
    pub open spec fn needs_init(self, p: PacketModel) -> bool {
        self.stage is None || self.output_rate != p.sample_rate
    }

    /// The jitter buffer setup for `p`.
    pub open spec fn jitter_setup(self, p: PacketModel) -> JitterBufferConfig {
        JitterBufferConfig {
            sample_rate: p.sample_rate,
            channels: p.channels,
            initial_latency: self.config.buffer_latency,
            min_latency: Duration { secs: 0, nanos: 20_000_000 },
            max_latency: Duration { secs: 0, nanos: 200_000_000 },
        }
    }

    /// The pipeline is ready for `p`.
    pub open spec fn prepared(self, p: PacketModel, frames: LatencyFrames) -> ReceiverModel {
        if self.needs_init(p) {
            ReceiverModel {
                has_decoder: p.codec == Codec::Opus,
                stage: Some(
                    Stage {
                        state: fresh(p.channels, frames),
                        setup: self.jitter_setup(p),
                        frames,
                    },
                ),
                output_rate: p.sample_rate,
                chunk_len: (READ_CHUNK_FRAMES * p.channels) as nat,
                ..self
            }
        } else {
            ReceiverModel { has_decoder: self.has_decoder || p.codec == Codec::Opus, ..self }
        }
    }

    /// The error that ends the processing of `p` early, if any.
    pub open spec fn failure(self, p: PacketModel, decoded: Decoded) -> Option<AudioError> {
        if p.codec != Codec::Opus {
            None
        } else {
            match decoded {
                Decoded::NoDecoder(e) => Some(e),
                Decoded::Failed(e) => Some(e),
                _ => None,
            }
        }
    }

    /// The state of the jitter buffer once `p` has been pushed.
    pub open spec fn pushed(
        self,
        p: PacketModel,
        frames: LatencyFrames,
        decoded: Decoded,
    ) -> JitterModel {
        self.prepared(p, frames).stage->0.state.push(p.sequence, payload_samples(p, decoded))
    }

    /// The state after `p`.
    pub open spec fn after(
        self,
        p: PacketModel,
        frames: LatencyFrames,
        decoded: Decoded,
    ) -> ReceiverModel {
        let ready = self.prepared(p, frames);
        if p.codec == Codec::Opus && decoded is NoDecoder {
            ReceiverModel { output_rate: p.sample_rate, ..self }
        } else if self.failure(p, decoded) is Some {
            ready
        } else {
            let stage = ready.stage->0;
            let state = self.pushed(p, frames, decoded).read(stage.frames, ready.chunk_len);
            ReceiverModel {
                stage: Some(Stage { state, ..stage }),
                totals: self.totals.plus(stage.state, state),
                ..ready
            }
        }
    }

    /// The samples that `p` makes ready for playback.
    pub open spec fn played(
        self,
        p: PacketModel,
        frames: LatencyFrames,
        decoded: Decoded,
    ) -> Seq<Sample> {
        let chunk_len = self.prepared(p, frames).chunk_len;
        let pushed = self.pushed(p, frames, decoded);
        pushed.output(chunk_len).take(pushed.readable(chunk_len) as int)
    }

    /// The way to resample what `p` makes ready.
    pub open spec fn drift(
        self,
        p: PacketModel,
        frames: LatencyFrames,
        decoded: Decoded,
    ) -> Drift {
        let left = self.after(p, frames, decoded).stage->0.state;
        if self.played(p, frames, decoded).len() == 0 {
            Drift::Hold
        } else {
            drift_for(left.buffered() as usize, left.target as usize)
        }
    }

    /// What the outside has to hand in along with `p`: an outcome for an Opus
    /// payload, and latencies that a jitter buffer can hold where one is made.
    /// The counters must have room.
    pub open spec fn accepts(
        self,
        p: PacketModel,
        frames: LatencyFrames,
        decoded: Decoded,
    ) -> bool {
        &&& p.codec == Codec::Opus ==> decoded !is NotNeeded
        &&& self.needs_init(p) && !(p.codec == Codec::Opus && decoded is NoDecoder) ==> is_feasible(
            p.channels,
            frames,
        )
        &&& self.failure(p, decoded) is None ==> {
            let pushed = self.pushed(p, frames, decoded);
            let after = self.after(p, frames, decoded);
            &&& pushed.countable()
            &&& pushed.buffered() <= usize::MAX
            &&& after.stage->0.state.countable()
            &&& after.totals.countable()
        }
    }

    /// The jitter buffer, where there is one, is orderly.
    pub open spec fn orderly(self) -> bool {
        self.stage matches Some(stage) ==> stage.state.orderly()
    }
}

/// The samples that `p` carries, given what the decoder made of it.
pub open spec fn payload_samples(p: PacketModel, decoded: Decoded) -> Seq<Sample> {
    match p.codec {
        Codec::Pcm => match p.samples() {
            Some(s) => s,
            None => Seq::empty(),
        },
        Codec::Opus => match decoded {
            Decoded::Samples(s) => s@,
            _ => Seq::empty(),
        },
    }
}

/// Reorders incoming packets into playable samples.
pub struct Receiver {
    has_decoder: bool,
    jitter: Option<JitterBuffer>,
    /// Output sample rate (same as the stream).
    output_rate: u32,
    chunk: Vec<Sample>,
    config: ReceiverConfig,
    stats: ReceiverStats,
}

impl View for Receiver {
    type V = ReceiverModel;

    closed spec fn view(&self) -> ReceiverModel {
        ReceiverModel {
            config: self.config,
            has_decoder: self.has_decoder,
            stage: match self.jitter {
                Some(j) => Some(
                    Stage { state: j@, setup: j.spec_config(), frames: j.latency_frames() },
                ),
                None => None,
            },
            output_rate: self.output_rate,
            chunk_len: self.chunk@.len(),
            totals: self.stats.totals(),
            latency_ms: self.stats.latency_ms,
        }
    }
}

impl Receiver {
    pub closed spec fn wf(&self) -> bool {
        self.jitter matches Some(j) ==> j.wf()
    }

    pub fn new(config: ReceiverConfig) -> (receiver: Self)
        ensures
            receiver.wf(),
            receiver@ == (ReceiverModel {
                config,
                has_decoder: false,
                stage: None,
                output_rate: 0,
                chunk_len: 0,
                totals: ReceiverTotals::zero(),
                latency_ms: 0,
            }),
    {
        Receiver {
            has_decoder: false,
            jitter: None,
            output_rate: 0,
            chunk: Vec::new(),
            config,
            stats: ReceiverStats::default(),
        }
    }

    /// Whether the pipeline has to be set up for `packet`.
    pub fn needs_init(&self, packet: &PcmPacket) -> (b: bool)
        ensures
            b == self@.needs_init(packet@),
            b == (self@.stage is None || self@.output_rate != packet@.sample_rate),
    {
        self.jitter.is_none() || self.output_rate != packet.sample_rate
    }

    /// The jitter buffer setup for `packet`.
    pub fn jitter_config(&self, packet: &PcmPacket) -> (config: JitterBufferConfig)
        ensures
            config == self@.jitter_setup(packet@),
            config.sample_rate == packet@.sample_rate,
            config.channels == packet@.channels,
            config.initial_latency == self@.config.buffer_latency,
            config.min_latency.total_nanos() == 20_000_000,
            config.max_latency.total_nanos() == 200_000_000,
    {
        let base: JitterBufferConfig = JitterBufferConfig::new(
            packet.sample_rate,
            packet.channels,
        );
        proof {
            lemma_duration_is_its_length(
                base.min_latency,
                Duration { secs: 0, nanos: 20_000_000 },
            );
            lemma_duration_is_its_length(
                base.max_latency,
                Duration { secs: 0, nanos: 200_000_000 },
            );
        }
        JitterBufferConfig { initial_latency: self.config.buffer_latency, ..base }
    }

    /// Feed one network packet through the pipeline and return the samples
    /// ready for playback (none while the jitter buffer is filling).
    pub fn process_packet(
        &mut self,
        packet: &PcmPacket,
        frames: LatencyFrames,
        decoded: Decoded,
    ) -> (r: Result<Playout, AudioError>)
        requires
            old(self).wf(),
            old(self)@.accepts(packet@, frames, decoded),
        ensures
            final(self).wf(),
            final(self)@ == old(self)@.after(packet@, frames, decoded),
            match r {
                Ok(playout) => {
                    &&& old(self)@.failure(packet@, decoded) is None
                    &&& playout.samples@ == old(self)@.played(packet@, frames, decoded)
                    &&& playout.drift == old(self)@.drift(packet@, frames, decoded)
                },
                Err(e) => old(self)@.failure(packet@, decoded) == Some(e),
            },
    {
        let ghost before = self@;
        let ghost p = packet@;
        let needs_init: bool = self.needs_init(packet);
        let mut samples: Vec<Sample> = Vec::new();
        let ghost wanted = payload_samples(p, decoded);
        let mut refused: Option<AudioError> = None;
        let config: JitterBufferConfig = self.jitter_config(packet);
        if needs_init {
            self.output_rate = packet.sample_rate;
        }
        match packet.codec {
            Codec::Pcm => {
                if let Some(s) = packet.samples() {
                    samples = s;
                }
            },
            Codec::Opus => match decoded {
                Decoded::NoDecoder(e) => {
                    return Err(e);
                },
                Decoded::Failed(e) => {
                    refused = Some(e);
                },
                Decoded::Samples(s) => {
                    samples = s;
                },
                Decoded::NotNeeded => {},
            },
        }
        assert(refused is None ==> samples@ =~= wanted);
        if needs_init {
            self.has_decoder = false;
            self.jitter = Some(JitterBuffer::new(config, frames));
            let chunk_len: usize = READ_CHUNK_FRAMES * packet.channels as usize;
            self.chunk = vec![SILENCE; chunk_len];
        }
        if packet.codec == Codec::Opus {
            self.has_decoder = true;
        }
        assert(self@ == before.prepared(p, frames));
        if let Some(e) = refused {
            return Err(e);
        }
        let latency: Duration = self.config.buffer_latency;
        match self.jitter.take() {
            Some(mut jitter) => {
                let ghost ready = jitter@;
                proof {
                    jitter.lemma_wf();
                    ready.lemma_push(p.sequence, samples@);
                    ready.lemma_push_counts(p.sequence, samples@);
                    ready.push(p.sequence, samples@).lemma_read(
                        jitter.latency_frames(),
                        self.chunk@.len(),
                    );
                }
                let before: JitterStats = jitter.stats(latency);
                jitter.push(packet.sequence, samples);
                let n: usize = jitter.read(self.chunk.as_mut_slice());
                let after: JitterStats = jitter.stats(latency);
                let mut drift: Drift = Drift::Hold;
                if n > 0 {
                    drift = adjust_for_occupancy(jitter.buffered_frames(), jitter.target_frames());
                }
                self.jitter = Some(jitter);
                self.count(before, after);
                let out: Vec<Sample> = prefix(self.chunk.as_slice(), n);
                Ok(Playout { samples: out, drift })
            },
            None => Ok(Playout { samples: Vec::new(), drift: Drift::Hold }),
        }
    }

    /// Add to the totals what a jitter buffer has counted since `before`.
    fn count(&mut self, before: JitterStats, after: JitterStats)
        requires
            before.packets_received <= after.packets_received,
            before.packets_lost <= after.packets_lost,
            before.late_packets <= after.late_packets,
            before.underruns <= after.underruns,
            old(self)@.totals.received + after.packets_received - before.packets_received
                <= u64::MAX,
            old(self)@.totals.lost + after.packets_lost - before.packets_lost <= u64::MAX,
            old(self)@.totals.late + after.late_packets - before.late_packets <= u64::MAX,
            old(self)@.totals.underruns + after.underruns - before.underruns <= u64::MAX,
        ensures
            final(self).jitter == old(self).jitter,
            final(self).chunk == old(self).chunk,
            final(self)@ == (ReceiverModel {
                totals: ReceiverTotals {
                    received: (old(self)@.totals.received + after.packets_received
                        - before.packets_received) as nat,
                    lost: (old(self)@.totals.lost + after.packets_lost
                        - before.packets_lost) as nat,
                    late: (old(self)@.totals.late + after.late_packets
                        - before.late_packets) as nat,
                    underruns: (old(self)@.totals.underruns + after.underruns
                        - before.underruns) as nat,
                },
                ..old(self)@
            }),
    {
        self.stats.packets_received = self.stats.packets_received + (after.packets_received
            - before.packets_received);
        self.stats.packets_lost = self.stats.packets_lost + (after.packets_lost
            - before.packets_lost);
        self.stats.late_packets = self.stats.late_packets + (after.late_packets
            - before.late_packets);
        self.stats.underruns = self.stats.underruns + (after.underruns - before.underruns);
    }

    /// Room in the counters is all that a packet with samples needs, beside
    /// latencies that a jitter buffer can hold where one is made.
    pub proof fn lemma_room_suffices(
        &self,
        p: PacketModel,
        frames: LatencyFrames,
        decoded: Decoded,
    )
        requires
            self.wf(),
            self@.failure(p, decoded) is None,
            p.codec == Codec::Opus ==> decoded !is NotNeeded,
            self@.totals.has_room(),
            if self@.needs_init(p) {
                is_feasible(p.channels, frames) && payload_samples(p, decoded).len() <= usize::MAX
            } else {
                self@.stage->0.state.has_room(2, payload_samples(p, decoded).len())
            },
        ensures
            self@.accepts(p, frames, decoded),
    {
        let ready = self@.prepared(p, frames);
        let state = ready.stage->0.state;
        let samples = payload_samples(p, decoded);
        if self@.needs_init(p) {
            lemma_fresh_room(p.channels, frames, 2, samples.len());
        } else {
            self.jitter->0.lemma_wf();
        }
        state.lemma_push(p.sequence, samples);
        state.lemma_push_counts(p.sequence, samples);
        state.lemma_push_room(p.sequence, samples, 1, 0);
        let pushed = state.push(p.sequence, samples);
        pushed.lemma_read(ready.stage->0.frames, ready.chunk_len);
        pushed.lemma_read_room(ready.stage->0.frames, ready.chunk_len, 0, 0);
    }

    /// Whether the counters have room for one more packet of `samples` samples.
    pub fn has_room(&self, samples: usize) -> (b: bool)
        requires
            self.wf(),
        ensures
            b == (self@.totals.has_room() && (self@.stage matches Some(stage)
                ==> stage.state.has_room(2, samples as nat))),
    {
        let room: bool = self.stats.packets_received < u64::MAX && self.stats.packets_lost
            <= u64::MAX - 0x2_0000_0000 && self.stats.late_packets < u64::MAX
            && self.stats.underruns < u64::MAX;
        match &self.jitter {
            Some(jitter) => room && jitter.has_room(2, samples),
            None => room,
        }
    }

    /// Whether a decoder was created for the current stream.
    pub fn has_decoder(&self) -> (b: bool)
        ensures
            b == self@.has_decoder,
    {
        self.has_decoder
    }

    /// The jitter buffer's target latency in frames; none before the first
    /// packet.
    pub fn target_frames(&self) -> (n: Option<usize>)
        ensures
            match n {
                Some(n) => self@.stage matches Some(stage) && n == stage.state.target,
                None => self@.stage is None,
            },
    {
        match &self.jitter {
            Some(jitter) => Some(jitter.target_frames()),
            None => None,
        }
    }

    /// Report the jitter buffer's target latency as a span of time; zero before
    /// the first packet.
    pub fn sync_stats(&mut self, latency: Duration)
        requires
            old(self).wf(),
            latency.wf(),
        ensures
            final(self).wf(),
            final(self)@ == (ReceiverModel {
                latency_ms: if old(self)@.stage is Some {
                    (latency.total_nanos() / 1_000_000 % 0x1_0000_0000_0000_0000) as u64
                } else {
                    0
                },
                ..old(self)@
            }),
    {
        self.stats.latency_ms = match &self.jitter {
            Some(_) => (latency.as_millis() % 0x1_0000_0000_0000_0000) as u64,
            None => 0,
        };
    }

    pub fn stats(&self) -> (stats: ReceiverStats)
        ensures
            stats.totals() == self@.totals,
            stats.latency_ms == self@.latency_ms,
    {
        self.stats
    }
}

/// The first `n` samples.
fn prefix(samples: &[Sample], n: usize) -> (out: Vec<Sample>)
    requires
        n <= samples@.len(),
    ensures
        out@ == samples@.take(n as int),
{
    let mut out: Vec<Sample> = Vec::new();
    out.extend_from_slice(vstd::slice::slice_subrange(samples, 0, n));
    assert(out@ =~= samples@.take(n as int));
    out
}

/// The expected packet is played at once and in full, when nothing else is
/// buffered and it fits.
pub proof fn law_expected_packet_plays_at_once(
    m: ReceiverModel,
    p: PacketModel,
    frames: LatencyFrames,
    decoded: Decoded,
)
    requires
        !m.needs_init(p),
        m.failure(p, decoded) is None,
        m.stage->0.state.next == Some(p.sequence),
        m.stage->0.state.valid(),
        m.stage->0.state.ring.len() == 0,
        m.stage->0.state.pending.dom().len() == 0,
        payload_samples(p, decoded).len() <= m.stage->0.state.capacity,
        payload_samples(p, decoded).len() <= m.chunk_len,
    ensures
        m.played(p, frames, decoded) == payload_samples(p, decoded),
        m.after(p, frames, decoded).stage->0.state.ring.len() == 0,
        m.after(p, frames, decoded).stage->0.state.pending.dom().len() == 0,
        m.after(p, frames, decoded).stage->0.state.lost == m.stage->0.state.lost,
        m.after(p, frames, decoded).stage->0.state.next == Some(p.sequence.wrapping_add(1)),
{
    let state = m.stage->0.state;
    let samples = payload_samples(p, decoded);
    let started = JitterModel { received: state.received + 1, started: true, ..state };
    let played = started.play(p.sequence, samples);
    assert(samples.take(samples.len() as int) =~= samples);
    assert(played.ring =~= samples);
    lemma_no_keys(played.pending, p.sequence.wrapping_add(1));
    assert(m.pushed(p, frames, decoded) == played);
    assert(played.settle() == played);
    assert(played.output(m.chunk_len).take(samples.len() as int) =~= samples);
}

/// Two packets that arrive in the wrong order are played in the right one: the
/// early packet plays nothing yet, the missing one then plays both, and none
/// counts as lost or late.
pub proof fn law_swapped_packets_play_in_order(
    m: ReceiverModel,
    early: PacketModel,
    missing: PacketModel,
    frames: LatencyFrames,
    decoded_early: Decoded,
    decoded_missing: Decoded,
)
    requires
        !m.needs_init(early),
        !m.needs_init(missing),
        m.failure(early, decoded_early) is None,
        m.failure(missing, decoded_missing) is None,
        m.stage->0.state.valid(),
        m.stage->0.state.next == Some(missing.sequence),
        m.stage->0.state.stalled != Some(missing.sequence),
        m.stage->0.state.ring.len() == 0,
        m.stage->0.state.pending == Map::<u32, Seq<Sample>>::empty(),
        missing.sequence < u32::MAX,
        early.sequence == missing.sequence + 1,
        payload_samples(missing, decoded_missing).len() + payload_samples(
            early,
            decoded_early,
        ).len() <= m.stage->0.state.capacity,
        payload_samples(missing, decoded_missing).len() + payload_samples(
            early,
            decoded_early,
        ).len() <= m.chunk_len,
    ensures
        ({
            let waiting = m.after(early, frames, decoded_early);
            let done = waiting.after(missing, frames, decoded_missing);
            &&& m.played(early, frames, decoded_early) == Seq::<Sample>::empty()
            &&& waiting.played(missing, frames, decoded_missing) == payload_samples(
                missing,
                decoded_missing,
            ) + payload_samples(early, decoded_early)
            &&& done.stage->0.state.lost == m.stage->0.state.lost
            &&& done.stage->0.state.late == m.stage->0.state.late
            &&& done.stage->0.state.next == Some(early.sequence.wrapping_add(1))
        }),
{
    let s = m.stage->0.state;
    let a = payload_samples(early, decoded_early);
    let b = payload_samples(missing, decoded_missing);
    let k = early.sequence;
    // The early packet waits.
    let p = JitterModel {
        received: s.received + 1,
        started: true,
        pending: s.pending.insert(k, a),
        ..s
    };
    lemma_first_key(p.pending);
    assert(first_key(p.pending) == k);
    assert(m.pushed(early, frames, decoded_early) == p);
    assert(p.settle() == p);
    assert(p.readable(m.chunk_len) == 0);
    assert(p.output(m.chunk_len).take(0) =~= Seq::empty());
    let waiting = m.after(early, frames, decoded_early);
    let t = waiting.stage->0.state;
    assert(t.ring =~= Seq::empty());
    assert(t.pending == p.pending && t.next == s.next && t.lost == s.lost);
    // The missing packet releases it.
    let u = JitterModel { received: t.received + 1, started: true, ..t };
    let first = u.play(missing.sequence, b);
    assert(b.take(b.len() as int) =~= b);
    assert(first.ring =~= b);
    assert(first.pending.contains_key(k));
    let both = first.play_waiting(k);
    assert(a.take(a.len() as int) =~= a);
    assert(both.ring =~= b + a);
    assert(both.pending =~= Map::empty());
    assert(first.drain() == both.drain());
    assert(both.drain() == both);
    assert(waiting.pushed(missing, frames, decoded_missing) == both);
    assert(both.settle() == both);
    assert(both.output(m.chunk_len).take(both.readable(m.chunk_len) as int) =~= b + a);
}

/// The first packet of a stream is played at once and in full, when it fits.
pub proof fn law_first_packet_plays_at_once(
    m: ReceiverModel,
    p: PacketModel,
    frames: LatencyFrames,
    decoded: Decoded,
)
    requires
        m.needs_init(p),
        m.failure(p, decoded) is None,
        payload_samples(p, decoded).len() <= fresh(p.channels, frames).capacity,
        payload_samples(p, decoded).len() <= READ_CHUNK_FRAMES * p.channels,
    ensures
        m.played(p, frames, decoded) == payload_samples(p, decoded),
        m.after(p, frames, decoded).output_rate == p.sample_rate,
        m.after(p, frames, decoded).stage->0.setup == m.jitter_setup(p),
        m.after(p, frames, decoded).stage->0.state.received == 1,
        m.after(p, frames, decoded).stage->0.state.lost == 0,
{
    let samples = payload_samples(p, decoded);
    let pushed = m.pushed(p, frames, decoded);
    let chunk_len = m.prepared(p, frames).chunk_len;
    assert(samples.take(samples.len() as int) =~= samples);
    assert(pushed.ring =~= samples);
    assert(pushed.settle() == pushed);
    assert(pushed.output(chunk_len).take(samples.len() as int) =~= samples);
}

/// A decoder that cannot be created, or a payload that it refuses, plays
/// nothing and counts nothing.
pub proof fn law_refused_payload_counts_nothing(
    m: ReceiverModel,
    p: PacketModel,
    frames: LatencyFrames,
    decoded: Decoded,
)
    requires
        m.failure(p, decoded) is Some,
        m.accepts(p, frames, decoded),
    ensures
        m.after(p, frames, decoded).totals == m.totals,
        m.after(p, frames, decoded).latency_ms == m.latency_ms,
        m.after(p, frames, decoded).config == m.config,
        !m.needs_init(p) ==> m.after(p, frames, decoded) == (ReceiverModel {
            has_decoder: m.has_decoder || decoded is Failed,
            ..m
        }),
        decoded is NoDecoder ==> m.after(p, frames, decoded).stage == m.stage,
        m.needs_init(p) && decoded is Failed ==> m.after(p, frames, decoded).stage->0.state
            == fresh(p.channels, frames),
{
}

/// A packet that is not refused is counted once, a refused one not at all, and
/// no statistic ever falls, whatever sample rates the packets have.
pub proof fn law_statistics_never_fall(
    m: ReceiverModel,
    p: PacketModel,
    frames: LatencyFrames,
    decoded: Decoded,
)
    requires
        m.orderly(),
    ensures
        m.after(p, frames, decoded).orderly(),
        m.totals.at_most(m.after(p, frames, decoded).totals),
        match m.failure(p, decoded) {
            None => m.after(p, frames, decoded).totals.received == m.totals.received + 1,
            Some(_) => m.after(p, frames, decoded).totals == m.totals,
        },
{
    let ready = m.prepared(p, frames);
    let state = ready.stage->0.state;
    let samples = payload_samples(p, decoded);
    state.lemma_push(p.sequence, samples);
    state.lemma_push_counts(p.sequence, samples);
    state.push(p.sequence, samples).lemma_read(ready.stage->0.frames, ready.chunk_len);
}

/// A packet, and what is handed in with it.
pub struct Arrival {
    pub packet: PacketModel,
    pub frames: LatencyFrames,
    pub decoded: Decoded,
}

impl ReceiverModel {
    /// The state after all packets, one after the other.
    pub open spec fn run(self, arrivals: Seq<Arrival>) -> ReceiverModel
        decreases arrivals.len(),
    {
        if arrivals.len() == 0 {
            self
        } else {
            let a = arrivals.last();
            self.run(arrivals.drop_last()).after(a.packet, a.frames, a.decoded)
        }
    }

    /// How many of the packets are processed without an error.
    pub open spec fn successes(self, arrivals: Seq<Arrival>) -> nat
        decreases arrivals.len(),
    {
        if arrivals.len() == 0 {
            0
        } else {
            let a = arrivals.last();
            self.successes(arrivals.drop_last()) + (if self.run(arrivals.drop_last()).failure(
                a.packet,
                a.decoded,
            ) is None {
                1nat
            } else {
                0
            })
        }
    }

    /// The samples that the packets make ready for playback, in order.
    pub open spec fn heard(self, arrivals: Seq<Arrival>) -> Seq<Sample>
        decreases arrivals.len(),
    {
        if arrivals.len() == 0 {
            Seq::empty()
        } else {
            let a = arrivals.last();
            self.heard(arrivals.drop_last()) + self.run(arrivals.drop_last()).played(
                a.packet,
                a.frames,
                a.decoded,
            )
        }
    }
}

/// Over any packets, whatever their sample rates, the packets counted as received
/// are those processed without an error.
pub proof fn law_statistics_are_cumulative(m: ReceiverModel, arrivals: Seq<Arrival>)
    requires
        m.orderly(),
    ensures
        m.run(arrivals).orderly(),
        m.run(arrivals).totals.received == m.totals.received + m.successes(arrivals),
        m.totals.at_most(m.run(arrivals).totals),
    decreases arrivals.len(),
{
    if arrivals.len() > 0 {
        let a = arrivals.last();
        law_statistics_are_cumulative(m, arrivals.drop_last());
        law_statistics_never_fall(m.run(arrivals.drop_last()), a.packet, a.frames, a.decoded);
    }
}

/// The calls on the jitter buffer that the packets lead to.
pub open spec fn jitter_calls(arrivals: Seq<Arrival>, chunk_len: nat) -> Seq<JitterCall>
    decreases arrivals.len(),
{
    if arrivals.len() == 0 {
        Seq::empty()
    } else {
        let a = arrivals.last();
        jitter_calls(arrivals.drop_last(), chunk_len).push(
            JitterCall::Push {
                sequence: a.packet.sequence,
                samples: payload_samples(a.packet, a.decoded),
            },
        ).push(JitterCall::Read { wanted: chunk_len })
    }
}

/// The packets are a stream of one sample rate, none of them refused.
pub open spec fn is_stream(arrivals: Seq<Arrival>) -> bool {
    forall|i: int|
        0 <= i < arrivals.len() ==> {
            &&& (#[trigger] arrivals[i]).packet.sample_rate == arrivals[0].packet.sample_rate
            &&& arrivals[i].packet.codec == Codec::Opus ==> !(arrivals[i].decoded is NoDecoder)
                && !(arrivals[i].decoded is Failed)
        }
}

/// `r` has run a stream that began with `a` through one jitter buffer, by the
/// given calls.
spec fn has_run(
    m: ReceiverModel,
    a: Arrival,
    r: ReceiverModel,
    heard: Seq<Sample>,
    calls: Seq<JitterCall>,
) -> bool {
    let start = fresh(a.packet.channels, a.frames);
    &&& r.output_rate == a.packet.sample_rate
    &&& r.chunk_len == READ_CHUNK_FRAMES * a.packet.channels
    &&& r.stage is Some
    &&& r.stage->0.frames == a.frames
    &&& r.stage->0.state == start.run(a.frames, calls)
    &&& r.stage->0.state.orderly()
    &&& start.counts_at_most(r.stage->0.state)
    &&& r.totals == m.totals.plus(start, r.stage->0.state)
    &&& heard == start.heard(a.frames, calls)
}

/// One more packet is one push and one read more.
proof fn lemma_has_run_on(
    m: ReceiverModel,
    a: Arrival,
    r: ReceiverModel,
    heard: Seq<Sample>,
    calls: Seq<JitterCall>,
    b: Arrival,
)
    requires
        r.failure(b.packet, b.decoded) is None,
        ({
            let ready = r.prepared(b.packet, b.frames);
            has_run(m, a, ReceiverModel { totals: r.totals, ..ready }, heard, calls)
        }),
    ensures
        has_run(
            m,
            a,
            r.after(b.packet, b.frames, b.decoded),
            heard + r.played(b.packet, b.frames, b.decoded),
            calls.push(
                JitterCall::Push {
                    sequence: b.packet.sequence,
                    samples: payload_samples(b.packet, b.decoded),
                },
            ).push(JitterCall::Read { wanted: (READ_CHUNK_FRAMES * a.packet.channels) as nat }),
        ),
{
    let start = fresh(a.packet.channels, a.frames);
    let sequence = b.packet.sequence;
    let samples = payload_samples(b.packet, b.decoded);
    let push = JitterCall::Push { sequence, samples };
    let chunk_len = (READ_CHUNK_FRAMES * a.packet.channels) as nat;
    let read = JitterCall::Read { wanted: chunk_len };
    let state = start.run(a.frames, calls);
    let pushed = state.push(sequence, samples);
    lemma_one_more_call(start, a.frames, calls, push);
    lemma_one_more_call(start, a.frames, calls.push(push), read);
    assert(start.heard(a.frames, calls.push(push)) =~= heard);
    state.lemma_push(sequence, samples);
    state.lemma_push_counts(sequence, samples);
    pushed.lemma_read(a.frames, chunk_len);
    assert(r.pushed(b.packet, b.frames, b.decoded) == pushed);
}

/// A stream runs through one jitter buffer.
proof fn lemma_stream(m: ReceiverModel, arrivals: Seq<Arrival>)
    requires
        m.stage is None,
        is_stream(arrivals),
        arrivals.len() > 0,
    ensures
        has_run(
            m,
            arrivals[0],
            m.run(arrivals),
            m.heard(arrivals),
            jitter_calls(arrivals, (READ_CHUNK_FRAMES * arrivals[0].packet.channels) as nat),
        ),
    decreases arrivals.len(),
{
    let a = arrivals[0];
    let chunk_len = (READ_CHUNK_FRAMES * a.packet.channels) as nat;
    let before = arrivals.drop_last();
    let b = arrivals.last();
    assert(b == arrivals[arrivals.len() - 1]);
    let earlier = jitter_calls(before, chunk_len);
    if before.len() > 0 {
        assert forall|i: int| 0 <= i < before.len() implies {
            &&& (#[trigger] before[i]).packet.sample_rate == before[0].packet.sample_rate
            &&& before[i].packet.codec == Codec::Opus ==> !(before[i].decoded is NoDecoder) && !(
            before[i].decoded is Failed)
        } by {
            assert(before[i] == arrivals[i]);
        }
        lemma_stream(m, before);
    } else {
        assert(m.run(before) == m);
        assert(m.heard(before) =~= fresh(a.packet.channels, a.frames).heard(a.frames, earlier));
    }
    lemma_has_run_on(m, a, m.run(before), m.heard(before), earlier, b);
}

/// The packets of a stream are played whole, in rising order of their numbers
/// and at most once, whatever the order in which they arrive, and exactly the
/// numbers passed over count as lost.
///
/// No two packets may bear the same number, and none the highest one, after
/// which the numbers wrap around.
pub proof fn law_stream_plays_in_order(m: ReceiverModel, arrivals: Seq<Arrival>) -> (numbers: Seq<u32>)
    requires
        m.stage is None,
        is_stream(arrivals),
        arrivals.len() > 0,
        distinct(
            jitter_calls(arrivals, (READ_CHUNK_FRAMES * arrivals[0].packet.channels) as nat),
        ),
        unwrapped(
            jitter_calls(arrivals, (READ_CHUNK_FRAMES * arrivals[0].packet.channels) as nat),
        ),
    ensures
        ({
            let a = arrivals[0];
            let start = fresh(a.packet.channels, a.frames);
            let calls = jitter_calls(arrivals, (READ_CHUNK_FRAMES * a.packet.channels) as nat);
            let state = m.run(arrivals).stage->0.state;
            &&& played(start, a.frames, calls, numbers)
            &&& state == start.run(a.frames, calls)
            &&& state.overruns == 0 ==> m.heard(arrivals) + state.ring == joined(
                numbered(pushed(calls), numbers),
            )
            &&& m.run(arrivals).totals == m.totals.plus(start, state)
        }),
{
    let a = arrivals[0];
    let start = fresh(a.packet.channels, a.frames);
    let calls = jitter_calls(arrivals, (READ_CHUNK_FRAMES * a.packet.channels) as nat);
    lemma_stream(m, arrivals);
    law_packets_are_heard_in_order(start, a.frames, calls)
}

proof fn lemma_no_keys(pending: Map<u32, Seq<Sample>>, k: u32)
    requires
        pending.dom().finite(),
        pending.dom().len() == 0,
    ensures
        !pending.contains_key(k),
{
    if pending.contains_key(k) {
        assert(pending.dom().remove(k).len() < 0);
    }
}

/// A packet of another sample rate than the running stream's, or the first one,
/// starts a stream of its own: the jitter buffer is set up for the packet and
/// holds nothing but it, and the packet is played at once as far as one read
/// goes.
pub proof fn law_other_rate_starts_a_new_stream(
    m: ReceiverModel,
    p: PacketModel,
    frames: LatencyFrames,
    decoded: Decoded,
)
    requires
        m.stage is None || m.output_rate != p.sample_rate,
        p.codec == Codec::Opus ==> !(decoded is NoDecoder) && !(decoded is Failed),
        payload_samples(p, decoded).len() <= fresh(p.channels, frames).capacity,
    ensures
        ({
            let r = m.after(p, frames, decoded);
            let samples = payload_samples(p, decoded);
            let heard = m.played(p, frames, decoded);
            &&& r.stage is Some
            &&& r.stage->0.setup.sample_rate == p.sample_rate
            &&& r.stage->0.setup.channels == p.channels
            &&& r.stage->0.setup.initial_latency == m.config.buffer_latency
            &&& r.stage->0.setup.min_latency.total_nanos() == 20_000_000
            &&& r.stage->0.setup.max_latency.total_nanos() == 200_000_000
            &&& r.stage->0.frames == frames
            &&& r.output_rate == p.sample_rate
            &&& r.chunk_len == 4096 * p.channels
            &&& r.has_decoder == (p.codec == Codec::Opus)
            &&& r.stage->0.state.received == 1
            &&& r.stage->0.state.lost == 0
            &&& r.stage->0.state.late == 0
            &&& r.stage->0.state.next == Some(p.sequence.wrapping_add(1))
            &&& heard + r.stage->0.state.ring == samples
            &&& samples.len() <= 4096 * p.channels ==> heard == samples
            &&& samples.len() > 4096 * p.channels ==> heard.len() == 4096 * p.channels
        }),
{
    let samples = payload_samples(p, decoded);
    let pushed = m.pushed(p, frames, decoded);
    let chunk_len = m.prepared(p, frames).chunk_len;
    assert(samples.take(samples.len() as int) =~= samples);
    assert(pushed.ring =~= samples);
    assert(pushed.settle() == pushed);
    let heard = m.played(p, frames, decoded);
    assert(heard + m.after(p, frames, decoded).stage->0.state.ring =~= samples);
    if samples.len() <= chunk_len {
        assert(heard =~= samples);
    }
}

/// A packet of the running stream's sample rate goes on with its jitter buffer:
/// it is one push and one read of the same buffer, and what is played is what
/// that read returns.
pub proof fn law_same_rate_goes_on(
    m: ReceiverModel,
    p: PacketModel,
    frames: LatencyFrames,
    decoded: Decoded,
)
    requires
        m.stage is Some,
        m.output_rate == p.sample_rate,
        p.codec == Codec::Opus ==> !(decoded is NoDecoder) && !(decoded is Failed),
        m.orderly(),
    ensures
        ({
            let r = m.after(p, frames, decoded);
            let pushed = m.stage->0.state.push(p.sequence, payload_samples(p, decoded));
            let n = pushed.readable(m.chunk_len);
            &&& r.stage is Some
            &&& r.stage->0.setup == m.stage->0.setup
            &&& r.stage->0.frames == m.stage->0.frames
            &&& r.stage->0.state == pushed.read(m.stage->0.frames, m.chunk_len)
            &&& r.output_rate == m.output_rate
            &&& r.chunk_len == m.chunk_len
            &&& r.config == m.config
            &&& r.has_decoder == (m.has_decoder || p.codec == Codec::Opus)
            &&& m.played(p, frames, decoded) == pushed.output(m.chunk_len).take(n as int)
            &&& r.totals.received == m.totals.received + 1
            &&& r.totals.lost - m.totals.lost == r.stage->0.state.lost - m.stage->0.state.lost
            &&& r.totals.late - m.totals.late == r.stage->0.state.late - m.stage->0.state.late
            &&& r.totals.underruns - m.totals.underruns == r.stage->0.state.underruns
                - m.stage->0.state.underruns
        }),
{
    law_statistics_never_fall(m, p, frames, decoded);
    let state = m.stage->0.state;
    let samples = payload_samples(p, decoded);
    state.lemma_push(p.sequence, samples);
    state.lemma_push_counts(p.sequence, samples);
    state.push(p.sequence, samples).lemma_read(m.stage->0.frames, m.chunk_len);
}

/// Unless a decoder cannot be created, the sample rate that packets are compared
/// with is that of the running jitter buffer.
pub proof fn law_rate_is_that_of_the_stream(
    m: ReceiverModel,
    p: PacketModel,
    frames: LatencyFrames,
    decoded: Decoded,
)
    requires
        m.stage matches Some(stage) ==> stage.setup.sample_rate == m.output_rate,
        p.codec == Codec::Opus ==> !(decoded is NoDecoder),
    ensures
        m.after(p, frames, decoded).stage matches Some(stage) && stage.setup.sample_rate
            == m.after(p, frames, decoded).output_rate && stage.setup.sample_rate == p.sample_rate,
{
}

/// Uncompressed payloads never fail; a compressed one fails with the error that
/// was handed in, and with no other.
pub proof fn law_only_refused_payloads_fail(m: ReceiverModel, p: PacketModel, decoded: Decoded)
    ensures
        p.codec == Codec::Pcm ==> m.failure(p, decoded) is None,
        p.codec == Codec::Opus ==> match decoded {
            Decoded::NoDecoder(e) => m.failure(p, decoded) == Some(e),
            Decoded::Failed(e) => m.failure(p, decoded) == Some(e),
            Decoded::Samples(_) => m.failure(p, decoded) is None,
            Decoded::NotNeeded => m.failure(p, decoded) is None,
        },
{
}

/// What a packet carries: every four payload bytes of an uncompressed one are a
/// sample, least significant byte first; of a compressed one, what the decoder
/// made of it.
pub proof fn law_payload_is_taken_as_it_is(p: PacketModel, decoded: Decoded, i: int)
    requires
        p.codec == Codec::Pcm ==> p.payload.len() % 4 == 0 && 0 <= i < p.payload.len() / 4,
    ensures
        p.codec == Codec::Pcm ==> payload_samples(p, decoded).len() * 4 == p.payload.len(),
        p.codec == Codec::Pcm ==> payload_samples(p, decoded)[i] == p.payload[4 * i] + 0x100
            * p.payload[4 * i + 1] + 0x1_0000 * p.payload[4 * i + 2] + 0x100_0000 * p.payload[4 * i
            + 3],
        p.codec == Codec::Opus && decoded is Samples ==> payload_samples(p, decoded)
            == decoded->Samples_0@,
{
    reveal(bytes_to_words);
}

/// The drift follows what is left in the buffer: nothing is nudged while nothing
/// is played, less than the target slows down, and more than half the target
/// above it speeds up.
pub proof fn law_drift_follows_what_is_left(
    m: ReceiverModel,
    p: PacketModel,
    frames: LatencyFrames,
    decoded: Decoded,
)
    requires
        m.after(p, frames, decoded).stage is Some,
        m.after(p, frames, decoded).stage->0.state.buffered() <= usize::MAX,
        m.after(p, frames, decoded).stage->0.state.target <= usize::MAX,
    ensures
        ({
            let left = m.after(p, frames, decoded).stage->0.state.buffered();
            let target = m.after(p, frames, decoded).stage->0.state.target;
            let drift = m.drift(p, frames, decoded);
            if m.played(p, frames, decoded).len() == 0 {
                drift == Drift::Hold
            } else {
                &&& drift == Drift::SlowDown <==> left < target
                &&& drift == Drift::SpeedUp <==> left - target > target / 2 && left - target > 1
            }
        }),
{
}

/// Totals far from the end of their range have room.
pub proof fn law_totals_far_from_the_end_have_room(totals: ReceiverTotals)
    requires
        totals.received < 0x4000_0000_0000_0000,
        totals.lost < 0x4000_0000_0000_0000,
        totals.late < 0x4000_0000_0000_0000,
        totals.underruns < 0x4000_0000_0000_0000,
    ensures
        totals.has_room(),
{
}

/// An error that is handed in can always be passed on; only where a jitter buffer
/// is made for it, its latencies must be usable.
pub proof fn law_errors_can_be_passed_on(
    m: ReceiverModel,
    p: PacketModel,
    frames: LatencyFrames,
    decoded: Decoded,
)
    requires
        p.codec == Codec::Opus,
        decoded is NoDecoder || decoded is Failed,
        decoded is Failed && (m.stage is None || m.output_rate != p.sample_rate) ==> is_feasible(
            p.channels,
            frames,
        ),
    ensures
        m.accepts(p, frames, decoded),
{
}

impl Receiver {
    /// A receiver's jitter buffer is orderly.
    pub proof fn lemma_wf(&self)
        requires
            self.wf(),
        ensures
            self@.orderly(),
    {
        if let Some(jitter) = self.jitter {
            jitter.lemma_wf();
        }
    }
}

} // verus!
