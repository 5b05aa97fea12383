//! The state of a browser receiver between two messages.

use crate::buffer::Sample;
use crate::protocol::{decoded, PacketModel, PcmPacket, ProtocolError};
use vstd::prelude::*;
use vstd::string::StringExecFns;

verus! {

/// The active receiver session (at most one at a time).
pub struct Player {
    /// Whether the audio pipeline is built.
    has_worklet: bool,
    /// Sample rate / channels of the currently configured audio pipeline.
    sample_rate: u32,
    channels: u16,
    /// Samples received while the audio pipeline is being (re)built.
    pending: Vec<Sample>,
    packets: u64,
    bytes: u64,
}

/// The state of a receiver session.
#[verifier::ext_equal]
pub struct PlayerModel {
    pub has_worklet: bool,
    pub sample_rate: u32,
    pub channels: u16,
    pub pending: Seq<Sample>,
    pub packets: nat,
    pub bytes: nat,
}

impl PlayerModel {
    /// The audio pipeline does not fit `packet`.
    pub open spec fn needs_rebuild(self, packet: PacketModel) -> bool {
        ||| !self.has_worklet
        ||| self.sample_rate != packet.sample_rate
        ||| self.channels != packet.channels
    }

    /// Roughly two seconds of `packet`'s stream are buffered during a rebuild,
    /// so that it does not drop the start of the stream.
    pub open spec fn buffered(self, packet: PacketModel) -> Seq<Sample> {
        if self.pending.len() < packet.sample_rate * packet.channels * 2 {
            self.pending + packet.samples
        } else {
            self.pending
        }
    }

    /// The state after a valid message of `len` bytes.
    pub open spec fn after(self, packet: PacketModel, len: nat) -> PlayerModel {
        PlayerModel {
            packets: self.packets + 1,
            bytes: self.bytes + len,
            pending: if self.needs_rebuild(packet) {
                self.buffered(packet)
            } else {
                self.pending
            },
            ..self
        }
    }
}

impl View for Player {
    type V = PlayerModel;

    closed spec fn view(&self) -> PlayerModel {
        PlayerModel {
            has_worklet: self.has_worklet,
            sample_rate: self.sample_rate,
            channels: self.channels,
            pending: self.pending@,
            packets: self.packets as nat,
            bytes: self.bytes as nat,
        }
    }
}

/// What to do about a message.
#[derive(Debug)]
pub enum MessageAction {
    /// (Re)build the audio pipeline for this rate and these channels.
    Rebuild { sample_rate: u32, channels: u16 },
    /// Hand the samples to the pipeline.
    Play(PcmPacket),
}

/// A message taken in.
#[derive(Debug)]
pub struct Handled {
    pub action: MessageAction,
    /// The transfer statistics `(packets, bytes)`, every 100 packets.
    pub stats: Option<(u64, u64)>,
}

/// Refuse a second session.
pub fn connect(occupied: bool) -> (r: Result<Player, String>)
    ensures
        match r {
            Ok(player) => !occupied && player@ == (PlayerModel {
                has_worklet: false,
                sample_rate: 0,
                channels: 0,
                pending: Seq::empty(),
                packets: 0,
                bytes: 0,
            }),
            Err(reason) => occupied && reason@
                == "SonicSpan is already connected; call stop() first"@,
        },
{
    if occupied {
        return Err(String::from_str("SonicSpan is already connected; call stop() first"));
    }
    Ok(
        Player {
            has_worklet: false,
            sample_rate: 0,
            channels: 0,
            pending: Vec::new(),
            packets: 0,
            bytes: 0,
        },
    )
}

impl Player {
    /// Take in a message. An invalid one changes nothing.
    pub fn handle_message(&mut self, bytes: &[u8]) -> (r: Result<Handled, ProtocolError>)
        requires
            old(self)@.packets < u64::MAX,
            old(self)@.bytes + bytes@.len() <= u64::MAX,
        ensures
            match r {
                Err(e) => {
                    &&& decoded(bytes@) == Err::<PacketModel, ProtocolError>(e)
                    &&& final(self)@ == old(self)@
                },
                Ok(handled) => {
                    &&& decoded(bytes@) is Ok
                    &&& final(self)@ == old(self)@.after(decoded(bytes@)->Ok_0, bytes@.len())
                    &&& final(self)@.has_worklet == old(self)@.has_worklet
                    &&& final(self)@.sample_rate == old(self)@.sample_rate
                    &&& final(self)@.channels == old(self)@.channels
                    &&& final(self)@.packets == old(self)@.packets + 1
                    &&& final(self)@.bytes == old(self)@.bytes + bytes@.len()
                    &&& handled.action is Play <==> (old(self)@.has_worklet
                        && old(self)@.sample_rate == decoded(bytes@)->Ok_0.sample_rate
                        && old(self)@.channels == decoded(bytes@)->Ok_0.channels)
                    &&& match handled.action {
                        MessageAction::Rebuild { sample_rate, channels } => {
                            &&& old(self)@.needs_rebuild(decoded(bytes@)->Ok_0)
                            &&& final(self)@.pending == old(self)@.pending || final(self)@.pending
                                == old(self)@.pending + decoded(bytes@)->Ok_0.samples
                            &&& sample_rate == decoded(bytes@)->Ok_0.sample_rate
                            &&& channels == decoded(bytes@)->Ok_0.channels
                        },
                        MessageAction::Play(packet) => {
                            &&& !old(self)@.needs_rebuild(decoded(bytes@)->Ok_0)
                            &&& final(self)@.pending == old(self)@.pending
                            &&& packet@ == decoded(bytes@)->Ok_0
                        },
                    }
                    &&& match handled.stats {
                        Some((packets, total)) => {
                            &&& packets == final(self)@.packets
                            &&& total == final(self)@.bytes
                            &&& packets % 100 == 0
                        },
                        None => final(self)@.packets % 100 != 0,
                    }
                },
            },
    {
        let packet: PcmPacket = match PcmPacket::decode(bytes) {
            Ok(packet) => packet,
            Err(e) => {
                return Err(e);
            },
        };
        self.packets = self.packets + 1;
        self.bytes = self.bytes + bytes.len() as u64;
        let stats: Option<(u64, u64)> = if self.packets % 100 == 0 {
            Some((self.packets, self.bytes))
        } else {
            None
        };
        let needs_rebuild: bool = !self.has_worklet || self.sample_rate != packet.sample_rate
            || self.channels != packet.channels;
        if needs_rebuild {
            proof {
                assert(packet.sample_rate * packet.channels <= 0xffff_ffff * 0xffff)
                    by (nonlinear_arith)
                    requires
                        packet.sample_rate <= 0xffff_ffff,
                        packet.channels <= 0xffff,
                ;
            }
            let cap: u64 = packet.sample_rate as u64 * packet.channels as u64 * 2;
            if (self.pending.len() as u64) < cap {
                let ghost before = self.pending@;
                self.pending.extend_from_slice(packet.samples.as_slice());
                assert(self.pending@ =~= before + packet.samples@);
            }
            let action = MessageAction::Rebuild {
                sample_rate: packet.sample_rate,
                channels: packet.channels,
            };
            return Ok(Handled { action, stats });
        }
        Ok(Handled { action: MessageAction::Play(packet), stats })
    }

    /// The audio pipeline has been built. Returns the samples to flush into it.
    pub fn finish_rebuild(&mut self, sample_rate: u32, channels: u16) -> (flushed: Vec<Sample>)
        ensures
            flushed@ == old(self)@.pending,
            final(self)@ == (PlayerModel {
                has_worklet: true,
                sample_rate,
                channels,
                pending: Seq::empty(),
                ..old(self)@
            }),
    {
        self.has_worklet = true;
        self.sample_rate = sample_rate;
        self.channels = channels;
        let mut flushed: Vec<Sample> = Vec::new();
        std::mem::swap(&mut flushed, &mut self.pending);
        flushed
    }

    /// The number of packets and bytes taken in so far.
    pub fn counters(&self) -> (counters: (u64, u64))
        ensures
            counters.0 == self@.packets,
            counters.1 == self@.bytes,
    {
        (self.packets, self.bytes)
    }
}

/// The state after a rebuild for the given stream.
pub open spec fn rebuilt(m: PlayerModel, sample_rate: u32, channels: u16) -> PlayerModel {
    PlayerModel { has_worklet: true, sample_rate, channels, pending: Seq::empty(), ..m }
}

/// Once the pipeline is built for a stream, its packets are played and not
/// buffered any more.
pub proof fn law_rebuilt_pipeline_plays(m: PlayerModel, packet: PacketModel, len: nat)
    ensures
        !rebuilt(m, packet.sample_rate, packet.channels).needs_rebuild(packet),
        rebuilt(m, packet.sample_rate, packet.channels).after(packet, len).pending
            == Seq::<Sample>::empty(),
{
}

/// A packet that arrives during a rebuild is flushed behind the earlier ones
/// while less than two seconds are buffered.
pub proof fn law_rebuild_keeps_the_start_of_the_stream(m: PlayerModel, packet: PacketModel, len: nat)
    requires
        m.needs_rebuild(packet),
        m.pending.len() < packet.sample_rate * packet.channels * 2,
    ensures
        m.after(packet, len).pending == m.pending + packet.samples,
{
}

/// A packet is played only by a pipeline that is built for its sample rate and
/// its channels. For any other packet the pipeline is rebuilt, and meanwhile the
/// samples are buffered as long as less than two seconds of the new stream are.
pub proof fn law_only_a_fitting_pipeline_plays(m: PlayerModel, packet: PacketModel, len: nat)
    ensures
        m.needs_rebuild(packet) <==> !(m.has_worklet && m.sample_rate == packet.sample_rate
            && m.channels == packet.channels),
        ({
            let r = m.after(packet, len);
            let fits = m.has_worklet && m.sample_rate == packet.sample_rate && m.channels
                == packet.channels;
            let cap = 2 * (packet.sample_rate * packet.channels);
            &&& r.packets == m.packets + 1
            &&& r.bytes == m.bytes + len
            &&& r.has_worklet == m.has_worklet
            &&& r.sample_rate == m.sample_rate
            &&& r.channels == m.channels
            &&& fits ==> r.pending == m.pending
            &&& !fits && m.pending.len() < cap ==> r.pending == m.pending + packet.samples
            &&& !fits && m.pending.len() >= cap ==> r.pending == m.pending
        }),
{
}

/// After a change of format every packet asks for a rebuild until one for that
/// format is done, and nothing that was buffered up to then is lost.
pub proof fn law_rebuild_is_asked_for_until_done(
    m: PlayerModel,
    packet: PacketModel,
    len: nat,
    sample_rate: u32,
    channels: u16,
)
    requires
        m.sample_rate != packet.sample_rate || m.channels != packet.channels,
    ensures
        m.after(packet, len).needs_rebuild(packet),
        m.pending.is_prefix_of(m.after(packet, len).pending),
        (sample_rate, channels) != (packet.sample_rate, packet.channels) ==> rebuilt(
            m,
            sample_rate,
            channels,
        ).needs_rebuild(packet),
{
}

} // verus!
