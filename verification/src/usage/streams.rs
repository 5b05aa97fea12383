//! Calls on jitter buffers, receivers, transmitters and sessions.

use crate::buffer::{AudioRingBuffer, Sample};
use crate::duration::Duration;
use crate::errors::AudioError;
use crate::jitter::effects::{law_packet_ahead_waits, law_packet_far_ahead_is_played, law_queue_takes_what_fits, law_read_takes_the_front, law_second_dry_read_goes_on};
use crate::jitter::model::{waiting, JitterModel};
use crate::jitter::{JitterBuffer, JitterBufferConfig, JitterStats, LatencyFrames};
use crate::player::{law_only_a_fitting_pipeline_plays, Handled, MessageAction, Player};
use crate::protocol;
use crate::protocol::v2;
use crate::receiver::{law_other_rate_starts_a_new_stream, law_statistics_never_fall, payload_samples, Decoded, Playout, Receiver, ReceiverStats};
use crate::resampler::{adjust_for_occupancy, Drift};
use crate::session::{law_captured_samples_are_received, CaptureSession, DatagramError, MicSession, MicStep, PlaybackSession, ReceiveSession};
use crate::transmitter::{law_packets_are_whole_and_contiguous, law_packets_conserve_samples, law_pcm_packets_are_full, packet_samples, views, Transmitter, TransmitterConfig};
use vstd::prelude::*;

verus! {

/// A read that runs dry on a missing packet for the second time returns the front
/// of the oldest waiting packet and counts what it skips.
pub proof fn law_reading_over_a_gap(jitter: &mut JitterBuffer, out: &mut [Sample], n: usize, first: u32)
    requires
        call_ensures(JitterBuffer::read, (jitter, out), n),
        old(jitter)@.next matches Some(expected) && expected < first,
        old(jitter)@.stalled == old(jitter)@.next,
        old(jitter)@.ring.len() == 0,
        old(jitter)@.pending.dom().finite(),
        old(jitter)@.pending.contains_key(first),
        forall|k: u32| #[trigger] old(jitter)@.pending.contains_key(k) ==> first <= k,
        old(jitter)@.pending[first].len() <= old(jitter)@.capacity,
    ensures
        ({
            let oldest = old(jitter)@.pending[first];
            &&& n >= old(out)@.len() || n >= oldest.len()
            &&& forall|i: int|
                0 <= i < old(out)@.len() && i < oldest.len() ==> #[trigger] final(out)@[i]
                    == oldest[i]
            &&& final(jitter)@.lost == old(jitter)@.lost + (first - old(jitter)@.next->0)
        }),
{
    let m = old(jitter)@;
    let wanted = old(out)@.len();
    law_second_dry_read_goes_on(m, jitter.latency_frames(), first, wanted);
    let oldest = m.pending[first];
    let k = if wanted <= oldest.len() { wanted } else { oldest.len() };
    assert forall|i: int| 0 <= i < wanted && i < oldest.len() implies #[trigger] final(out)@[i]
        == oldest[i] by {
        assert(m.output(wanted).take(k as int)[i] == oldest.take(k as int)[i]);
    }
}

/// A new jitter buffer is empty and has counted nothing.
pub proof fn law_new_jitter_buffer_is_empty(
    config: JitterBufferConfig,
    frames: LatencyFrames,
    jitter: JitterBuffer,
)
    requires
        call_ensures(JitterBuffer::new, (config, frames), jitter),
    ensures
        jitter@.ring.len() == 0,
        forall|k: u32| !jitter@.pending.contains_key(k),
        jitter@.next is None,
        jitter@.received == 0 && jitter@.lost == 0 && jitter@.late == 0 && jitter@.underruns == 0
            && jitter@.overruns == 0,
        jitter@.capacity >= frames.max + 61_440 * config.channels,
{
}

/// What is pushed when it is due is what the next read returns.
pub proof fn law_pushed_samples_are_read(
    jitter: &mut JitterBuffer,
    sequence: u32,
    samples: Vec<Sample>,
    later: &mut JitterBuffer,
    out: &mut [Sample],
    n: usize,
)
    requires
        call_ensures(JitterBuffer::push, (jitter, sequence, samples), ()),
        call_ensures(JitterBuffer::read, (later, out), n),
        *old(later) == *final(jitter),
        old(jitter)@.next is None || old(jitter)@.next == Some(sequence),
        old(jitter)@.ring.len() == 0,
        forall|k: u32| !old(jitter)@.pending.contains_key(k),
        0 < samples@.len() <= old(jitter)@.capacity,
    ensures
        n == samples@.len() || (n == old(out)@.len() && n < samples@.len()),
        n <= old(out)@.len(),
        forall|i: int| 0 <= i < n ==> #[trigger] final(out)@[i] == samples@[i],
        forall|i: int| n <= i < old(out)@.len() ==> #[trigger] final(out)@[i] == 0,
        final(later)@.lost == old(jitter)@.lost,
        final(later)@.received == old(jitter)@.received + 1,
{
    let m = old(jitter)@;
    let r = final(jitter)@;
    assert(m.pending.dom() =~= Set::empty());
    law_queue_takes_what_fits(m, sequence, samples@);
    assert(m.ring + samples@ =~= samples@);
    let p = JitterModel { received: m.received + 1, started: true, ..m }.play(sequence, samples@);
    assert(samples@.take(samples@.len() as int) =~= samples@);
    assert(p.drain() == p);
    assert(r == p);
    assert(r.ring =~= samples@);
    let wanted = old(out)@.len();
    law_read_takes_the_front(r, later.latency_frames(), wanted);
    assert forall|i: int| 0 <= i < n implies #[trigger] final(out)@[i] == samples@[i] by {
        assert(final(out)@.take(n as int)[i] == r.ring[i]);
    }
}

/// A packet up to 64 ahead of the expected one waits without a loss; one further
/// ahead ends the wait.
pub proof fn law_pushing_ahead(jitter: &mut JitterBuffer, sequence: u32, samples: Vec<Sample>)
    requires
        call_ensures(JitterBuffer::push, (jitter, sequence, samples), ()),
        old(jitter).wf(),
        old(jitter)@.next matches Some(expected) && expected < sequence,
    ensures
        sequence - old(jitter)@.next->0 <= 64 ==> {
            &&& final(jitter)@.pending == old(jitter)@.pending.insert(sequence, samples@)
            &&& final(jitter)@.ring == old(jitter)@.ring
            &&& final(jitter)@.lost == old(jitter)@.lost
        },
        sequence - old(jitter)@.next->0 > 64 ==> {
            &&& forall|k: u32| !final(jitter)@.pending.contains_key(k)
            &&& final(jitter)@.lost + old(jitter)@.pending.dom().len() == old(jitter)@.lost + (
            sequence - old(jitter)@.next->0)
        },
{
    let m = old(jitter)@;
    old(jitter).lemma_wf();
    if sequence - m.next->0 <= 64 {
        law_packet_ahead_waits(m, sequence, samples@);
    } else {
        law_packet_far_ahead_is_played(m, sequence, samples@);
    }
}

/// A packet of another sample rate than the stream's is played at once and in
/// full, if it fits one read; a jitter buffer for its format is set up for it.
pub proof fn law_receiving_another_rate(
    receiver: &mut Receiver,
    packet: &v2::PcmPacket,
    frames: LatencyFrames,
    decoded: Decoded,
    r: Result<Playout, AudioError>,
)
    requires
        call_ensures(Receiver::process_packet, (receiver, packet, frames, decoded), r),
        old(receiver)@.stage is None || old(receiver)@.output_rate != packet.sample_rate,
        packet.codec == v2::Codec::Opus ==> decoded is Samples,
        payload_samples(packet@, decoded).len() <= 4096 * packet.channels,
        payload_samples(packet@, decoded).len() <= crate::jitter::fresh(
            packet.channels,
            frames,
        ).capacity,
    ensures
        r matches Ok(playout) && playout.samples@ == payload_samples(packet@, decoded),
        final(receiver)@.output_rate == packet.sample_rate,
        final(receiver)@.stage matches Some(stage) && stage.setup.sample_rate == packet.sample_rate
            && stage.setup.channels == packet.channels && stage.state.received == 1,
{
    law_other_rate_starts_a_new_stream(old(receiver)@, packet@, frames, decoded);
}

/// A stream is set up anew for the first packet and for every change of the sample
/// rate, up or down, and for nothing else.
pub proof fn law_set_up_follows_the_rate(receiver: &Receiver, packet: &v2::PcmPacket, b: bool)
    requires
        call_ensures(Receiver::needs_init, (receiver, packet), b),
    ensures
        receiver@.stage is None ==> b,
        receiver@.stage is Some ==> (b <==> receiver@.output_rate < packet.sample_rate
            || receiver@.output_rate > packet.sample_rate),
{
}

/// Every packet that is processed is counted once; an error counts nothing.
pub proof fn law_processing_counts(
    receiver: &mut Receiver,
    packet: &v2::PcmPacket,
    frames: LatencyFrames,
    decoded: Decoded,
    r: Result<Playout, AudioError>,
)
    requires
        call_ensures(Receiver::process_packet, (receiver, packet, frames, decoded), r),
        old(receiver).wf(),
    ensures
        r is Ok ==> final(receiver)@.totals.received == old(receiver)@.totals.received + 1,
        r is Err ==> final(receiver)@.totals == old(receiver)@.totals,
        final(receiver)@.totals.lost >= old(receiver)@.totals.lost,
        final(receiver)@.totals.late >= old(receiver)@.totals.late,
        final(receiver)@.totals.underruns >= old(receiver)@.totals.underruns,
        packet.codec == v2::Codec::Pcm ==> r is Ok,
{
    old(receiver).lemma_wf();
    law_statistics_never_fall(old(receiver)@, packet@, frames, decoded);
}

/// Below the target playback slows down, well above it it speeds up, and never the
/// other way round.
pub proof fn law_adjusting(occupancy: usize, target: usize, drift: Drift)
    requires
        call_ensures(adjust_for_occupancy, (occupancy, target), drift),
    ensures
        drift == Drift::SlowDown <==> occupancy < target,
        drift == Drift::SpeedUp <==> occupancy > target + 1 && 2 * (occupancy - target) > target + (
        if target % 2 == 1 {
            0int
        } else {
            1
        }),
{
}

/// What a ring buffer takes it gives out again, in order and once.
pub proof fn law_pushed_samples_are_popped(
    ring: &mut AudioRingBuffer,
    data: &[Sample],
    taken: usize,
    later: &mut AudioRingBuffer,
    output: &mut [Sample],
    given: usize,
)
    requires
        call_ensures(AudioRingBuffer::push, (ring, data), taken),
        call_ensures(AudioRingBuffer::pop, (later, output), given),
        *old(later) == *final(ring),
        old(ring)@.len() <= old(ring).spec_capacity(),
    ensures
        taken == data@.len() || final(ring)@.len() == old(ring).spec_capacity(),
        given == old(output)@.len() || final(later)@.len() == 0,
        final(output)@.take(given as int) + final(later)@ == old(ring)@ + data@.take(taken as int),
        final(output)@.skip(given as int) == old(output)@.skip(given as int),
{
    let all = old(ring)@ + data@.take(taken as int);
    assert(final(output)@.take(given as int) =~= all.take(given as int));
    assert(all.take(given as int) + all.skip(given as int) =~= all);
    assert(final(output)@.skip(given as int) =~= old(output)@.skip(given as int));
}

/// A new ring buffer is empty and holds at least what was asked for, and less than
/// twice as much.
pub proof fn law_new_ring_buffer(capacity: usize, ring: AudioRingBuffer)
    requires
        call_ensures(AudioRingBuffer::new, (capacity,), ring),
    ensures
        ring@.len() == 0,
        ring.spec_capacity() >= capacity,
        ring.spec_capacity() == 1 || ring.spec_capacity() < 2 * capacity,
{
}

/// The packets of a PCM transmitter carry what it was fed, in order, under rising
/// numbers and the stream's settings; less than a packet is kept back.
pub proof fn law_transmitting_pcm(
    transmitter: &mut Transmitter,
    samples: &[Sample],
    packets: Vec<v2::PcmPacket>,
    i: int,
)
    requires
        call_ensures(Transmitter::process_pcm, (transmitter, samples), packets),
        old(transmitter)@.config.codec == v2::Codec::Pcm,
        0 < old(transmitter)@.config.frame_samples(),
        0 <= i < packets@.len(),
    ensures
        packet_samples(views(packets@)) + final(transmitter)@.pending == old(transmitter)@.pending
            + samples@,
        4 * final(transmitter)@.pending.len() < 1200,
        packets@[i].sequence == (old(transmitter)@.sequence + i) % 0x1_0000_0000,
        packets@[i].sample_rate == old(transmitter)@.config.sample_rate,
        packets@[i].channels == old(transmitter)@.config.channels,
        packets@[i].codec == v2::Codec::Pcm,
        packets@[i].payload@.len() <= 1200,
        packets@[i].payload@.len() + 4 * packets@[i].channels > 1200,
        final(transmitter)@.sequence == (old(transmitter)@.sequence + packets@.len())
            % 0x1_0000_0000,
{
    let config = old(transmitter)@.config;
    let all = old(transmitter)@.pending + samples@;
    law_packets_conserve_samples(config, old(transmitter)@.sequence, all);
    law_packets_are_whole_and_contiguous(config, old(transmitter)@.sequence, all, i);
    law_pcm_packets_are_full(config);
    assert(views(packets@)[i] == packets@[i]@);
    assert(views(packets@).len() == packets@.len());
}

/// A frame is taken from the front of what was fed, when there is enough for one.
pub proof fn law_taking_a_frame(
    transmitter: &mut Transmitter,
    samples: &[Sample],
    later: &mut Transmitter,
    frame: Option<Vec<Sample>>,
)
    requires
        call_ensures(Transmitter::feed, (transmitter, samples), ()),
        call_ensures(Transmitter::next_frame, (later,), frame),
        *old(later) == *final(transmitter),
        0 < old(transmitter)@.config.frame_samples(),
    ensures
        ({
            let all = old(transmitter)@.pending + samples@;
            &&& frame is Some <==> all.len() >= old(transmitter)@.config.frame_samples()
            &&& frame matches Some(f) ==> f@ + final(later)@.pending == all && f@.len()
                == old(transmitter)@.config.frame_samples()
            &&& frame is None ==> final(later)@.pending == all
            &&& final(later)@.sequence == old(transmitter)@.sequence
        }),
{
    let all = old(transmitter)@.pending + samples@;
    let n = old(transmitter)@.config.frame_samples();
    if all.len() >= n {
        assert(all.take(n) + all.skip(n) =~= all);
    }
}

/// Opus packets are numbered one after the other.
pub proof fn law_numbering_opus_packets(
    transmitter: &mut Transmitter,
    payload: Vec<u8>,
    packet: v2::PcmPacket,
    later: &mut Transmitter,
    next_payload: Vec<u8>,
    next: v2::PcmPacket,
)
    requires
        call_ensures(Transmitter::opus_packet, (transmitter, payload), packet),
        call_ensures(Transmitter::opus_packet, (later, next_payload), next),
        *old(later) == *final(transmitter),
    ensures
        packet.sequence == old(transmitter)@.sequence,
        next.sequence == (packet.sequence + 1) % 0x1_0000_0000,
        packet.payload@ == payload@ && next.payload@ == next_payload@,
        packet.codec == v2::Codec::Opus,
        packet.sample_rate == old(transmitter)@.config.sample_rate,
        packet.channels == old(transmitter)@.config.channels,
{
}

/// A transmitter can be made unless Opus has no layout for its channels.
pub proof fn law_making_a_transmitter(config: TransmitterConfig, r: Result<Transmitter, AudioError>)
    requires
        call_ensures(Transmitter::new, (config,), r),
    ensures
        r is Ok <==> config.codec == v2::Codec::Pcm || config.channels == 1 || config.channels == 2,
        r matches Ok(t) ==> t@.config == config && t@.pending.len() == 0 && t@.sequence == 0,
{
}

/// A capture stream's datagrams are read back as the samples they were made of,
/// under rising numbers; nothing is sent for an empty read.
pub proof fn law_capturing(
    session: &mut CaptureSession,
    samples: &[Sample],
    bytes: Option<Vec<u8>>,
)
    requires
        call_ensures(CaptureSession::datagram, (session, samples), bytes),
        4 * samples@.len() <= u32::MAX,
    ensures
        bytes is None <==> samples@.len() == 0,
        bytes matches Some(b) ==> (protocol::decoded(b@) matches Ok(p) && p.samples == samples@
            && p.sequence == old(session)@.sequence && p.sample_rate == old(session)@.sample_rate
            && p.channels == old(session)@.channels),
        bytes is Some ==> final(session)@.sequence == (old(session)@.sequence + 1) % 0x1_0000_0000,
        final(session)@.sample_rate == old(session)@.sample_rate,
        final(session)@.channels == old(session)@.channels,
{
    law_captured_samples_are_received(old(session)@, samples@);
}

/// Reports are due every 500 datagrams sent, every 200 packets played, every 1000
/// datagrams received, and every 100 packets of a microphone.
pub proof fn law_reports_are_due(
    capture: &mut CaptureSession,
    len: usize,
    sent: bool,
    playback: &mut PlaybackSession,
    played: bool,
    receive: &ReceiveSession,
    received: bool,
    mic: &MicSession,
    counters: Option<(u64, u64)>,
)
    requires
        call_ensures(CaptureSession::sent, (capture, len), sent),
        call_ensures(PlaybackSession::processed, (playback,), played),
        call_ensures(ReceiveSession::report_due, (receive,), received),
        call_ensures(MicSession::report, (mic,), counters),
    ensures
        sent <==> (old(capture)@.sent_packets + 1) % 500 == 0,
        final(capture)@.sent_packets == old(capture)@.sent_packets + 1,
        final(capture)@.sent_bytes == old(capture)@.sent_bytes + len,
        final(capture)@.sequence == old(capture)@.sequence,
        played <==> (old(playback)@.received + 1) % 200 == 0,
        final(playback)@.received == old(playback)@.received + 1,
        final(playback)@.sink == old(playback)@.sink,
        received <==> receive@.received % 1000 == 0,
        counters is Some <==> mic@.sent_packets > 0 && mic@.sent_packets % 100 == 0,
        counters matches Some(c) ==> c.0 == mic@.sent_packets && c.1 == mic@.sent_bytes,
{
}

/// An output stream is opened for the first datagram and whenever the sender's
/// rate or channels change, and not again for the format it was opened for.
pub proof fn law_opening_streams(
    session: &mut ReceiveSession,
    sample_rate: u32,
    channels: u16,
    later: &mut ReceiveSession,
    data: &[u8],
    r: Result<(protocol::PcmPacket, bool), protocol::ProtocolError>,
    fresh: ReceiveSession,
)
    requires
        call_ensures(ReceiveSession::opened, (session, sample_rate, channels), ()),
        call_ensures(ReceiveSession::receive, (later, data), r),
        call_ensures(ReceiveSession::new, (), fresh),
        *old(later) == *final(session) || *old(later) == fresh,
    ensures
        r matches Ok(got) ==> {
            &&& *old(later) == fresh && fresh@.sink != final(session)@.sink ==> got.1
            &&& *old(later) == *final(session) ==> (got.1 <==> got.0.sample_rate != sample_rate
                || got.0.channels != channels)
            &&& final(later)@.received == old(later)@.received + 1
            &&& protocol::decoded(data@) == Ok::<protocol::PacketModel, protocol::ProtocolError>(
                got.0@,
            )
        },
        r is Err ==> final(later)@ == old(later)@,
        r is Ok <==> protocol::decoded(data@) is Ok,
{
}

/// A player is built for the first datagram and whenever the sender's rate or
/// channels change, and not again for the format it was built for.
pub proof fn law_building_players(
    session: &mut PlaybackSession,
    sample_rate: u32,
    channels: u16,
    status: String,
    later: &PlaybackSession,
    data: &[u8],
    r: Result<(v2::PcmPacket, bool), DatagramError>,
)
    requires
        call_ensures(PlaybackSession::rebuilt, (session, sample_rate, channels), status),
        call_ensures(PlaybackSession::receive, (later, data), r),
        *later == *final(session) || later@.sink is None,
    ensures
        r matches Ok(got) ==> {
            &&& later@.sink is None ==> got.1
            &&& *later == *final(session) ==> (got.1 <==> got.0.sample_rate != sample_rate
                || got.0.channels != channels)
        },
        final(session)@.received == old(session)@.received,
{
}

/// A microphone loop processes what was read, and leaves only when nothing was
/// read and it was asked to.
pub proof fn law_microphone_loop(session: &MicSession, n: usize, stop: bool, step: MicStep)
    requires
        call_ensures(MicSession::after_read, (session, n, stop), step),
    ensures
        n > 0 ==> step == MicStep::Process(n),
        step is Stop <==> n == 0 && stop,
        step is Wait <==> n == 0 && !stop,
{
}

/// A browser plays a packet exactly when its pipeline is built for that packet's
/// rate and channels; otherwise it asks for a pipeline of that format.
pub proof fn law_handling_messages(
    player: &mut Player,
    bytes: &[u8],
    r: Result<Handled, protocol::ProtocolError>,
)
    requires
        call_ensures(Player::handle_message, (player, bytes), r),
    ensures
        r is Ok <==> protocol::decoded(bytes@) is Ok,
        r is Err ==> final(player)@ == old(player)@,
        r matches Ok(handled) ==> {
            let p = protocol::decoded(bytes@)->Ok_0;
            let fits = old(player)@.has_worklet && old(player)@.sample_rate == p.sample_rate && old(player)@.channels == p.channels;
            &&& fits ==> (handled.action matches MessageAction::Play(packet) && packet@ == p)
            &&& !fits ==> (handled.action matches MessageAction::Rebuild { sample_rate, channels }
                && sample_rate == p.sample_rate && channels == p.channels)
            &&& !fits && old(player)@.pending.len() < 2 * (p.sample_rate * p.channels) ==> final(player)@.pending == old(player)@.pending + p.samples
            &&& handled.stats is Some <==> (old(player)@.packets + 1) % 100 == 0
        },
{
    if let Ok(handled) = r {
        let p = protocol::decoded(bytes@)->Ok_0;
        law_only_a_fitting_pipeline_plays(old(player)@, p, bytes@.len());
    }
}

/// A rebuilt pipeline gets everything that was buffered, and plays the packets of
/// the format it was built for.
pub proof fn law_finishing_a_rebuild(
    player: &mut Player,
    sample_rate: u32,
    channels: u16,
    flushed: Vec<Sample>,
    later: &mut Player,
    bytes: &[u8],
    r: Result<Handled, protocol::ProtocolError>,
)
    requires
        call_ensures(Player::finish_rebuild, (player, sample_rate, channels), flushed),
        call_ensures(Player::handle_message, (later, bytes), r),
        *old(later) == *final(player),
    ensures
        flushed@ == old(player)@.pending,
        final(player)@.pending.len() == 0,
        r matches Ok(handled) ==> {
            let p = protocol::decoded(bytes@)->Ok_0;
            handled.action is Play <==> p.sample_rate == sample_rate && p.channels == channels
        },
{
}

/// A session can be opened exactly while there is none.
pub proof fn law_connecting(occupied: bool, r: Result<Player, String>)
    requires
        call_ensures(crate::player::connect, (occupied,), r),
    ensures
        r is Ok <==> !occupied,
        r matches Ok(player) ==> !player@.has_worklet && player@.pending.len() == 0
            && player@.packets == 0 && player@.bytes == 0,
{
}

/// Milliseconds that make a span of time are the milliseconds in it.
pub proof fn law_milliseconds(millis: u64, d: Duration, back: u128)
    requires
        call_ensures(Duration::from_millis, (millis,), d),
        call_ensures(Duration::as_millis, (&d,), back),
    ensures
        back == millis,
{
}

/// The buffer tells what it holds, its target, and what it has counted.
pub proof fn law_asking_a_jitter_buffer(
    jitter: &JitterBuffer,
    buffered: usize,
    target: usize,
    latency: Duration,
    stats: JitterStats,
)
    requires
        call_ensures(JitterBuffer::buffered_frames, (jitter,), buffered),
        call_ensures(JitterBuffer::target_frames, (jitter,), target),
        call_ensures(JitterBuffer::stats, (jitter, latency), stats),
    ensures
        buffered == jitter@.ring.len() + waiting(jitter@.pending),
        target == jitter@.target,
        stats.packets_received == jitter@.received && stats.packets_lost == jitter@.lost
            && stats.late_packets == jitter@.late && stats.underruns == jitter@.underruns
            && stats.overruns == jitter@.overruns && stats.latency == latency,
{
}

/// A receiver reports its totals; telling it the latency changes nothing else.
pub proof fn law_asking_a_receiver(
    receiver: &mut Receiver,
    latency: Duration,
    later: &Receiver,
    stats: ReceiverStats,
)
    requires
        call_ensures(Receiver::sync_stats, (receiver, latency), ()),
        call_ensures(Receiver::stats, (later,), stats),
        *later == *final(receiver),
    ensures
        stats.packets_received == old(receiver)@.totals.received,
        stats.packets_lost == old(receiver)@.totals.lost,
        stats.late_packets == old(receiver)@.totals.late,
        stats.underruns == old(receiver)@.totals.underruns,
        old(receiver)@.stage is Some && latency.total_nanos() < 1_000_000_000_000_000 ==> {
            &&& 1_000_000 * stats.latency_ms <= latency.total_nanos()
            &&& latency.total_nanos() < 1_000_000 * (stats.latency_ms + 1)
        },
        final(receiver)@.stage == old(receiver)@.stage,
        final(receiver)@.output_rate == old(receiver)@.output_rate,
{
}

/// Without other wishes playback starts 60 ms behind, and stays between 20 ms and
/// 200 ms.
pub proof fn law_default_latencies(
    sample_rate: u32,
    channels: u16,
    config: JitterBufferConfig,
    initial: u128,
    least: u128,
    most: u128,
)
    requires
        call_ensures(JitterBufferConfig::new, (sample_rate, channels), config),
        call_ensures(Duration::as_millis, (&config.initial_latency,), initial),
        call_ensures(Duration::as_millis, (&config.min_latency,), least),
        call_ensures(Duration::as_millis, (&config.max_latency,), most),
    ensures
        initial == 60 && least == 20 && most == 200,
        config.sample_rate == sample_rate && config.channels == channels,
{
}

} // verus!
