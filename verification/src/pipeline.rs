//! What holds from the transmitting end to the receiving end.

use crate::buffer::Sample;
use crate::bytes::bytes_to_words;
use crate::jitter::history::{distinct, law_packets_are_heard_in_order, lemma_pushed, pushed, pushes, unwrapped, JitterCall};
use crate::jitter::laws::{is_arrangement, law_reordered_packets_play_in_sequence, push_all};
use crate::jitter::model::{JitterModel, LatencyFrames, MAX_REORDER_PACKETS};
use crate::jitter::playout::{joined, lemma_joined_append, lemma_missing, numbered, rising};
use crate::protocol::v2::{decoded, encoded, law_decode_inverts_encode, law_encoded_len, Codec, PacketModel, ProtocolError};
use crate::transmitter::{law_packets_are_whole_and_contiguous, law_packets_conserve_samples, leftover, packet_samples, pcm_packets, TransmitterConfig};
use crate::udp::RECEIVE_BUFFER_BYTES;
use vstd::prelude::*;

verus! {

/// The samples of each packet.
pub open spec fn payloads(packets: Seq<PacketModel>) -> Seq<Seq<Sample>> {
    packets.map_values(|p: PacketModel| bytes_to_words(p.payload))
}

proof fn lemma_joined_payloads(packets: Seq<PacketModel>)
    ensures
        joined(payloads(packets)) == packet_samples(packets),
    decreases packets.len(),
{
    if packets.len() > 0 {
        let rest = packets.skip(1);
        lemma_joined_payloads(rest);
        let first = seq![bytes_to_words(packets[0].payload)];
        assert(payloads(packets) =~= first + payloads(rest));
        lemma_joined_append(first, payloads(rest));
        assert(first.drop_last() =~= Seq::empty());
        assert(joined(first.drop_last()) + first[0] =~= first[0]);
    }
}

/// Every packet that a PCM transmitter sends survives the wire: its datagram
/// fits the buffer that it is received into and decodes to the packet, and the
/// packet to the samples it was filled with.
pub proof fn law_sent_packets_survive_the_wire(
    config: TransmitterConfig,
    sequence: u32,
    samples: Seq<Sample>,
    i: int,
)
    requires
        config.codec == Codec::Pcm,
        0 < config.frame_samples(),
        0 <= i < pcm_packets(config, sequence, samples).len(),
    ensures
        ({
            let p = pcm_packets(config, sequence, samples)[i];
            &&& encoded(p).len() <= RECEIVE_BUFFER_BYTES
            &&& decoded(encoded(p)) == Ok::<PacketModel, ProtocolError>(p)
            &&& p.samples() == Some(payloads(pcm_packets(config, sequence, samples))[i])
        }),
{
    let p = pcm_packets(config, sequence, samples)[i];
    law_packets_are_whole_and_contiguous(config, sequence, samples, i);
    law_encoded_len(p);
    law_decode_inverts_encode(p, Seq::empty());
    assert(encoded(p) + Seq::<u8>::empty() =~= encoded(p));
}

/// What a PCM transmitter is fed is what the jitter buffer at the other end
/// makes playable, whatever the order in which the packets arrive: the playable
/// samples grow by exactly the samples fed, but for the rest that does not fill
/// a packet yet, and no packet counts as lost or late.
///
/// The packets must fit the reorder window and the queue, and their numbers
/// must not wrap around.
pub proof fn law_transmitted_samples_are_played(
    config: TransmitterConfig,
    samples: Seq<Sample>,
    receiver: JitterModel,
    order: Seq<int>,
)
    requires
        config.codec == Codec::Pcm,
        0 < config.frame_samples(),
        receiver.valid(),
        receiver.next is Some,
        receiver.pending == Map::<u32, Seq<Sample>>::empty(),
        receiver.ring.len() + samples.len() <= receiver.capacity,
        ({
            let packets = pcm_packets(config, receiver.next->0, samples);
            &&& packets.len() <= MAX_REORDER_PACKETS + 1
            &&& receiver.next->0 + packets.len() <= u32::MAX + 1
            &&& is_arrangement(order, packets.len())
        }),
    ensures
        ({
            let sequence = receiver.next->0;
            let packets = pcm_packets(config, sequence, samples);
            let after = push_all(receiver, sequence, payloads(packets), order);
            &&& forall|i: int|
                0 <= i < packets.len() ==> (#[trigger] packets[i]).sequence == sequence + i
            &&& after.ring + leftover(config.frame_samples(), samples) == receiver.ring + samples
            &&& after.lost == receiver.lost
            &&& after.late == receiver.late
            &&& after.overruns == receiver.overruns
        }),
{
    let sequence = receiver.next->0;
    let packets = pcm_packets(config, sequence, samples);
    let left = leftover(config.frame_samples(), samples);
    assert forall|i: int| 0 <= i < packets.len() implies (#[trigger] packets[i]).sequence == sequence
        + i by {
        law_packets_are_whole_and_contiguous(config, sequence, samples, i);
    }
    law_packets_conserve_samples(config, sequence, samples);
    lemma_joined_payloads(packets);
    assert(packet_samples(packets).len() + left.len() == samples.len());
    law_reordered_packets_play_in_sequence(receiver, sequence, payloads(packets), order);
    assert((receiver.ring + packet_samples(packets)) + left =~= receiver.ring + (packet_samples(
        packets,
    ) + left));
}

/// Every packet that the calls push is one of `packets`.
pub open spec fn delivers(packets: Seq<PacketModel>, calls: Seq<JitterCall>) -> bool {
    forall|i: int| 0 <= i < calls.len() ==> delivers_one(packets, #[trigger] calls[i])
}

/// The packet that a call pushes, if any, is one of `packets`.
pub open spec fn delivers_one(packets: Seq<PacketModel>, call: JitterCall) -> bool {
    call matches JitterCall::Push { sequence, samples } ==> exists|j: int|
        0 <= j < packets.len() && (#[trigger] packets[j]).sequence == sequence && samples
            == bytes_to_words(packets[j].payload)
}

/// As many rising numbers of a range as it holds are the whole range.
proof fn lemma_whole_range(numbers: Seq<u32>, from: int, i: int)
    requires
        rising(numbers),
        forall|i: int|
            0 <= i < numbers.len() ==> from <= #[trigger] numbers[i] < from + numbers.len(),
        0 <= i < numbers.len(),
    ensures
        numbers[i] == from + i,
    decreases numbers.len(),
{
    let last = numbers.len() - 1;
    lemma_rises(numbers, from, last);
    if i < last {
        let rest = numbers.drop_last();
        assert forall|j: int| 0 <= j < rest.len() implies from <= #[trigger] rest[j] < from
            + rest.len() by {
            assert(numbers[j] < numbers[last]);
        }
        lemma_whole_range(rest, from, i);
    }
}

/// Rising numbers rise by at least one.
proof fn lemma_rises(numbers: Seq<u32>, from: int, i: int)
    requires
        rising(numbers),
        0 <= i < numbers.len(),
        from <= numbers[0],
    ensures
        from + i <= numbers[i],
    decreases i,
{
    if i > 0 {
        lemma_rises(numbers, from, i - 1);
        assert(numbers[i - 1] < numbers[i]);
    }
}

/// What a PCM transmitter is fed is what the reads at the other end return,
/// whatever the order in which the packets arrive and however reads come between
/// them: once every packet has arrived, none of them late, none waiting and no
/// queue overrun, the samples returned, those left to play and the rest that
/// does not fill a packet yet are together the samples fed.
///
/// The numbers of the packets must not wrap around.
pub proof fn law_transmitted_samples_are_heard(
    config: TransmitterConfig,
    sequence: u32,
    samples: Seq<Sample>,
    receiver: JitterModel,
    frames: LatencyFrames,
    calls: Seq<JitterCall>,
)
    requires
        config.codec == Codec::Pcm,
        0 < config.frame_samples(),
        sequence + pcm_packets(config, sequence, samples).len() <= u32::MAX,
        receiver.orderly(),
        receiver.next is None,
        delivers(pcm_packets(config, sequence, samples), calls),
        distinct(calls),
        pushes(calls) == pcm_packets(config, sequence, samples).len(),
        receiver.run(frames, calls).late == receiver.late,
        receiver.run(frames, calls).overruns == receiver.overruns,
        receiver.run(frames, calls).pending == Map::<u32, Seq<Sample>>::empty(),
    ensures
        receiver.heard(frames, calls) + receiver.run(frames, calls).ring + leftover(
            config.frame_samples(),
            samples,
        ) == samples,
        receiver.run(frames, calls).lost == receiver.lost,
{
    let packets = pcm_packets(config, sequence, samples);
    let n = packets.len();
    assert forall|i: int| 0 <= i < n implies (#[trigger] packets[i]).sequence == sequence + i by {
        law_packets_are_whole_and_contiguous(config, sequence, samples, i);
    }
    assert(unwrapped(calls)) by {
        assert forall|i: int| 0 <= i < calls.len() implies (#[trigger] calls[i]).number() != Some(
            u32::MAX,
        ) by {
            assert(delivers_one(packets, calls[i]));
        }
    }
    let numbers = law_packets_are_heard_in_order(receiver, frames, calls);
    assert(numbers.len() == n);
    let arrived = pushed(calls);
    assert forall|i: int| 0 <= i < n implies sequence <= #[trigger] numbers[i] < sequence + n
        && arrived[numbers[i]] == payloads(packets)[numbers[i] - sequence] by {
        let at = lemma_pushed(calls, numbers[i]);
        assert(delivers_one(packets, calls[at]));
    }
    assert forall|i: int| 0 <= i < n implies #[trigger] numbers[i] == sequence + i by {
        lemma_whole_range(numbers, sequence as int, i);
    }
    if n > 0 {
        assert(numbers.last() == sequence + n - 1);
        lemma_missing(numbers, sequence as int, sequence + n);
    }
    assert(numbered(arrived, numbers) =~= payloads(packets));
    lemma_joined_payloads(packets);
    law_packets_conserve_samples(config, sequence, samples);
}

} // verus!
