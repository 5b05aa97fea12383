//! Calls about datagrams, counters and clients.

use crate::protocol;
use crate::protocol::v2;
use crate::session::{check_packet_frames, understand, DatagramError};
use crate::udp::UdpStats;
use crate::websocket::{ClientSet, PrefixedStream};
use vstd::prelude::*;

verus! {

/// A packet that is written is read back, also out of a buffer that it does not
/// fill, and also by a receiver that takes both formats.
pub proof fn law_first_format_round_trip(
    packet: &protocol::PcmPacket,
    out: &mut Vec<u8>,
    buf: &[u8],
    trailing: Seq<u8>,
    r: Result<protocol::PcmPacket, protocol::ProtocolError>,
    u: Result<v2::PcmPacket, DatagramError>,
    whole: &[u8],
)
    requires
        call_ensures(protocol::PcmPacket::encode, (packet, out), ()),
        call_ensures(protocol::PcmPacket::decode, (buf,), r),
        call_ensures(understand, (whole,), u),
        old(out)@.len() == 0,
        buf@ == final(out)@ + trailing,
        whole@ == final(out)@,
        4 * packet.samples@.len() <= u32::MAX,
    ensures
        final(out)@.len() == 19 + 4 * packet.samples@.len(),
        r matches Ok(p) && p.sequence == packet.sequence && p.sample_rate == packet.sample_rate
            && p.channels == packet.channels && p.samples@ == packet.samples@,
        u matches Ok(p) && p.sequence == packet.sequence && p.sample_rate == packet.sample_rate
            && p.channels == packet.channels && p.codec == v2::Codec::Pcm && p@.samples() == Some(
            packet.samples@,
        ),
{
    assert(old(out)@ + protocol::encoded(packet@) =~= protocol::encoded(packet@));
    protocol::law_decode_inverts_encode(packet@, trailing);
    protocol::law_encoded_len(packet@);
    crate::session::law_first_format_is_understood(packet@);
    crate::session::law_version_decides_the_format(whole@);
    protocol::law_decode_inverts_encode(packet@, Seq::empty());
    assert(whole@ + Seq::<u8>::empty() =~= whole@);
}

/// A packet that is written is read back, also out of a buffer that it does not
/// fill, and also by a receiver that takes both formats.
pub proof fn law_second_format_round_trip(
    packet: &v2::PcmPacket,
    out: &mut Vec<u8>,
    buf: &[u8],
    trailing: Seq<u8>,
    r: Result<v2::PcmPacket, v2::ProtocolError>,
    u: Result<v2::PcmPacket, DatagramError>,
    whole: &[u8],
)
    requires
        call_ensures(v2::PcmPacket::encode, (packet, out), ()),
        call_ensures(v2::PcmPacket::decode, (buf,), r),
        call_ensures(understand, (whole,), u),
        old(out)@.len() == 0,
        buf@ == final(out)@ + trailing,
        whole@ == final(out)@,
        packet.payload@.len() <= u32::MAX,
        packet.codec == v2::Codec::Pcm ==> packet.payload@.len() % 4 == 0,
    ensures
        final(out)@.len() == 20 + packet.payload@.len(),
        r matches Ok(p) && p.sequence == packet.sequence && p.sample_rate == packet.sample_rate
            && p.channels == packet.channels && p.codec == packet.codec && p.payload@
            == packet.payload@,
        u matches Ok(p) && p.sequence == packet.sequence && p.sample_rate == packet.sample_rate
            && p.channels == packet.channels && p.codec == packet.codec && p.payload@
            == packet.payload@,
{
    assert(old(out)@ + v2::encoded(packet@) =~= v2::encoded(packet@));
    v2::law_decode_inverts_encode(packet@, trailing);
    v2::law_encoded_len(packet@);
    crate::session::law_second_format_is_understood(packet@);
}

/// The samples that a packet is made of are the samples it gives back.
pub proof fn law_packets_give_back_their_samples(
    sequence: u32,
    sample_rate: u32,
    channels: u16,
    samples: &[u32],
    packet: v2::PcmPacket,
    back: Option<Vec<u32>>,
)
    requires
        call_ensures(v2::PcmPacket::from_pcm, (sequence, sample_rate, channels, samples), packet),
        call_ensures(v2::PcmPacket::samples, (&packet,), back),
    ensures
        back matches Some(s) && s@ == samples@,
        packet.sequence == sequence && packet.sample_rate == sample_rate && packet.channels
            == channels && packet.codec == v2::Codec::Pcm,
{
    v2::law_pcm_samples_round_trip(packet@, samples@);
}

/// Up to 300 samples fit a datagram, and no more.
pub proof fn law_checking_packet_sizes(packet_frames: usize, r: Result<(), String>)
    requires
        call_ensures(check_packet_frames, (packet_frames,), r),
    ensures
        r is Ok <==> packet_frames <= 300,
{
}

/// Every datagram is counted once, with all its bytes, on the side it passed.
pub proof fn law_counting_datagrams(stats: &mut UdpStats, n: usize, later: &mut UdpStats, k: usize)
    requires
        call_ensures(UdpStats::record_sent, (stats, n), ()),
        call_ensures(UdpStats::record_received, (later, k), ()),
        *old(later) == *final(stats),
        old(stats)@.packets_sent < u64::MAX,
        old(stats)@.packets_received < u64::MAX,
        old(stats)@.bytes_sent + n <= u64::MAX,
        old(stats)@.bytes_received + k <= u64::MAX,
    ensures
        final(later)@.packets_sent == old(stats)@.packets_sent + 1,
        final(later)@.bytes_sent == old(stats)@.bytes_sent + n,
        final(later)@.packets_received == old(stats)@.packets_received + 1,
        final(later)@.bytes_received == old(stats)@.bytes_received + k,
{
}

/// A client that registers is found under its id, beside all earlier ones with
/// other ids, until it is removed; ids are given out one after the other.
pub proof fn law_registering_clients<S>(
    set: &mut ClientSet<S>,
    client: S,
    id: u64,
    later: &mut ClientSet<S>,
    next_client: S,
    next_id: u64,
)
    requires
        call_ensures(ClientSet::<S>::register, (set, client), id),
        call_ensures(ClientSet::<S>::register, (later, next_client), next_id),
        *old(later) == *final(set),
    ensures
        id < u64::MAX ==> next_id == id + 1,
        final(set)@.contains_key(id) && final(set)@[id] == client,
        forall|k: u64|
            k != id ==> (#[trigger] final(set)@.contains_key(k) <==> old(set)@.contains_key(k)),
        forall|k: u64|
            k != id && #[trigger] old(set)@.contains_key(k) ==> final(set)@[k] == old(set)@[k],
        id < u64::MAX ==> final(later)@.contains_key(id) && final(later)@[id] == client
            && final(later)@.contains_key(next_id) && final(later)@[next_id] == next_client,
{
}

/// A client that is removed is gone, and only that one.
pub proof fn law_removing_clients<S>(
    set: &mut ClientSet<S>,
    id: u64,
    later: &mut ClientSet<S>,
    dead: &[u64],
    k: u64,
)
    requires
        call_ensures(ClientSet::<S>::remove, (set, id), ()),
        call_ensures(ClientSet::<S>::remove_dead, (later, dead), ()),
    ensures
        final(set)@.contains_key(k) <==> old(set)@.contains_key(k) && k != id,
        final(set)@.contains_key(k) ==> final(set)@[k] == old(set)@[k],
        final(later)@.contains_key(k) <==> old(later)@.contains_key(k) && !dead@.contains(k),
        final(later)@.contains_key(k) ==> final(later)@[k] == old(later)@[k],
{
}

/// The ids are those of the clients, each once, and as many as there are.
pub proof fn law_listing_clients<S>(set: &ClientSet<S>, ids: Vec<u64>, n: usize, k: u64)
    requires
        call_ensures(ClientSet::<S>::ids, (set,), ids),
        call_ensures(ClientSet::<S>::client_count, (set,), n),
    ensures
        ids@.contains(k) <==> set@.contains_key(k),
        ids@.len() == n,
{
    ids@.unique_seq_to_set();
    assert(ids@.to_set().contains(k) <==> ids@.contains(k));
}

/// The bytes that were already read come first, in order, as much of them as there
/// is room for.
pub proof fn law_replaying_a_prefix<S>(
    prefix: Vec<u8>,
    inner: S,
    stream: PrefixedStream<S>,
    reader: &mut PrefixedStream<S>,
    room: usize,
    bytes: Option<Vec<u8>>,
)
    requires
        call_ensures(PrefixedStream::<S>::new, (prefix, inner), stream),
        call_ensures(PrefixedStream::<S>::read_prefix, (reader, room), bytes),
        *old(reader) == stream,
    ensures
        bytes is None <==> prefix@.len() == 0,
        bytes matches Some(b) ==> b@ + final(reader)@ == prefix@ && b@.len() <= room && (b@.len()
            == room || final(reader)@.len() == 0),
        final(reader).spec_inner() == inner,
{
    if let Some(b) = bytes {
        assert(b@ + final(reader)@ =~= prefix@);
    }
}

} // verus!
