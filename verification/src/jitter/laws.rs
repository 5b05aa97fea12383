//! What the steps of a jitter buffer add up to.

use crate::buffer::{min_len, Sample, SILENCE};
use crate::jitter::model::{first_key, lemma_first_key, max_of, JitterModel, LatencyFrames, MAX_REORDER_PACKETS};
use crate::jitter::playout::joined;
use vstd::prelude::*;

verus! {

/// The state after the packets numbered `base + order[0]`, `base + order[1]`,
/// ... have arrived in that order.
pub open spec fn push_all(
    m: JitterModel,
    base: u32,
    packets: Seq<Seq<Sample>>,
    order: Seq<int>,
) -> JitterModel
    decreases order.len(),
{
    if order.len() == 0 {
        m
    } else {
        push_all(m, base, packets, order.drop_last()).push(
            (base + order.last()) as u32,
            packets[order.last()],
        )
    }
}

/// `order` lists every number below `n` exactly once.
pub open spec fn is_arrangement(order: Seq<int>, n: nat) -> bool {
    &&& order.len() == n
    &&& order.no_duplicates()
    &&& forall|i: int| 0 <= i < order.len() ==> 0 <= #[trigger] order[i] < n
}

/// The waiting packets: those that have arrived with an index of at least
/// `from`.
spec fn window(base: u32, packets: Seq<Seq<Sample>>, arrived: Set<int>, from: int) -> Map<
    u32,
    Seq<Sample>,
> {
    Map::new(
        |k: u32| base + from <= k && arrived.contains(k - base),
        |k: u32| packets[k - base],
    )
}

/// `r` is `m` after the first `c` packets have been enqueued and the rest of
/// the arrived ones wait.
spec fn reached(
    m: JitterModel,
    r: JitterModel,
    base: u32,
    packets: Seq<Seq<Sample>>,
    arrived: Set<int>,
    c: int,
) -> bool {
    &&& 0 <= c <= packets.len()
    &&& r.valid()
    &&& r.ring == m.ring + joined(packets.take(c))
    &&& r.pending == window(base, packets, arrived, c)
    &&& r.next == Some(wrap(base + c))
    &&& r.capacity == m.capacity
    &&& r.lost == m.lost
    &&& r.late == m.late
    &&& r.overruns == m.overruns
}

/// The sequence number that follows `u32::MAX` is zero.
pub open spec fn wrap(sequence: int) -> u32 {
    if sequence <= u32::MAX {
        sequence as u32
    } else {
        0
    }
}

proof fn lemma_joined_prefix(packets: Seq<Seq<Sample>>, c: int)
    requires
        0 <= c < packets.len(),
    ensures
        joined(packets.take(c + 1)) == joined(packets.take(c)) + packets[c],
        joined(packets.take(c + 1)).len() <= joined(packets).len(),
    decreases packets.len() - c,
{
    assert(packets.take(c + 1).drop_last() =~= packets.take(c));
    if c + 1 == packets.len() {
        assert(packets.take(c + 1) =~= packets);
    } else {
        lemma_joined_prefix(packets, c + 1);
    }
}

/// Draining plays the arrived packets up to the first one that is missing.
proof fn lemma_drain_window(
    m: JitterModel,
    r: JitterModel,
    base: u32,
    packets: Seq<Seq<Sample>>,
    arrived: Set<int>,
    c: int,
) -> (stop: int)
    requires
        reached(m, r, base, packets, arrived, c),
        packets.len() <= MAX_REORDER_PACKETS + 1,
        base + packets.len() <= u32::MAX + 1,
        m.ring.len() + joined(packets).len() <= m.capacity,
        forall|i: int| #[trigger] arrived.contains(i) ==> 0 <= i < packets.len(),
    ensures
        c <= stop,
        !arrived.contains(stop),
        forall|i: int| c <= i < stop ==> arrived.contains(i),
        reached(m, r.drain(), base, packets, arrived, stop),
        r.drain().received == r.received,
        r.drain().started == r.started,
    decreases packets.len() - c,
{
    let expected = wrap(base + c);
    if arrived.contains(c) {
        assert(r.pending.contains_key(expected));
        let p = r.play_waiting(expected);
        lemma_joined_prefix(packets, c);
        assert(packets[c].take(packets[c].len() as int) =~= packets[c]);
        assert(p.ring =~= m.ring + joined(packets.take(c + 1)));
        assert(p.pending =~= window(base, packets, arrived, c + 1));
        lemma_drain_window(m, p, base, packets, arrived, c + 1)
    } else {
        assert(!r.pending.contains_key(expected));
        c
    }
}

/// One more packet of the window arrives.
proof fn lemma_push_window(
    m: JitterModel,
    r: JitterModel,
    base: u32,
    packets: Seq<Seq<Sample>>,
    arrived: Set<int>,
    c: int,
    j: int,
) -> (stop: int)
    requires
        reached(m, r, base, packets, arrived, c),
        packets.len() <= MAX_REORDER_PACKETS + 1,
        base + packets.len() <= u32::MAX + 1,
        m.ring.len() + joined(packets).len() <= m.capacity,
        forall|i: int| #[trigger] arrived.contains(i) ==> 0 <= i < packets.len(),
        !arrived.contains(c),
        forall|i: int| 0 <= i < c ==> arrived.contains(i),
        0 <= j < packets.len(),
        !arrived.contains(j),
    ensures
        !arrived.insert(j).contains(stop),
        forall|i: int| 0 <= i < stop ==> arrived.insert(j).contains(i),
        reached(
            m,
            r.push((base + j) as u32, packets[j]),
            base,
            packets,
            arrived.insert(j),
            stop,
        ),
        r.push((base + j) as u32, packets[j]).received == r.received + 1,
{
    let more = arrived.insert(j);
    let sequence = (base + j) as u32;
    let started = JitterModel { received: r.received + 1, started: true, ..r };
    if j == c {
        let p = started.play(sequence, packets[j]);
        lemma_joined_prefix(packets, c);
        assert(packets[c].take(packets[c].len() as int) =~= packets[c]);
        assert(p.ring =~= m.ring + joined(packets.take(c + 1)));
        assert(p.pending =~= window(base, packets, more, c + 1));
        lemma_drain_window(m, p, base, packets, more, c + 1)
    } else {
        assert(c < j);
        let p = JitterModel { pending: started.pending.insert(sequence, packets[j]), ..started };
        assert(p.pending =~= window(base, packets, more, c));
        c
    }
}

/// More packets of the window arrive, none of them for the second time.
proof fn lemma_push_more(
    m: JitterModel,
    r: JitterModel,
    base: u32,
    packets: Seq<Seq<Sample>>,
    arrived: Set<int>,
    c: int,
    order: Seq<int>,
) -> (stop: int)
    requires
        reached(m, r, base, packets, arrived, c),
        packets.len() <= MAX_REORDER_PACKETS + 1,
        base + packets.len() <= u32::MAX + 1,
        m.ring.len() + joined(packets).len() <= m.capacity,
        forall|i: int| #[trigger] arrived.contains(i) ==> 0 <= i < packets.len(),
        !arrived.contains(c),
        forall|i: int| 0 <= i < c ==> arrived.contains(i),
        order.no_duplicates(),
        forall|i: int| 0 <= i < order.len() ==> 0 <= #[trigger] order[i] < packets.len(),
        forall|i: int| 0 <= i < order.len() ==> !arrived.contains(#[trigger] order[i]),
    ensures
        reached(
            m,
            push_all(r, base, packets, order),
            base,
            packets,
            arrived.union(order.to_set()),
            stop,
        ),
        !arrived.union(order.to_set()).contains(stop),
        forall|i: int| 0 <= i < stop ==> arrived.union(order.to_set()).contains(i),
        push_all(r, base, packets, order).received == r.received + order.len(),
    decreases order.len(),
{
    if order.len() == 0 {
        assert(arrived.union(order.to_set()) =~= arrived);
        c
    } else {
        let before = order.drop_last();
        let j = order.last();
        let some = arrived.union(before.to_set());
        let d = lemma_push_more(m, r, base, packets, arrived, c, before);
        assert(!before.contains(j)) by {
            if before.contains(j) {
                let i = choose|i: int| 0 <= i < before.len() && before[i] == j;
                assert(order[i] == order[order.len() - 1]);
            }
        }
        assert(!arrived.contains(order[order.len() - 1]));
        assert(some.insert(j) =~= arrived.union(order.to_set())) by {
            assert forall|x: int| order.contains(x) implies before.contains(x) || x == j by {
                let i = choose|i: int| 0 <= i < order.len() && order[i] == x;
                if i < order.len() - 1 {
                    assert(before[i] == x);
                }
            }
            assert forall|x: int| before.contains(x) implies order.contains(x) by {
                let i = choose|i: int| 0 <= i < before.len() && before[i] == x;
                assert(order[i] == x);
            }
            assert(order.contains(j)) by {
                assert(order[order.len() - 1] == j);
            }
        }
        assert forall|i: int| #[trigger] some.contains(i) implies 0 <= i < packets.len() by {
            if !arrived.contains(i) {
                let at = choose|at: int| 0 <= at < before.len() && before[at] == i;
                assert(order[at] == i);
            }
        }
        lemma_push_window(m, push_all(r, base, packets, before), base, packets, some, d, j)
    }
}

/// Nothing of the window has arrived yet.
proof fn lemma_reached_start(m: JitterModel, base: u32, packets: Seq<Seq<Sample>>)
    requires
        m.valid(),
        m.next == Some(base),
        m.pending == Map::<u32, Seq<Sample>>::empty(),
    ensures
        reached(m, m, base, packets, Set::empty(), 0),
{
    assert(packets.take(0) =~= Seq::empty());
    assert(m.ring + joined(packets.take(0)) =~= m.ring);
    assert(m.pending =~= window(base, packets, Set::empty(), 0));
}

/// The whole window has arrived.
proof fn lemma_reached_end(
    m: JitterModel,
    r: JitterModel,
    base: u32,
    packets: Seq<Seq<Sample>>,
    order: Seq<int>,
    stop: int,
)
    requires
        is_arrangement(order, packets.len()),
        reached(m, r, base, packets, order.to_set(), stop),
        !order.to_set().contains(stop),
    ensures
        r.ring == m.ring + joined(packets),
        r.pending == Map::<u32, Seq<Sample>>::empty(),
        r.next == Some(wrap(base + packets.len())),
{
    let all = order.to_set();
    if stop < packets.len() {
        lemma_arrangement_has_all(order, packets.len(), stop);
    }
    assert(packets.take(stop) =~= packets);
    assert(window(base, packets, all, stop) =~= Map::empty()) by {
        assert forall|k: u32| !window(base, packets, all, stop).contains_key(k) by {
            if all.contains(k - base) {
                let i = choose|i: int| 0 <= i < order.len() && order[i] == k - base;
                assert(order[i] < packets.len());
            }
        }
    }
}

/// Whatever the order in which the packets of a reorder window arrive, they are
/// played in the order of their sequence numbers, and none of them counts as
/// lost or late.
///
/// The window must end before the sequence number wraps around.
pub proof fn law_reordered_packets_play_in_sequence(
    m: JitterModel,
    base: u32,
    packets: Seq<Seq<Sample>>,
    order: Seq<int>,
)
    requires
        m.valid(),
        m.next == Some(base),
        m.pending == Map::<u32, Seq<Sample>>::empty(),
        packets.len() <= MAX_REORDER_PACKETS + 1,
        base + packets.len() <= u32::MAX + 1,
        m.ring.len() + joined(packets).len() <= m.capacity,
        is_arrangement(order, packets.len()),
    ensures
        ({
            let r = push_all(m, base, packets, order);
            &&& r.ring == m.ring + joined(packets)
            &&& r.pending == Map::<u32, Seq<Sample>>::empty()
            &&& r.next == Some(wrap(base + packets.len()))
            &&& r.received == m.received + packets.len()
            &&& r.lost == m.lost
            &&& r.late == m.late
            &&& r.overruns == m.overruns
        }),
{
    lemma_reached_start(m, base, packets);
    let stop = lemma_push_more(m, m, base, packets, Set::empty(), 0, order);
    assert(Set::<int>::empty().union(order.to_set()) =~= order.to_set());
    lemma_reached_end(m, push_all(m, base, packets, order), base, packets, order, stop);
}

/// An arrangement leaves no number out.
proof fn lemma_arrangement_has_all(order: Seq<int>, n: nat, x: int)
    requires
        is_arrangement(order, n),
        0 <= x < n,
    ensures
        order.to_set().contains(x),
{
    let range = vstd::set_lib::set_int_range(0, n as int);
    vstd::set_lib::lemma_int_range(0, n as int);
    order.unique_seq_to_set();
    assert(order.to_set().subset_of(range));
    vstd::set_lib::lemma_subset_equality(order.to_set(), range);
}

/// A packet older than the expected one is counted as late and changes nothing
/// that is played.
pub proof fn law_late_packet_is_dropped(m: JitterModel, sequence: u32, samples: Seq<Sample>)
    requires
        m.next matches Some(expected) && sequence < expected,
    ensures
        m.push(sequence, samples) == (JitterModel {
            received: m.received + 1,
            late: m.late + 1,
            started: true,
            ..m
        }),
{
}

/// The first packet fixes where playback starts.
pub proof fn law_first_packet_starts_playback(
    m: JitterModel,
    sequence: u32,
    samples: Seq<Sample>,
)
    requires
        m.valid(),
        m.next is None,
        m.ring.len() + samples.len() <= m.capacity,
    ensures
        m.push(sequence, samples) == (JitterModel {
            ring: m.ring + samples,
            next: Some(wrap(sequence + 1)),
            received: m.received + 1,
            started: true,
            ..m
        }),
{
    assert(samples.take(samples.len() as int) =~= samples);
}

/// A read that runs dry for the first time waits for the missing packets: it
/// yields silence and changes neither what is buffered nor what counts as lost.
pub proof fn law_first_dry_read_waits(m: JitterModel, frames: LatencyFrames, wanted: nat)
    requires
        m.ring.len() == 0,
        m.stalled != m.next,
    ensures
        m.readable(wanted) == 0,
        m.output(wanted) == Seq::new(wanted, |i: int| SILENCE),
        m.read(frames, wanted).ring == m.ring,
        m.read(frames, wanted).pending == m.pending,
        m.read(frames, wanted).next == m.next,
        m.read(frames, wanted).lost == m.lost,
        wanted > 0 && m.pending.dom().len() > 0 ==> m.read(frames, wanted).stalled == m.next,
{
    assert(m.settle() == m);
    assert(m.output(wanted) =~= Seq::new(wanted, |i: int| SILENCE));
    assert(m.ring.skip(0) =~= m.ring);
}

/// A read that runs dry again gives up on the packets missing before the oldest
/// waiting one, counts exactly those as lost, and goes on with its samples.
pub proof fn law_gap_is_skipped_when_dry(m: JitterModel, wanted: nat)
    requires
        m.orderly(),
        m.settles(),
        m.pending[first_key(m.pending)].len() <= m.capacity,
    ensures
        ({
            let first = first_key(m.pending);
            let heard = m.pending[first];
            let n = min_len(wanted, heard.len());
            &&& m.settle().lost == m.lost + (first - m.next->0)
            &&& !m.settle().pending.contains_key(first)
            &&& m.readable(wanted) >= n
            &&& m.output(wanted).take(n as int) == heard.take(n as int)
        }),
{
    let first = first_key(m.pending);
    let heard = m.pending[first];
    lemma_first_key(m.pending);
    m.lemma_settle();
    let skipped = m.skip_to(m.next->0, first);
    let played = skipped.play_waiting(first);
    assert(skipped.drain() == played.drain());
    assert(heard.take(heard.len() as int) =~= heard);
    assert(played.ring =~= heard);
    assert forall|k: u32| #[trigger] played.pending.contains_key(k) implies played.next->0 <= k
        <= m.next->0 + MAX_REORDER_PACKETS by {
        assert(m.pending.contains_key(k) && k != first);
    }
    played.lemma_drain(m.next->0 + MAX_REORDER_PACKETS);
    let n = min_len(wanted, heard.len());
    let ring = m.settle().ring;
    assert(ring.take(heard.len() as int) =~= heard);
    assert forall|i: int| 0 <= i < n implies m.output(wanted)[i] == heard[i] by {
        assert(ring.take(heard.len() as int)[i] == heard[i]);
    }
    assert(m.output(wanted).take(n as int) =~= heard.take(n as int));
}

/// With a single packet waiting behind a gap, the second dry read counts exactly
/// the missing packets as lost and plays the waiting one.
pub proof fn law_gap_before_one_packet_is_counted_exactly(m: JitterModel, k: u32, wanted: nat)
    requires
        m.valid(),
        m.next is Some,
        m.next->0 < k,
        m.stalled == m.next,
        m.ring.len() == 0,
        m.pending == Map::<u32, Seq<Sample>>::empty().insert(k, m.pending[k]),
        m.pending[k].len() <= m.capacity,
    ensures
        m.settle() == (JitterModel {
            ring: m.pending[k],
            pending: Map::empty(),
            next: Some(wrap(k + 1)),
            lost: (m.lost + k - m.next->0) as nat,
            ..m
        }),
{
    let heard = m.pending[k];
    let expected = m.next->0;
    assert(m.pending.contains_key(k));
    assert(m.pending.dom() =~= Set::empty().insert(k));
    lemma_first_key(m.pending);
    assert(first_key(m.pending) == k);
    let skipped = m.skip_to(expected, k);
    let played = skipped.play_waiting(k);
    assert(heard.take(heard.len() as int) =~= heard);
    assert(played.ring =~= heard);
    assert(played.pending =~= Map::empty());
    assert(skipped.drain() == played.drain());
    assert(played.drain() == played);
}

/// A late start of the window is forgiven: when a read runs dry because the
/// first packet is missing while others wait, and the missing packets arrive
/// before the next read, all packets are played in the order of their sequence
/// numbers, and none of them counts as lost or late.
pub proof fn law_one_dry_read_loses_nothing(
    m: JitterModel,
    frames: LatencyFrames,
    wanted: nat,
    base: u32,
    packets: Seq<Seq<Sample>>,
    early: Seq<int>,
    rest: Seq<int>,
)
    requires
        m.valid(),
        m.next == Some(base),
        m.stalled != m.next,
        m.pending == Map::<u32, Seq<Sample>>::empty(),
        m.ring.len() == 0,
        packets.len() <= MAX_REORDER_PACKETS + 1,
        base + packets.len() <= u32::MAX + 1,
        joined(packets).len() <= m.capacity,
        is_arrangement(early + rest, packets.len()),
        !early.contains(0),
    ensures
        ({
            let dry = push_all(m, base, packets, early).read(frames, wanted);
            let r = push_all(dry, base, packets, rest);
            &&& push_all(m, base, packets, early).readable(wanted) == 0
            &&& r.ring == joined(packets)
            &&& r.pending == Map::<u32, Seq<Sample>>::empty()
            &&& r.next == Some(wrap(base + packets.len()))
            &&& r.lost == m.lost
            &&& r.late == m.late
            &&& r.overruns == m.overruns
        }),
{
    let order = early + rest;
    let none = Set::<int>::empty();
    let some = none.union(early.to_set());
    assert forall|i: int| 0 <= i < early.len() implies 0 <= #[trigger] early[i] < packets.len() by {
        assert(order[i] == early[i]);
    }
    assert(early.no_duplicates()) by {
        assert forall|i: int, j: int| 0 <= i < early.len() && 0 <= j < early.len() && i != j implies early[i]
            != early[j] by {
            assert(order[i] == early[i] && order[j] == early[j]);
        }
    }
    lemma_reached_start(m, base, packets);
    let c = lemma_push_more(m, m, base, packets, none, 0, early);
    let a = push_all(m, base, packets, early);
    assert(c == 0) by {
        if c > 0 {
            assert(some.contains(0));
        }
    }
    lemma_stalled_unchanged(m, base, packets, early);
    assert(packets.take(0) =~= Seq::empty());
    assert(a.ring =~= m.ring);
    law_first_dry_read_waits(a, frames, wanted);
    let dry = a.read(frames, wanted);
    assert(reached(m, dry, base, packets, some, 0));
    assert forall|i: int| 0 <= i < rest.len() implies 0 <= #[trigger] rest[i] < packets.len()
        && !some.contains(rest[i]) by {
        assert(order[early.len() + i] == rest[i]);
        if some.contains(rest[i]) {
            let k = choose|k: int| 0 <= k < early.len() && early[k] == rest[i];
            assert(order[k] == rest[i]);
        }
    }
    assert(rest.no_duplicates()) by {
        assert forall|i: int, j: int| 0 <= i < rest.len() && 0 <= j < rest.len() && i != j implies rest[i]
            != rest[j] by {
            assert(order[early.len() + i] == rest[i] && order[early.len() + j] == rest[j]);
        }
    }
    assert forall|i: int| #[trigger] some.contains(i) implies 0 <= i < packets.len() by {
        let k = choose|k: int| 0 <= k < early.len() && early[k] == i;
        assert(early[k] == i);
    }
    let stop = lemma_push_more(m, dry, base, packets, some, 0, rest);
    assert(some.union(rest.to_set()) =~= order.to_set()) by {
        assert forall|x: int| order.contains(x) implies early.contains(x) || rest.contains(x) by {
            let i = choose|i: int| 0 <= i < order.len() && order[i] == x;
            if i < early.len() {
                assert(early[i] == x);
            } else {
                assert(rest[i - early.len()] == x);
            }
        }
        assert forall|x: int| early.contains(x) implies order.contains(x) by {
            let i = choose|i: int| 0 <= i < early.len() && early[i] == x;
            assert(order[i] == x);
        }
        assert forall|x: int| rest.contains(x) implies order.contains(x) by {
            let i = choose|i: int| 0 <= i < rest.len() && rest[i] == x;
            assert(order[early.len() + i] == x);
        }
    }
    lemma_reached_end(m, push_all(dry, base, packets, rest), base, packets, order, stop);
    assert(m.ring + joined(packets) =~= joined(packets));
}

/// Only reads touch the record of the last stall.
proof fn lemma_stalled_unchanged(
    m: JitterModel,
    base: u32,
    packets: Seq<Seq<Sample>>,
    order: Seq<int>,
)
    requires
        m.orderly(),
    ensures
        push_all(m, base, packets, order).orderly(),
        push_all(m, base, packets, order).stalled == m.stalled,
    decreases order.len(),
{
    if order.len() > 0 {
        lemma_stalled_unchanged(m, base, packets, order.drop_last());
        push_all(m, base, packets, order.drop_last()).lemma_push(
            (base + order.last()) as u32,
            packets[order.last()],
        );
    }
}

/// Before the first packet, reading yields silence and changes nothing.
pub proof fn law_silence_before_the_first_packet(
    m: JitterModel,
    frames: LatencyFrames,
    wanted: nat,
)
    requires
        m.orderly(),
        m.next is None,
        !m.started,
    ensures
        m.readable(wanted) == 0,
        m.output(wanted) == Seq::new(wanted, |i: int| SILENCE),
        m.read(frames, wanted) == m,
{
    assert(m.output(wanted) =~= Seq::new(wanted, |i: int| SILENCE));
    assert(m.ring.skip(0) =~= m.ring);
}

/// Two reads deliver what one read of their joint length delivers.
pub proof fn law_reads_are_consecutive(
    m: JitterModel,
    frames: LatencyFrames,
    first: nat,
    second: nat,
)
    requires
        first + second <= m.ring.len(),
    ensures
        m.output(first) + m.read(frames, first).output(second) == m.output(first + second),
        m.output(first + second) == m.ring.take((first + second) as int),
{
    let after = m.read(frames, first);
    if m.ring.len() == 0 {
        assert(m.output(0) + after.output(0) =~= m.ring.take(0));
        assert(m.output(0) =~= m.ring.take(0));
    } else {
        assert(after.ring == m.ring.skip(first as int));
        assert(after.output(second) =~= m.ring.skip(first as int).take(second as int));
        assert(m.output(first) =~= m.ring.take(first as int));
        assert(m.output(first + second) =~= m.ring.take((first + second) as int));
        assert(m.output(first) + after.output(second) =~= m.output(first + second));
    }
}

/// A target within the configured range stays within it.
pub proof fn law_target_stays_in_range(m: JitterModel, frames: LatencyFrames, wanted: nat)
    requires
        m.orderly(),
        max_of(frames.min as int, 1) <= m.target <= frames.max,
    ensures
        max_of(frames.min as int, 1) <= m.read(frames, wanted).target <= frames.max,
{
    m.lemma_settle();
}

/// An underrun raises a target below the maximum.
pub proof fn law_underrun_grows_the_target(m: JitterModel, frames: LatencyFrames, wanted: nat)
    requires
        m.orderly(),
        m.started,
        m.target < frames.max,
        m.readable(wanted) < wanted,
    ensures
        m.read(frames, wanted).target > m.target,
        m.read(frames, wanted).underruns == m.underruns + 1,
{
    m.lemma_settle();
}

/// A full read never counts an underrun and never raises a target above the
/// minimum.
pub proof fn law_full_read_does_not_grow_the_target(
    m: JitterModel,
    frames: LatencyFrames,
    wanted: nat,
)
    requires
        m.orderly(),
        m.readable(wanted) == wanted,
        max_of(frames.min as int, 1) <= m.target,
    ensures
        m.read(frames, wanted).target <= m.target,
        m.read(frames, wanted).underruns == m.underruns,
{
    m.lemma_settle();
}

/// Every sample of a new packet is playable, waiting or counted as overrun, and
/// so is every sample that a read does not return.
pub proof fn law_calls_account_for_every_sample(
    m: JitterModel,
    frames: LatencyFrames,
    sequence: u32,
    samples: Seq<Sample>,
    wanted: nat,
)
    requires
        m.orderly(),
    ensures
        !m.is_late(sequence) && !m.pending.contains_key(sequence) ==> m.push(
            sequence,
            samples,
        ).overruns + m.push(sequence, samples).buffered() == m.overruns + m.buffered()
            + samples.len(),
        m.read(frames, wanted).overruns + m.read(frames, wanted).buffered() + m.readable(wanted)
            == m.overruns + m.buffered(),
{
    m.lemma_push(sequence, samples);
    m.lemma_read(frames, wanted);
}

/// Counters never go down.
pub proof fn law_counters_only_grow(
    m: JitterModel,
    frames: LatencyFrames,
    sequence: u32,
    samples: Seq<Sample>,
    wanted: nat,
)
    requires
        m.orderly(),
    ensures
        m.counts_at_most(m.push(sequence, samples)),
        m.counts_at_most(m.read(frames, wanted)),
        m.push(sequence, samples).received == m.received + 1,
        m.read(frames, wanted).received == m.received,
{
    m.lemma_push(sequence, samples);
    m.lemma_push_counts(sequence, samples);
    m.lemma_read(frames, wanted);
}

impl JitterModel {
    /// No counter of `self` exceeds that of `other`.
    pub open spec fn counts_at_most(self, other: JitterModel) -> bool {
        &&& self.received <= other.received
        &&& self.lost <= other.lost
        &&& self.late <= other.late
        &&& self.underruns <= other.underruns
        &&& self.overruns <= other.overruns
    }
}

} // verus!
