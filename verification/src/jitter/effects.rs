//! What each call does to a jitter buffer, said with nothing but its fields.

use crate::buffer::Sample;
use crate::jitter::model::{first_key, is_first_key, lemma_first_key, lemma_waiting_insert, waiting, JitterModel, LatencyFrames};
use vstd::prelude::*;

verus! {

/// A packet that is due is played behind what is playable already, and nothing
/// counts as lost or late. If its successor does not wait, that is all.
pub proof fn law_due_packet_is_played(m: JitterModel, sequence: u32, samples: Seq<Sample>)
    requires
        m.next == Some(sequence),
        m.ring.len() + samples.len() <= m.capacity,
        m.pending.dom().finite(),
        forall|k: u32| #[trigger] m.pending.contains_key(k) ==> sequence < k,
    ensures
        ({
            let r = m.push(sequence, samples);
            &&& (m.ring + samples).is_prefix_of(r.ring)
            &&& r.received == m.received + 1
            &&& r.lost == m.lost
            &&& r.late == m.late
            &&& sequence == u32::MAX || !m.pending.contains_key((sequence + 1) as u32) ==> {
                &&& r.ring == m.ring + samples
                &&& r.pending == m.pending
                &&& r.next == Some(if sequence == u32::MAX { 0 } else { (sequence + 1) as u32 })
                &&& r.overruns == m.overruns
            }
        }),
{
    let s = JitterModel { received: m.received + 1, started: true, ..m };
    let p = s.play(sequence, samples);
    assert(samples.take(samples.len() as int) =~= samples);
    assert(p.ring =~= m.ring + samples);
    p.lemma_drain(u32::MAX as int);
}

/// A packet that waited is played just as if it arrived after its predecessor.
pub proof fn law_waiting_is_like_arriving_in_time(
    m: JitterModel,
    sequence: u32,
    samples: Seq<Sample>,
    later: Seq<Sample>,
)
    requires
        m.next == Some(sequence),
        sequence < u32::MAX,
        m.ring.len() <= m.capacity,
        m.pending.dom().finite(),
        forall|k: u32| #[trigger] m.pending.contains_key(k) ==> sequence + 1 < k,
    ensures
        ({
            let k = (sequence + 1) as u32;
            let early = m.push(k, later).push(sequence, samples);
            let in_time = m.push(sequence, samples).push(k, later);
            &&& early.ring == in_time.ring
            &&& early.pending == in_time.pending
            &&& early.next == in_time.next
            &&& early.received == in_time.received
            &&& early.lost == in_time.lost
            &&& early.late == in_time.late
            &&& early.overruns == in_time.overruns
        }),
{
    let k = (sequence + 1) as u32;
    let s = JitterModel { received: m.received + 1, started: true, ..m };
    let t = JitterModel { received: m.received + 2, started: true, ..m };
    let e = m.push(k, later);
    assert(e == JitterModel { pending: m.pending.insert(k, later), ..s });
    let p = JitterModel { pending: m.pending.insert(k, later), ..t }.play(sequence, samples);
    assert(p.pending.remove(k) =~= m.pending);
    assert(p.play_waiting(k) =~= t.play(sequence, samples).play(k, later));
    assert(m.push(k, later).push(sequence, samples) == p.drain());
    assert(p.drain() == p.play_waiting(k).drain());
    let q = s.play(sequence, samples);
    assert(q.drain() == q);
    assert(m.push(sequence, samples) == q);
}

/// A packet at most 64 ahead of the expected one waits for its turn.
pub proof fn law_packet_ahead_waits(m: JitterModel, sequence: u32, samples: Seq<Sample>)
    requires
        m.next matches Some(expected) && expected < sequence <= expected + 64,
    ensures
        m.push(sequence, samples) == (JitterModel {
            pending: m.pending.insert(sequence, samples),
            received: m.received + 1,
            started: true,
            ..m
        }),
{
}

/// A packet more than 64 ahead of the expected one is not waited for: it is the
/// last one played, nothing waits any more, and every number before it that did
/// not arrive is lost.
pub proof fn law_packet_far_ahead_is_played(m: JitterModel, sequence: u32, samples: Seq<Sample>)
    requires
        m.next matches Some(expected) && expected + 64 < sequence,
        m.ring.len() <= m.capacity,
        m.pending.dom().finite(),
        forall|k: u32| #[trigger]
            m.pending.contains_key(k) ==> m.next->0 < k <= m.next->0 + 64,
    ensures
        ({
            let r = m.push(sequence, samples);
            &&& r.next == Some(if sequence == u32::MAX { 0 } else { (sequence + 1) as u32 })
            &&& forall|k: u32| !r.pending.contains_key(k)
            &&& r.lost + m.pending.dom().len() == m.lost + (sequence - m.next->0)
            &&& r.late == m.late
            &&& r.received == m.received + 1
            &&& r.overruns == m.overruns ==> r.ring.len() == m.ring.len() + waiting(m.pending)
                + samples.len() && samples == r.ring.skip(r.ring.len() - samples.len())
        }),
{
    let s = JitterModel { received: m.received + 1, started: true, ..m };
    assert(s.orderly());
    s.lemma_jump(sequence, samples);
    let flushed = s.flush();
    let r = m.push(sequence, samples);
    assert(r == s.jump(sequence, samples));
    assert(waiting(r.pending) == 0);
    if r.overruns == m.overruns {
        assert(samples.take(samples.len() as int) =~= samples);
        assert(r.ring =~= flushed.ring + samples);
        assert(samples =~= r.ring.skip(r.ring.len() - samples.len()));
    }
}

/// Every waiting packet lies ahead of the expected one, by at most 64, and no
/// call changes that.
pub proof fn law_waiting_packets_lie_ahead(
    m: JitterModel,
    frames: LatencyFrames,
    sequence: u32,
    samples: Seq<Sample>,
    wanted: nat,
    k: u32,
)
    requires
        m.next is Some,
        m.ring.len() <= m.capacity,
        m.pending.dom().finite(),
        forall|k: u32| #[trigger]
            m.pending.contains_key(k) ==> m.next->0 < k <= m.next->0 + 64,
    ensures
        m.push(sequence, samples).pending.contains_key(k) ==> m.push(sequence, samples).next->0 < k
            <= m.push(sequence, samples).next->0 + 64,
        m.read(frames, wanted).pending.contains_key(k) ==> m.read(frames, wanted).next->0 < k
            <= m.read(frames, wanted).next->0 + 64,
{
    assert(m.orderly());
    m.lemma_push(sequence, samples);
    m.lemma_read(frames, wanted);
}

/// The queue takes what fits, from the front, and counts the rest.
pub proof fn law_queue_takes_what_fits(m: JitterModel, sequence: u32, samples: Seq<Sample>)
    requires
        m.next is None || m.next == Some(sequence),
        m.ring.len() <= m.capacity,
        forall|k: u32| !m.pending.contains_key(k),
    ensures
        ({
            let r = m.push(sequence, samples);
            &&& m.ring.is_prefix_of(r.ring)
            &&& r.ring.is_prefix_of(m.ring + samples)
            &&& r.ring.len() <= m.capacity
            &&& r.ring.len() == m.capacity || r.ring == m.ring + samples
            &&& r.ring.len() + r.overruns == m.ring.len() + samples.len() + m.overruns
        }),
{
    let s = JitterModel { received: m.received + 1, started: true, ..m };
    let p = s.play(sequence, samples);
    assert(m.pending.dom() =~= Set::empty());
    assert(p.drain() == p);
    if p.ring.len() < m.capacity {
        assert(samples.take(samples.len() as int) =~= samples);
    }
}

/// A read of a queue that holds something returns its front and leaves the rest;
/// what is missing is silence.
pub proof fn law_read_takes_the_front(m: JitterModel, frames: LatencyFrames, wanted: nat)
    requires
        m.ring.len() > 0,
    ensures
        m.output(wanted).len() == wanted,
        wanted <= m.ring.len() ==> m.readable(wanted) == wanted,
        wanted >= m.ring.len() ==> m.readable(wanted) == m.ring.len(),
        m.output(wanted).take(m.readable(wanted) as int) + m.read(frames, wanted).ring == m.ring,
        forall|i: int|
            m.readable(wanted) <= i < wanted ==> #[trigger] m.output(wanted)[i] == 0,
        m.read(frames, wanted).pending == m.pending,
        m.read(frames, wanted).next == m.next,
        m.read(frames, wanted).lost == m.lost,
        m.read(frames, wanted).late == m.late,
        m.read(frames, wanted).received == m.received,
        m.read(frames, wanted).overruns == m.overruns,
{
    assert(m.settle() == m);
    let n = m.readable(wanted) as int;
    assert(m.output(wanted).take(n) + m.read(frames, wanted).ring =~= m.ring);
}

/// A read that runs dry on a missing packet for the second time goes on with the
/// oldest waiting packet, however many wait, and counts the numbers before it as
/// lost.
pub proof fn law_second_dry_read_goes_on(
    m: JitterModel,
    frames: LatencyFrames,
    first: u32,
    wanted: nat,
)
    requires
        m.next matches Some(expected) && expected < first,
        m.stalled == m.next,
        m.ring.len() == 0,
        m.pending.dom().finite(),
        m.pending.contains_key(first),
        forall|k: u32| #[trigger] m.pending.contains_key(k) ==> first <= k,
        m.pending[first].len() <= m.capacity,
    ensures
        ({
            let oldest = m.pending[first];
            let n = if wanted <= oldest.len() { wanted } else { oldest.len() };
            let r = m.read(frames, wanted);
            &&& n <= m.readable(wanted)
            &&& m.output(wanted).take(n as int) == oldest.take(n as int)
            &&& r.lost == m.lost + (first - m.next->0)
            &&& r.late == m.late
            &&& !r.pending.contains_key(first)
            &&& r.next is Some
            &&& first < r.next->0 || r.next->0 == 0
            &&& forall|k: u32| #[trigger] r.pending.contains_key(k) ==> r.next->0 < k
        }),
{
    let expected = m.next->0;
    let oldest = m.pending[first];
    assert(is_first_key(m.pending, first));
    lemma_first_key(m.pending);
    assert(first_key(m.pending) == first);
    assert(m.settles());
    let skipped = m.skip_to(expected, first);
    let played = skipped.play_waiting(first);
    assert(skipped.drain() == played.drain());
    assert(oldest.take(oldest.len() as int) =~= oldest);
    assert(played.ring =~= oldest);
    assert forall|k: u32| #[trigger] played.pending.contains_key(k) implies played.next->0 <= k
        <= u32::MAX by {
        assert(m.pending.contains_key(k) && k != first);
    }
    played.lemma_drain(u32::MAX as int);
    played.lemma_drain_rises();
    let n = if wanted <= oldest.len() { wanted } else { oldest.len() };
    let ring = m.settle().ring;
    assert forall|i: int| 0 <= i < n implies #[trigger] m.output(wanted)[i] == oldest[i] by {
        assert(ring[i] == played.ring[i]);
    }
    assert(m.output(wanted).take(n as int) =~= oldest.take(n as int));
    if m.settle().pending.contains_key(first) {
        assert(played.pending.contains_key(first));
    }
}

/// No gap stalls playback: when a read comes up short while packets wait, the
/// next read returns the front of the oldest of them.
pub proof fn law_short_read_is_followed_by_a_skip(
    m: JitterModel,
    frames: LatencyFrames,
    short: nat,
    wanted: nat,
    first: u32,
)
    requires
        m.next is Some,
        m.ring.len() <= m.capacity,
        m.pending.dom().finite(),
        forall|k: u32| #[trigger]
            m.pending.contains_key(k) ==> m.next->0 < k <= m.next->0 + 64,
        m.readable(short) < short,
        m.read(frames, short).pending.contains_key(first),
        forall|k: u32| #[trigger]
            m.read(frames, short).pending.contains_key(k) ==> first <= k,
        m.read(frames, short).pending[first].len() <= m.capacity,
    ensures
        ({
            let r = m.read(frames, short);
            let oldest = r.pending[first];
            let n = if wanted <= oldest.len() { wanted } else { oldest.len() };
            &&& n <= r.readable(wanted)
            &&& r.output(wanted).take(n as int) == oldest.take(n as int)
            &&& r.read(frames, wanted).lost == r.lost + (first - r.next->0)
        }),
{
    assert(m.orderly());
    m.lemma_read(frames, short);
    let r = m.read(frames, short);
    assert(r.pending.dom().len() > 0) by {
        if r.pending.dom().len() == 0 {
            assert(r.pending.dom() =~= Set::empty());
        }
    }
    law_second_dry_read_goes_on(r, frames, first, wanted);
}

/// Every sample that waits is counted, and none twice.
pub proof fn law_waiting_counts_every_sample(
    pending: Map<u32, Seq<Sample>>,
    k: u32,
    samples: Seq<Sample>,
    m: JitterModel,
)
    requires
        pending.dom().finite(),
        !pending.contains_key(k),
    ensures
        waiting(Map::empty()) == 0,
        waiting(pending.insert(k, samples)) == waiting(pending) + samples.len(),
        m.buffered() == m.ring.len() + waiting(m.pending),
{
    lemma_waiting_insert(pending, k, samples);
}

/// The target moves by one step at most. A short read moves it up, but not above
/// the maximum; a full one moves it down, but not below the minimum, if more than
/// twice the target is left. Before the first packet nothing moves.
pub proof fn law_target_moves_by_one_step(m: JitterModel, frames: LatencyFrames, wanted: nat)
    requires
        m.next is Some ==> m.orderly(),
        m.next is None ==> m.ring.len() == 0 && m.pending.dom().len() == 0,
    ensures
        ({
            let r = m.read(frames, wanted);
            let step = if frames.step == 0 { 1 } else { frames.step as int };
            let floor = if frames.min == 0 { 1 } else { frames.min as int };
            &&& !m.started ==> r.target == m.target && r.underruns == m.underruns
            &&& m.started && m.readable(wanted) < wanted ==> {
                &&& r.underruns == m.underruns + 1
                &&& m.target + step <= frames.max ==> r.target == m.target + step
                &&& m.target + step > frames.max ==> r.target == frames.max
            }
            &&& m.started && m.readable(wanted) == wanted ==> {
                &&& r.underruns == m.underruns
                &&& r.buffered() <= 2 * m.target ==> r.target == m.target
                &&& r.buffered() > 2 * m.target && m.target - step >= floor ==> r.target
                    == m.target - step
                &&& r.buffered() > 2 * m.target && m.target - step < floor ==> r.target == floor
            }
        }),
{
    if m.next is Some {
        m.lemma_settle();
    }
}

/// The first packet is played, whatever its number, and the next number is
/// expected after it.
pub proof fn law_first_packet_is_played(m: JitterModel, sequence: u32, samples: Seq<Sample>)
    requires
        m.next is None,
        m.ring.len() + samples.len() <= m.capacity,
    ensures
        ({
            let r = m.push(sequence, samples);
            &&& r.ring == m.ring + samples
            &&& r.pending == m.pending
            &&& r.next == Some(if sequence == u32::MAX { 0 } else { (sequence + 1) as u32 })
            &&& r.received == m.received + 1
            &&& r.lost == m.lost
            &&& r.late == m.late
            &&& r.overruns == m.overruns
            &&& r.started
        }),
{
    assert(samples.take(samples.len() as int) =~= samples);
}

/// A packet whose turn has passed is counted, and nothing else happens.
pub proof fn law_late_packet_changes_nothing(m: JitterModel, sequence: u32, samples: Seq<Sample>)
    requires
        m.next is Some,
        sequence < m.next->0,
    ensures
        ({
            let r = m.push(sequence, samples);
            &&& r.ring == m.ring
            &&& r.pending == m.pending
            &&& r.next == m.next
            &&& r.stalled == m.stalled
            &&& r.received == m.received + 1
            &&& r.late == m.late + 1
            &&& r.lost == m.lost
            &&& r.overruns == m.overruns
            &&& r.underruns == m.underruns
            &&& r.target == m.target
        }),
{
}

/// A read fills its slice: what it does not return is silence.
pub proof fn law_rest_of_a_read_is_silence(m: JitterModel, wanted: nat, i: int)
    ensures
        m.readable(wanted) <= wanted,
        m.output(wanted).len() == wanted,
        m.readable(wanted) <= i < wanted ==> m.output(wanted)[i] == 0,
{
}

} // verus!
