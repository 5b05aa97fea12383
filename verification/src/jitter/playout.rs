//! Which packets a step of a jitter buffer plays, and which it gives up on.

use crate::buffer::Sample;
use crate::jitter::model::{first_key, lemma_first_key, JitterModel, LatencyFrames, MAX_REORDER_PACKETS};
use vstd::prelude::*;

verus! {

/// The samples of consecutive packets, one packet after the other.
pub open spec fn joined(packets: Seq<Seq<Sample>>) -> Seq<Sample>
    decreases packets.len(),
{
    if packets.len() == 0 {
        Seq::empty()
    } else {
        joined(packets.drop_last()) + packets.last()
    }
}

/// The numbers rise, so none of them occurs twice.
pub open spec fn rising(numbers: Seq<u32>) -> bool {
    forall|i: int, j: int| 0 <= i < j < numbers.len() ==> numbers[i] < numbers[j]
}

/// The packets with the given numbers.
pub open spec fn numbered(packets: Map<u32, Seq<Sample>>, numbers: Seq<u32>) -> Seq<Seq<Sample>> {
    Seq::new(numbers.len(), |i: int| packets[numbers[i]])
}

/// How many numbers from `from` up to but without `to` do not occur in
/// `numbers`.
pub open spec fn missing(numbers: Set<u32>, from: int, to: int) -> nat
    decreases to - from,
{
    if to <= from {
        0
    } else if numbers.contains((to - 1) as u32) {
        missing(numbers, from, to - 1)
    } else {
        missing(numbers, from, to - 1) + 1
    }
}

/// Joining two runs of packets joins their samples.
pub proof fn lemma_joined_append(a: Seq<Seq<Sample>>, b: Seq<Seq<Sample>>)
    ensures
        joined(a + b) == joined(a) + joined(b),
    decreases b.len(),
{
    if b.len() == 0 {
        assert(a + b =~= a);
        assert(joined(a) + joined(b) =~= joined(a));
    } else {
        lemma_joined_append(a, b.drop_last());
        assert((a + b).drop_last() =~= a + b.drop_last());
        assert((joined(a) + joined(b.drop_last())) + b.last() =~= joined(a) + joined(b));
    }
}

/// Rising numbers of a range leave out the rest of the range.
pub proof fn lemma_missing(numbers: Seq<u32>, from: int, to: int)
    requires
        rising(numbers),
        0 <= from <= to <= u32::MAX + 1,
        forall|i: int| 0 <= i < numbers.len() ==> from <= #[trigger] numbers[i] < to,
    ensures
        missing(numbers.to_set(), from, to) == to - from - numbers.len(),
    decreases to - from,
{
    if from < to {
        let k = (to - 1) as u32;
        if numbers.contains(k) {
            let at = choose|i: int| 0 <= i < numbers.len() && numbers[i] == k;
            assert(at == numbers.len() - 1) by {
                if at < numbers.len() - 1 {
                    assert(numbers[at] < numbers[numbers.len() - 1]);
                }
            }
            let rest = numbers.drop_last();
            assert forall|i: int| 0 <= i < rest.len() implies from <= #[trigger] rest[i] < to
                - 1 by {
                assert(numbers[i] < numbers[at]);
            }
            lemma_missing(rest, from, to - 1);
            assert forall|x: u32| x < k implies (numbers.to_set().contains(x)
                <==> rest.to_set().contains(x)) by {
                if numbers.contains(x) {
                    let i = choose|i: int| 0 <= i < numbers.len() && numbers[i] == x;
                    assert(rest[i] == x);
                }
                if rest.contains(x) {
                    let i = choose|i: int| 0 <= i < rest.len() && rest[i] == x;
                    assert(numbers[i] == x);
                }
            }
            lemma_missing_below(numbers.to_set(), rest.to_set(), from, to - 1);
        } else {
            assert forall|i: int| 0 <= i < numbers.len() implies from <= #[trigger] numbers[i] < to
                - 1 by {
                assert(numbers.contains(numbers[i]));
            }
            lemma_missing(numbers, from, to - 1);
        }
    } else if numbers.len() > 0 {
        assert(from <= numbers[0] < to);
    }
}

/// Only the numbers of the range matter.
proof fn lemma_missing_below(a: Set<u32>, b: Set<u32>, from: int, to: int)
    requires
        0 <= from,
        to <= u32::MAX + 1,
        forall|x: u32| x < to ==> (a.contains(x) <==> b.contains(x)),
    ensures
        missing(a, from, to) == missing(b, from, to),
    decreases to - from,
{
    if from < to {
        assert(a.contains((to - 1) as u32) <==> b.contains((to - 1) as u32));
        lemma_missing_below(a, b, from, to - 1);
    }
}

/// `after` is `before` once the packets `numbers`, out of `packets`, have been
/// played in rising order, starting at `from` or later.
///
/// The rest of the packets wait, the numbers passed over count as lost, and
/// unless the queue overran, what it gained is the packets as a whole.
pub open spec fn plays(
    before: JitterModel,
    packets: Map<u32, Seq<Sample>>,
    from: u32,
    after: JitterModel,
    numbers: Seq<u32>,
) -> bool {
    &&& after.valid()
    &&& after.capacity == before.capacity
    &&& rising(numbers)
    &&& forall|i: int|
        0 <= i < numbers.len() ==> from <= #[trigger] numbers[i] && packets.contains_key(
            numbers[i],
        )
    &&& after.pending == packets.remove_keys(numbers.to_set())
    &&& after.pending.dom().len() + numbers.len() == packets.dom().len()
    &&& after.next == Some(
        if numbers.len() > 0 {
            (numbers.last() + 1) as u32
        } else {
            from
        },
    )
    &&& after.lost == before.lost + missing(numbers.to_set(), from as int, after.next->0 as int)
    &&& after.overruns >= before.overruns
    &&& after.overruns == before.overruns ==> after.ring == before.ring + joined(
        numbered(packets, numbers),
    )
}

/// Nothing is played.
proof fn lemma_plays_none(before: JitterModel, packets: Map<u32, Seq<Sample>>, from: u32, after: JitterModel)
    requires
        after.valid(),
        after == (JitterModel {
            pending: packets,
            received: after.received,
            started: after.started,
            ..before
        }),
        before.next == Some(from),
    ensures
        plays(before, packets, from, after, Seq::empty()),
{
    let none = Seq::<u32>::empty();
    assert(packets.remove_keys(none.to_set()) =~= packets);
    assert(numbered(packets, none) =~= Seq::empty());
    assert(before.ring + joined(numbered(packets, none)) =~= before.ring);
}

/// One packet is played.
pub proof fn lemma_plays_one(
    before: JitterModel,
    packets: Map<u32, Seq<Sample>>,
    from: u32,
    k: u32,
    after: JitterModel,
)
    requires
        before.valid(),
        packets.dom().finite(),
        from <= k < u32::MAX,
        packets.contains_key(k),
        after == (JitterModel {
            pending: packets.remove(k),
            received: after.received,
            started: after.started,
            ..before.skip_to(from, k).play(k, packets[k])
        }),
    ensures
        plays(before, packets, from, after, seq![k]),
{
    let one = seq![k];
    let samples = packets[k];
    lemma_missing(one, from as int, k + 1);
    assert(one.to_set() =~= set![k]) by {
        assert(one[0] == k);
    }
    assert(packets.remove_keys(one.to_set()) =~= packets.remove(k));
    assert(numbered(packets, one) =~= seq![samples]);
    assert(seq![samples].drop_last() =~= Seq::empty());
    assert(joined(seq![samples]) =~= samples) by {
        assert(joined(Seq::<Seq<Sample>>::empty()) + samples =~= samples);
    }
    if after.overruns == before.overruns {
        assert(samples.take(samples.len() as int) =~= samples);
    }
}

/// What is played in two steps is played in one.
proof fn lemma_plays_both(
    a: JitterModel,
    packets: Map<u32, Seq<Sample>>,
    from: u32,
    b: JitterModel,
    first: Seq<u32>,
    c: JitterModel,
    second: Seq<u32>,
)
    requires
        packets.dom().finite(),
        forall|k: u32| #[trigger] packets.contains_key(k) ==> k < u32::MAX,
        plays(a, packets, from, b, first),
        plays(b, b.pending, b.next->0, c, second),
    ensures
        plays(a, packets, from, c, first + second),
{
    let all = first + second;
    let middle = b.next->0;
    let end = c.next->0;
    assert forall|i: int| 0 <= i < first.len() implies from <= #[trigger] first[i] < middle by {
        assert(first[i] <= first[first.len() - 1]);
    }
    assert forall|i: int| 0 <= i < second.len() implies middle <= #[trigger] second[i] < end
        && packets.contains_key(second[i]) by {
        assert(second[i] <= second[second.len() - 1]);
        assert(b.pending.contains_key(second[i]));
        assert(b.pending.contains_key(second[second.len() - 1]));
        assert(packets.contains_key(second[second.len() - 1]));
    }
    assert(middle <= end) by {
        if second.len() > 0 {
            assert(middle <= second[0] < end);
        }
    }
    assert(from <= middle) by {
        if first.len() > 0 {
            assert(from <= first[0] < middle);
        }
    }
    assert forall|i: int| 0 <= i < all.len() implies from <= #[trigger] all[i] < end
        && packets.contains_key(all[i]) by {
        if i < first.len() {
            assert(all[i] == first[i]);
        } else {
            assert(all[i] == second[i - first.len()]);
        }
    }
    assert forall|i: int, j: int| 0 <= i < j < all.len() implies all[i] < all[j] by {
        if j < first.len() {
            assert(first[i] < first[j]);
        } else if i < first.len() {
            assert(first[i] < middle <= second[j - first.len()]);
        } else {
            assert(second[i - first.len()] < second[j - first.len()]);
        }
    }
    lemma_missing(first, from as int, middle as int);
    lemma_missing(second, middle as int, end as int);
    lemma_missing(all, from as int, end as int);
    assert forall|k: u32| all.contains(k) <==> first.contains(k) || second.contains(k) by {
        if first.contains(k) {
            let i = choose|i: int| 0 <= i < first.len() && first[i] == k;
            assert(all[i] == k);
        }
        if second.contains(k) {
            let i = choose|i: int| 0 <= i < second.len() && second[i] == k;
            assert(all[first.len() + i] == k);
        }
        if all.contains(k) {
            let i = choose|i: int| 0 <= i < all.len() && all[i] == k;
            if i < first.len() {
                assert(first[i] == k);
            } else {
                assert(second[i - first.len()] == k);
            }
        }
    }
    assert(c.pending =~= packets.remove_keys(all.to_set()));
    if c.overruns == a.overruns {
        lemma_joined_append(numbered(packets, first), numbered(b.pending, second));
        assert(numbered(packets, all) =~= numbered(packets, first) + numbered(b.pending, second));
        assert(c.ring =~= a.ring + joined(numbered(packets, all)));
    }
}

/// Draining plays a run of waiting packets.
proof fn lemma_drain_plays(m: JitterModel) -> (numbers: Seq<u32>)
    requires
        m.valid(),
        m.next is Some,
        forall|k: u32| #[trigger] m.pending.contains_key(k) ==> m.next->0 <= k < u32::MAX,
    ensures
        plays(m, m.pending, m.next->0, m.drain(), numbers),
    decreases m.pending.dom().len(),
{
    let expected = m.next->0;
    if m.pending.contains_key(expected) {
        let played = m.play_waiting(expected);
        lemma_plays_one(m, m.pending, expected, expected, played);
        assert forall|k: u32| #[trigger] played.pending.contains_key(k) implies played.next->0 <= k
            < u32::MAX by {
            assert(m.pending.contains_key(k) && k != expected);
        }
        let rest = lemma_drain_plays(played);
        lemma_plays_both(m, m.pending, expected, played, seq![expected], m.drain(), rest);
        seq![expected] + rest
    } else {
        lemma_plays_none(m, m.pending, expected, m);
        Seq::empty()
    }
}

/// Flushing plays every waiting packet.
proof fn lemma_flush_plays(m: JitterModel) -> (numbers: Seq<u32>)
    requires
        m.valid(),
        m.next is Some,
        forall|k: u32| #[trigger] m.pending.contains_key(k) ==> m.next->0 <= k < u32::MAX,
    ensures
        plays(m, m.pending, m.next->0, m.flush(), numbers),
    decreases m.pending.dom().len(),
{
    let expected = m.next->0;
    if m.pending.dom().len() > 0 {
        let first = first_key(m.pending);
        lemma_first_key(m.pending);
        let played = m.skip_to(expected, first).play_waiting(first);
        lemma_plays_one(m, m.pending, expected, first, played);
        assert forall|k: u32| #[trigger] played.pending.contains_key(k) implies played.next->0 <= k
            < u32::MAX by {
            assert(m.pending.contains_key(k) && k != first);
        }
        let rest = lemma_flush_plays(played);
        lemma_plays_both(m, m.pending, expected, played, seq![first], m.flush(), rest);
        seq![first] + rest
    } else {
        lemma_plays_none(m, m.pending, expected, m);
        Seq::empty()
    }
}

/// One more packet waits.
proof fn lemma_plays_beside(
    before: JitterModel,
    packets: Map<u32, Seq<Sample>>,
    from: u32,
    after: JitterModel,
    numbers: Seq<u32>,
    k: u32,
    samples: Seq<Sample>,
)
    requires
        packets.dom().finite(),
        !packets.contains_key(k),
        plays(before, packets, from, after, numbers),
    ensures
        plays(
            before,
            packets.insert(k, samples),
            from,
            JitterModel { pending: after.pending.insert(k, samples), ..after },
            numbers,
        ),
{
    let more = packets.insert(k, samples);
    assert(!numbers.contains(k)) by {
        if numbers.contains(k) {
            let i = choose|i: int| 0 <= i < numbers.len() && numbers[i] == k;
            assert(packets.contains_key(numbers[i]));
        }
    }
    assert(after.pending.insert(k, samples) =~= more.remove_keys(numbers.to_set()));
    assert(numbered(more, numbers) =~= numbered(packets, numbers));
}

/// A packet that is neither late nor a repetition joins the waiting ones, and
/// what is played then are whole packets out of these, in rising order from the
/// expected number on. Exactly the numbers passed over count as lost.
///
/// No packet may bear the highest number, after which the numbers wrap around.
pub proof fn law_push_plays_in_order(m: JitterModel, sequence: u32, samples: Seq<Sample>) -> (numbers:
    Seq<u32>)
    requires
        m.orderly(),
        m.next is Some,
        !m.is_late(sequence),
        !m.pending.contains_key(sequence),
        sequence < u32::MAX,
        forall|k: u32| #[trigger] m.pending.contains_key(k) ==> k < u32::MAX,
    ensures
        m.push(sequence, samples).orderly(),
        plays(
            m,
            m.pending.insert(sequence, samples),
            m.next->0,
            m.push(sequence, samples),
            numbers,
        ),
{
    m.lemma_push(sequence, samples);
    let packets = m.pending.insert(sequence, samples);
    let expected = m.next->0;
    let s = JitterModel { received: m.received + 1, started: true, ..m };
    let r = m.push(sequence, samples);
    if sequence == expected {
        let played = s.play(sequence, samples);
        assert(packets.remove(sequence) =~= m.pending);
        lemma_plays_one(m, packets, expected, sequence, played);
        let rest = lemma_drain_plays(played);
        lemma_plays_both(m, packets, expected, played, seq![sequence], r, rest);
        seq![sequence] + rest
    } else if sequence - expected > MAX_REORDER_PACKETS {
        let flushed = s.flush();
        s.lemma_flush(sequence);
        let first = lemma_flush_plays(s);
        lemma_plays_beside(s, m.pending, expected, flushed, first, sequence, samples);
        let one = flushed.pending.insert(sequence, samples);
        let b = JitterModel { pending: one, ..flushed };
        assert(one.remove(sequence) =~= flushed.pending);
        lemma_plays_one(b, one, b.next->0, sequence, r);
        assert(plays(m, packets, expected, b, first));
        lemma_plays_both(m, packets, expected, b, first, r, seq![sequence]);
        first + seq![sequence]
    } else {
        lemma_plays_none(m, packets, expected, r);
        Seq::empty()
    }
}

/// A read plays whole waiting packets in rising order from the expected number
/// on, if it plays any, and exactly the numbers passed over count as lost. What
/// it returns comes off the front of the queue.
///
/// No packet may bear the highest number, after which the numbers wrap around.
pub proof fn law_read_plays_in_order(m: JitterModel, frames: LatencyFrames, wanted: nat) -> (numbers:
    Seq<u32>)
    requires
        m.orderly(),
        m.next is Some,
        forall|k: u32| #[trigger] m.pending.contains_key(k) ==> k < u32::MAX,
    ensures
        m.read(frames, wanted).orderly(),
        plays(m, m.pending, m.next->0, m.settle(), numbers),
        m.read(frames, wanted).pending == m.settle().pending,
        m.read(frames, wanted).next == m.settle().next,
        m.read(frames, wanted).lost == m.settle().lost,
        m.read(frames, wanted).overruns == m.settle().overruns,
        m.output(wanted).take(m.readable(wanted) as int) + m.read(frames, wanted).ring
            == m.settle().ring,
{
    m.lemma_read(frames, wanted);
    let n = m.readable(wanted) as int;
    assert(m.output(wanted).take(n) + m.read(frames, wanted).ring =~= m.settle().ring);
    let expected = m.next->0;
    if m.settles() {
        let first = first_key(m.pending);
        lemma_first_key(m.pending);
        let skipped = m.skip_to(expected, first);
        let played = skipped.play_waiting(first);
        assert(skipped.drain() == played.drain());
        lemma_plays_one(m, m.pending, expected, first, played);
        assert forall|k: u32| #[trigger] played.pending.contains_key(k) implies played.next->0 <= k
            < u32::MAX by {
            assert(m.pending.contains_key(k) && k != first);
        }
        let rest = lemma_drain_plays(played);
        lemma_plays_both(m, m.pending, expected, played, seq![first], m.settle(), rest);
        seq![first] + rest
    } else {
        lemma_plays_none(m, m.pending, expected, m);
        Seq::empty()
    }
}

/// A jump past the reorder window plays every waiting packet, in order, and then
/// the new one. Every number before it that did not arrive counts as lost.
pub proof fn law_jump_counts_missing_packets(
    m: JitterModel,
    sequence: u32,
    samples: Seq<Sample>,
) -> (numbers: Seq<u32>)
    requires
        m.orderly(),
        m.next matches Some(expected) && expected + MAX_REORDER_PACKETS < sequence,
        sequence < u32::MAX,
    ensures
        ({
            let r = m.push(sequence, samples);
            &&& rising(numbers)
            &&& numbers.to_set() == m.pending.dom().insert(sequence)
            &&& r.pending == Map::<u32, Seq<Sample>>::empty()
            &&& r.next == Some((sequence + 1) as u32)
            &&& r.lost == m.lost + missing(m.pending.dom(), m.next->0 as int, sequence as int)
            &&& r.overruns == m.overruns ==> r.ring == m.ring + joined(
                numbered(m.pending.insert(sequence, samples), numbers),
            )
        }),
{
    let packets = m.pending.insert(sequence, samples);
    let s = JitterModel { received: m.received + 1, started: true, ..m };
    s.lemma_jump(sequence, samples);
    let numbers = law_push_plays_in_order(m, sequence, samples);
    let r = m.push(sequence, samples);
    assert forall|k: u32| numbers.to_set().contains(k) <==> packets.contains_key(k) by {
        if packets.contains_key(k) {
            assert(!r.pending.contains_key(k));
        }
        if numbers.contains(k) {
            let i = choose|i: int| 0 <= i < numbers.len() && numbers[i] == k;
            assert(packets.contains_key(numbers[i]));
        }
    }
    assert(numbers.to_set() =~= m.pending.dom().insert(sequence));
    lemma_missing_below(
        numbers.to_set(),
        m.pending.dom(),
        m.next->0 as int,
        sequence as int,
    );
    numbers
}

} // verus!
