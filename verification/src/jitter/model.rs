//! What a jitter buffer does, as a function from state to state.

use crate::buffer::{min_len, Sample};
use vstd::prelude::*;

verus! {

/// Maximum number of packets held for reordering before they are declared lost.
///
/// A packet waits only while its number lies at most this far ahead of the
/// expected one, so no more than this many ever wait.
pub const MAX_REORDER_PACKETS: usize = 64;

/// Latencies expressed in frames of the stream.
#[derive(Debug, Clone, Copy, PartialEq, Eq, Structural)]
pub struct LatencyFrames {
    /// The target to start from.
    pub initial: usize,
    /// The target never shrinks below this.
    pub min: usize,
    /// The target never grows above this.
    pub max: usize,
    /// One adaptation step.
    pub step: usize,
}

/// `k` is the smallest key of `pending`.
pub open spec fn is_first_key<V>(pending: Map<u32, V>, k: u32) -> bool {
    &&& pending.contains_key(k)
    &&& forall|j: u32| #[trigger] pending.contains_key(j) ==> k <= j
}

/// The smallest key of a map that is not empty.
pub open spec fn first_key<V>(pending: Map<u32, V>) -> u32 {
    choose|k: u32| is_first_key(pending, k)
}

/// The number of samples held in `pending`.
pub open spec fn waiting(pending: Map<u32, Seq<Sample>>) -> nat
    decreases pending.dom().len(),
    when pending.dom().finite()
{
    if pending.dom().len() == 0 {
        0
    } else {
        let k = first_key(pending);
        proof {
            lemma_first_key(pending);
        }
        pending[k].len() + waiting(pending.remove(k))
    }
}

/// The larger of two numbers.
pub open spec fn max_of(a: int, b: int) -> int {
    if a >= b {
        a
    } else {
        b
    }
}

/// The state of a jitter buffer.
#[verifier::ext_equal]
pub struct JitterModel {
    /// How many samples the playable queue can hold.
    pub capacity: nat,
    /// The playable samples, oldest first.
    pub ring: Seq<Sample>,
    /// Packets that arrived before their turn.
    pub pending: Map<u32, Seq<Sample>>,
    /// The sequence number to play next; none before the first packet.
    pub next: Option<u32>,
    /// The packet that the last read ran dry on while others waited, if it did.
    pub stalled: Option<u32>,
    /// Whether a packet has arrived yet.
    pub started: bool,
    /// The target latency in frames.
    pub target: nat,
    pub received: nat,
    pub lost: nat,
    pub late: nat,
    pub underruns: nat,
    pub overruns: nat,
}

impl JitterModel {
    /// Append `samples` to the playable queue; those that do not fit are
    /// dropped and counted.
    pub open spec fn enqueue(self, samples: Seq<Sample>) -> JitterModel {
        let kept = min_len(samples.len(), (self.capacity - self.ring.len()) as nat);
        JitterModel {
            ring: self.ring + samples.take(kept as int),
            overruns: (self.overruns + samples.len() - kept) as nat,
            ..self
        }
    }

    /// Enqueue the packet `samples` with sequence number `k` and expect its
    /// successor.
    pub open spec fn play(self, k: u32, samples: Seq<Sample>) -> JitterModel {
        JitterModel { next: Some(k.wrapping_add(1)), ..self.enqueue(samples) }
    }

    /// Take the waiting packet `k` out of the reorder window and play it.
    pub open spec fn play_waiting(self, k: u32) -> JitterModel {
        JitterModel { pending: self.pending.remove(k), ..self.play(k, self.pending[k]) }
    }

    /// Give up on the packets from `expected` up to `k`, which is not before it.
    pub open spec fn skip_to(self, expected: u32, k: u32) -> JitterModel {
        JitterModel { next: Some(k), lost: (self.lost + k - expected) as nat, ..self }
    }

    /// Play waiting packets as long as the expected one is among them.
    pub open spec fn drain(self) -> JitterModel
        decreases self.pending.dom().len(),
        when self.pending.dom().finite()
    {
        match self.next {
            Some(expected) if self.pending.contains_key(expected) => self.play_waiting(
                expected,
            ).drain(),
            _ => self,
        }
    }

    /// Play every waiting packet, oldest first, giving up on those missing
    /// between them.
    pub open spec fn flush(self) -> JitterModel
        decreases self.pending.dom().len(),
        when self.pending.dom().finite()
    {
        match self.next {
            Some(expected) if self.pending.dom().len() > 0 => {
                let first = first_key(self.pending);
                proof {
                    lemma_first_key(self.pending);
                }
                self.skip_to(expected, first).play_waiting(first).flush()
            },
            _ => self,
        }
    }

    /// Play every waiting packet, and then the packet `k` that lies beyond all
    /// of them.
    pub open spec fn jump(self, k: u32, samples: Seq<Sample>) -> JitterModel {
        let flushed = self.flush();
        flushed.skip_to(flushed.next->0, k).play(k, samples)
    }

    /// The state after a packet has arrived.
    pub open spec fn push(self, sequence: u32, samples: Seq<Sample>) -> JitterModel {
        let m = JitterModel { received: self.received + 1, started: true, ..self };
        match m.next {
            None => m.play(sequence, samples),
            Some(expected) => if sequence == expected {
                m.play(sequence, samples).drain()
            } else if sequence < expected {
                JitterModel { late: m.late + 1, ..m }
            } else if sequence - expected > MAX_REORDER_PACKETS {
                m.jump(sequence, samples)
            } else {
                JitterModel { pending: m.pending.insert(sequence, samples), ..m }
            },
        }
    }

    /// Whether the packet `sequence` comes after its turn has passed.
    pub open spec fn is_late(self, sequence: u32) -> bool {
        self.next matches Some(expected) && sequence < expected
    }

    /// Whether nothing is left to play, packets wait, and the last read already
    /// stalled on the expected one.
    pub open spec fn settles(self) -> bool {
        &&& self.next is Some
        &&& self.ring.len() == 0
        &&& self.stalled == self.next
        &&& self.pending.dom().len() > 0
    }

    /// With nothing left to play, and the last read already stalled on the same
    /// packet, give up on the packets before the oldest waiting one so that
    /// playback does not stall on a gap.
    pub open spec fn settle(self) -> JitterModel {
        if self.settles() {
            self.skip_to(self.next->0, first_key(self.pending)).drain()
        } else {
            self
        }
    }

    /// Samples in the buffer, playable and waiting.
    pub open spec fn buffered(self) -> nat {
        self.ring.len() + waiting(self.pending)
    }

    /// Every counter fits the type that holds it.
    pub open spec fn countable(self) -> bool {
        &&& self.received <= u64::MAX
        &&& self.lost <= u64::MAX
        &&& self.late <= u64::MAX
        &&& self.underruns <= u64::MAX
        &&& self.overruns <= u64::MAX
    }

    /// The counters can take `calls` more calls that bring `extra` samples,
    /// whatever those calls are.
    pub open spec fn has_room(self, calls: nat, extra: nat) -> bool {
        &&& self.received + calls <= u64::MAX
        &&& self.late + calls <= u64::MAX
        &&& self.underruns + calls <= u64::MAX
        &&& self.lost + calls * 0x1_0000_0000 <= u64::MAX
        &&& self.overruns + self.buffered() + extra <= u64::MAX
        &&& self.buffered() + extra <= usize::MAX
    }

    /// Grow the target after an underrun, shrink it when the buffer holds far
    /// more than needed.
    pub open spec fn adapt(self, frames: LatencyFrames, underrun: bool) -> JitterModel {
        let step = max_of(frames.step as int, 1);
        if underrun {
            JitterModel {
                target: if self.target + step <= frames.max {
                    (self.target + step) as nat
                } else {
                    frames.max as nat
                },
                ..self
            }
        } else if self.buffered() > self.target * 2 {
            JitterModel {
                target: max_of(self.target - step, max_of(frames.min as int, 1)) as nat,
                ..self
            }
        } else {
            self
        }
    }

    /// How many samples a request for `wanted` yields.
    pub open spec fn readable(self, wanted: nat) -> nat {
        min_len(wanted, self.settle().ring.len())
    }

    /// The state after a request for `wanted` samples.
    pub open spec fn read(self, frames: LatencyFrames, wanted: nat) -> JitterModel {
        let n = self.readable(wanted);
        let settled = self.settle();
        let left = JitterModel {
            ring: settled.ring.skip(n as int),
            stalled: if n < wanted && settled.pending.dom().len() > 0 {
                settled.next
            } else {
                None
            },
            ..settled
        };
        if !left.started {
            left
        } else if n < wanted {
            JitterModel { underruns: left.underruns + 1, ..left }.adapt(frames, true)
        } else {
            left.adapt(frames, false)
        }
    }

    /// The samples a request for `wanted` yields, silence making up the rest.
    pub open spec fn output(self, wanted: nat) -> Seq<Sample> {
        let n = self.readable(wanted);
        self.settle().ring.take(n as int) + Seq::new((wanted - n) as nat, |i: int| crate::buffer::SILENCE)
    }
}

/// A map that is not empty has exactly one smallest key.
pub proof fn lemma_first_key<V>(pending: Map<u32, V>)
    requires
        pending.dom().finite(),
        pending.dom().len() > 0,
    ensures
        is_first_key(pending, first_key(pending)),
        forall|k: u32| is_first_key(pending, k) ==> k == first_key(pending),
{
    let k = pending.dom().choose();
    assert(pending.dom().contains(k)) by {
        if forall|x: u32| !pending.dom().contains(x) {
            assert(pending.dom() =~= Set::empty());
        }
    }
    lemma_first_key_below(pending, k);
}

proof fn lemma_first_key_below<V>(pending: Map<u32, V>, k: u32)
    requires
        pending.contains_key(k),
    ensures
        exists|f: u32| is_first_key(pending, f),
    decreases k,
{
    if !is_first_key(pending, k) {
        let j = choose|j: u32| pending.contains_key(j) && j < k;
        lemma_first_key_below(pending, j);
    }
}

/// Taking any packet out of the window takes out exactly its samples.
pub proof fn lemma_waiting_remove(pending: Map<u32, Seq<Sample>>, k: u32)
    requires
        pending.dom().finite(),
        pending.contains_key(k),
    ensures
        waiting(pending) == pending[k].len() + waiting(pending.remove(k)),
    decreases pending.dom().len(),
{
    let f = first_key(pending);
    lemma_first_key(pending);
    if k != f {
        let rest = pending.remove(k);
        lemma_waiting_remove(pending.remove(f), k);
        assert(rest.contains_key(f));
        assert(is_first_key(rest, f));
        lemma_first_key(rest);
        assert(pending.remove(f).remove(k) =~= rest.remove(f));
    }
}

/// Adding a packet adds at most its samples.
pub proof fn lemma_waiting_insert(pending: Map<u32, Seq<Sample>>, k: u32, samples: Seq<Sample>)
    requires
        pending.dom().finite(),
    ensures
        waiting(pending.insert(k, samples)) <= waiting(pending) + samples.len(),
        !pending.contains_key(k) ==> waiting(pending.insert(k, samples)) == waiting(pending)
            + samples.len(),
{
    let more = pending.insert(k, samples);
    lemma_waiting_remove(more, k);
    assert(more.remove(k) =~= pending.remove(k));
    if pending.contains_key(k) {
        lemma_waiting_remove(pending, k);
    } else {
        assert(pending.remove(k) =~= pending);
    }
}

impl JitterModel {
    /// Ring within capacity, and a finite reorder window.
    pub open spec fn valid(self) -> bool {
        &&& self.ring.len() <= self.capacity
        &&& self.pending.dom().finite()
    }

    /// What playing and skipping packets never touches.
    pub open spec fn same_history(self, other: JitterModel) -> bool {
        &&& self.capacity == other.capacity
        &&& self.stalled == other.stalled
        &&& self.started == other.started
        &&& self.target == other.target
        &&& self.received == other.received
        &&& self.late == other.late
        &&& self.underruns == other.underruns
    }

    /// What holds between two calls: every waiting packet lies ahead of the
    /// expected one, no further than the reorder window reaches.
    pub open spec fn orderly(self) -> bool {
        &&& self.valid()
        &&& match self.next {
            Some(expected) => forall|k: u32| #[trigger]
                self.pending.contains_key(k) ==> expected < k <= expected + MAX_REORDER_PACKETS,
            None => self.pending == Map::<u32, Seq<Sample>>::empty() && self.ring.len() == 0
                && self.stalled is None,
        }
    }

    /// No sample leaves the buffer on the way to `other` without being counted.
    pub open spec fn keeps_samples(self, other: JitterModel) -> bool {
        &&& other.overruns + other.buffered() == self.overruns + self.buffered()
        &&& other.overruns >= self.overruns
        &&& self.ring.is_prefix_of(other.ring)
    }

    /// Draining plays what is due, gives up on nothing, and ends with every
    /// waiting packet ahead of the expected one.
    pub proof fn lemma_drain(self, last: int)
        requires
            self.valid(),
            self.next is Some,
            forall|k: u32| #[trigger]
                self.pending.contains_key(k) ==> self.next->0 <= k <= last,
        ensures
            self.drain().valid(),
            self.drain().same_history(self),
            self.drain().next is Some,
            forall|k: u32| #[trigger]
                self.drain().pending.contains_key(k) ==> self.drain().next->0 < k <= last,
            forall|k: u32| #[trigger]
                self.drain().pending.contains_key(k) ==> self.next->0 <= self.drain().next->0,
            self.drain().pending.submap_of(self.pending),
            self.drain().lost == self.lost,
            self.keeps_samples(self.drain()),
        decreases self.pending.dom().len(),
    {
        let expected = self.next->0;
        if self.pending.contains_key(expected) {
            lemma_waiting_remove(self.pending, expected);
            let played = self.play_waiting(expected);
            assert forall|k: u32| #[trigger] played.pending.contains_key(k) implies played.next->0
                <= k <= last by {
                assert(self.pending.contains_key(k) && k != expected);
            }
            played.lemma_drain(last);
            assert(self.ring.is_prefix_of(played.ring));
        }
    }

    /// Draining only moves on, short of the end of the numbers.
    pub proof fn lemma_drain_rises(self)
        requires
            self.valid(),
            self.next is Some,
            forall|k: u32| #[trigger] self.pending.contains_key(k) ==> self.next->0 <= k,
        ensures
            self.drain().next matches Some(next) && (self.next->0 <= next || next == 0),
        decreases self.pending.dom().len(),
    {
        let expected = self.next->0;
        if self.pending.contains_key(expected) {
            let played = self.play_waiting(expected);
            assert forall|k: u32| #[trigger] played.pending.contains_key(k) implies played.next->0
                <= k by {
                assert(self.pending.contains_key(k) && k != expected);
            }
            played.lemma_drain_rises();
        }
    }

    /// Draining never takes an overrun back.
    pub proof fn lemma_drain_counts(self)
        requires
            self.valid(),
        ensures
            self.overruns <= self.drain().overruns,
        decreases self.pending.dom().len(),
    {
        if let Some(expected) = self.next {
            if self.pending.contains_key(expected) {
                self.play_waiting(expected).lemma_drain_counts();
            }
        }
    }

    /// Flushing empties the reorder window and counts exactly the numbers
    /// between the waiting packets as lost.
    pub proof fn lemma_flush(self, end: u32)
        requires
            self.valid(),
            self.next matches Some(expected) && expected <= end,
            forall|k: u32| #[trigger] self.pending.contains_key(k) ==> self.next->0 <= k < end,
        ensures
            self.flush().valid(),
            self.flush().same_history(self),
            self.flush().pending == Map::<u32, Seq<Sample>>::empty(),
            self.flush().next matches Some(next) && self.next->0 <= next <= end,
            self.lost <= self.flush().lost,
            self.flush().lost + self.pending.dom().len() == self.lost + (self.flush().next->0
                - self.next->0),
            self.keeps_samples(self.flush()),
        decreases self.pending.dom().len(),
    {
        if self.pending.dom().len() > 0 {
            let first = first_key(self.pending);
            lemma_first_key(self.pending);
            lemma_waiting_remove(self.pending, first);
            let played = self.skip_to(self.next->0, first).play_waiting(first);
            assert forall|k: u32| #[trigger] played.pending.contains_key(k) implies played.next->0
                <= k < end by {
                assert(self.pending.contains_key(k) && k != first);
            }
            played.lemma_flush(end);
            assert(self.ring.is_prefix_of(played.ring));
        } else {
            assert(self.pending =~= Map::empty());
        }
    }

    /// A jump plays what waits before the packet, counts exactly the missing
    /// numbers before it as lost, and leaves nothing waiting.
    pub proof fn lemma_jump(self, sequence: u32, samples: Seq<Sample>)
        requires
            self.orderly(),
            self.next matches Some(expected) && expected + MAX_REORDER_PACKETS < sequence,
        ensures
            self.jump(sequence, samples).orderly(),
            self.jump(sequence, samples).same_history(self),
            self.jump(sequence, samples).pending == Map::<u32, Seq<Sample>>::empty(),
            self.jump(sequence, samples).next == Some(sequence.wrapping_add(1)),
            self.jump(sequence, samples).lost + self.pending.dom().len() == self.lost + (sequence
                - self.next->0),
            self.flush().next matches Some(next) && self.next->0 <= next <= sequence,
            self.lost <= self.flush().lost <= self.jump(sequence, samples).lost,
            self.overruns <= self.flush().overruns <= self.jump(sequence, samples).overruns,
            self.jump(sequence, samples).overruns + self.jump(sequence, samples).buffered()
                == self.overruns + self.buffered() + samples.len(),
            self.ring.is_prefix_of(self.jump(sequence, samples).ring),
    {
        self.lemma_flush(sequence);
    }

    /// No more packets wait than the reorder window holds.
    pub proof fn lemma_window(self)
        requires
            self.orderly(),
        ensures
            self.pending.dom().len() <= MAX_REORDER_PACKETS,
    {
        if let Some(expected) = self.next {
            assert forall|k: u32| #[trigger] self.pending.dom().contains(k) implies expected + 1
                <= k < expected + 1 + MAX_REORDER_PACKETS by {
                assert(self.pending.contains_key(k));
            }
            lemma_spread(
                self.pending.dom(),
                expected + 1,
                expected + 1 + MAX_REORDER_PACKETS,
            );
        }
    }

    /// A packet leaves a state as orderly as it found it, and every sample it
    /// brings is buffered, dropped as late, counted as an overrun, or in the
    /// place of one that waited under the same number.
    pub proof fn lemma_push(self, sequence: u32, samples: Seq<Sample>)
        requires
            self.orderly(),
        ensures
            self.push(sequence, samples).orderly(),
            self.push(sequence, samples).next is Some,
            self.push(sequence, samples).capacity == self.capacity,
            self.push(sequence, samples).stalled == self.stalled,
            self.push(sequence, samples).target == self.target,
            self.push(sequence, samples).underruns == self.underruns,
            self.lost <= self.push(sequence, samples).lost < self.lost + 0x1_0000_0000,
            self.late <= self.push(sequence, samples).late <= self.late + 1,
            self.overruns <= self.push(sequence, samples).overruns,
            self.ring.is_prefix_of(self.push(sequence, samples).ring),
            self.push(sequence, samples).overruns + self.push(sequence, samples).buffered()
                <= self.overruns + self.buffered() + samples.len(),
            !self.is_late(sequence) && !self.pending.contains_key(sequence) ==> self.push(
                sequence,
                samples,
            ).overruns + self.push(sequence, samples).buffered() == self.overruns + self.buffered()
                + samples.len(),
    {
        let m = JitterModel { received: self.received + 1, started: true, ..self };
        assert(m.buffered() == self.buffered());
        match self.next {
            None => {
                let p = m.play(sequence, samples);
                assert(self.pending.dom().len() == 0);
            },
            Some(expected) => if sequence == expected {
                let p = m.play(sequence, samples);
                p.lemma_drain(expected + MAX_REORDER_PACKETS);
                assert(self.ring.is_prefix_of(p.ring));
            } else if sequence > expected && sequence - expected > MAX_REORDER_PACKETS {
                m.lemma_window();
                m.lemma_jump(sequence, samples);
            } else if sequence > expected {
                lemma_waiting_insert(self.pending, sequence, samples);
            },
        }
    }

    /// Settling loses no sample and counts exactly the numbers it passes over.
    pub proof fn lemma_settle(self)
        requires
            self.orderly(),
        ensures
            self.settle().orderly(),
            self.settle().same_history(self),
            self.keeps_samples(self.settle()),
            self.settles() ==> self.settle().lost == self.lost + (first_key(self.pending)
                - self.next->0),
            self.lost <= self.settle().lost < self.lost + 0x1_0000_0000,
            self.settle().pending.dom().len() <= self.pending.dom().len(),
            self.settle().next is Some <==> self.next is Some,
    {
        if self.settles() {
            let expected = self.next->0;
            let first = first_key(self.pending);
            lemma_first_key(self.pending);
            let s = self.skip_to(expected, first);
            assert(s.buffered() == self.buffered());
            s.lemma_drain(expected + MAX_REORDER_PACKETS);
            vstd::set_lib::lemma_len_subset(self.settle().pending.dom(), self.pending.dom());
        }
    }

    /// A read leaves a state as orderly as it found it; what it does not return
    /// stays buffered or is counted as an overrun.
    pub proof fn lemma_read(self, frames: LatencyFrames, wanted: nat)
        requires
            self.orderly(),
        ensures
            self.read(frames, wanted).orderly(),
            self.read(frames, wanted).capacity == self.capacity,
            self.read(frames, wanted).next is Some <==> self.next is Some,
            self.read(frames, wanted).next == self.settle().next,
            self.read(frames, wanted).pending == self.settle().pending,
            self.read(frames, wanted).ring == self.settle().ring.skip(self.readable(wanted) as int),
            self.read(frames, wanted).received == self.received,
            self.read(frames, wanted).late == self.late,
            self.read(frames, wanted).started == self.started,
            self.read(frames, wanted).lost == self.settle().lost,
            self.lost <= self.read(frames, wanted).lost < self.lost + 0x1_0000_0000,
            self.read(frames, wanted).overruns == self.settle().overruns,
            self.overruns <= self.read(frames, wanted).overruns,
            self.underruns <= self.read(frames, wanted).underruns <= self.underruns + 1,
            self.read(frames, wanted).overruns + self.read(frames, wanted).buffered()
                + self.readable(wanted) == self.overruns + self.buffered(),
    {
        self.lemma_settle();
    }

    /// What waits after a packet has arrived waited before, or is that packet.
    pub proof fn lemma_push_waiting(self, sequence: u32, samples: Seq<Sample>)
        requires
            self.orderly(),
        ensures
            self.push(sequence, samples).pending.submap_of(self.pending.insert(sequence, samples)),
    {
        let m = JitterModel { received: self.received + 1, started: true, ..self };
        let r = self.push(sequence, samples);
        if let Some(expected) = self.next {
            if sequence == expected {
                m.play(sequence, samples).lemma_drain(expected + MAX_REORDER_PACKETS);
                assert forall|k: u32| #[trigger] r.pending.dom().contains(k) implies self.pending.insert(
                    sequence,
                    samples,
                ).dom().contains(k) && r.pending[k] == self.pending.insert(sequence, samples)[k] by {
                    assert(self.pending.contains_key(k));
                }
            } else if sequence > expected && sequence - expected > MAX_REORDER_PACKETS {
                m.lemma_jump(sequence, samples);
            } else if sequence < expected {
                assert(!self.pending.contains_key(sequence));
            }
        }
    }

    /// What waits after a read waited before.
    pub proof fn lemma_read_waiting(self, frames: LatencyFrames, wanted: nat)
        requires
            self.orderly(),
        ensures
            self.read(frames, wanted).pending.submap_of(self.pending),
    {
        self.lemma_read(frames, wanted);
        if self.settles() {
            let expected = self.next->0;
            lemma_first_key(self.pending);
            self.skip_to(expected, first_key(self.pending)).lemma_drain(
                expected + MAX_REORDER_PACKETS,
            );
        }
    }

    /// A packet uses up one call and brings its samples.
    pub proof fn lemma_push_room(self, sequence: u32, samples: Seq<Sample>, calls: nat, extra: nat)
        requires
            self.orderly(),
            self.has_room(calls + 1, samples.len() + extra),
        ensures
            self.push(sequence, samples).has_room(calls, extra),
            self.push(sequence, samples).countable(),
    {
        self.lemma_push(sequence, samples);
        self.lemma_push_counts(sequence, samples);
    }

    /// A read uses up one call and never leaves more samples than there were.
    pub proof fn lemma_read_room(self, frames: LatencyFrames, wanted: nat, calls: nat, extra: nat)
        requires
            self.orderly(),
        ensures
            self.read(frames, wanted).buffered() <= self.buffered(),
            self.has_room(calls + 1, extra) ==> self.read(frames, wanted).has_room(calls, extra),
            self.has_room(calls + 1, extra) ==> self.read(frames, wanted).countable(),
    {
        self.lemma_read(frames, wanted);
    }

    /// Every packet is counted, and a late one as late.
    pub proof fn lemma_push_counts(self, sequence: u32, samples: Seq<Sample>)
        requires
            self.orderly(),
        ensures
            self.push(sequence, samples).received == self.received + 1,
            self.push(sequence, samples).started,
            self.push(sequence, samples).late == self.late + (if self.is_late(sequence) {
                1nat
            } else {
                0
            }),
    {
        let m = JitterModel { received: self.received + 1, started: true, ..self };
        if let Some(expected) = self.next {
            if sequence == expected {
                m.play(sequence, samples).lemma_drain(expected + MAX_REORDER_PACKETS);
            } else if sequence > expected && sequence - expected > MAX_REORDER_PACKETS {
                m.lemma_jump(sequence, samples);
            }
        }
    }
}

/// A set of numbers from a range is no larger than the range.
pub proof fn lemma_spread(numbers: Set<u32>, from: int, to: int)
    requires
        numbers.finite(),
        from <= to,
        forall|k: u32| #[trigger] numbers.contains(k) ==> from <= k < to,
    ensures
        numbers.len() <= to - from,
    decreases to - from,
{
    if from == to {
        assert(numbers =~= Set::empty());
    } else if 0 <= to - 1 <= u32::MAX {
        lemma_spread(numbers.remove((to - 1) as u32), from, to - 1);
    } else {
        lemma_spread(numbers, from, to - 1);
    }
}

} // verus!
