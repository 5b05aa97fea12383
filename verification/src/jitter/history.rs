//! What any sequence of calls makes of a jitter buffer.

use crate::buffer::Sample;
use crate::jitter::model::{JitterModel, LatencyFrames};
use crate::jitter::playout::{joined, law_push_plays_in_order, law_read_plays_in_order, lemma_joined_append, lemma_missing, lemma_plays_one, missing, numbered, rising};
use vstd::prelude::*;

verus! {

/// One call on a jitter buffer.
pub enum JitterCall {
    Push { sequence: u32, samples: Seq<Sample> },
    Read { wanted: nat },
}

impl JitterCall {
    /// The number of the packet that the call brings, if it brings one.
    pub open spec fn number(self) -> Option<u32> {
        match self {
            JitterCall::Push { sequence, .. } => Some(sequence),
            JitterCall::Read { .. } => None,
        }
    }
}

impl JitterModel {
    /// The state after a call.
    pub open spec fn call(self, frames: LatencyFrames, call: JitterCall) -> JitterModel {
        match call {
            JitterCall::Push { sequence, samples } => self.push(sequence, samples),
            JitterCall::Read { wanted } => self.read(frames, wanted),
        }
    }

    /// The samples that a call returns, without the silence that makes up for
    /// missing ones.
    pub open spec fn yields(self, call: JitterCall) -> Seq<Sample> {
        match call {
            JitterCall::Push { .. } => Seq::empty(),
            JitterCall::Read { wanted } => self.output(wanted).take(self.readable(wanted) as int),
        }
    }

    /// How many samples a call brings that are not dropped as late.
    pub open spec fn accepts(self, call: JitterCall) -> nat {
        match call {
            JitterCall::Push { sequence, samples } if !self.is_late(sequence) => samples.len(),
            _ => 0,
        }
    }

    /// The state after all calls, one after the other.
    pub open spec fn run(self, frames: LatencyFrames, calls: Seq<JitterCall>) -> JitterModel
        decreases calls.len(),
    {
        if calls.len() == 0 {
            self
        } else {
            self.run(frames, calls.drop_last()).call(frames, calls.last())
        }
    }

    /// The samples that the calls return, in order.
    pub open spec fn heard(self, frames: LatencyFrames, calls: Seq<JitterCall>) -> Seq<Sample>
        decreases calls.len(),
    {
        if calls.len() == 0 {
            Seq::empty()
        } else {
            self.heard(frames, calls.drop_last()) + self.run(frames, calls.drop_last()).yields(
                calls.last(),
            )
        }
    }

    /// How many samples the calls bring that are not dropped as late.
    pub open spec fn accepted(self, frames: LatencyFrames, calls: Seq<JitterCall>) -> nat
        decreases calls.len(),
    {
        if calls.len() == 0 {
            0
        } else {
            self.accepted(frames, calls.drop_last()) + self.run(frames, calls.drop_last()).accepts(
                calls.last(),
            )
        }
    }
}

/// The packets that the calls bring, by their numbers.
pub open spec fn pushed(calls: Seq<JitterCall>) -> Map<u32, Seq<Sample>>
    decreases calls.len(),
{
    if calls.len() == 0 {
        Map::empty()
    } else {
        match calls.last() {
            JitterCall::Push { sequence, samples } => pushed(calls.drop_last()).insert(
                sequence,
                samples,
            ),
            JitterCall::Read { .. } => pushed(calls.drop_last()),
        }
    }
}

/// How many packets the calls bring.
pub open spec fn pushes(calls: Seq<JitterCall>) -> nat
    decreases calls.len(),
{
    if calls.len() == 0 {
        0
    } else {
        pushes(calls.drop_last()) + (if calls.last().number() is Some {
            1nat
        } else {
            0
        })
    }
}

/// The number of the first packet that the calls bring.
pub open spec fn first_pushed(calls: Seq<JitterCall>) -> Option<u32>
    decreases calls.len(),
{
    if calls.len() == 0 {
        None
    } else if first_pushed(calls.drop_last()) is Some {
        first_pushed(calls.drop_last())
    } else {
        calls.last().number()
    }
}

/// No two packets bear the same number.
pub open spec fn distinct(calls: Seq<JitterCall>) -> bool {
    forall|i: int, j: int|
        #![trigger calls[i], calls[j]]
        0 <= i < j < calls.len() && calls[i].number() is Some ==> calls[i].number()
            != calls[j].number()
}

/// No packet bears the highest number, after which the numbers wrap around.
pub open spec fn unwrapped(calls: Seq<JitterCall>) -> bool {
    forall|i: int|
        0 <= i < calls.len() ==> (#[trigger] calls[i]).number() != Some(u32::MAX)
}

/// One more call.
pub proof fn lemma_one_more_call(
    m: JitterModel,
    frames: LatencyFrames,
    calls: Seq<JitterCall>,
    call: JitterCall,
)
    ensures
        m.run(frames, calls.push(call)) == m.run(frames, calls).call(frames, call),
        m.heard(frames, calls.push(call)) == m.heard(frames, calls) + m.run(frames, calls).yields(
            call,
        ),
{
    assert(calls.push(call).drop_last() =~= calls);
}

/// A packet was brought by some call.
pub proof fn lemma_pushed(calls: Seq<JitterCall>, k: u32) -> (i: int)
    requires
        pushed(calls).contains_key(k),
    ensures
        0 <= i < calls.len(),
        calls[i] == (JitterCall::Push { sequence: k, samples: pushed(calls)[k] }),
    decreases calls.len(),
{
    let before = calls.drop_last();
    if calls.last().number() == Some(k) {
        calls.len() - 1
    } else {
        lemma_pushed(before, k)
    }
}

/// The last packet of distinct ones is new.
proof fn lemma_last_is_new(calls: Seq<JitterCall>)
    requires
        calls.len() > 0,
        distinct(calls),
    ensures
        distinct(calls.drop_last()),
        calls.last().number() matches Some(k) ==> !pushed(calls.drop_last()).contains_key(k),
{
    let before = calls.drop_last();
    assert forall|i: int, j: int|
        #![trigger before[i], before[j]]
        0 <= i < j < before.len() && before[i].number() is Some implies before[i].number()
        != before[j].number() by {
        assert(before[i] == calls[i] && before[j] == calls[j]);
    }
    if let Some(k) = calls.last().number() {
        if pushed(before).contains_key(k) {
            let i = lemma_pushed(before, k);
            assert(calls[i] == before[i]);
            assert(calls[i].number() != calls[calls.len() - 1].number());
        }
    }
}

/// Calls keep a jitter buffer orderly and its counters from falling, and leave
/// nothing waiting that was not pushed.
pub proof fn lemma_run(m: JitterModel, frames: LatencyFrames, calls: Seq<JitterCall>)
    requires
        m.orderly(),
        m.pending == Map::<u32, Seq<Sample>>::empty(),
    ensures
        m.run(frames, calls).orderly(),
        m.run(frames, calls).overruns >= m.overruns,
        m.run(frames, calls).pending.submap_of(pushed(calls)),
    decreases calls.len(),
{
    if calls.len() > 0 {
        let before = calls.drop_last();
        lemma_run(m, frames, before);
        let r = m.run(frames, before);
        let after = m.run(frames, calls);
        match calls.last() {
            JitterCall::Push { sequence, samples } => {
                r.lemma_push(sequence, samples);
                r.lemma_push_waiting(sequence, samples);
                assert(after == r.push(sequence, samples));
                assert forall|k: u32| #[trigger] after.pending.dom().contains(k) implies pushed(
                    calls,
                ).dom().contains(k) && after.pending[k] == pushed(calls)[k] by {
                    assert(r.pending.insert(sequence, samples).dom().contains(k));
                    if k != sequence {
                        assert(r.pending.dom().contains(k));
                        assert(pushed(before).dom().contains(k));
                    }
                }
            },
            JitterCall::Read { wanted } => {
                r.lemma_read(frames, wanted);
                r.lemma_read_waiting(frames, wanted);
                assert(after == r.read(frames, wanted));
                assert forall|k: u32| #[trigger] after.pending.dom().contains(k) implies pushed(
                    calls,
                ).dom().contains(k) && after.pending[k] == pushed(calls)[k] by {
                    assert(r.pending.dom().contains(k));
                    assert(pushed(before).dom().contains(k));
                }
            },
        }
    }
}

/// Over any calls, no two of which push the same number: every packet is
/// counted, and every sample that came in time has been read, is still
/// buffered, or is counted as an overrun.
pub proof fn law_history_accounts_for_every_sample(
    m: JitterModel,
    frames: LatencyFrames,
    calls: Seq<JitterCall>,
)
    requires
        m.orderly(),
        m.pending == Map::<u32, Seq<Sample>>::empty(),
        distinct(calls),
    ensures
        ({
            let r = m.run(frames, calls);
            &&& r.received == m.received + pushes(calls)
            &&& m.accepted(frames, calls) + m.buffered() + m.overruns == m.heard(
                frames,
                calls,
            ).len() + r.buffered() + r.overruns
        }),
    decreases calls.len(),
{
    if calls.len() > 0 {
        let before = calls.drop_last();
        let r = m.run(frames, before);
        lemma_last_is_new(calls);
        lemma_run(m, frames, before);
        law_history_accounts_for_every_sample(m, frames, before);
        match calls.last() {
            JitterCall::Push { sequence, samples } => {
                assert(!r.pending.contains_key(sequence)) by {
                    if r.pending.contains_key(sequence) {
                        assert(pushed(before).dom().contains(sequence));
                    }
                }
                r.lemma_push(sequence, samples);
                r.lemma_push_counts(sequence, samples);
                if r.is_late(sequence) {
                    assert(r.push(sequence, samples).buffered() == r.buffered());
                }
            },
            JitterCall::Read { wanted } => {
                r.lemma_read(frames, wanted);
            },
        }
    }
}

/// Further packets are played after earlier ones.
proof fn lemma_played_on(
    earlier: Map<u32, Seq<Sample>>,
    numbers: Seq<u32>,
    middle: int,
    packets: Map<u32, Seq<Sample>>,
    more: Seq<u32>,
    end: int,
    all: Map<u32, Seq<Sample>>,
)
    requires
        rising(numbers),
        rising(more),
        numbers.len() > 0,
        numbers.last() + 1 == middle,
        middle <= end <= u32::MAX,
        forall|i: int|
            0 <= i < numbers.len() ==> earlier.contains_key(#[trigger] numbers[i])
                && all.contains_key(numbers[i]) && all[numbers[i]] == earlier[numbers[i]],
        forall|i: int|
            0 <= i < more.len() ==> middle <= #[trigger] more[i] < end && all.contains_key(more[i])
                && all[more[i]] == packets[more[i]],
    ensures
        rising(numbers + more),
        forall|i: int|
            0 <= i < (numbers + more).len() ==> all.contains_key(#[trigger] (numbers + more)[i]),
        joined(numbered(all, numbers + more)) == joined(numbered(earlier, numbers)) + joined(
            numbered(packets, more),
        ),
        missing((numbers + more).to_set(), numbers[0] as int, end) == missing(
            numbers.to_set(),
            numbers[0] as int,
            middle,
        ) + missing(more.to_set(), middle, end),
        missing((numbers + more).to_set(), numbers[0] as int, end) == end - numbers[0] - (numbers
            + more).len(),
{
    let whole = numbers + more;
    assert forall|i: int| 0 <= i < numbers.len() implies numbers[0] <= #[trigger] numbers[i]
        < middle by {
        assert(numbers[i] <= numbers[numbers.len() - 1]);
        assert(numbers[0] <= numbers[i]);
    }
    assert forall|i: int| 0 <= i < whole.len() implies numbers[0] <= #[trigger] whole[i] < end
        && all.contains_key(whole[i]) by {
        if i < numbers.len() {
            assert(whole[i] == numbers[i]);
        } else {
            assert(whole[i] == more[i - numbers.len()]);
        }
    }
    assert forall|i: int, j: int| 0 <= i < j < whole.len() implies whole[i] < whole[j] by {
        if j < numbers.len() {
            assert(numbers[i] < numbers[j]);
        } else if i < numbers.len() {
            assert(numbers[i] < middle <= more[j - numbers.len()]);
        } else {
            assert(more[i - numbers.len()] < more[j - numbers.len()]);
        }
    }
    lemma_missing(numbers, numbers[0] as int, middle);
    lemma_missing(more, middle, end);
    lemma_missing(whole, numbers[0] as int, end);
    lemma_joined_append(numbered(earlier, numbers), numbered(packets, more));
    assert(numbered(all, whole) =~= numbered(earlier, numbers) + numbered(packets, more));
}

/// The packets `numbers` are what a buffer that started as `m` has played: whole,
/// in rising order and each at most once.
///
/// The first of them is the first to arrive. Unless the queue overran, what the
/// reads have returned and what is left to play are together those packets, one
/// after the other. Every other packet waits for its turn or was late, and
/// exactly the numbers that were passed over count as lost: no more than lie
/// between the first and the last packet played.
pub open spec fn played(
    m: JitterModel,
    frames: LatencyFrames,
    calls: Seq<JitterCall>,
    numbers: Seq<u32>,
) -> bool {
    let r = m.run(frames, calls);
    &&& rising(numbers)
    &&& forall|i: int|
        0 <= i < numbers.len() ==> pushed(calls).contains_key(#[trigger] numbers[i])
    &&& r.overruns == m.overruns ==> m.heard(frames, calls) + r.ring == joined(
        numbered(pushed(calls), numbers),
    )
    &&& r.late + numbers.len() + r.pending.dom().len() == m.late + pushes(calls)
    &&& r.pending.submap_of(pushed(calls))
    &&& match first_pushed(calls) {
        None => numbers.len() == 0 && r.next is None && r.lost == m.lost,
        Some(first) => {
            &&& numbers.len() > 0
            &&& numbers[0] == first
            &&& r.next == Some((numbers.last() + 1) as u32)
            &&& r.lost == m.lost + missing(numbers.to_set(), first as int, numbers.last() + 1)
            &&& r.lost - m.lost <= numbers.last() - first
        },
    }
}

/// No packet bears the highest number.
proof fn lemma_pushed_unwrapped(calls: Seq<JitterCall>, k: u32)
    requires
        unwrapped(calls),
        pushed(calls).contains_key(k),
    ensures
        k < u32::MAX,
{
    let i = lemma_pushed(calls, k);
    assert(calls[i].number() == Some(k));
}

/// What a packet makes playable comes after what was played before.
proof fn lemma_push_played(
    m: JitterModel,
    frames: LatencyFrames,
    before: Seq<JitterCall>,
    sequence: u32,
    samples: Seq<Sample>,
    numbers: Seq<u32>,
) -> (whole: Seq<u32>)
    requires
        m.orderly(),
        m.next is None,
        unwrapped(before),
        sequence < u32::MAX,
        !pushed(before).contains_key(sequence),
        played(m, frames, before, numbers),
    ensures
        played(m, frames, before.push(JitterCall::Push { sequence, samples }), whole),
{
    let calls = before.push(JitterCall::Push { sequence, samples });
    assert(calls.drop_last() =~= before);
    lemma_run(m, frames, before);
    lemma_run(m, frames, calls);
    let r = m.run(frames, before);
    let after = m.run(frames, calls);
    assert(after == r.push(sequence, samples));
    r.lemma_push(sequence, samples);
    r.lemma_push_counts(sequence, samples);
    let heard = m.heard(frames, before);
    assert(m.heard(frames, calls) =~= heard);
    let packets = r.pending.insert(sequence, samples);
    assert(!r.pending.contains_key(sequence)) by {
        if r.pending.dom().contains(sequence) {
            assert(pushed(before).dom().contains(sequence));
        }
    }
    if r.next is None {
        let first = JitterModel { next: Some(sequence), ..r };
        assert(packets.remove(sequence) =~= r.pending);
        lemma_plays_one(first, packets, sequence, sequence, after);
        let whole = seq![sequence];
        assert(numbered(pushed(calls), whole) =~= numbered(packets, whole));
        if after.overruns == m.overruns {
            assert(numbered(pushed(before), numbers) =~= Seq::empty());
            assert(heard + r.ring =~= Seq::empty());
            assert(heard + after.ring =~= after.ring);
            assert(r.ring + joined(numbered(packets, whole)) =~= joined(numbered(packets, whole)));
        }
        lemma_missing(whole, sequence as int, sequence + 1);
        whole
    } else if r.is_late(sequence) {
        assert(numbered(pushed(calls), numbers) =~= numbered(pushed(before), numbers));
        numbers
    } else {
        assert forall|k: u32| #[trigger] r.pending.contains_key(k) implies k < u32::MAX by {
            assert(r.pending.dom().contains(k));
            lemma_pushed_unwrapped(before, k);
        }
        let more = law_push_plays_in_order(r, sequence, samples);
        assert forall|i: int| 0 <= i < more.len() implies r.next->0 <= #[trigger] more[i]
            < after.next->0 && pushed(calls).contains_key(more[i]) && pushed(calls)[more[i]]
            == packets[more[i]] by {
            let last = more[more.len() - 1];
            assert(more[i] <= last);
            assert(packets.contains_key(last));
            assert(last < u32::MAX) by {
                if last != sequence {
                    assert(r.pending.contains_key(last));
                }
            }
            assert(packets.contains_key(more[i]));
            if more[i] != sequence {
                assert(r.pending.dom().contains(more[i]));
                assert(pushed(before).dom().contains(more[i]));
            }
        }
        lemma_pushed_unwrapped(before, numbers[numbers.len() - 1]);
        lemma_played_on(
            pushed(before),
            numbers,
            r.next->0 as int,
            packets,
            more,
            after.next->0 as int,
            pushed(calls),
        );
        if after.overruns == m.overruns {
            assert(heard + (r.ring + joined(numbered(packets, more))) =~= (heard + r.ring)
                + joined(numbered(packets, more)));
        }
        numbers + more
    }
}

/// What a read plays comes after what was played before.
proof fn lemma_read_played(
    m: JitterModel,
    frames: LatencyFrames,
    before: Seq<JitterCall>,
    wanted: nat,
    numbers: Seq<u32>,
) -> (whole: Seq<u32>)
    requires
        m.orderly(),
        m.next is None,
        unwrapped(before),
        played(m, frames, before, numbers),
    ensures
        played(m, frames, before.push(JitterCall::Read { wanted }), whole),
{
    let calls = before.push(JitterCall::Read { wanted });
    assert(calls.drop_last() =~= before);
    lemma_run(m, frames, before);
    lemma_run(m, frames, calls);
    let r = m.run(frames, before);
    let after = m.run(frames, calls);
    assert(after == r.read(frames, wanted));
    r.lemma_read(frames, wanted);
    let heard = m.heard(frames, before);
    let given = r.yields(JitterCall::Read { wanted });
    if r.next is None {
        assert(given =~= Seq::empty());
        assert(after.ring =~= r.ring);
        assert(heard + given =~= heard);
        assert(after.pending =~= r.pending);
        numbers
    } else {
        assert forall|k: u32| #[trigger] r.pending.contains_key(k) implies k < u32::MAX by {
            assert(r.pending.dom().contains(k));
            lemma_pushed_unwrapped(before, k);
        }
        let more = law_read_plays_in_order(r, frames, wanted);
        assert forall|i: int| 0 <= i < more.len() implies r.next->0 <= #[trigger] more[i]
            < after.next->0 && pushed(calls).contains_key(more[i]) && pushed(calls)[more[i]]
            == r.pending[more[i]] by {
            let last = more[more.len() - 1];
            assert(more[i] <= last);
            assert(r.pending.contains_key(last));
            assert(last < u32::MAX);
            assert(after.next == Some((last + 1) as u32));
            assert(r.pending.dom().contains(more[i]));
            assert(pushed(before).dom().contains(more[i]));
        }
        lemma_pushed_unwrapped(before, numbers[numbers.len() - 1]);
        lemma_played_on(
            pushed(before),
            numbers,
            r.next->0 as int,
            r.pending,
            more,
            after.next->0 as int,
            pushed(calls),
        );
        if after.overruns == m.overruns {
            assert((heard + given) + after.ring =~= heard + (given + after.ring));
            assert(heard + (r.ring + joined(numbered(r.pending, more))) =~= (heard + r.ring)
                + joined(numbered(r.pending, more)));
        }
        numbers + more
    }
}

/// Over any calls on a new buffer, no two of which push the same number, the
/// packets are heard whole, in rising order of their numbers and at most once,
/// and exactly the numbers passed over count as lost.
///
/// No packet may bear the highest number, after which the numbers wrap around.
pub proof fn law_packets_are_heard_in_order(
    m: JitterModel,
    frames: LatencyFrames,
    calls: Seq<JitterCall>,
) -> (numbers: Seq<u32>)
    requires
        m.orderly(),
        m.next is None,
        distinct(calls),
        unwrapped(calls),
    ensures
        m.run(frames, calls).orderly(),
        played(m, frames, calls, numbers),
    decreases calls.len(),
{
    lemma_run(m, frames, calls);
    if calls.len() == 0 {
        let none = Seq::<u32>::empty();
        assert(numbered(pushed(calls), none) =~= Seq::empty());
        assert(m.heard(frames, calls) + m.ring =~= Seq::empty());
        none
    } else {
        let before = calls.drop_last();
        lemma_last_is_new(calls);
        assert(unwrapped(before)) by {
            assert forall|i: int| 0 <= i < before.len() implies (#[trigger] before[i]).number()
                != Some(u32::MAX) by {
                assert(before[i] == calls[i]);
            }
        }
        let numbers = law_packets_are_heard_in_order(m, frames, before);
        assert(calls =~= before.push(calls.last()));
        assert(calls[calls.len() - 1] == calls.last());
        match calls.last() {
            JitterCall::Push { sequence, samples } => lemma_push_played(
                m,
                frames,
                before,
                sequence,
                samples,
                numbers,
            ),
            JitterCall::Read { wanted } => lemma_read_played(m, frames, before, wanted, numbers),
        }
    }
}

} // verus!
