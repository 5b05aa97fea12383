//! A dynamic jitter buffer for networked audio.
//!
//! Network delivery is lossy and can reorder packets, so a receiver cannot
//! simply play samples in arrival order. [`JitterBuffer`] reorders out-of-order
//! packets within a bounded window, detects gaps and reports them as lost (the
//! caller sees silence), and adaptively grows or shrinks its target latency so
//! that it only buffers as much as the current network jitter requires.
//!
//! The state machine is defined in [`model`]; the methods of [`JitterBuffer`]
//! are proved to take exactly its steps. What a step does is said field by field
//! in [`effects`], which packets it plays in [`playout`], and what holds over any
//! sequence of calls in [`history`].

use crate::buffer::{max_capacity, min_len, next_power, AudioRingBuffer, Sample, SILENCE};
use crate::duration::Duration;
use crate::jitter::model::{first_key, is_first_key, lemma_first_key, lemma_waiting_remove, max_of, waiting, JitterModel};
use std::collections::BTreeMap;
use vstd::prelude::*;
use vstd::std_specs::cmp::OrdSpec;
use vstd::std_specs::iter::IteratorSpec;

pub use crate::jitter::model::{LatencyFrames, MAX_REORDER_PACKETS};

pub mod effects;
pub mod history;
pub mod laws;
pub mod model;
pub mod playout;

verus! {

/// Tuning parameters for a [`JitterBuffer`].
#[derive(Debug, Clone, Copy, PartialEq, Eq, Structural)]
pub struct JitterBufferConfig {
    pub sample_rate: u32,
    pub channels: u16,
    pub initial_latency: Duration,
    pub min_latency: Duration,
    pub max_latency: Duration,
}

impl JitterBufferConfig {
    /// Start at 60 ms and stay between 20 ms and 200 ms.
    pub fn new(sample_rate: u32, channels: u16) -> (config: Self)
        ensures
            config.sample_rate == sample_rate,
            config.channels == channels,
            config.initial_latency.wf(),
            config.initial_latency.total_nanos() == 60_000_000,
            config.min_latency.wf(),
            config.min_latency.total_nanos() == 20_000_000,
            config.max_latency.wf(),
            config.max_latency.total_nanos() == 200_000_000,
    {
        JitterBufferConfig {
            sample_rate,
            channels,
            initial_latency: Duration::from_millis(60),
            min_latency: Duration::from_millis(20),
            max_latency: Duration::from_millis(200),
        }
    }
}

/// Cumulative receive statistics.
#[derive(Debug, Clone, Copy, PartialEq, Eq, Structural)]
pub struct JitterStats {
    pub packets_received: u64,
    pub packets_lost: u64,
    pub late_packets: u64,
    pub underruns: u64,
    pub overruns: u64,
    pub latency: Duration,
}

impl JitterStats {
    /// The counters of `m`, beside `latency`.
    pub open spec fn describes(self, m: JitterModel, latency: Duration) -> bool {
        &&& self.packets_received == m.received
        &&& self.packets_lost == m.lost
        &&& self.late_packets == m.late
        &&& self.underruns == m.underruns
        &&& self.overruns == m.overruns
        &&& self.latency == latency
    }
}

impl Default for JitterStats {
    fn default() -> (stats: Self)
        ensures
            stats == (JitterStats {
                packets_received: 0,
                packets_lost: 0,
                late_packets: 0,
                underruns: 0,
                overruns: 0,
                latency: (Duration { secs: 0, nanos: 0 }),
            }),
    {
        JitterStats {
            packets_received: 0,
            packets_lost: 0,
            late_packets: 0,
            underruns: 0,
            overruns: 0,
            latency: Duration { secs: 0, nanos: 0 },
        }
    }
}

impl LatencyFrames {
    /// The largest value the target latency can take.
    pub open spec fn highest(self) -> int {
        max_of(max_of(self.initial as int, 1), max_of(self.min as int, self.max as int))
    }

    /// Twice the target, and the target one step up, stay representable.
    pub open spec fn fits(self) -> bool {
        &&& 2 * self.highest() <= usize::MAX
        &&& self.highest() + max_of(self.step as int, 1) <= usize::MAX
    }
}

/// The number of samples the playable queue must hold: the maximum latency
/// plus headroom for a full reorder window of 20 ms packets at 48 kHz.
pub open spec fn queue_len(channels: u16, max_frames: usize) -> int {
    let wanted = max_frames + MAX_REORDER_PACKETS * channels * 960;
    max_of(if wanted <= usize::MAX { wanted } else { usize::MAX as int }, 1024)
}

/// Whether a buffer with these settings can be made.
pub open spec fn is_feasible(channels: u16, frames: LatencyFrames) -> bool {
    &&& queue_len(channels, frames.max) <= max_capacity()
    &&& frames.fits()
}

/// Whether a buffer with these settings can be made.
pub fn feasible(channels: u16, frames: LatencyFrames) -> (b: bool)
    ensures
        b == is_feasible(channels, frames),
{
    let headroom: usize = MAX_REORDER_PACKETS * channels as usize * 960;
    let queue: usize = frames.max.saturating_add(headroom);
    let limit: usize = isize::MAX as usize / 8 + 1;
    let initial: usize = if frames.initial < 1 {
        1
    } else {
        frames.initial
    };
    let ends: usize = if frames.min < frames.max {
        frames.max
    } else {
        frames.min
    };
    let highest: usize = if initial < ends {
        ends
    } else {
        initial
    };
    let step: usize = if frames.step < 1 {
        1
    } else {
        frames.step
    };
    queue <= limit && 1024 <= limit && highest <= usize::MAX / 2 && highest <= usize::MAX - step
}

/// The state before the first packet.
pub open spec fn fresh(channels: u16, frames: LatencyFrames) -> JitterModel {
    JitterModel {
        capacity: next_power(queue_len(channels, frames.max) as nat),
        ring: Seq::empty(),
        pending: Map::empty(),
        next: None,
        stalled: None,
        started: false,
        target: max_of(frames.initial as int, 1) as nat,
        received: 0,
        lost: 0,
        late: 0,
        underruns: 0,
        overruns: 0,
    }
}

/// A new buffer takes any packet.
pub proof fn lemma_fresh_room(channels: u16, frames: LatencyFrames, calls: nat, extra: nat)
    requires
        calls <= 0xffff,
        extra <= usize::MAX,
    ensures
        fresh(channels, frames).has_room(calls, extra),
        fresh(channels, frames).buffered() == 0,
{
}

/// Reorders, buffers, and loss-detects audio packets.
pub struct JitterBuffer {
    config: JitterBufferConfig,
    frames: LatencyFrames,
    ring: AudioRingBuffer,
    /// Packets that arrived before their turn (out-of-order delivery).
    pending: BTreeMap<u32, Vec<Sample>>,
    next_expected: Option<u32>,
    /// The packet that the last read ran dry on while others waited.
    stalled_on: Option<u32>,
    target_frames: usize,
    stats: JitterStats,
    started: bool,
}

impl View for JitterBuffer {
    type V = JitterModel;

    closed spec fn view(&self) -> JitterModel {
        JitterModel {
            capacity: self.ring.spec_capacity(),
            ring: self.ring@,
            pending: contents(self.pending@),
            next: self.next_expected,
            stalled: self.stalled_on,
            started: self.started,
            target: self.target_frames as nat,
            received: self.stats.packets_received as nat,
            lost: self.stats.packets_lost as nat,
            late: self.stats.late_packets as nat,
            underruns: self.stats.underruns as nat,
            overruns: self.stats.overruns as nat,
        }
    }
}

/// The samples of each packet.
spec fn contents(pending: Map<u32, Vec<Sample>>) -> Map<u32, Seq<Sample>> {
    pending.map_values(|v: Vec<Sample>| v@)
}

impl JitterBuffer {
    pub closed spec fn spec_config(&self) -> JitterBufferConfig {
        self.config
    }

    /// The latencies the target adapts between.
    pub closed spec fn latency_frames(&self) -> LatencyFrames {
        self.frames
    }

    spec fn same_setup(&self, other: &Self) -> bool {
        self.config == other.config && self.frames == other.frames
    }

    spec fn inner_wf(&self) -> bool {
        &&& self.ring.wf()
        &&& self.frames.fits()
        &&& self.target_frames <= self.frames.highest()
        &&& self@.valid()
    }

    pub closed spec fn wf(&self) -> bool {
        &&& self.inner_wf()
        &&& self@.orderly()
        &&& !self.started ==> self.next_expected is None
    }

    /// What holds of every buffer between two calls: the queue stays within its
    /// capacity, the reorder window within its limit and the target within its
    /// range, and every waiting packet lies ahead of the expected one.
    pub proof fn lemma_wf(&self)
        requires
            self.wf(),
        ensures
            self@.orderly(),
            self@.pending.dom().len() <= MAX_REORDER_PACKETS,
            self@.target <= self.latency_frames().highest(),
            self.latency_frames().fits(),
            !self@.started ==> self@.next is None,
    {
        self@.lemma_window();
    }

    /// An empty buffer. `frames` are the latencies of `config`, and the step by
    /// which the target adapts, in frames of the stream.
    pub fn new(config: JitterBufferConfig, frames: LatencyFrames) -> (jitter: Self)
        requires
            is_feasible(config.channels, frames),
        ensures
            jitter.wf(),
            jitter.spec_config() == config,
            jitter.latency_frames() == frames,
            jitter@ == fresh(config.channels, frames),
            jitter@.capacity >= 1024,
            jitter@.capacity >= frames.max + 64 * 960 * config.channels,
            jitter@.target >= 1,
            jitter@.target >= frames.initial,
            jitter@.target == 1 || jitter@.target == frames.initial,
            !jitter@.started,
    {
        // Ring sized for the maximum latency plus reorder-window headroom.
        let headroom: usize = MAX_REORDER_PACKETS * config.channels as usize * 960;
        let mut capacity: usize = frames.max.saturating_add(headroom);
        if capacity < 1024 {
            capacity = 1024;
        }
        let target_frames: usize = if frames.initial < 1 {
            1
        } else {
            frames.initial
        };
        let default_stats: JitterStats = JitterStats::default();
        let jitter = JitterBuffer {
            config,
            frames,
            ring: AudioRingBuffer::new(capacity),
            pending: BTreeMap::new(),
            next_expected: None,
            stalled_on: None,
            target_frames,
            stats: JitterStats { latency: config.initial_latency, ..default_stats },
            started: false,
        };
        proof {
            assert(jitter@.pending =~= Map::empty());
            assert(MAX_REORDER_PACKETS * config.channels * 960 == 64 * 960 * config.channels)
                by (nonlinear_arith)
                requires
                    MAX_REORDER_PACKETS == 64,
            ;
            assert(max_capacity() < usize::MAX);
        }
        jitter
    }

    /// Push one packet's interleaved samples, keyed by its sequence number.
    pub fn push(&mut self, sequence: u32, samples: Vec<Sample>)
        requires
            old(self).wf(),
            old(self)@.push(sequence, samples@).countable(),
        ensures
            final(self).wf(),
            final(self).spec_config() == old(self).spec_config(),
            final(self).latency_frames() == old(self).latency_frames(),
            final(self)@ == old(self)@.push(sequence, samples@),
    {
        let ghost m = JitterModel {
            received: old(self)@.received + 1,
            started: true,
            ..old(self)@
        };
        proof {
            old(self)@.lemma_push(sequence, samples@);
            old(self)@.lemma_push_counts(sequence, samples@);
        }
        self.stats.packets_received = self.stats.packets_received + 1;
        self.started = true;
        assert(self@ == m);
        match self.next_expected {
            None => {
                self.next_expected = Some(sequence.wrapping_add(1));
                self.push_into_ring(samples.as_slice());
                assert(self@ == m.play(sequence, samples@));
            },
            Some(expected) => {
                if sequence == expected {
                    proof {
                        m.play(sequence, samples@).lemma_drain_counts();
                    }
                    self.push_into_ring(samples.as_slice());
                    self.next_expected = Some(expected.wrapping_add(1));
                    assert(self@ == m.play(sequence, samples@));
                    self.drain_pending();
                } else if sequence < expected {
                    self.stats.late_packets = self.stats.late_packets + 1;
                } else {
                    // A jump larger than the reorder window is a real loss: play
                    // what waits, count the missing packets and jump ahead instead
                    // of waiting for them.
                    if sequence - expected > MAX_REORDER_PACKETS as u32 {
                        proof {
                            m.lemma_jump(sequence, samples@);
                        }
                        self.flush_pending();
                        self.skip_missing(sequence);
                        self.push_into_ring(samples.as_slice());
                        self.next_expected = Some(sequence.wrapping_add(1));
                        return ;
                    }
                    let ghost waiting_before = self.pending@;
                    let ghost packet = samples;
                    self.pending.insert(sequence, samples);
                    proof {
                        lemma_contents_insert(waiting_before, sequence, packet);
                        assert(self@ == JitterModel {
                            pending: m.pending.insert(sequence, packet@),
                            ..m
                        });
                    }
                }
            },
        }
    }

    /// Read up to `out.len()` samples, filling any shortfall with silence.
    /// Returns the number of real samples read.
    pub fn read(&mut self, out: &mut [Sample]) -> (n: usize)
        requires
            old(self).wf(),
            old(self)@.read(old(self).latency_frames(), old(out)@.len()).countable(),
            old(self)@.buffered() <= usize::MAX,
        ensures
            final(self).wf(),
            final(self).spec_config() == old(self).spec_config(),
            final(self).latency_frames() == old(self).latency_frames(),
            n == old(self)@.readable(old(out)@.len()),
            final(out)@ == old(self)@.output(old(out)@.len()),
            final(self)@ == old(self)@.read(old(self).latency_frames(), old(out)@.len()),
    {
        let ghost before = self@;
        let ghost wanted = out@.len();
        // If the ring is empty but reordered packets are already waiting, the
        // missing ones may still be on their way, so one read waits for them.
        // After that they are effectively lost: jump to the oldest waiting
        // packet so playback does not stall on the gap.
        proof {
            before.lemma_settle();
        }
        if self.ring.is_empty() {
            if let (Some(expected), Some(stalled)) = (self.next_expected, self.stalled_on) {
                if stalled == expected {
                    if let Some(first) = self.oldest() {
                        self.skip_missing(first);
                        self.drain_pending();
                    }
                }
            }
        }
        assert(self@ == before.settle());
        let ghost settled = self@;
        let n: usize = self.ring.pop(out);
        assert(self@ == JitterModel { ring: settled.ring.skip(n as int), ..settled });
        let mut i: usize = n;
        while i < out.len()
            invariant
                n <= i <= out@.len(),
                out@.len() == wanted,
                n == min_len(wanted, settled.ring.len()),
                out@.take(n as int) == settled.ring.take(n as int),
                forall|k: int| n <= k < i ==> out@[k] == SILENCE,
            decreases out@.len() - i,
        {
            let ghost earlier = out@;
            out[i] = SILENCE;
            assert(out@.take(n as int) =~= earlier.take(n as int));
            i = i + 1;
        }
        proof {
            assert(before.readable(wanted) == n);
            assert forall|k: int| 0 <= k < n implies out@[k] == settled.ring[k] by {
                assert(out@.take(n as int)[k] == settled.ring.take(n as int)[k]);
            }
            assert(out@ =~= before.output(wanted));
        }
        self.stalled_on = if n < out.len() && self.has_waiting() {
            self.next_expected
        } else {
            None
        };
        if self.started && n < out.len() {
            self.stats.underruns = self.stats.underruns + 1;
            self.adapt_latency(true);
        } else if self.started && n == out.len() {
            self.adapt_latency(false);
        }
        n
    }

    /// Samples currently sitting in the buffer (playable + reorder window).
    pub fn buffered_frames(&self) -> (n: usize)
        requires
            self.wf(),
            self@.buffered() <= usize::MAX,
        ensures
            n == self@.buffered(),
    {
        self.count_buffered()
    }

    /// Current target latency in frames.
    pub fn target_frames(&self) -> (n: usize)
        ensures
            n == self@.target,
    {
        self.target_frames
    }

    pub fn config(&self) -> (config: JitterBufferConfig)
        ensures
            config == self.spec_config(),
    {
        self.config
    }

    /// The counters, beside the target latency as a span of time.
    pub fn stats(&self, latency: Duration) -> (stats: JitterStats)
        ensures
            stats.describes(self@, latency),
            stats.packets_received == self@.received,
            stats.packets_lost == self@.lost,
            stats.late_packets == self@.late,
            stats.underruns == self@.underruns,
            stats.overruns == self@.overruns,
            stats.latency == latency,
    {
        let mut stats: JitterStats = self.stats;
        stats.latency = latency;
        stats
    }

    /// Whether the counters can take `calls` more calls that bring `extra`
    /// samples.
    pub fn has_room(&self, calls: u16, extra: usize) -> (b: bool)
        requires
            self.wf(),
        ensures
            b == self@.has_room(calls as nat, extra as nat),
    {
        let total: usize = match self.checked_buffered() {
            Some(n) => match n.checked_add(extra) {
                Some(total) => total,
                None => {
                    return false;
                },
            },
            None => {
                return false;
            },
        };
        let calls: u64 = calls as u64;
        self.stats.packets_received <= u64::MAX - calls && self.stats.late_packets <= u64::MAX
            - calls && self.stats.underruns <= u64::MAX - calls && self.stats.packets_lost
            <= u64::MAX - calls * 0x1_0000_0000 && self.stats.overruns <= u64::MAX - total as u64
    }

    fn count_buffered(&self) -> (n: usize)
        requires
            self.inner_wf(),
            self@.buffered() <= usize::MAX,
        ensures
            n == self@.buffered(),
    {
        match self.checked_buffered() {
            Some(n) => n,
            None => 0,
        }
    }

    /// The samples in the buffer, unless they are more than a `usize` counts.
    fn checked_buffered(&self) -> (n: Option<usize>)
        requires
            self.inner_wf(),
        ensures
            n is Some <==> self@.buffered() <= usize::MAX,
            n matches Some(n) ==> n == self@.buffered(),
    {
        broadcast use vstd::laws_cmp::group_laws_cmp;

        let mut pending_frames: usize = 0;
        proof {
            lemma_contents(self.pending@);
            assert(without(self@.pending, self.pending.keys().remaining().unref(), 0)
                =~= self@.pending);
        }
        for k in keys: self.pending.keys()
            invariant
                self.inner_wf(),
                keys.seq() == self.pending.keys().remaining(),
                self@.pending.dom() == self.pending@.dom(),
                pending_frames + waiting(without(self@.pending, keys.seq().unref(), keys.index()))
                    == waiting(self@.pending),
        {
            let ghost all = keys.seq().unref();
            let ghost i = keys.index();
            let ghost rest = without(self@.pending, all, i);
            proof {
                assert(all[i] == *k);
                assert(all.to_set().contains(*k));
                assert(keys.seq().no_duplicates());
                assert forall|j: int| 0 <= j < i implies all[j] != *k by {
                    assert(keys.seq()[j] != keys.seq()[i]);
                }
                assert(rest.contains_key(*k));
                lemma_without(self@.pending, all, i);
                lemma_waiting_remove(rest, *k);
            }
            if let Some(samples) = self.pending.get(k) {
                assert(rest[*k] == samples@);
                match pending_frames.checked_add(samples.len()) {
                    Some(sum) => {
                        pending_frames = sum;
                    },
                    None => {
                        return None;
                    },
                }
            }
        }
        proof {
            let all = self.pending.keys().remaining().unref();
            let rest = without(self@.pending, all, 0int + all.len());
            assert(all.take(0int + all.len()) =~= all);
            assert forall|k: u32| !rest.contains_key(k) by {
                if self@.pending.contains_key(k) {
                    assert(all.to_set().contains(k));
                }
            }
            assert(rest.dom() =~= Set::empty());
        }
        self.ring.len().checked_add(pending_frames)
    }

    /// Grow the target after an underrun, shrink it when the buffer holds far
    /// more than needed.
    fn adapt_latency(&mut self, underrun: bool)
        requires
            old(self).inner_wf(),
            old(self)@.buffered() <= usize::MAX,
        ensures
            final(self).inner_wf(),
            final(self).same_setup(old(self)),
            final(self)@ == old(self)@.adapt(old(self).frames, underrun),
    {
        let min: usize = if self.frames.min < 1 {
            1
        } else {
            self.frames.min
        };
        let max: usize = self.frames.max;
        let step: usize = if self.frames.step < 1 {
            1
        } else {
            self.frames.step
        };
        if underrun {
            let grown: usize = self.target_frames + step;
            self.target_frames = if grown < max {
                grown
            } else {
                max
            };
        } else if self.count_buffered() > self.target_frames * 2 {
            let shrunk: usize = self.target_frames.saturating_sub(step);
            self.target_frames = if shrunk > min {
                shrunk
            } else {
                min
            };
        }
    }

    /// Whether any packet waits for its turn.
    fn has_waiting(&self) -> (b: bool)
        requires
            self.inner_wf(),
        ensures
            b == (self@.pending.dom().len() > 0),
    {
        proof {
            lemma_contents(self.pending@);
        }
        self.pending.len() > 0
    }

    /// The smallest sequence number that is waiting.
    fn oldest(&self) -> (first: Option<u32>)
        requires
            self.inner_wf(),
        ensures
            first is None <==> self@.pending.dom().len() == 0,
            first matches Some(k) ==> k == first_key(self@.pending) && self@.pending.contains_key(k),
    {
        let first: Option<u32> = find_first_key(&self.pending);
        proof {
            lemma_contents(self.pending@);
            if let Some(k) = first {
                assert(is_first_key(self@.pending, k));
                lemma_first_key(self@.pending);
            }
        }
        first
    }

    fn push_into_ring(&mut self, samples: &[Sample])
        requires
            old(self).inner_wf(),
            old(self)@.enqueue(samples@).overruns <= u64::MAX,
        ensures
            final(self).inner_wf(),
            final(self).same_setup(old(self)),
            final(self)@ == old(self)@.enqueue(samples@),
    {
        proof {
            self.ring.lemma_len_bound();
        }
        let pushed: usize = self.ring.push(samples);
        proof {
            self.ring.lemma_len_bound();
        }
        if pushed < samples.len() {
            self.stats.overruns = self.stats.overruns + (samples.len() - pushed) as u64;
        }
    }

    /// Expect `sequence` next, counting the packets before it as lost.
    fn skip_missing(&mut self, sequence: u32)
        requires
            old(self).inner_wf(),
            old(self)@.next matches Some(expected) && expected <= sequence,
            old(self)@.lost + (sequence - old(self)@.next->0) <= u64::MAX,
        ensures
            final(self).inner_wf(),
            final(self).same_setup(old(self)),
            final(self)@ == old(self)@.skip_to(old(self)@.next->0, sequence),
    {
        if let Some(expected) = self.next_expected {
            let missing: u32 = sequence - expected;
            self.stats.packets_lost = self.stats.packets_lost + missing as u64;
            self.next_expected = Some(sequence);
        }
    }

    /// Take the packet `sequence` out of the reorder window and play it.
    fn play_waiting(&mut self, sequence: u32)
        requires
            old(self).inner_wf(),
            old(self)@.pending.contains_key(sequence),
            old(self)@.play_waiting(sequence).overruns <= u64::MAX,
        ensures
            final(self).inner_wf(),
            final(self).same_setup(old(self)),
            final(self)@ == old(self)@.play_waiting(sequence),
    {
        let ghost map_before = self.pending@;
        proof {
            lemma_contents(map_before);
            lemma_contents_remove(map_before, sequence);
        }
        if let Some(samples) = self.pending.remove(&sequence) {
            self.push_into_ring(samples.as_slice());
            self.next_expected = Some(sequence.wrapping_add(1));
        }
    }

    /// The expected packet, if it is among the waiting ones.
    fn due(&self) -> (k: Option<u32>)
        requires
            self.inner_wf(),
        ensures
            k matches Some(k) ==> self@.next == Some(k) && self@.pending.contains_key(k),
            k is None ==> (self@.next is None || !self@.pending.contains_key(self@.next->0)),
    {
        broadcast use vstd::laws_cmp::group_laws_cmp;

        proof {
            lemma_contents(self.pending@);
        }
        match self.next_expected {
            Some(expected) => if self.pending.contains_key(&expected) {
                Some(expected)
            } else {
                None
            },
            None => None,
        }
    }

    /// Play waiting packets as long as the expected one is among them.
    fn drain_pending(&mut self)
        requires
            old(self).inner_wf(),
            old(self)@.drain().overruns <= u64::MAX,
        ensures
            final(self).inner_wf(),
            final(self).same_setup(old(self)),
            final(self)@ == old(self)@.drain(),
    {
        let mut due: Option<u32> = self.due();
        while due.is_some()
            invariant
                self.inner_wf(),
                self.same_setup(old(self)),
                due matches Some(k) ==> self@.next == Some(k) && self@.pending.contains_key(k),
                due is None ==> (self@.next is None || !self@.pending.contains_key(self@.next->0)),
                self@.drain() == old(self)@.drain(),
                old(self)@.drain().overruns <= u64::MAX,
            decreases self@.pending.dom().len(),
        {
            if let Some(expected) = due {
                proof {
                    self@.play_waiting(expected).lemma_drain_counts();
                }
                self.play_waiting(expected);
                due = self.due();
            }
        }
    }

    /// Play every waiting packet, oldest first, counting those missing between
    /// them as lost.
    fn flush_pending(&mut self)
        requires
            old(self).inner_wf(),
            old(self)@.next is Some,
            forall|k: u32| #[trigger]
                old(self)@.pending.contains_key(k) ==> old(self)@.next->0 <= k < u32::MAX,
            old(self)@.flush().lost <= u64::MAX,
            old(self)@.flush().overruns <= u64::MAX,
        ensures
            final(self).inner_wf(),
            final(self).same_setup(old(self)),
            final(self)@ == old(self)@.flush(),
    {
        let mut oldest: Option<u32> = self.oldest();
        while oldest.is_some()
            invariant
                self.inner_wf(),
                self.same_setup(old(self)),
                self@.next is Some,
                oldest is None <==> self@.pending.dom().len() == 0,
                oldest matches Some(k) ==> k == first_key(self@.pending)
                    && self@.pending.contains_key(k),
                forall|k: u32| #[trigger]
                    self@.pending.contains_key(k) ==> self@.next->0 <= k < u32::MAX,
                self@.flush() == old(self)@.flush(),
                old(self)@.flush().lost <= u64::MAX,
                old(self)@.flush().overruns <= u64::MAX,
            decreases self@.pending.dom().len(),
        {
            if let Some(first) = oldest {
                let ghost skipped = self@.skip_to(self@.next->0, first);
                let ghost played = skipped.play_waiting(first);
                proof {
                    lemma_first_key(self@.pending);
                    assert forall|k: u32| #[trigger]
                        played.pending.contains_key(k) implies played.next->0 <= k < u32::MAX by {
                        assert(self@.pending.contains_key(k) && k != first);
                    }
                    played.lemma_flush(u32::MAX);
                }
                self.skip_missing(first);
                self.play_waiting(first);
                oldest = self.oldest();
            }
        }
    }
}

/// `pending` without the first `n` keys of `keys`.
spec fn without(pending: Map<u32, Seq<Sample>>, keys: Seq<u32>, n: int) -> Map<u32, Seq<Sample>> {
    pending.remove_keys(keys.take(n).to_set())
}

proof fn lemma_without(pending: Map<u32, Seq<Sample>>, keys: Seq<u32>, i: int)
    requires
        pending.dom().finite(),
        0 <= i < keys.len(),
    ensures
        without(pending, keys, i).dom().finite(),
        without(pending, keys, i + 1) == without(pending, keys, i).remove(keys[i]),
{
    assert(keys.take(i + 1) =~= keys.take(i).push(keys[i]));
    assert(keys.take(i + 1).to_set() =~= keys.take(i).to_set().insert(keys[i])) by {
        broadcast use vstd::seq_lib::group_seq_properties;
    }
    assert(without(pending, keys, i + 1) =~= without(pending, keys, i).remove(keys[i]));
    assert(without(pending, keys, i).dom() =~= pending.dom().difference(keys.take(i).to_set()));
}

proof fn lemma_contents(pending: Map<u32, Vec<Sample>>)
    ensures
        contents(pending).dom() == pending.dom(),
{
    assert(contents(pending).dom() =~= pending.dom());
}

proof fn lemma_contents_insert(pending: Map<u32, Vec<Sample>>, k: u32, packet: Vec<Sample>)
    ensures
        contents(pending.insert(k, packet)) == contents(pending).insert(k, packet@),
{
    assert(contents(pending.insert(k, packet)) =~= contents(pending).insert(k, packet@));
}

proof fn lemma_contents_remove(pending: Map<u32, Vec<Sample>>, k: u32)
    ensures
        contents(pending.remove(k)) == contents(pending).remove(k),
{
    assert(contents(pending.remove(k)) =~= contents(pending).remove(k));
}

/// The smallest key of the map.
fn find_first_key(pending: &BTreeMap<u32, Vec<Sample>>) -> (first: Option<u32>)
    ensures
        first is None <==> pending@.dom().len() == 0,
        first matches Some(k) ==> is_first_key(pending@, k),
{
    broadcast use vstd::laws_cmp::group_laws_cmp;

    for k in keys: pending.keys()
        invariant
            keys.index() == 0,
            keys.seq() == pending.keys().remaining(),
            pending@.dom().len() == keys.seq().len(),
    {
        proof {
            let all = keys.seq();
            assert(*k == *all[0]);
            assert(all.unref()[0] == *k);
            assert(all.unref().to_set().contains(*k));
            assert forall|j: u32| #[trigger] pending@.contains_key(j) implies *k <= j by {
                assert(all.unref().to_set().contains(j));
                let i = choose|i: int| 0 <= i < all.unref().len() && all.unref()[i] == j;
                assert(*all[i] == j);
                assert(vstd::laws_cmp::obeys_cmp::<&u32>());
                assert(vstd::std_specs::btree::increasing_seq(all));
                if i > 0 {
                    assert(OrdSpec::cmp_spec(&all[0], &all[i]) is Less);
                }
            }
        }
        return Some(*k);
    }
    None
}

/// Settings of up to a million frames and a thousand channels can be used on any
/// machine.
pub proof fn law_modest_settings_are_feasible(channels: u16, frames: LatencyFrames)
    requires
        channels <= 1000,
        frames.initial <= 1_000_000,
        frames.min <= 1_000_000,
        frames.max <= 1_000_000,
        frames.step <= 1_000_000,
    ensures
        is_feasible(channels, frames),
{
    assert(MAX_REORDER_PACKETS * channels * 960 <= 61_440_000) by (nonlinear_arith)
        requires
            channels <= 1000,
            MAX_REORDER_PACKETS == 64,
    ;
}

/// Counters far from the end of their range have room.
pub proof fn law_counters_far_from_the_end_have_room(m: JitterModel, calls: nat, extra: nat)
    requires
        m.received < 0x4000_0000_0000_0000,
        m.lost < 0x4000_0000_0000_0000,
        m.late < 0x4000_0000_0000_0000,
        m.underruns < 0x4000_0000_0000_0000,
        m.overruns + m.buffered() + extra < 0x4000_0000_0000_0000,
        m.buffered() + extra <= usize::MAX,
        calls <= 0xffff,
    ensures
        m.has_room(calls, extra),
{
}

} // verus!
