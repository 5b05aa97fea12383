//! A fixed-capacity FIFO of audio samples.
//!
//! Positions are absolute counters that wrap around the machine word; because
//! the capacity is a power of two, the slot of a position survives the wrap.

use crate::text::{append_decimal, decimal, with_number};
use vstd::arithmetic::div_mod::{lemma_add_mod_noop, lemma_fundamental_div_mod, lemma_fundamental_div_mod_converse, lemma_mod_bound, lemma_mod_mod, lemma_mod_twice, lemma_small_mod, lemma_sub_mod_noop, lemma_sub_mod_noop_right};
use vstd::arithmetic::mul::{lemma_mul_inequality, lemma_mul_is_commutative, lemma_mul_is_distributive_sub};
use vstd::arithmetic::power2::{lemma2_to64, lemma2_to64_rest, lemma_pow2_adds, lemma_pow2_pos, lemma_pow2_strictly_increases, lemma_pow2_unfold, pow2};
use vstd::bits::{lemma_usize_low_bits_mask_is_mod, low_bits_mask};
use vstd::prelude::*;
use vstd::string::StringExecFns;

verus! {

/// One audio sample, carried as the bit pattern of its IEEE-754 `binary32`
/// value.
pub type Sample = u32;

/// The bit pattern of `0.0`.
pub const SILENCE: Sample = 0;

/// The number of distinct values of a `usize` counter.
pub open spec fn word() -> int {
    usize::MAX + 1
}

/// The largest capacity whose storage can be allocated: a power of two of
/// four-byte samples must stay below `isize::MAX` bytes.
pub open spec fn max_capacity() -> int {
    (isize::MAX + 1) / 8
}

/// `p` is the smallest power of two that is at least `n`.
pub open spec fn is_next_power_of_two(p: nat, n: nat) -> bool {
    exists|k: nat|
        p == #[trigger] pow2(k) && n <= p && (k == 0 || pow2((k - 1) as nat) < n)
}

/// The smallest power of two that is at least `n`.
pub open spec fn next_power(n: nat) -> nat {
    choose|p: nat| is_next_power_of_two(p, n)
}

/// The smaller of two lengths.
pub open spec fn min_len(a: nat, b: nat) -> nat {
    if a <= b {
        a
    } else {
        b
    }
}

/// A bounded FIFO of samples. Writes that do not fit are cut short instead of
/// overwriting unread data.
#[derive(Debug)]
pub struct AudioRingBuffer {
    buffer: Vec<Sample>,
    capacity: usize,
    /// Absolute number of samples written, modulo the word size.
    w: usize,
    /// Absolute number of samples read, modulo the word size.
    r: usize,
}

impl View for AudioRingBuffer {
    type V = Seq<Sample>;

    /// The unread samples, oldest first.
    closed spec fn view(&self) -> Seq<Sample> {
        Seq::new(
            ((self.w - self.r) % word()) as nat,
            |i: int| self.buffer@[(self.r + i) % (self.capacity as int)],
        )
    }
}

impl AudioRingBuffer {
    /// The number of samples the buffer can hold.
    pub closed spec fn spec_capacity(&self) -> nat {
        self.capacity as nat
    }

    /// The write counter.
    pub closed spec fn written(&self) -> usize {
        self.w
    }

    /// The read counter.
    pub closed spec fn consumed(&self) -> usize {
        self.r
    }

    pub closed spec fn wf(&self) -> bool {
        &&& exists|k: nat| self.capacity == #[trigger] pow2(k)
        &&& self.capacity <= max_capacity()
        &&& self.buffer@.len() == self.capacity
        &&& (self.w - self.r) % word() <= self.capacity
    }

    /// The unread samples never exceed the capacity, and their number is the
    /// distance between the two counters.
    pub proof fn lemma_len_bound(&self)
        requires
            self.wf(),
        ensures
            self@.len() <= self.spec_capacity() <= max_capacity(),
            self@.len() == (self.written() - self.consumed()) % word(),
            self.spec_capacity() > 0,
    {
        let k = choose|k: nat| self.capacity == #[trigger] pow2(k);
        lemma_pow2_pos(k);
        lemma_mod_bound(self.w - self.r, word());
    }

    /// An empty buffer that holds at least `capacity_frames` samples, rounded
    /// up to a power of two.
    pub fn new(capacity_frames: usize) -> (ring: Self)
        requires
            capacity_frames <= max_capacity(),
        ensures
            ring.wf(),
            ring@ == Seq::<Sample>::empty(),
            is_next_power_of_two(ring.spec_capacity(), capacity_frames as nat),
            ring.spec_capacity() == next_power(capacity_frames as nat),
            ring.spec_capacity() >= capacity_frames,
            ring.spec_capacity() == 1 || ring.spec_capacity() < 2 * capacity_frames,
            ring.written() == 0,
            ring.consumed() == 0,
    {
        let capacity: usize = next_power_of_two(capacity_frames);
        let buffer: Vec<Sample> = vec![SILENCE; capacity];
        let ring = AudioRingBuffer { buffer, capacity, w: 0, r: 0 };
        proof {
            lemma_small_mod(0, word() as nat);
            lemma_next_power_unique(capacity as nat, capacity_frames as nat);
            law_next_power_is_close(capacity as nat, capacity_frames as nat);
            assert(ring@ =~= Seq::<Sample>::empty());
        }
        ring
    }

    /// Append as much of `data` as fits and return how many samples that is.
    pub fn push(&mut self, data: &[Sample]) -> (n: usize)
        requires
            old(self).wf(),
        ensures
            final(self).wf(),
            final(self).spec_capacity() == old(self).spec_capacity(),
            n == min_len(data@.len(), (old(self).spec_capacity() - old(self)@.len()) as nat),
            n <= data@.len(),
            n == data@.len() || final(self)@.len() == old(self).spec_capacity(),
            final(self)@ == old(self)@ + data@.take(n as int),
            final(self).written() == (old(self).written() + n) % word(),
            final(self).consumed() == old(self).consumed(),
    {
        let w: usize = self.w;
        let r: usize = self.r;
        let capacity: usize = self.capacity;
        let ghost before = self@;
        let ghost c = capacity as int;
        proof {
            self.lemma_len_bound();
            lemma_wrapping_ops(w, r);
        }
        let available_space: usize = capacity - w.wrapping_sub(r);
        let to_write: usize = if available_space < data.len() {
            available_space
        } else {
            data.len()
        };
        let ghost len = before.len() as int;
        let mut j: usize = 0;
        while j < to_write
            invariant
                old(self).wf(),
                self.capacity == capacity == old(self).capacity,
                self.w == w == old(self).w,
                self.r == r == old(self).r,
                c == capacity,
                self.buffer@.len() == c,
                j <= to_write <= data@.len(),
                len == (w - r) % word(),
                0 <= len,
                len + to_write <= c,
                before == old(self)@,
                before.len() == len,
                exists|k: nat| c == #[trigger] pow2(k),
                0 < c <= max_capacity(),
                forall|i: int| 0 <= i < len ==> self.buffer@[(r + i) % c] == #[trigger] before[i],
                forall|i: int| 0 <= i < j ==> self.buffer@[(r + len + i) % c] == #[trigger] data@[i],
            decreases to_write - j,
        {
            let slot: usize = Self::slot(w.wrapping_add(j), capacity);
            let ghost earlier = self.buffer@;
            proof {
                lemma_wrapping_ops(w, j);
                lemma_slot_of_wrapped(w + j, c);
                lemma_written_slot(w as int, r as int, j as int, c);
                assert(slot == (r + len + j) % c);
            }
            self.buffer[slot] = data[j];
            proof {
                assert forall|i: int| 0 <= i < len implies self.buffer@[(r + i) % c] == #[trigger] before[i] by {
                    lemma_slots_distinct(r + i, r + len + j, c);
                    lemma_mod_bound(r + i, c);
                    assert(earlier[(r + i) % c] == before[i]);
                }
                assert forall|i: int| 0 <= i < j + 1 implies self.buffer@[(r + len + i) % c] == #[trigger] data@[i] by {
                    if i < j {
                        lemma_slots_distinct(r + len + i, r + len + j, c);
                        lemma_mod_bound(r + len + i, c);
                        assert(earlier[(r + len + i) % c] == data@[i]);
                    }
                }
            }
            j = j + 1;
        }
        self.w = w.wrapping_add(to_write);
        proof {
            lemma_wrapping_ops(w, to_write);
            lemma_advanced_distance(w as int, r as int, to_write as int);
            assert(self@ =~= before + data@.take(to_write as int));
        }
        to_write
    }

    /// Move the oldest unread samples into the front of `output` and return
    /// how many there were. The rest of `output` keeps its contents.
    pub fn pop(&mut self, output: &mut [Sample]) -> (n: usize)
        requires
            old(self).wf(),
        ensures
            final(self).wf(),
            final(self).spec_capacity() == old(self).spec_capacity(),
            n == min_len(old(output)@.len(), old(self)@.len()),
            n <= old(output)@.len(),
            n == old(output)@.len() || final(self)@.len() == 0,
            final(output)@ == old(self)@.take(n as int) + old(output)@.skip(n as int),
            final(self)@ == old(self)@.skip(n as int),
            final(self).written() == old(self).written(),
            final(self).consumed() == (old(self).consumed() + n) % word(),
    {
        let w: usize = self.w;
        let r: usize = self.r;
        let capacity: usize = self.capacity;
        let ghost before = self@;
        let ghost target = output@;
        let ghost c = capacity as int;
        proof {
            self.lemma_len_bound();
            lemma_wrapping_ops(w, r);
        }
        let available_data: usize = w.wrapping_sub(r);
        let to_read: usize = if available_data < output.len() {
            available_data
        } else {
            output.len()
        };
        let mut i: usize = 0;
        while i < to_read
            invariant
                self.wf(),
                self@ == before,
                self.capacity == capacity,
                self.r == r,
                c == capacity,
                i <= to_read <= before.len(),
                to_read <= target.len(),
                output@.len() == target.len(),
                forall|j: int| 0 <= j < i ==> output@[j] == #[trigger] before[j],
                forall|j: int| i <= j < target.len() ==> output@[j] == #[trigger] target[j],
            decreases to_read - i,
        {
            let slot: usize = Self::slot(r.wrapping_add(i), capacity);
            proof {
                lemma_wrapping_ops(r, i);
                lemma_slot_of_wrapped(r + i, c);
                assert(slot == (r + i) % c);
                assert(before[i as int] == self.buffer@[(r + i) % c]);
            }
            output[i] = self.buffer[slot];
            i = i + 1;
        }
        self.r = r.wrapping_add(to_read);
        proof {
            lemma_wrapping_ops(r, to_read);
            lemma_reduced_distance(w as int, r as int, to_read as int);
            assert(output@ =~= before.take(to_read as int) + target.skip(to_read as int));
            assert forall|k: int| 0 <= k < before.len() - to_read implies #[trigger] self@[k] == before[to_read + k] by {
                lemma_wrapped_sum_slot(r as int, to_read as int, k, c);
            }
            assert(self@ =~= before.skip(to_read as int));
        }
        to_read
    }

    /// Whether there is nothing to read.
    pub fn is_empty(&self) -> (b: bool)
        requires
            self.wf(),
        ensures
            b == (self@.len() == 0),
    {
        self.len() == 0
    }

    /// The number of unread samples.
    pub fn len(&self) -> (n: usize)
        requires
            self.wf(),
        ensures
            n == self@.len(),
    {
        proof {
            self.lemma_len_bound();
            lemma_wrapping_ops(self.w, self.r);
        }
        self.w.wrapping_sub(self.r)
    }

    /// The capacity and the two counters, for diagnostics.
    pub fn describe(&self) -> (s: String)
        ensures
            s@ == "AudioRingBuffer { capacity: "@ + decimal(self.spec_capacity()) + ", w: "@
                + decimal(self.written() as nat) + ", r: "@ + decimal(self.consumed() as nat)
                + " }"@,
    {
        let mut s: String = with_number(
            "AudioRingBuffer { capacity: ",
            self.capacity as u64,
            ", w: ",
        );
        append_decimal(&mut s, self.w as u64);
        s.append(", r: ");
        append_decimal(&mut s, self.r as u64);
        s.append(" }");
        s
    }

    /// The slot of an absolute position.
    fn slot(position: usize, capacity: usize) -> (s: usize)
        requires
            exists|k: nat| capacity == #[trigger] pow2(k),
            capacity <= max_capacity(),
        ensures
            s == position as int % capacity as int,
            s < capacity,
    {
        proof {
            let k = choose|k: nat| capacity == #[trigger] pow2(k);
            lemma_pow2_pos(k);
            lemma2_to64();
            lemma2_to64_rest();
            if k >= 60 {
                if k > 60 {
                    lemma_pow2_strictly_increases(60, k);
                }
            }
            if usize::BITS == 32 && k >= 32 {
                if k > 32 {
                    lemma_pow2_strictly_increases(32, k);
                }
            }
            lemma_usize_low_bits_mask_is_mod(position, k);
            assert(low_bits_mask(k) == capacity - 1);
            lemma_mod_bound(position as int, capacity as int);
        }
        position & (capacity - 1)
    }
}

/// The smallest power of two that is at least `n`.
fn next_power_of_two(n: usize) -> (p: usize)
    requires
        n <= max_capacity(),
    ensures
        is_next_power_of_two(p as nat, n as nat),
        p <= max_capacity(),
        exists|k: nat| p == #[trigger] pow2(k),
{
    let mut p: usize = 1;
    let ghost mut k: nat = 0;
    proof {
        lemma2_to64();
    }
    while p < n
        invariant
            n <= max_capacity(),
            p == pow2(k),
            1 <= p <= max_capacity(),
            k == 0 || pow2((k - 1) as nat) < n,
        decreases max_capacity() - p,
    {
        proof {
            lemma_pow2_unfold(k + 1);
            lemma_max_capacity_is_pow2();
            let m = choose|m: nat| max_capacity() == #[trigger] pow2(m);
            if m <= k {
                if m < k {
                    lemma_pow2_strictly_increases(m, k);
                }
            } else if k + 1 < m {
                lemma_pow2_strictly_increases(k + 1, m);
            }
        }
        p = p * 2;
        proof {
            k = k + 1;
        }
    }
    p
}

/// There is only one smallest power of two.
pub proof fn lemma_next_power_unique(p: nat, n: nat)
    requires
        is_next_power_of_two(p, n),
    ensures
        p == next_power(n),
{
    let q = next_power(n);
    let i = choose|k: nat|
        p == #[trigger] pow2(k) && n <= p && (k == 0 || pow2((k - 1) as nat) < n);
    let j = choose|k: nat|
        q == #[trigger] pow2(k) && n <= q && (k == 0 || pow2((k - 1) as nat) < n);
    if i < j {
        if i < j - 1 {
            lemma_pow2_strictly_increases(i, (j - 1) as nat);
        }
    } else if j < i {
        if j < i - 1 {
            lemma_pow2_strictly_increases(j, (i - 1) as nat);
        }
    }
}

/// The machine operations on counters are the operations modulo the word.
proof fn lemma_wrapping_ops(a: usize, b: usize)
    ensures
        a.wrapping_sub(b) == (a - b) % word(),
        a.wrapping_add(b) == (a + b) % word(),
{
    if a < b {
        lemma_fundamental_div_mod_converse(a - b, word(), -1, a - b + word());
    } else {
        lemma_small_mod((a - b) as nat, word() as nat);
    }
    if a + b < word() {
        lemma_small_mod((a + b) as nat, word() as nat);
    } else {
        lemma_fundamental_div_mod_converse(a + b, word(), 1, a + b - word());
    }
}

proof fn lemma_max_capacity_is_pow2()
    ensures
        exists|m: nat| max_capacity() == #[trigger] pow2(m),
{
    lemma2_to64();
    lemma2_to64_rest();
    if usize::BITS == 32 {
        assert(max_capacity() == pow2(28));
    } else {
        assert(max_capacity() == pow2(60));
    }
}

/// A power of two no larger than the maximum capacity divides the word size.
proof fn lemma_word_multiple(capacity: int)
    requires
        exists|k: nat| capacity == #[trigger] pow2(k),
        capacity <= max_capacity(),
    ensures
        capacity > 0,
        exists|q: int| word() == #[trigger] (capacity * q) && q > 0,
{
    let k = choose|k: nat| capacity == #[trigger] pow2(k);
    lemma2_to64();
    lemma2_to64_rest();
    let bits: nat = if usize::BITS == 32 { 32 } else { 64 };
    assert(word() == pow2(bits));
    if k >= bits {
        if k > bits {
            lemma_pow2_strictly_increases(bits, k);
        }
    }
    lemma_pow2_adds(k, (bits - k) as nat);
    lemma_pow2_pos(k);
    lemma_pow2_pos((bits - k) as nat);
    assert(word() == capacity * (pow2((bits - k) as nat) as int));
}

/// Reducing a position modulo the word size does not move its slot.
proof fn lemma_slot_of_wrapped(x: int, capacity: int)
    requires
        exists|k: nat| capacity == #[trigger] pow2(k),
        capacity <= max_capacity(),
    ensures
        capacity > 0,
        (x % word()) % capacity == x % capacity,
{
    lemma_word_multiple(capacity);
    let q = choose|q: int| word() == #[trigger] (capacity * q) && q > 0;
    lemma_mod_mod(x, capacity, q);
}

/// The slot at which a write lands follows the unread samples.
proof fn lemma_written_slot(w: int, r: int, j: int, capacity: int)
    requires
        exists|k: nat| capacity == #[trigger] pow2(k),
        capacity <= max_capacity(),
    ensures
        (w + j) % capacity == (r + (w - r) % word() + j) % capacity,
{
    lemma_slot_of_wrapped(w - r, capacity);
    lemma_add_mod_noop(r + j, (w - r) % word(), capacity);
    lemma_add_mod_noop(r + j, w - r, capacity);
    assert(r + j + (w - r) == w + j);
}

/// The slot of `k` positions past a wrapped counter.
proof fn lemma_wrapped_sum_slot(r: int, n: int, k: int, capacity: int)
    requires
        exists|e: nat| capacity == #[trigger] pow2(e),
        capacity <= max_capacity(),
    ensures
        ((r + n) % word() + k) % capacity == (r + (n + k)) % capacity,
{
    lemma_slot_of_wrapped(r + n, capacity);
    lemma_add_mod_noop((r + n) % word(), k, capacity);
    lemma_add_mod_noop(r + n, k, capacity);
}

/// Advancing the write counter lengthens the distance.
proof fn lemma_advanced_distance(w: int, r: int, n: int)
    requires
        0 <= n,
        (w - r) % word() + n < word(),
    ensures
        ((w + n) % word() - r) % word() == (w - r) % word() + n,
{
    lemma_sub_mod_noop(w + n, r, word());
    lemma_sub_mod_noop((w + n) % word(), r, word());
    lemma_mod_twice(w + n, word());
    lemma_add_mod_noop(w - r, n, word());
    lemma_mod_bound(w - r, word());
    lemma_small_mod(n as nat, word() as nat);
    lemma_small_mod(((w - r) % word() + n) as nat, word() as nat);
    assert(w + n - r == (w - r) + n);
}

/// Advancing the read counter shortens the distance.
proof fn lemma_reduced_distance(w: int, r: int, n: int)
    requires
        0 <= n <= (w - r) % word(),
    ensures
        (w - (r + n) % word()) % word() == (w - r) % word() - n,
{
    lemma_sub_mod_noop_right(w, r + n, word());
    lemma_mod_bound(w - r, word());
    lemma_sub_mod_noop(w - r, n, word());
    lemma_small_mod(n as nat, word() as nat);
    lemma_small_mod(((w - r) % word() - n) as nat, word() as nat);
    assert(w - (r + n) == (w - r) - n);
}

/// Two positions less than one capacity apart occupy different slots.
proof fn lemma_slots_distinct(a: int, b: int, capacity: int)
    requires
        capacity > 0,
        a < b < a + capacity,
    ensures
        a % capacity != b % capacity,
{
    lemma_fundamental_div_mod(a, capacity);
    lemma_fundamental_div_mod(b, capacity);
    if a % capacity == b % capacity {
        let d = b / capacity - a / capacity;
        lemma_mul_is_distributive_sub(capacity, b / capacity, a / capacity);
        assert(capacity * d == b - a);
        if d >= 1 {
            lemma_mul_inequality(1, d, capacity);
            lemma_mul_is_commutative(d, capacity);
        } else {
            lemma_mul_inequality(d, 0, capacity);
            lemma_mul_is_commutative(d, capacity);
        }
    }
}

/// One call on a ring buffer.
pub enum RingCall {
    /// Push these samples.
    Push(Seq<Sample>),
    /// Pop into a slice of this length.
    Pop(nat),
}

/// A ring buffer's contents beside everything it took and gave out so far.
#[verifier::ext_equal]
pub struct RingHistory {
    pub held: Seq<Sample>,
    pub taken: Seq<Sample>,
    pub given: Seq<Sample>,
}

/// The history after `calls`, starting from `held` samples.
pub open spec fn ring_history(held: Seq<Sample>, capacity: nat, calls: Seq<RingCall>) -> RingHistory
    decreases calls.len(),
{
    if calls.len() == 0 {
        RingHistory { held, taken: Seq::empty(), given: Seq::empty() }
    } else {
        let h = ring_history(held, capacity, calls.drop_last());
        match calls.last() {
            RingCall::Push(data) => {
                let n = min_len(data.len(), (capacity - h.held.len()) as nat) as int;
                RingHistory { held: h.held + data.take(n), taken: h.taken + data.take(n), ..h }
            },
            RingCall::Pop(wanted) => {
                let n = min_len(wanted, h.held.len()) as int;
                RingHistory { held: h.held.skip(n), given: h.given + h.held.take(n), ..h }
            },
        }
    }
}

/// First in, first out: after any calls, what was given out followed by what is
/// held is what was held at first followed by what was taken in, without a gap
/// or a duplicate, and never more than the capacity is held.
pub proof fn law_first_in_first_out(held: Seq<Sample>, capacity: nat, calls: Seq<RingCall>)
    requires
        held.len() <= capacity,
    ensures
        ({
            let h = ring_history(held, capacity, calls);
            &&& h.given + h.held == held + h.taken
            &&& h.held.len() <= capacity
        }),
    decreases calls.len(),
{
    if calls.len() == 0 {
        assert(Seq::<Sample>::empty() + held =~= held + Seq::<Sample>::empty());
    } else {
        law_first_in_first_out(held, capacity, calls.drop_last());
        let h = ring_history(held, capacity, calls.drop_last());
        match calls.last() {
            RingCall::Push(data) => {
                let n = min_len(data.len(), (capacity - h.held.len()) as nat) as int;
                assert(h.given + (h.held + data.take(n)) =~= (h.given + h.held) + data.take(n));
                assert(held + (h.taken + data.take(n)) =~= (held + h.taken) + data.take(n));
            },
            RingCall::Pop(wanted) => {
                let n = min_len(wanted, h.held.len()) as int;
                assert((h.given + h.held.take(n)) + h.held.skip(n) =~= h.given + h.held);
            },
        }
    }
}

/// The power of two that a capacity is rounded up to is less than twice as large.
pub proof fn law_next_power_is_close(p: nat, n: nat)
    requires
        is_next_power_of_two(p, n),
    ensures
        p >= n,
        p == 1 || p < 2 * n,
        exists|k: nat| p == pow2(k),
{
    let k = choose|k: nat|
        p == #[trigger] pow2(k) && n <= p && (k == 0 || pow2((k - 1) as nat) < n);
    lemma2_to64();
    if k > 0 {
        lemma_pow2_unfold(k);
    }
}

/// The smaller of two lengths is one of them and exceeds neither.
pub proof fn law_min_len(a: nat, b: nat)
    ensures
        min_len(a, b) <= a,
        min_len(a, b) <= b,
        min_len(a, b) == a || min_len(a, b) == b,
{
}

/// A push takes everything or fills the buffer, and a pop fills its slice or
/// empties the buffer.
pub proof fn law_ring_does_as_much_as_it_can(
    held: Seq<Sample>,
    capacity: nat,
    calls: Seq<RingCall>,
)
    requires
        held.len() <= capacity,
        calls.len() > 0,
    ensures
        ({
            let before = ring_history(held, capacity, calls.drop_last());
            let after = ring_history(held, capacity, calls);
            match calls.last() {
                RingCall::Push(data) => {
                    &&& after.given == before.given
                    &&& after.held == before.held + data || after.held.len() == capacity
                    &&& after.held.is_prefix_of(before.held + data)
                    &&& before.held.is_prefix_of(after.held)
                },
                RingCall::Pop(wanted) => {
                    &&& after.taken == before.taken
                    &&& after.given.len() == before.given.len() + wanted || after.held.len() == 0
                    &&& after.given.len() <= before.given.len() + wanted
                    &&& before.given.is_prefix_of(after.given)
                },
            }
        }),
{
    law_first_in_first_out(held, capacity, calls.drop_last());
    let h = ring_history(held, capacity, calls.drop_last());
    if let RingCall::Push(data) = calls.last() {
        assert(data.take(data.len() as int) =~= data);
    }
}

} // verus!
