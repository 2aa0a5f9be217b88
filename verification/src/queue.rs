//! A bounded multi-producer multi-consumer ring buffer.
//!
//! Each slot carries its own sequence number, so that a producer or a consumer
//! learns from one slot alone what it may do there ([`push_step`],
//! [`pop_step`]). A full or an empty queue never blocks: `push` hands the item
//! back and `pop` returns `None`, and the caller decides what to do then.
//!
//! Slot `pos % capacity` serves the positions `pos`, `pos + capacity`, and so
//! on. Its sequence number is `2 * pos` while the slot waits for the item of
//! position `pos` and `2 * pos + 1` while it holds that item. Even and odd
//! numbers keep the two apart whatever the capacity, one slot included.
//! Positions and sequence numbers wrap round at 2^64.
//!
//! [`MpmcQueue`] is the queue of one owner. The steps of threads that share
//! the slots are the subject of [`crate::interleaving`].

use vstd::arithmetic::div_mod::*;
use vstd::arithmetic::power2::*;
use vstd::bits::*;
use vstd::prelude::*;

verus! {

/// `x` modulo 2^64.
pub open spec fn wrap(x: int) -> u64 {
    (x % 0x1_0000_0000_0000_0000) as u64
}

/// How far `a` lies ahead of `b`, as a number between -2^63 and 2^63 - 1:
/// negative where `a` lies behind.
pub open spec fn ahead(a: u64, b: u64) -> int {
    let d = wrap(a - b);
    if d < 0x8000_0000_0000_0000 {
        d as int
    } else {
        d - 0x1_0000_0000_0000_0000
    }
}

/// `n` is a power of two.
pub open spec fn is_power_of_two(n: int) -> bool {
    exists|k: nat| n == #[trigger] pow2(k)
}

/// What a producer that wants position `pos` does after reading the slot.
#[derive(Debug, Clone, Copy, PartialEq, Eq, Structural)]
pub enum PushStep {
    /// The slot waits for this position: claim the position.
    Claim,
    /// The slot still holds the item of an earlier round: the queue is full.
    Full,
    /// Another producer has this position already: read the position again.
    Stale,
}

/// What a consumer that wants position `pos` does after reading the slot.
#[derive(Debug, Clone, Copy, PartialEq, Eq, Structural)]
pub enum PopStep {
    /// The slot holds the item of this position: claim the position.
    Claim,
    /// The item of this position is not there yet: the queue is empty.
    Empty,
    /// Another consumer has this position already: read the position again.
    Stale,
}

/// Sequence number of a slot that waits for the item of position `pos`.
pub open spec fn free_sequence(pos: int) -> u64 {
    wrap(2 * pos)
}

/// Sequence number of a slot that holds the item of position `pos`.
pub open spec fn held_sequence(pos: int) -> u64 {
    wrap(2 * pos + 1)
}

/// The step of a producer at `pos` whose slot reads `sequence`.
pub open spec fn push_step_spec(sequence: u64, pos: u64) -> PushStep {
    let d = ahead(sequence, free_sequence(pos as int));
    if d == 0 {
        PushStep::Claim
    } else if d < 0 {
        PushStep::Full
    } else {
        PushStep::Stale
    }
}

/// The step of a consumer at `pos` whose slot reads `sequence`.
pub open spec fn pop_step_spec(sequence: u64, pos: u64) -> PopStep {
    let d = ahead(sequence, held_sequence(pos as int));
    if d == 0 {
        PopStep::Claim
    } else if d < 0 {
        PopStep::Empty
    } else {
        PopStep::Stale
    }
}

/// Decides the step of a producer at `pos` whose slot reads `sequence`.
pub fn push_step(sequence: u64, pos: u64) -> (r: PushStep)
    ensures
        r == push_step_spec(sequence, pos),
{
    let expected: u64 = pos.wrapping_mul(2);
    let distance: u64 = sequence.wrapping_sub(expected);
    if distance == 0 {
        PushStep::Claim
    } else if distance >= 0x8000_0000_0000_0000 {
        PushStep::Full
    } else {
        PushStep::Stale
    }
}

/// Decides the step of a consumer at `pos` whose slot reads `sequence`.
pub fn pop_step(sequence: u64, pos: u64) -> (r: PopStep)
    ensures
        r == pop_step_spec(sequence, pos),
{
    let expected: u64 = sequence_when_held(pos);
    let distance: u64 = sequence.wrapping_sub(expected);
    if distance == 0 {
        PopStep::Claim
    } else if distance >= 0x8000_0000_0000_0000 {
        PopStep::Empty
    } else {
        PopStep::Stale
    }
}

/// The sequence number that publishes the item of position `pos`.
pub fn sequence_when_held(pos: u64) -> (r: u64)
    ensures
        r == held_sequence(pos as int),
{
    pos.wrapping_mul(2).wrapping_add(1)
}

/// The sequence number that hands the slot of position `pos` to the next round,
/// in a queue of `mask + 1` slots.
pub fn sequence_when_released(pos: u64, mask: u64) -> (r: u64)
    ensures
        r == free_sequence(pos + mask + 1),
{
    pos.wrapping_add(mask).wrapping_add(1).wrapping_mul(2)
}

/// One place of the ring.
pub struct Slot<T> {
    pub sequence: u64,
    pub value: Option<T>,
}

/// A bounded first-in first-out queue over a ring of slots.
pub struct MpmcQueue<T> {
    buffer: Vec<Slot<T>>,
    mask: u64,
    enqueue_pos: u64,
    dequeue_pos: u64,
}

/// The items of the queue, the oldest first.
impl<T> View for MpmcQueue<T> {
    type V = Seq<T>;

    closed spec fn view(&self) -> Seq<T> {
        Seq::new(self.count(), |i: int| self.slot_at(i).value->0)
    }
}

impl<T> MpmcQueue<T> {
    /// How many items the queue can hold.
    pub closed spec fn capacity(&self) -> nat {
        self.buffer@.len()
    }

    /// How many positions are claimed by producers and not yet by consumers.
    spec fn count(&self) -> nat {
        wrap(self.enqueue_pos - self.dequeue_pos) as nat
    }

    /// The slot of the position `i` places after the one that is next to leave.
    spec fn slot_at(&self, i: int) -> Slot<T> {
        self.buffer@[(self.dequeue_pos + i) % (self.capacity() as int)]
    }

    /// The slots agree with the positions: those of the items that are in the
    /// queue hold them, and the others wait for their next position.
    pub closed spec fn wf(&self) -> bool {
        &&& is_power_of_two(self.capacity() as int)
        &&& self.capacity() < 0x1000_0000_0000_0000
        &&& self.mask == self.capacity() - 1
        &&& self.count() <= self.capacity()
        &&& forall|i: int|
            0 <= i < self.capacity() ==> {
                let s = #[trigger] self.slot_at(i);
                if i < self.count() {
                    s.sequence == held_sequence(self.dequeue_pos + i) && s.value is Some
                } else {
                    s.sequence == free_sequence(self.dequeue_pos + i) && s.value is None
                }
            }
    }

    /// An empty queue of `capacity` slots. `capacity` must be a power of two;
    /// memory bounds it, as a slot takes at least eight bytes.
    pub fn new(capacity: usize) -> (r: Self)
        requires
            is_power_of_two(capacity as int),
            capacity < 0x1000_0000_0000_0000,
        ensures
            r.wf(),
            r.capacity() == capacity,
            r@ == Seq::<T>::empty(),
            r.untouched(),
    {
        proof {
            lemma_power_of_two_bounds(capacity as int);
        }
        let mut buffer: Vec<Slot<T>> = Vec::new();
        let mut i: usize = 0;
        while i < capacity
            invariant
                i <= capacity < 0x1000_0000_0000_0000,
                buffer@.len() == i,
                forall|j: int|
                    0 <= j < i ==> (#[trigger] buffer@[j]).sequence == 2 * j && buffer@[j].value is None,
            decreases capacity - i,
        {
            buffer.push(Slot { sequence: 2 * (i as u64), value: None });
            i = i + 1;
        }
        let r = MpmcQueue {
            buffer,
            mask: (capacity - 1) as u64,
            enqueue_pos: 0,
            dequeue_pos: 0,
        };
        assert forall|j: int| 0 <= j < r.capacity() implies (#[trigger] r.slot_at(j)).sequence
            == free_sequence(j) && r.slot_at(j).value is None by {
            lemma_small_mod(j as nat, r.capacity());
        }
        assert(r@ =~= Seq::<T>::empty());
        r
    }

    /// Appends `item`, or hands it back where the queue is full.
    pub fn push(&mut self, item: T) -> (r: Result<(), T>)
        requires
            old(self).wf(),
        ensures
            final(self).wf(),
            final(self).capacity() == old(self).capacity(),
            old(self)@.len() < old(self).capacity() ==> r is Ok && final(self)@ == old(self)@.push(
                item,
            ),
            old(self)@.len() >= old(self).capacity() ==> r == Err::<(), T>(item) && final(self)@
                == old(self)@,
    {
        let pos: u64 = self.enqueue_pos;
        let ghost cap = self.capacity() as int;
        let ghost n = self.count() as int;
        let ghost first = self.dequeue_pos as int;
        proof {
            lemma_power_of_two_bounds(cap);
            lemma_masked(pos, cap, self.mask);
            assert(pos == wrap(first + n));
            lemma_index_of_wrapped(first + n, pos, cap);
            assert(self@.len() == n);
            assert(cap == self.buffer.len());
        }
        let index: usize = (pos & self.mask) as usize;
        let sequence: u64 = self.buffer[index].sequence;
        proof {
            if n < cap {
                assert(self.slot_at(n).sequence == sequence);
                lemma_step_when_free(first + n, pos);
            } else {
                lemma_index_period(first, cap);
                assert(self.slot_at(0).sequence == sequence);
                lemma_step_when_full(first, cap, pos);
            }
        }
        match push_step(sequence, pos) {
            PushStep::Claim => {
                self.buffer[index].value = Some(item);
                self.buffer[index].sequence = sequence_when_held(pos);
                self.enqueue_pos = pos.wrapping_add(1);
                proof {
                    lemma_count_after_push(first, n, pos);
                    assert(self.count() == n + 1);
                    assert forall|i: int| 0 <= i < cap && i != n implies #[trigger] self.slot_at(i)
                        == old(self).slot_at(i) by {
                        lemma_index_injective(first, i, n, cap);
                    }
                    assert(self.slot_at(n) == self.buffer@[index as int]);
                    assert(self@ =~= old(self)@.push(item));
                }
                Ok(())
            },
            PushStep::Full => Err(item),
            PushStep::Stale => {
                assert(false);
                Err(item)
            },
        }
    }

    /// Removes the oldest item, or returns `None` where the queue is empty.
    pub fn pop(&mut self) -> (r: Option<T>)
        requires
            old(self).wf(),
        ensures
            final(self).wf(),
            final(self).capacity() == old(self).capacity(),
            old(self)@.len() > 0 ==> r == Some(old(self)@[0]) && final(self)@
                == old(self)@.drop_first(),
            old(self)@.len() == 0 ==> r is None && final(self)@ == old(self)@,
    {
        let pos: u64 = self.dequeue_pos;
        let ghost cap = self.capacity() as int;
        let ghost n = self.count() as int;
        let ghost first = pos as int;
        proof {
            lemma_power_of_two_bounds(cap);
            lemma_masked(pos, cap, self.mask);
            assert(self@.len() == n);
            assert(cap == self.buffer.len());
        }
        let index: usize = (pos & self.mask) as usize;
        let sequence: u64 = self.buffer[index].sequence;
        proof {
            assert(self.slot_at(0) == self.buffer@[index as int]);
            lemma_step_of_consumer(pos);
        }
        match pop_step(sequence, pos) {
            PopStep::Claim => {
                let item = self.buffer[index].value.take();
                self.buffer[index].sequence = sequence_when_released(pos, self.mask);
                self.dequeue_pos = pos.wrapping_add(1);
                proof {
                    let next = self.dequeue_pos as int;
                    lemma_count_after_pop(self.enqueue_pos, pos, n);
                    assert(self.count() == n - 1);
                    assert forall|i: int| 0 <= i < cap - 1 implies #[trigger] self.slot_at(i)
                        == old(self).slot_at(i + 1) && free_sequence(next + i) == free_sequence(
                        first + i + 1,
                    ) && held_sequence(next + i) == held_sequence(first + i + 1) by {
                        lemma_index_of_shifted(first + 1, next, i, cap);
                        lemma_index_injective(first, i + 1, 0, cap);
                    }
                    lemma_index_of_shifted(first + 1, next, cap - 1, cap);
                    lemma_index_period(first, cap);
                    assert(self.slot_at(cap - 1) == self.buffer@[index as int]);
                    assert forall|i: int| 0 <= i < cap implies {
                        let s = #[trigger] self.slot_at(i);
                        if i < n - 1 {
                            s.sequence == held_sequence(next + i) && s.value is Some
                        } else {
                            s.sequence == free_sequence(next + i) && s.value is None
                        }
                    } by {
                        if i < cap - 1 {
                            assert(self.slot_at(i) == old(self).slot_at(i + 1));
                        }
                    }
                    assert(self@ =~= old(self)@.drop_first());
                }
                item
            },
            PopStep::Empty => None,
            PopStep::Stale => {
                assert(false);
                None
            },
        }
    }

    /// No item has passed through the queue yet.
    pub closed spec fn untouched(&self) -> bool {
        self.enqueue_pos == 0 && self.dequeue_pos == 0
    }

    /// Takes a fresh queue apart into its slots, in the order of the ring, for
    /// threads that are to share them.
    pub fn into_slots(self) -> (r: Vec<Slot<T>>)
        requires
            self.wf(),
            self.untouched(),
        ensures
            r@ == Seq::new(self.capacity(), |i: int| Slot::<T> { sequence: (2 * i) as u64, value: None }),
    {
        proof {
            assert forall|i: int| 0 <= i < self.capacity() implies #[trigger] self.buffer@[i]
                == (Slot::<T> { sequence: (2 * i) as u64, value: None }) by {
                lemma_small_mod(i as nat, self.capacity());
                assert(self.buffer@[i] == self.slot_at(i));
            }
        }
        self.buffer
    }
}

/// One call on a queue.
pub enum QueueCall<T> {
    Push(T),
    Pop,
}

/// What a queue holds, and what has gone in and come out of it.
#[verifier::ext_equal]
pub struct QueueHistory<T> {
    pub held: Seq<T>,
    pub accepted: Seq<T>,
    pub delivered: Seq<T>,
}

/// A queue of `capacity` places after `calls`, each as [`MpmcQueue::push`] and
/// [`MpmcQueue::pop`] state it.
pub open spec fn queue_history<T>(capacity: nat, calls: Seq<QueueCall<T>>) -> QueueHistory<T>
    decreases calls.len(),
{
    if calls.len() == 0 {
        QueueHistory { held: Seq::empty(), accepted: Seq::empty(), delivered: Seq::empty() }
    } else {
        let h = queue_history(capacity, calls.drop_last());
        match calls.last() {
            QueueCall::Push(item) => if h.held.len() < capacity {
                QueueHistory { held: h.held.push(item), accepted: h.accepted.push(item), ..h }
            } else {
                h
            },
            QueueCall::Pop => if h.held.len() > 0 {
                QueueHistory {
                    held: h.held.drop_first(),
                    delivered: h.delivered.push(h.held[0]),
                    ..h
                }
            } else {
                h
            },
        }
    }
}

/// The queue is first in, first out and bounded: whatever calls were made, the
/// items that came out, followed by those that are still held, are the items
/// that went in, in that order, and no more are held than there are places.
pub proof fn law_first_in_first_out<T>(capacity: nat, calls: Seq<QueueCall<T>>)
    ensures
        ({
            let h = queue_history(capacity, calls);
            &&& h.accepted == h.delivered + h.held
            &&& h.held.len() <= capacity
        }),
    decreases calls.len(),
{
    if calls.len() > 0 {
        law_first_in_first_out(capacity, calls.drop_last());
        let h = queue_history(capacity, calls.drop_last());
        match calls.last() {
            QueueCall::Push(item) => {
                assert(h.accepted.push(item) =~= h.delivered + h.held.push(item));
            },
            QueueCall::Pop => {
                if h.held.len() > 0 {
                    assert(h.delivered + h.held =~= h.delivered.push(h.held[0])
                        + h.held.drop_first());
                }
            },
        }
    }
}

/// A power of two below 2^60 divides 2^64.
proof fn lemma_power_of_two_bounds(n: int)
    requires
        is_power_of_two(n),
        n < 0x1000_0000_0000_0000,
    ensures
        0 < n,
        0x1_0000_0000_0000_0000int % n == 0,
{
    let k = choose|k: nat| n == pow2(k);
    lemma2_to64();
    lemma2_to64_rest();
    lemma_pow2_pos(k);
    if k >= 60 {
        if k > 60 {
            lemma_pow2_strictly_increases(60, k);
        }
        assert(false);
    }
    lemma_pow2_adds(k, (64 - k) as nat);
    vstd::arithmetic::div_mod::lemma_mod_multiples_basic(pow2((64 - k) as nat) as int, n);
    assert(pow2((64 - k) as nat) * n == n * pow2((64 - k) as nat)) by (nonlinear_arith);
}

/// Masking with `n - 1` is the remainder by the power of two `n`.
proof fn lemma_masked(pos: u64, n: int, mask: u64)
    requires
        is_power_of_two(n),
        n < 0x1000_0000_0000_0000,
        mask == n - 1,
    ensures
        (pos & mask) == pos as int % n,
        0 <= pos as int % n < n,
{
    lemma_power_of_two_bounds(n);
    let k = choose|k: nat| n == pow2(k);
    lemma2_to64();
    lemma2_to64_rest();
    if k >= 60 {
        if k > 60 {
            lemma_pow2_strictly_increases(60, k);
        }
        assert(false);
    }
    lemma_u64_low_bits_mask_is_mod(pos, k);
    assert(low_bits_mask(k) == mask);
}

/// A position and its wrapped form fall on the same slot.
proof fn lemma_index_of_wrapped(x: int, wrapped: u64, n: int)
    requires
        wrapped == wrap(x),
        0 < n,
        0x1_0000_0000_0000_0000int % n == 0,
    ensures
        x % n == wrapped as int % n,
{
    let m = 0x1_0000_0000_0000_0000int / n;
    lemma_fundamental_div_mod(0x1_0000_0000_0000_0000int, n);
    assert(0 < m) by (nonlinear_arith)
        requires
            n * m == 0x1_0000_0000_0000_0000int,
            0 < n,
    ;
    lemma_mod_mod(x, n, m);
}

/// The same, `i` places further on.
proof fn lemma_index_of_shifted(x: int, wrapped: int, i: int, n: int)
    requires
        wrapped == wrap(x),
        0 < n,
        0x1_0000_0000_0000_0000int % n == 0,
    ensures
        (x + i) % n == (wrapped + i) % n,
        free_sequence(x + i) == free_sequence(wrapped + i),
        held_sequence(x + i) == held_sequence(wrapped + i),
{
    let q = x / 0x1_0000_0000_0000_0000;
    assert(x + i == 0x1_0000_0000_0000_0000 * q + (wrapped + i));
    lemma_mod_multiples_vanish(q, wrapped + i, 0x1_0000_0000_0000_0000);
    lemma_index_of_wrapped(x + i, wrap(x + i), n);
    lemma_index_of_wrapped(wrapped + i, wrap(wrapped + i), n);
    lemma_sequences_of_wrapped(x + i);
    lemma_sequences_of_wrapped(wrapped + i);
}

/// The distance of wrapped numbers is that of the true ones, where it is short.
pub proof fn lemma_ahead(a: int, b: int)
    requires
        -0x8000_0000_0000_0000 <= a - b < 0x8000_0000_0000_0000,
    ensures
        ahead(wrap(a), wrap(b)) == a - b,
{
    lemma_sub_mod_noop(a, b, 0x1_0000_0000_0000_0000);
    let d = a - b;
    if d >= 0 {
        lemma_small_mod(d as nat, 0x1_0000_0000_0000_0000);
    } else {
        lemma_mod_add_multiples_vanish(d, 0x1_0000_0000_0000_0000);
        lemma_small_mod((d + 0x1_0000_0000_0000_0000) as nat, 0x1_0000_0000_0000_0000);
    }
}

/// The numbers of a slot follow from the wrapped position.
pub proof fn lemma_sequences_of_wrapped(x: int)
    ensures
        free_sequence(wrap(x) as int) == free_sequence(x),
        held_sequence(wrap(x) as int) == held_sequence(x),
{
    let q = x / 0x1_0000_0000_0000_0000;
    assert(2 * x == 0x1_0000_0000_0000_0000 * (2 * q) + 2 * wrap(x));
    lemma_mod_multiples_vanish(2 * q, 2 * wrap(x), 0x1_0000_0000_0000_0000);
    lemma_mod_multiples_vanish(2 * q, 2 * wrap(x) + 1, 0x1_0000_0000_0000_0000);
}

/// A producer claims the slot that waits for its position.
proof fn lemma_step_when_free(x: int, pos: u64)
    requires
        pos == wrap(x),
    ensures
        push_step_spec(free_sequence(x), pos) == PushStep::Claim,
{
    lemma_sequences_of_wrapped(x);
    lemma_ahead(2 * x, 2 * x);
}

/// A producer whose slot holds the item of the round before finds the queue full.
proof fn lemma_step_when_full(first: int, n: int, pos: u64)
    requires
        0 < n < 0x1000_0000_0000_0000,
        pos == wrap(first + n),
    ensures
        push_step_spec(held_sequence(first), pos) == PushStep::Full,
{
    lemma_sequences_of_wrapped(first + n);
    lemma_ahead(2 * first + 1, 2 * (first + n));
}

/// A claimed position makes the queue one item longer.
proof fn lemma_count_after_push(first: int, n: int, pos: u64)
    requires
        0 <= n < 0x1000_0000_0000_0000,
        pos == wrap(first + n),
    ensures
        wrap(wrap(pos + 1) - first) == n + 1,
        held_sequence(pos as int) == held_sequence(first + n),
{
    lemma_sequences_of_wrapped(first + n);
}

/// A consumer claims the slot that holds its item and finds the queue empty
/// where the slot still waits for it.
proof fn lemma_step_of_consumer(pos: u64)
    ensures
        pop_step_spec(held_sequence(pos as int), pos) == PopStep::Claim,
        pop_step_spec(free_sequence(pos as int), pos) == PopStep::Empty,
{
    lemma_ahead(2 * pos + 1, 2 * pos + 1);
    lemma_ahead(2 * pos, 2 * pos + 1);
}

/// A position that a consumer claims makes the queue one item shorter.
proof fn lemma_count_after_pop(end: u64, pos: u64, n: int)
    requires
        0 < n,
        n == wrap(end - pos),
    ensures
        wrap(end - wrap(pos + 1)) == n - 1,
{
}

/// Positions that lie `n` apart fall on the same slot.
proof fn lemma_index_period(x: int, n: int)
    requires
        0 < n,
    ensures
        (x + n) % n == x % n,
        (x + 1 + (n - 1)) % n == x % n,
{
    lemma_mod_add_multiples_vanish(x, n);
}

/// Different positions within one round fall on different slots.
proof fn lemma_index_injective(x: int, i: int, j: int, n: int)
    requires
        0 < n,
        0 <= i < n,
        0 <= j < n,
        i != j,
    ensures
        (x + i) % n != (x + j) % n,
{
    lemma_fundamental_div_mod(x + i, n);
    lemma_fundamental_div_mod(x + j, n);
    let p = (x + i) / n;
    let q = (x + j) / n;
    if (x + i) % n == (x + j) % n {
        assert(n * p - n * q == i - j);
        assert(n * (p - q) == i - j) by (nonlinear_arith)
            requires
                n * p - n * q == i - j,
        ;
        assert(false) by (nonlinear_arith)
            requires
                n * (p - q) == i - j,
                0 < n,
                -n < i - j < n,
                i - j != 0,
        ;
    }
}

} // verus!
