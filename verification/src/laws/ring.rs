//! The ring: what a slot's sequence number tells a thread.

use vstd::prelude::*;

verus! {

/// How far `a` is ahead of `b` on a circle of 2^64 numbers.
pub open spec fn distance(a: int, b: int) -> int {
    (a - b) % 0x1_0000_0000_0000_0000
}

/// What a producer and a consumer at position `pos` do when the slot reads
/// `sequence`: the producer claims if and only if the slot reads twice the
/// position, the consumer if and only if it reads one more; either reports a full
/// or an empty queue if and only if the slot lies behind, by up to half of the
/// circle, and otherwise reads its position again.
pub proof fn law_decisions_on_a_slot(sequence: u64, pos: u64)
    ensures
        ({
            let d = distance(sequence as int, 2 * pos);
            let e = distance(sequence as int, 2 * pos + 1);
            let push = crate::queue::push_step_spec(sequence, pos);
            let pop = crate::queue::pop_step_spec(sequence, pos);
            &&& push is Claim <==> d == 0
            &&& push is Full <==> d >= 0x8000_0000_0000_0000
            &&& push is Stale <==> 0 < d < 0x8000_0000_0000_0000
            &&& pop is Claim <==> e == 0
            &&& pop is Empty <==> e >= 0x8000_0000_0000_0000
            &&& pop is Stale <==> 0 < e < 0x8000_0000_0000_0000
        }),
{
}

/// A slot goes round: the number that publishes an item is the one at which its
/// consumer claims, and the number that releases the slot is the one at which the
/// producer of the next round claims, in a ring of any size.
pub proof fn law_slot_goes_round(pos: u64, capacity: u64)
    requires
        capacity > 0,
    ensures
        ({
            let next = ((pos + capacity) % 0x1_0000_0000_0000_0000) as u64;
            let held = crate::queue::held_sequence(pos as int);
            let free = crate::queue::free_sequence(pos + (capacity - 1) + 1);
            &&& crate::queue::push_step_spec(crate::queue::free_sequence(pos as int), pos) is Claim
            &&& crate::queue::pop_step_spec(held, pos) is Claim
            &&& crate::queue::pop_step_spec(crate::queue::free_sequence(pos as int), pos) is Empty
            &&& crate::queue::push_step_spec(held, pos) is Stale
            &&& crate::queue::push_step_spec(free, next) is Claim
            &&& crate::queue::pop_step_spec(free, next) is Empty
        }),
{
    let later = (pos + capacity) as nat;
    assert(pos + (capacity - 1) + 1 == later);
    assert(crate::queue::wrap(pos as int) == pos);
    lemma_round(pos as nat);
    lemma_round(later);
}

proof fn lemma_round(x: nat)
    ensures
        ({
            let p = crate::queue::wrap(x as int);
            let held = crate::queue::held_sequence(x as int);
            let free = crate::queue::free_sequence(x as int);
            &&& crate::queue::push_step_spec(free, p) is Claim
            &&& crate::queue::pop_step_spec(free, p) is Empty
            &&& crate::queue::pop_step_spec(held, p) is Claim
            &&& crate::queue::push_step_spec(held, p) is Stale
        }),
{
    crate::interleaving::lemma_steps_read_the_slot(2 * x, x);
    crate::interleaving::lemma_steps_read_the_slot(2 * x + 1, x);
}

} // verus!
