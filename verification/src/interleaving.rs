//! The ring of [`crate::queue`] under threads that share it.
//!
//! A thread pushes by reading the sequence number of a slot, claiming the
//! position with a compare-and-exchange, writing the value and publishing it; it
//! pops by reading, claiming, taking the value and releasing the slot. Here each
//! of these accesses is one [`Step`], the steps of all threads may interleave in
//! any order, and a claim may fail. What is proved holds after every such run:
//! no item is lost, none is delivered twice or altered, and no two threads touch
//! the value of one slot at the same time.
//!
//! Every access is taken as atomic, and the accesses of all threads as following
//! each other in one global order. Which memory orders the atomics must be given
//! for that is not covered here.
//!
//! Positions and sequence numbers count from zero without wrapping round;
//! [`lemma_steps_read_the_slot`] ties them to the wrapped numbers that
//! [`crate::queue::push_step`] and [`crate::queue::pop_step`] decide on.

use vstd::arithmetic::div_mod::*;
use vstd::prelude::*;

verus! {

/// One slot: its sequence number and what it holds.
pub struct RingSlot<T> {
    pub sequence: nat,
    pub value: Option<T>,
}

/// How far a thread has come with its current push or pop.
pub enum Phase<T> {
    /// Between two operations, or about to read again.
    Idle,
    /// Read a slot that waits for `pos`; the claim is next.
    PushSaw { item: T, pos: nat },
    /// Claimed `pos`; the write of the value is next.
    PushClaimed { item: T, pos: nat },
    /// Wrote the value; its publication is next.
    PushWrote { item: T, pos: nat },
    /// Read a slot that holds the item of `pos`; the claim is next.
    PopSaw { pos: nat },
    /// Claimed `pos`; taking the value is next.
    PopClaimed { pos: nat },
    /// Took the value; the release of the slot is next.
    PopTook { pos: nat },
}

/// The shared ring, the threads that work on it, and what has passed through.
pub struct Ring<T> {
    pub slots: Seq<RingSlot<T>>,
    pub enqueue_pos: nat,
    pub dequeue_pos: nat,
    pub phases: Map<nat, Phase<T>>,
    /// The item of each position that a producer has claimed.
    pub accepted: Seq<T>,
    /// The item that a consumer took at each position.
    pub delivered: Map<nat, T>,
}

/// One access of one thread.
pub enum Step<T> {
    PushSee { item: T, pos: nat },
    PushClaim,
    PushWrite,
    PushPublish,
    PopSee { pos: nat },
    PopClaim,
    PopTake,
    PopRelease,
    /// A claim fails: the thread starts over.
    Lose,
}

impl<T> Ring<T> {
    /// The number of slots.
    pub open spec fn capacity(self) -> nat {
        self.slots.len()
    }

    /// The slot that serves position `pos`.
    pub open spec fn slot(self, pos: nat) -> RingSlot<T> {
        self.slots[(pos % self.capacity()) as int]
    }

    /// Where thread `t` stands.
    pub open spec fn phase(self, t: nat) -> Phase<T> {
        if self.phases.contains_key(t) {
            self.phases[t]
        } else {
            Phase::Idle
        }
    }

    /// A ring of `n` empty slots before the first access.
    pub open spec fn start(n: nat) -> Self {
        Ring {
            slots: Seq::new(n, |k: int| RingSlot { sequence: (2 * k) as nat, value: None }),
            enqueue_pos: 0,
            dequeue_pos: 0,
            phases: Map::empty(),
            accepted: Seq::empty(),
            delivered: Map::empty(),
        }
    }

    /// Thread `t` may make this access now.
    pub open spec fn enabled(self, t: nat, step: Step<T>) -> bool {
        match (step, self.phase(t)) {
            (Step::PushSee { item, pos }, Phase::Idle) => pos <= self.enqueue_pos && self.slot(
                pos,
            ).sequence == 2 * pos,
            (Step::PushClaim, Phase::PushSaw { item, pos }) => self.enqueue_pos == pos,
            (Step::PushWrite, Phase::PushClaimed { item, pos }) => true,
            (Step::PushPublish, Phase::PushWrote { item, pos }) => true,
            (Step::PopSee { pos }, Phase::Idle) => pos <= self.dequeue_pos && self.slot(
                pos,
            ).sequence == 2 * pos + 1,
            (Step::PopClaim, Phase::PopSaw { pos }) => self.dequeue_pos == pos,
            (Step::PopTake, Phase::PopClaimed { pos }) => true,
            (Step::PopRelease, Phase::PopTook { pos }) => true,
            (Step::Lose, Phase::PushSaw { item, pos }) => true,
            (Step::Lose, Phase::PopSaw { pos }) => true,
            _ => false,
        }
    }

    /// The ring with thread `t` in another phase.
    pub open spec fn with_phase(self, t: nat, phase: Phase<T>) -> Self {
        Ring { phases: self.phases.insert(t, phase), ..self }
    }

    /// The ring with another slot at `pos`.
    pub open spec fn with_slot(self, pos: nat, slot: RingSlot<T>) -> Self {
        Ring { slots: self.slots.update((pos % self.capacity()) as int, slot), ..self }
    }

    /// The ring after thread `t` has made the access `step`.
    pub open spec fn after(self, t: nat, step: Step<T>) -> Self {
        match (step, self.phase(t)) {
            (Step::PushSee { item, pos }, _) => self.with_phase(t, Phase::PushSaw { item, pos }),
            (Step::PushClaim, Phase::PushSaw { item, pos }) => Ring {
                enqueue_pos: self.enqueue_pos + 1,
                accepted: self.accepted.push(item),
                ..self.with_phase(t, Phase::PushClaimed { item, pos })
            },
            (Step::PushWrite, Phase::PushClaimed { item, pos }) => self.with_slot(
                pos,
                RingSlot { value: Some(item), ..self.slot(pos) },
            ).with_phase(t, Phase::PushWrote { item, pos }),
            (Step::PushPublish, Phase::PushWrote { item, pos }) => self.with_slot(
                pos,
                RingSlot { sequence: 2 * pos + 1, ..self.slot(pos) },
            ).with_phase(t, Phase::Idle),
            (Step::PopSee { pos }, _) => self.with_phase(t, Phase::PopSaw { pos }),
            (Step::PopClaim, Phase::PopSaw { pos }) => Ring {
                dequeue_pos: self.dequeue_pos + 1,
                ..self.with_phase(t, Phase::PopClaimed { pos })
            },
            (Step::PopTake, Phase::PopClaimed { pos }) => Ring {
                delivered: self.delivered.insert(pos, self.slot(pos).value->0),
                ..self.with_slot(
                    pos,
                    RingSlot { value: None, ..self.slot(pos) },
                ).with_phase(t, Phase::PopTook { pos })
            },
            (Step::PopRelease, Phase::PopTook { pos }) => self.with_slot(
                pos,
                RingSlot { sequence: 2 * (pos + self.capacity()), ..self.slot(pos) },
            ).with_phase(t, Phase::Idle),
            (Step::Lose, _) => self.with_phase(t, Phase::Idle),
            _ => self,
        }
    }

    /// The position that the slot of `pos` currently serves.
    pub open spec fn serving(self, pos: nat) -> nat {
        self.slot(pos).sequence / 2
    }

    /// The slot of `pos` is published: it holds, or did hold, the item that it
    /// currently serves.
    pub open spec fn published(self, pos: nat) -> bool {
        self.slot(pos).sequence % 2 == 1
    }

    /// Thread `t` has claimed `pos` to push there.
    pub open spec fn pushing(self, t: nat, pos: nat) -> bool {
        match self.phase(t) {
            Phase::PushClaimed { item, pos: p } => p == pos,
            Phase::PushWrote { item, pos: p } => p == pos,
            _ => false,
        }
    }

    /// Thread `t` has claimed `pos` to pop there.
    pub open spec fn popping(self, t: nat, pos: nat) -> bool {
        match self.phase(t) {
            Phase::PopClaimed { pos: p } => p == pos,
            Phase::PopTook { pos: p } => p == pos,
            _ => false,
        }
    }

    /// What the slot of position `p` tells of it.
    pub open spec fn position_inv(self, p: nat) -> bool {
        &&& self.serving(p) % self.capacity() == p % self.capacity()
        // No claimed position lies beyond the round that its slot serves.
        &&& p < self.enqueue_pos ==> p <= self.serving(p)
        &&& p < self.dequeue_pos ==> p < self.serving(p) || p == self.serving(p) && self.published(
            p,
        )
        // Rounds that a slot has left behind are delivered.
        &&& p < self.serving(p) ==> self.delivered.contains_key(p) && p < self.dequeue_pos
        &&& self.delivered.contains_key(p) ==> {
            &&& p < self.dequeue_pos
            &&& p < self.enqueue_pos
            &&& self.delivered[p] == self.accepted[p as int]
            &&& p == self.serving(p) ==> self.slot(p).value is None
        }
        // The round that the slot serves now.
        &&& p == self.serving(p) ==> {
            if self.published(p) {
                &&& p < self.enqueue_pos
                &&& p >= self.dequeue_pos ==> self.slot(p).value == Some(self.accepted[p as int])
                &&& p < self.dequeue_pos ==> exists|t: nat| #[trigger] self.popping(t, p)
            } else {
                &&& p >= self.dequeue_pos
                &&& p >= self.enqueue_pos ==> self.slot(p).value is None
                &&& p < self.enqueue_pos ==> exists|t: nat| #[trigger] self.pushing(t, p)
            }
        }
    }

    /// What thread `t` relies on.
    pub open spec fn thread_inv(self, t: nat) -> bool {
        match self.phase(t) {
            Phase::Idle => true,
            Phase::PushSaw { item, pos } => pos <= self.enqueue_pos && (self.enqueue_pos == pos
                ==> self.slot(pos).sequence == 2 * pos),
            Phase::PushClaimed { item, pos } => {
                &&& pos < self.enqueue_pos
                &&& self.slot(pos).sequence == 2 * pos
                &&& self.slot(pos).value is None
                &&& item == self.accepted[pos as int]
            },
            Phase::PushWrote { item, pos } => {
                &&& pos < self.enqueue_pos
                &&& self.slot(pos).sequence == 2 * pos
                &&& self.slot(pos).value == Some(item)
                &&& item == self.accepted[pos as int]
            },
            Phase::PopSaw { pos } => pos <= self.dequeue_pos && (self.dequeue_pos == pos
                ==> self.slot(pos).sequence == 2 * pos + 1),
            Phase::PopClaimed { pos } => {
                &&& pos < self.dequeue_pos
                &&& self.slot(pos).sequence == 2 * pos + 1
                &&& self.slot(pos).value == Some(self.accepted[pos as int])
                &&& !self.delivered.contains_key(pos)
            },
            Phase::PopTook { pos } => {
                &&& pos < self.dequeue_pos
                &&& self.slot(pos).sequence == 2 * pos + 1
                &&& self.slot(pos).value is None
                &&& self.delivered.contains_key(pos)
            },
        }
    }

    /// No two threads have claimed the same position for the same purpose.
    pub open spec fn claims_distinct(self) -> bool {
        &&& forall|t: nat, u: nat, p: nat|
            #[trigger] self.pushing(t, p) && #[trigger] self.pushing(u, p) ==> t == u
        &&& forall|t: nat, u: nat, p: nat|
            #[trigger] self.popping(t, p) && #[trigger] self.popping(u, p) ==> t == u
    }

    /// What holds after every access.
    pub open spec fn inv(self) -> bool {
        &&& self.capacity() > 0
        &&& self.accepted.len() == self.enqueue_pos
        &&& forall|p: nat| #[trigger] self.position_inv(p)
        &&& forall|t: nat| #[trigger] self.thread_inv(t)
        &&& self.claims_distinct()
    }
}

/// The ring after a run of accesses, each by some thread.
pub open spec fn after_run<T>(n: nat, run: Seq<(nat, Step<T>)>) -> Ring<T>
    decreases run.len(),
{
    if run.len() == 0 {
        Ring::start(n)
    } else {
        after_run(n, run.drop_last()).after(run.last().0, run.last().1)
    }
}

/// Every access of the run was possible when it was made.
pub open spec fn possible_run<T>(n: nat, run: Seq<(nat, Step<T>)>) -> bool
    decreases run.len(),
{
    run.len() > 0 ==> possible_run(n, run.drop_last()) && after_run(n, run.drop_last()).enabled(
        run.last().0,
        run.last().1,
    )
}

/// Positions of one slot lie whole rounds apart.
proof fn lemma_rounds_apart(p: nat, q: nat, n: nat)
    requires
        n > 0,
        p % n == q % n,
        p < q,
    ensures
        p + n <= q,
{
    lemma_fundamental_div_mod(p as int, n as int);
    lemma_fundamental_div_mod(q as int, n as int);
    let a = p as int / n as int;
    let b = q as int / n as int;
    assert(p + n <= q) by (nonlinear_arith)
        requires
            p == n * a + p % n,
            q == n * b + q % n,
            p % n == q % n,
            p < q,
            n > 0,
    ;
}

/// A step that changes no slot, no position and no claim keeps the invariant.
proof fn lemma_quiet_step<T>(s: Ring<T>, t: nat, phase: Phase<T>)
    requires
        s.inv(),
        s.phase(t) is Idle || s.phase(t) is PushSaw || s.phase(t) is PopSaw,
        phase is Idle || phase is PushSaw || phase is PopSaw,
        s.with_phase(t, phase).thread_inv(t),
    ensures
        s.with_phase(t, phase).inv(),
{
    let z = s.with_phase(t, phase);
    assert forall|u: nat, p: nat| #[trigger] z.pushing(u, p) == s.pushing(u, p) by {}
    assert forall|u: nat, p: nat| #[trigger] z.popping(u, p) == s.popping(u, p) by {}
    assert forall|p: nat| #[trigger] z.position_inv(p) by {
        assert(s.position_inv(p));
        assert(z.slot(p) == s.slot(p));
        if exists|u: nat| s.popping(u, p) {
            let u = choose|u: nat| s.popping(u, p);
            assert(z.popping(u, p));
        }
        if exists|u: nat| s.pushing(u, p) {
            let u = choose|u: nat| s.pushing(u, p);
            assert(z.pushing(u, p));
        }
    }
    assert forall|u: nat| #[trigger] z.thread_inv(u) by {
        assert(s.thread_inv(u));
    }
}

proof fn lemma_push_claim<T>(s: Ring<T>, t: nat)
    requires
        s.inv(),
        s.enabled(t, Step::PushClaim),
    ensures
        s.after(t, Step::PushClaim).inv(),
{
    let z = s.after(t, Step::PushClaim);
    let pos = s.enqueue_pos;
    assert(s.thread_inv(t));
    assert(s.position_inv(pos));
    assert forall|u: nat, p: nat| #[trigger] z.pushing(u, p) implies s.pushing(u, p) || (u == t && p
        == pos) by {}
    assert forall|u: nat, p: nat| #[trigger] z.popping(u, p) == s.popping(u, p) by {}
    assert forall|u: nat| !#[trigger] s.pushing(u, pos) by {
        assert(s.thread_inv(u));
    }
    assert(z.pushing(t, pos));
    assert forall|p: nat| #[trigger] z.position_inv(p) by {
        assert(s.position_inv(p));
        assert(z.slot(p) == s.slot(p));
        if exists|u: nat| s.popping(u, p) {
            let u = choose|u: nat| s.popping(u, p);
            assert(z.popping(u, p));
        }
        if exists|u: nat| s.pushing(u, p) {
            let u = choose|u: nat| s.pushing(u, p);
            assert(z.pushing(u, p));
        }
    }
    assert forall|u: nat| #[trigger] z.thread_inv(u) by {
        assert(s.thread_inv(u));
        match s.phase(u) {
            Phase::PopClaimed { pos: q } => {
                assert(s.position_inv(q));
            },
            _ => {},
        }
    }
}

proof fn lemma_push_write<T>(s: Ring<T>, t: nat)
    requires
        s.inv(),
        s.enabled(t, Step::PushWrite),
    ensures
        s.after(t, Step::PushWrite).inv(),
{
    let z = s.after(t, Step::PushWrite);
    let pos = s.phase(t)->PushClaimed_pos;
    assert(s.thread_inv(t));
    assert(s.position_inv(pos));
    assert(s.pushing(t, pos));
    assert forall|u: nat, p: nat| #[trigger] z.pushing(u, p) == s.pushing(u, p) by {}
    assert forall|u: nat, p: nat| #[trigger] z.popping(u, p) == s.popping(u, p) by {}
    assert forall|p: nat| #[trigger] z.position_inv(p) by {
        assert(s.position_inv(p));
        if exists|u: nat| s.popping(u, p) {
            let u = choose|u: nat| s.popping(u, p);
            assert(z.popping(u, p));
        }
        if exists|u: nat| s.pushing(u, p) {
            let u = choose|u: nat| s.pushing(u, p);
            assert(z.pushing(u, p));
        }
    }
    assert forall|u: nat| #[trigger] z.thread_inv(u) by {
        assert(s.thread_inv(u));
        if u != t {
            assert(!s.pushing(u, pos));
        }
    }
}

proof fn lemma_push_publish<T>(s: Ring<T>, t: nat)
    requires
        s.inv(),
        s.enabled(t, Step::PushPublish),
    ensures
        s.after(t, Step::PushPublish).inv(),
{
    let z = s.after(t, Step::PushPublish);
    let pos = s.phase(t)->PushWrote_pos;
    assert(s.thread_inv(t));
    assert(s.position_inv(pos));
    assert(s.pushing(t, pos));
    assert forall|u: nat, p: nat| #[trigger] z.pushing(u, p) == (s.pushing(u, p) && u != t) by {}
    assert forall|u: nat, p: nat| #[trigger] z.popping(u, p) == s.popping(u, p) by {}
    assert forall|p: nat| #[trigger] z.position_inv(p) by {
        assert(s.position_inv(p));
        if exists|u: nat| s.popping(u, p) {
            let u = choose|u: nat| s.popping(u, p);
            assert(z.popping(u, p));
        }
        if p != pos && exists|u: nat| s.pushing(u, p) {
            let u = choose|u: nat| s.pushing(u, p);
            assert(z.pushing(u, p));
        }
    }
    assert forall|u: nat| #[trigger] z.thread_inv(u) by {
        assert(s.thread_inv(u));
        if u != t {
            assert(!s.pushing(u, pos));
        }
    }
}

proof fn lemma_pop_claim<T>(s: Ring<T>, t: nat)
    requires
        s.inv(),
        s.enabled(t, Step::PopClaim),
    ensures
        s.after(t, Step::PopClaim).inv(),
{
    let z = s.after(t, Step::PopClaim);
    let pos = s.dequeue_pos;
    assert(s.thread_inv(t));
    assert(s.position_inv(pos));
    assert forall|u: nat, p: nat| #[trigger] z.pushing(u, p) == s.pushing(u, p) by {}
    assert forall|u: nat, p: nat| #[trigger] z.popping(u, p) implies s.popping(u, p) || (u == t && p
        == pos) by {}
    assert forall|u: nat| !#[trigger] s.popping(u, pos) by {
        assert(s.thread_inv(u));
    }
    assert(z.popping(t, pos));
    assert forall|p: nat| #[trigger] z.position_inv(p) by {
        assert(s.position_inv(p));
        assert(z.slot(p) == s.slot(p));
        if exists|u: nat| s.popping(u, p) {
            let u = choose|u: nat| s.popping(u, p);
            assert(z.popping(u, p));
        }
        if exists|u: nat| s.pushing(u, p) {
            let u = choose|u: nat| s.pushing(u, p);
            assert(z.pushing(u, p));
        }
    }
    assert forall|u: nat| #[trigger] z.thread_inv(u) by {
        assert(s.thread_inv(u));
    }
}

proof fn lemma_pop_take<T>(s: Ring<T>, t: nat)
    requires
        s.inv(),
        s.enabled(t, Step::PopTake),
    ensures
        s.after(t, Step::PopTake).inv(),
{
    let z = s.after(t, Step::PopTake);
    let pos = s.phase(t)->PopClaimed_pos;
    assert(s.thread_inv(t));
    assert(s.position_inv(pos));
    assert(s.popping(t, pos));
    assert forall|u: nat, p: nat| #[trigger] z.pushing(u, p) == s.pushing(u, p) by {}
    assert forall|u: nat, p: nat| #[trigger] z.popping(u, p) == s.popping(u, p) by {}
    assert forall|p: nat| #[trigger] z.position_inv(p) by {
        assert(s.position_inv(p));
        if exists|u: nat| s.popping(u, p) {
            let u = choose|u: nat| s.popping(u, p);
            assert(z.popping(u, p));
        }
        if exists|u: nat| s.pushing(u, p) {
            let u = choose|u: nat| s.pushing(u, p);
            assert(z.pushing(u, p));
        }
    }
    assert forall|u: nat| #[trigger] z.thread_inv(u) by {
        assert(s.thread_inv(u));
        if u != t {
            assert(!s.popping(u, pos));
        }
    }
}

proof fn lemma_pop_release<T>(s: Ring<T>, t: nat)
    requires
        s.inv(),
        s.enabled(t, Step::PopRelease),
    ensures
        s.after(t, Step::PopRelease).inv(),
{
    let z = s.after(t, Step::PopRelease);
    let n = s.capacity();
    let pos = s.phase(t)->PopTook_pos;
    assert(s.thread_inv(t));
    assert(s.position_inv(pos));
    assert(s.popping(t, pos));
    lemma_mod_add_multiples_vanish(pos as int, n as int);
    assert(s.position_inv(pos + n));
    assert forall|u: nat, p: nat| #[trigger] z.pushing(u, p) == s.pushing(u, p) by {}
    assert forall|u: nat, p: nat| #[trigger] z.popping(u, p) == (s.popping(u, p) && u != t) by {}
    assert forall|p: nat| #[trigger] z.position_inv(p) by {
        assert(s.position_inv(p));
        if p % n == pos % n {
            if p < pos + n {
                lemma_rounds_apart(p, pos + n, n);
            }
        }
        if p != pos && exists|u: nat| s.popping(u, p) {
            let u = choose|u: nat| s.popping(u, p);
            assert(z.popping(u, p));
        }
        if exists|u: nat| s.pushing(u, p) {
            let u = choose|u: nat| s.pushing(u, p);
            assert(z.pushing(u, p));
        }
    }
    assert forall|u: nat| #[trigger] z.thread_inv(u) by {
        assert(s.thread_inv(u));
        if u != t {
            assert(!s.popping(u, pos));
        }
    }
}

/// Every access of every thread keeps the invariant.
pub proof fn lemma_inv_kept<T>(s: Ring<T>, t: nat, step: Step<T>)
    requires
        s.inv(),
        s.enabled(t, step),
    ensures
        s.after(t, step).inv(),
{
    match step {
        Step::PushSee { item, pos } => {
            lemma_quiet_step(s, t, Phase::PushSaw { item, pos });
        },
        Step::PushClaim => lemma_push_claim(s, t),
        Step::PushWrite => lemma_push_write(s, t),
        Step::PushPublish => lemma_push_publish(s, t),
        Step::PopSee { pos } => {
            lemma_quiet_step(s, t, Phase::PopSaw { pos });
        },
        Step::PopClaim => lemma_pop_claim(s, t),
        Step::PopTake => lemma_pop_take(s, t),
        Step::PopRelease => lemma_pop_release(s, t),
        Step::Lose => {
            lemma_quiet_step(s, t, Phase::Idle);
        },
    }
}

/// The invariant holds after every possible run.
pub proof fn lemma_inv_of_run<T>(n: nat, run: Seq<(nat, Step<T>)>)
    requires
        n > 0,
        possible_run(n, run),
    ensures
        after_run(n, run).inv(),
        after_run(n, run).capacity() == n,
    decreases run.len(),
{
    if run.len() == 0 {
        let s = Ring::<T>::start(n);
        assert forall|p: nat| #[trigger] s.position_inv(p) by {
            let k = p % n;
            assert(s.slot(p).sequence == 2 * k);
            lemma_mod_twice(p as int, n as int);
            if p < n {
                lemma_small_mod(p, n);
            }
            lemma_mod_decreases(p, n);
        }
    } else {
        lemma_inv_of_run(n, run.drop_last());
        lemma_inv_kept(after_run(n, run.drop_last()), run.last().0, run.last().1);
    }
}

/// No item is altered or made up: what was delivered at a position is what a
/// producer put there.
pub proof fn law_delivered_as_accepted<T>(n: nat, run: Seq<(nat, Step<T>)>, p: nat)
    requires
        n > 0,
        possible_run(n, run),
        after_run(n, run).delivered.contains_key(p),
    ensures
        p < after_run(n, run).accepted.len(),
        after_run(n, run).delivered[p] == after_run(n, run).accepted[p as int],
{
    lemma_inv_of_run(n, run);
    assert(after_run(n, run).position_inv(p));
}

/// No item is delivered twice: a consumer that takes a value always finds one,
/// and its position was not delivered before.
pub proof fn law_delivered_once<T>(n: nat, run: Seq<(nat, Step<T>)>, t: nat)
    requires
        n > 0,
        possible_run(n, run),
        after_run(n, run).enabled(t, Step::PopTake),
    ensures
        ({
            let s = after_run(n, run);
            let pos = s.phase(t)->PopClaimed_pos;
            &&& s.slot(pos).value is Some
            &&& !s.delivered.contains_key(pos)
            &&& s.after(t, Step::PopTake).delivered == s.delivered.insert(
                pos,
                s.accepted[pos as int],
            )
        }),
{
    lemma_inv_of_run(n, run);
    assert(after_run(n, run).thread_inv(t));
}

/// No item is lost: once every thread is done, each accepted item has been
/// delivered or stands in its slot, and those delivered are the oldest.
pub proof fn law_nothing_lost<T>(n: nat, run: Seq<(nat, Step<T>)>, p: nat)
    requires
        n > 0,
        possible_run(n, run),
        forall|t: nat| (#[trigger] after_run(n, run).phase(t)) is Idle,
        p < after_run(n, run).accepted.len(),
    ensures
        ({
            let s = after_run(n, run);
            if p < s.dequeue_pos {
                s.delivered.contains_key(p) && s.delivered[p] == s.accepted[p as int]
            } else {
                !s.delivered.contains_key(p) && s.slot(p).value == Some(s.accepted[p as int])
            }
        }),
{
    lemma_inv_of_run(n, run);
    let s = after_run(n, run);
    assert(s.position_inv(p));
    if p == s.serving(p) {
        if exists|t: nat| s.popping(t, p) {
            let t = choose|t: nat| s.popping(t, p);
            assert(s.phase(t) is Idle);
        }
        if exists|t: nat| s.pushing(t, p) {
            let t = choose|t: nat| s.pushing(t, p);
            assert(s.phase(t) is Idle);
        }
    }
}

/// The ring never holds more than its capacity.
pub proof fn law_bounded<T>(n: nat, run: Seq<(nat, Step<T>)>)
    requires
        n > 0,
        possible_run(n, run),
    ensures
        after_run(n, run).dequeue_pos <= after_run(n, run).enqueue_pos <= after_run(
            n,
            run,
        ).dequeue_pos + n,
{
    lemma_inv_of_run(n, run);
    let s = after_run(n, run);
    if s.enqueue_pos > s.dequeue_pos + n {
        let p = (s.enqueue_pos - 1) as nat;
        let q = (p - n) as nat;
        assert(s.position_inv(p));
        assert(s.position_inv(q));
        lemma_mod_add_multiples_vanish(q as int, n as int);
        assert(q < s.serving(q));
    }
    if s.dequeue_pos > s.enqueue_pos {
        let p = (s.dequeue_pos - 1) as nat;
        assert(s.position_inv(p));
    }
}

/// No two threads touch the value of one slot at the same time.
pub proof fn law_exclusive<T>(n: nat, run: Seq<(nat, Step<T>)>, t: nat, u: nat, p: nat, q: nat)
    requires
        n > 0,
        possible_run(n, run),
        after_run(n, run).pushing(t, p) || after_run(n, run).popping(t, p),
        after_run(n, run).pushing(u, q) || after_run(n, run).popping(u, q),
        p % n == q % n,
    ensures
        t == u,
{
    lemma_inv_of_run(n, run);
    let s = after_run(n, run);
    assert(s.thread_inv(t));
    assert(s.thread_inv(u));
}

/// A producer that finds its slot behind is right to report a full queue: while
/// its position is the next one, all slots are in use, and the item of a round
/// before has not left the slot.
pub proof fn law_full<T>(n: nat, run: Seq<(nat, Step<T>)>)
    requires
        n > 0,
        possible_run(n, run),
        after_run(n, run).slot(after_run(n, run).enqueue_pos).sequence < 2 * after_run(
            n,
            run,
        ).enqueue_pos,
    ensures
        n <= after_run(n, run).enqueue_pos,
        after_run(n, run).serving(after_run(n, run).enqueue_pos) == after_run(n, run).enqueue_pos
            - n,
{
    lemma_inv_of_run(n, run);
    let s = after_run(n, run);
    let p = s.enqueue_pos;
    assert(s.position_inv(p));
    lemma_rounds_apart(s.serving(p), p, n);
    let q = (p - n) as nat;
    lemma_mod_add_multiples_vanish(q as int, n as int);
    assert(s.position_inv(q));
}

/// A consumer that finds its slot behind is right to report an empty queue:
/// while its position is the next one, no producer has claimed that position, or
/// the one that has is not done.
pub proof fn law_empty<T>(n: nat, run: Seq<(nat, Step<T>)>)
    requires
        n > 0,
        possible_run(n, run),
        after_run(n, run).slot(after_run(n, run).dequeue_pos).sequence < 2 * after_run(
            n,
            run,
        ).dequeue_pos + 1,
    ensures
        after_run(n, run).dequeue_pos == after_run(n, run).enqueue_pos || exists|t: nat| #[trigger]
            after_run(n, run).pushing(t, after_run(n, run).dequeue_pos),
{
    lemma_inv_of_run(n, run);
    let s = after_run(n, run);
    let p = s.dequeue_pos;
    assert(s.position_inv(p));
    law_bounded(n, run);
}

/// Threads do not hold each other up: a thread that has to read again, because
/// the position that it saw is no longer the next one or because its slot has
/// moved on, was overtaken by another thread that claimed that position.
pub proof fn law_retry_means_progress<T>(n: nat, run: Seq<(nat, Step<T>)>, t: nat, pos: nat)
    requires
        n > 0,
        possible_run(n, run),
    ensures
        ({
            let s = after_run(n, run);
            &&& (s.phase(t) matches Phase::PushSaw { item, pos: p } && !s.enabled(
                t,
                Step::PushClaim,
            )) ==> s.phase(t)->PushSaw_pos < s.enqueue_pos
            &&& (s.phase(t) matches Phase::PopSaw { pos: p } && !s.enabled(t, Step::PopClaim))
                ==> s.phase(t)->PopSaw_pos < s.dequeue_pos
            &&& pos <= s.enqueue_pos && s.slot(pos).sequence > 2 * pos ==> pos < s.enqueue_pos
            &&& pos <= s.dequeue_pos && s.slot(pos).sequence > 2 * pos + 1 ==> pos < s.dequeue_pos
        }),
{
    lemma_inv_of_run(n, run);
    law_bounded(n, run);
    let s = after_run(n, run);
    assert(s.thread_inv(t));
    assert(s.position_inv(pos));
}

/// The wrapped numbers decide as the true ones do, as long as a slot's number
/// and the wanted one lie less than 2^63 apart.
pub proof fn lemma_steps_read_the_slot(sequence: nat, pos: nat)
    requires
        -0x7fff_ffff_ffff_ffff <= sequence - 2 * pos <= 0x7fff_ffff_ffff_ffff,
    ensures
        ({
            let q = crate::queue::wrap(sequence as int);
            let p = crate::queue::wrap(pos as int);
            &&& crate::queue::push_step_spec(q, p) is Claim <==> sequence == 2 * pos
            &&& crate::queue::push_step_spec(q, p) is Full <==> sequence < 2 * pos
            &&& crate::queue::pop_step_spec(q, p) is Claim <==> sequence == 2 * pos + 1
            &&& crate::queue::pop_step_spec(q, p) is Empty <==> sequence < 2 * pos + 1
        }),
{
    crate::queue::lemma_sequences_of_wrapped(pos as int);
    crate::queue::lemma_ahead(sequence as int, 2 * pos as int);
    crate::queue::lemma_ahead(sequence as int, 2 * pos as int + 1);
}

} // verus!
