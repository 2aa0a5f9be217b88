//! The way of the events: who takes them, which are dropped, what is kept.

use vstd::prelude::*;

use crate::models::NetworkEvent;
use crate::pipeline::Stats;

verus! {

/// One step of the hash by which sources are spread.
pub open spec fn hashed(h: int, byte: int) -> int {
    ((h as u64) ^ (byte as u64)) * 1099511628211 % 0x1_0000_0000_0000_0000
}

/// The worker of a source depends on its address alone: it is the hash of the four
/// bytes of the address, from the first on, modulo the number of workers. The hash
/// tells sources that differ in the last byte apart.
pub proof fn law_worker_of_a_source(src: u32, other: u32, workers: nat)
    requires
        workers > 0,
    ensures
        ({
            let a = hashed(1469598103934665603, (src / 0x100_0000) as int);
            let b = hashed(a, (src / 0x1_0000 % 0x100) as int);
            let c = hashed(b, (src / 0x100 % 0x100) as int);
            let d = hashed(c, (src % 0x100) as int);
            &&& crate::pipeline::shard(src, workers) == ((d as u64) as usize) as int
                % workers as int
            &&& 0 <= crate::pipeline::shard(src, workers) < workers
        }),
        src / 0x100 == other / 0x100 && src != other ==> crate::models::fnv1a(
            crate::models::octets(src),
        ) != crate::models::fnv1a(crate::models::octets(other)),
{
    let o = crate::models::octets(src);
    assert(o.drop_last().drop_last().drop_last().drop_last() =~= Seq::empty());
    reveal_with_fuel(crate::models::fnv1a, 5);
    assert(o.drop_last().last() == o[2]);
    assert(o.drop_last().drop_last().last() == o[1]);
    assert(o.drop_last().drop_last().drop_last().last() == o[0]);
    if src / 0x100 == other / 0x100 && src != other {
        let p = crate::models::octets(other);
        let first = o.drop_last();
        assert(src / 0x1_0000 == src / 0x100 / 0x100 && other / 0x1_0000 == other / 0x100 / 0x100);
        assert(src / 0x100_0000 == src / 0x100 / 0x1_0000);
        assert(other / 0x100_0000 == other / 0x100 / 0x1_0000);
        assert(o =~= first.push(o[3]));
        assert(p =~= first.push(p[3]));
        crate::models::lemma_last_byte_tells(first, o[3], p[3]);
    }
}

/// What becomes of an arriving event: where its worker's queue holds fewer events
/// than it has places, the event goes to its end and nothing is counted; where the
/// queue is full, nothing is queued and one drop is counted, wrapping round at
/// 2^64. No other queue changes, and nothing else about the event matters.
pub proof fn law_arrival(f: crate::pipeline::FlowView, event: NetworkEvent)
    requires
        f.queues.len() > 0,
        f.capacities.len() == f.queues.len(),
    ensures
        ({
            let w = crate::pipeline::shard(event.src_ip, f.queues.len());
            let after = f.dispatched(event);
            &&& after.queues.len() == f.queues.len() && after.capacities == f.capacities
            &&& forall|v: int|
                0 <= v < f.queues.len() && v != w ==> #[trigger] after.queues[v] == f.queues[v]
            &&& f.queues[w].len() < f.capacities[w] ==> after.queues[w] == f.queues[w].push(event)
                && after.stats == f.stats
            &&& f.queues[w].len() >= f.capacities[w] ==> after.queues[w] == f.queues[w]
                && after.stats == (Stats {
                events_dropped: ((f.stats.events_dropped + 1) % 0x1_0000_0000_0000_0000) as u64,
                ..f.stats
            })
        }),
{
    law_worker_of_a_source(event.src_ip, event.src_ip, f.queues.len());
}

/// What becomes of a queue whose worker asks: its oldest event leaves it and is
/// counted, wrapping round at 2^64; an empty queue stays as it is, and so do the
/// others.
pub proof fn law_taking(f: crate::pipeline::FlowView, w: int)
    requires
        0 <= w < f.queues.len(),
    ensures
        ({
            let after = f.taken(w);
            &&& after.queues.len() == f.queues.len() && after.capacities == f.capacities
            &&& forall|v: int|
                0 <= v < f.queues.len() && v != w ==> #[trigger] after.queues[v] == f.queues[v]
            &&& f.queues[w].len() > 0 ==> {
                &&& f.queues[w] == seq![f.queues[w][0]] + after.queues[w]
                &&& after.stats == (Stats {
                    events_processed: ((f.stats.events_processed + 1)
                        % 0x1_0000_0000_0000_0000) as u64,
                    ..f.stats
                })
            }
            &&& f.queues[w].len() == 0 ==> after == f
        }),
{
    if f.queues[w].len() > 0 {
        assert(f.queues[w] =~= seq![f.queues[w][0]] + f.taken(w).queues[w]);
    }
}

/// Drops come of full queues alone: in any run, an arriving event is dropped if and
/// only if as many events as a queue has places have been queued for its worker
/// and not yet been taken by it. Otherwise it joins those of its worker.
pub proof fn law_dropped_only_when_full(
    workers: nat,
    capacity: nat,
    steps: Seq<crate::pipeline::FlowStep>,
    event: NetworkEvent,
)
    requires
        workers > 0,
        crate::pipeline::steps_fit(workers, steps),
    ensures
        ({
            let before = crate::pipeline::flow_history(workers, capacity, steps);
            let after = crate::pipeline::flow_history(
                workers,
                capacity,
                steps.push(crate::pipeline::FlowStep::Arrive(event)),
            );
            let w = crate::pipeline::shard(event.src_ip, workers);
            let waiting = before.accepted[w].len() - before.seen[w].len();
            &&& 0 <= waiting <= capacity
            &&& after.arrived == before.arrived.push(event)
            &&& after.seen == before.seen
            &&& waiting == capacity ==> after.dropped == before.dropped.push(event)
                && after.accepted == before.accepted
            &&& waiting < capacity ==> after.dropped == before.dropped && after.accepted
                == before.accepted.update(w, before.accepted[w].push(event))
        }),
{
    let longer = steps.push(crate::pipeline::FlowStep::Arrive(event));
    assert(longer.drop_last() =~= steps);
    let w = crate::pipeline::shard(event.src_ip, workers);
    law_worker_of_a_source(event.src_ip, event.src_ip, workers);
    crate::pipeline::law_source_stays_with_its_worker(workers, capacity, steps, w);
    crate::pipeline::lemma_capacities_kept(workers, capacity, steps);
    let before = crate::pipeline::flow_history(workers, capacity, steps);
    assert(before.accepted[w].len() == before.seen[w].len() + before.flow.queues[w].len());
}

/// A worker takes what was queued for it, one by one and in order: in any run, the
/// event that it gets is the first that was queued for it and that it has not
/// taken yet, and it gets one whenever there is one.
pub proof fn law_worker_takes_the_next(
    workers: nat,
    capacity: nat,
    steps: Seq<crate::pipeline::FlowStep>,
    w: int,
)
    requires
        0 <= w < workers,
        crate::pipeline::steps_fit(workers, steps),
    ensures
        ({
            let before = crate::pipeline::flow_history(workers, capacity, steps);
            let after = crate::pipeline::flow_history(
                workers,
                capacity,
                steps.push(crate::pipeline::FlowStep::Take(w)),
            );
            let taken = before.seen[w].len() as int;
            &&& after.arrived == before.arrived && after.dropped == before.dropped
            &&& after.accepted == before.accepted
            &&& taken < before.accepted[w].len() ==> after.seen == before.seen.update(
                w,
                before.seen[w].push(before.accepted[w][taken]),
            )
            &&& taken == before.accepted[w].len() ==> after.seen == before.seen
        }),
{
    let longer = steps.push(crate::pipeline::FlowStep::Take(w));
    assert(longer.drop_last() =~= steps);
    crate::pipeline::law_source_stays_with_its_worker(workers, capacity, steps, w);
    let before = crate::pipeline::flow_history(workers, capacity, steps);
    assert(before.accepted[w].len() == before.seen[w].len() + before.flow.queues[w].len());
    if before.flow.queues[w].len() > 0 {
        assert(before.accepted[w][before.seen[w].len() as int] == before.flow.queues[w][0]);
    }
}

/// The history holds the latest five thousand alerts: after any alerts, a history
/// of no more than that holds the last five thousand of what it held and of these
/// alerts, or all of them where they are fewer, in their order.
pub proof fn law_history_of_five_thousand<A>(history: Seq<A>, alerts: Seq<A>)
    requires
        history.len() <= 5000,
    ensures
        ({
            let all = history + alerts;
            crate::pipeline::history_after(history, alerts) == (if all.len() > 5000 {
                all.skip(all.len() - 5000)
            } else {
                all
            })
        }),
    decreases alerts.len(),
{
    let all = history + alerts;
    let kept = crate::pipeline::history_after(history, alerts);
    if alerts.len() == 0 {
        assert(all =~= history);
    } else {
        law_history_of_five_thousand(history, alerts.drop_last());
        assert(history + alerts.drop_last() =~= all.drop_last());
        if all.len() > 5000 {
            assert(kept =~= all.skip(all.len() - 5000));
        } else {
            assert(kept =~= all);
        }
    }
}

/// One more alert joins the end of the history; the oldest one leaves it if and
/// only if there would be more than five thousand.
pub proof fn law_one_more_alert<A>(history: Seq<A>, alert: A)
    requires
        history.len() <= 5000,
    ensures
        ({
            let after = crate::pipeline::history_with(history, alert);
            &&& after.len() > 0 && after.last() == alert
            &&& history.len() < 5000 ==> after.drop_last() == history
            &&& history.len() == 5000 ==> after.drop_last() == history.skip(1)
        }),
{
    let after = crate::pipeline::history_with(history, alert);
    if history.len() < 5000 {
        assert(after.drop_last() =~= history);
    } else {
        assert(after.drop_last() =~= history.skip(1));
    }
}

} // verus!
