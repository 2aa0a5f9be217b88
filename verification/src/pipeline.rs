//! The stages between the event source and the alert history: routing to the
//! workers' queues, detection, and the bounded history.
//!
//! Each worker has its own queue and its own detectors. Events are routed by
//! source address, so that the detectors of one worker see all traffic of a
//! source. Where a queue is full the event is dropped and counted, rather than
//! holding up the event source.

use std::collections::VecDeque;

use vstd::prelude::*;

use crate::detection::anomaly::{PortEstimate, WindowedAnomalyDetector};
use crate::detection::cardinality::HyperLogLog;
use crate::detection::cep::CepEngine;
use crate::detection::signature::SignatureDetector;
use crate::models::{Alert, NetworkEvent};
use crate::queue::MpmcQueue;
use crate::time::Duration;

verus! {

/// Counters of the engine. They wrap round at 2^64.
#[derive(Debug, Clone, Copy, PartialEq, Eq, Structural)]
pub struct Stats {
    pub events_processed: u64,
    pub events_dropped: u64,
    pub alerts_fired: u64,
}

impl Default for Stats {
    fn default() -> (r: Self)
        ensures
            r == (Stats { events_processed: 0, events_dropped: 0, alerts_fired: 0 }),
    {
        Stats { events_processed: 0, events_dropped: 0, alerts_fired: 0 }
    }
}

/// A counter after one more.
pub open spec fn counted(n: u64) -> u64 {
    crate::models::id_after(n, 1)
}

impl Stats {
    /// Counts an event that a worker has taken.
    pub fn note_processed(&mut self)
        ensures
            *final(self) == (Stats {
                events_processed: counted(old(self).events_processed),
                ..*old(self)
            }),
    {
        self.events_processed = self.events_processed.wrapping_add(1);
    }

    /// Takes what came of a push: an event that the queue had no room for, and so
    /// handed back, is dropped and counted.
    pub fn note_push(&mut self, pushed: Result<(), NetworkEvent>)
        ensures
            *final(self) == (if pushed is Err {
                Stats { events_dropped: counted(old(self).events_dropped), ..*old(self) }
            } else {
                *old(self)
            }),
    {
        if pushed.is_err() {
            self.events_dropped = self.events_dropped.wrapping_add(1);
        }
    }
}

/// How many alerts the history keeps.
pub const ALERT_HISTORY_CAP: usize = 5000;

/// The state that the stages share.
pub struct AppState {
    /// One queue for each worker.
    pub queues: Vec<MpmcQueue<NetworkEvent>>,
    /// The latest alerts, the oldest first.
    pub alerts: VecDeque<Alert>,
    pub stats: Stats,
}

/// The history after one more alert: it is appended, and the oldest one leaves
/// where there are too many.
pub open spec fn history_with<A>(history: Seq<A>, alert: A) -> Seq<A> {
    let longer = history.push(alert);
    if longer.len() > ALERT_HISTORY_CAP {
        longer.drop_first()
    } else {
        longer
    }
}

/// The history after a run of alerts.
pub open spec fn history_after<A>(history: Seq<A>, alerts: Seq<A>) -> Seq<A>
    decreases alerts.len(),
{
    if alerts.len() == 0 {
        history
    } else {
        history_with(history_after(history, alerts.drop_last()), alerts.last())
    }
}

/// The worker that takes the events of source `src`, out of `workers`.
pub open spec fn shard(src: u32, workers: nat) -> int {
    (crate::models::fnv1a(crate::models::octets(src)) as usize) as int % workers as int
}

/// The worker that takes `event`, out of `workers`.
pub fn shard_of(event: &NetworkEvent, workers: usize) -> (r: usize)
    requires
        workers > 0,
    ensures
        r == shard(event.src_ip, workers as nat),
        r < workers,
{
    (event.shard_key() as usize) % workers
}

/// The way of the events through the engine: the queues with their bounds, and the
/// counters.
#[verifier::ext_equal]
pub struct FlowView {
    /// What each worker's queue holds, the oldest first.
    pub queues: Seq<Seq<NetworkEvent>>,
    /// How many events each queue can hold.
    pub capacities: Seq<nat>,
    pub stats: Stats,
}

impl FlowView {
    /// Empty queues of `capacity` places, and nothing counted.
    pub open spec fn fresh(workers: nat, capacity: nat) -> Self {
        FlowView {
            queues: Seq::new(workers, |i: int| Seq::empty()),
            capacities: Seq::new(workers, |i: int| capacity),
            stats: Stats { events_processed: 0, events_dropped: 0, alerts_fired: 0 },
        }
    }

    /// The worker that takes `event`.
    pub open spec fn shard(self, event: NetworkEvent) -> int {
        shard(event.src_ip, self.queues.len())
    }

    /// The queue of the worker that takes `event` has a free place.
    pub open spec fn accepts(self, event: NetworkEvent) -> bool {
        self.queues[self.shard(event)].len() < self.capacities[self.shard(event)]
    }

    /// After `event` has arrived: it is queued for the worker of its source, or
    /// dropped and counted where that worker's queue is full.
    pub open spec fn dispatched(self, event: NetworkEvent) -> Self {
        let s = self.shard(event);
        if self.accepts(event) {
            FlowView { queues: self.queues.update(s, self.queues[s].push(event)), ..self }
        } else {
            FlowView {
                stats: Stats {
                    events_dropped: counted(self.stats.events_dropped),
                    ..self.stats
                },
                ..self
            }
        }
    }

    /// After a worker has asked for its next event: the oldest one has left its
    /// queue and is counted, where there is one.
    pub open spec fn taken(self, worker: int) -> Self {
        if self.queues[worker].len() > 0 {
            FlowView {
                queues: self.queues.update(worker, self.queues[worker].drop_first()),
                stats: Stats {
                    events_processed: counted(self.stats.events_processed),
                    ..self.stats
                },
                ..self
            }
        } else {
            self
        }
    }

    /// Every event waits for the worker of its source.
    pub open spec fn is_routed(self) -> bool {
        forall|i: int, k: int|
            0 <= i < self.queues.len() && 0 <= k < self.queues[i].len() ==> self.shard(
                #[trigger] self.queues[i][k],
            ) == i
    }
}

impl AppState {
    /// The queues and the counters.
    pub open spec fn flow(&self) -> FlowView {
        FlowView {
            queues: self.queues@.map_values(|q: MpmcQueue<NetworkEvent>| q@),
            capacities: self.queues@.map_values(|q: MpmcQueue<NetworkEvent>| q.capacity()),
            stats: self.stats,
        }
    }

    /// The queues are in order, every event in them waits for the worker of its
    /// source, and the history is within its bound.
    pub open spec fn wf(&self) -> bool {
        &&& forall|i: int| 0 <= i < self.queues@.len() ==> (#[trigger] self.queues@[i]).wf()
        &&& self.flow().is_routed()
        &&& self.alerts@.len() <= ALERT_HISTORY_CAP
    }

    /// A state with empty queues of `queue_capacity` places, one for each worker,
    /// and no alerts. The capacity must be one that a queue can have.
    pub fn new(worker_count: usize, queue_capacity: usize) -> (r: Self)
        requires
            worker_count > 0 ==> crate::queue::is_power_of_two(queue_capacity as int)
                && queue_capacity < 0x1000_0000_0000_0000,
        ensures
            r.wf(),
            r.flow() == FlowView::fresh(worker_count as nat, queue_capacity as nat),
            forall|i: int| 0 <= i < worker_count ==> (#[trigger] r.queues@[i]).untouched(),
            r.alerts@ == Seq::<Alert>::empty(),
    {
        let mut queues: Vec<MpmcQueue<NetworkEvent>> = Vec::new();
        let mut i: usize = 0;
        while i < worker_count
            invariant
                i <= worker_count,
                worker_count > 0 ==> crate::queue::is_power_of_two(queue_capacity as int)
                    && queue_capacity < 0x1000_0000_0000_0000,
                queues@.len() == i,
                forall|j: int|
                    0 <= j < i ==> {
                        let q = #[trigger] queues@[j];
                        q.wf() && q.capacity() == queue_capacity && q@.len() == 0 && q.untouched()
                    },
            decreases worker_count - i,
        {
            queues.push(MpmcQueue::new(queue_capacity));
            i = i + 1;
        }
        let r = AppState { queues, alerts: VecDeque::new(), stats: Stats::default() };
        assert(r.flow() =~~= FlowView::fresh(worker_count as nat, queue_capacity as nat));
        r
    }

    /// Counts `alert` and appends it to the history.
    pub fn record_alert(&mut self, alert: Alert)
        requires
            old(self).wf(),
        ensures
            final(self).wf(),
            final(self).alerts@ == history_with(old(self).alerts@, alert),
            final(self).stats == (Stats {
                alerts_fired: counted(old(self).stats.alerts_fired),
                ..old(self).stats
            }),
            final(self).queues == old(self).queues,
    {
        self.stats.alerts_fired = self.stats.alerts_fired.wrapping_add(1);
        self.alerts.push_back(alert);
        if self.alerts.len() > ALERT_HISTORY_CAP {
            let _ = self.alerts.pop_front();
            assert(self.alerts@ =~= old(self).alerts@.push(alert).drop_first());
        }
        assert(self.flow().queues =~= old(self).flow().queues);
    }

    /// Counts and appends a list of alerts, in their order.
    pub fn record_alerts(&mut self, alerts: Vec<Alert>)
        requires
            old(self).wf(),
        ensures
            final(self).wf(),
            final(self).alerts@ == history_after(old(self).alerts@, alerts@),
            final(self).stats == (Stats {
                alerts_fired: crate::models::id_after(old(self).stats.alerts_fired, alerts@.len()),
                ..old(self).stats
            }),
            final(self).queues == old(self).queues,
    {
        let mut i: usize = 0;
        assert(alerts@.take(0) =~= Seq::<Alert>::empty());
        while i < alerts.len()
            invariant
                self.wf(),
                i <= alerts@.len(),
                self.alerts@ == history_after(old(self).alerts@, alerts@.take(i as int)),
                self.stats == (Stats {
                    alerts_fired: crate::models::id_after(old(self).stats.alerts_fired, i as nat),
                    ..old(self).stats
                }),
                self.queues == old(self).queues,
            decreases alerts@.len() - i,
        {
            assert(alerts@.take(i + 1).drop_last() =~= alerts@.take(i as int));
            self.record_alert(alerts[i].clone());
            i = i + 1;
        }
        assert(alerts@.take(i as int) =~= alerts@);
    }

    /// Hands `event` to the worker of its source, or drops and counts it where
    /// that worker's queue is full.
    pub fn dispatch(&mut self, event: NetworkEvent)
        requires
            old(self).wf(),
            old(self).queues@.len() > 0,
        ensures
            final(self).wf(),
            final(self).flow() == old(self).flow().dispatched(event),
            final(self).alerts == old(self).alerts,
    {
        let ghost before = self.flow();
        let s: usize = shard_of(&event, self.queues.len());
        let pushed = self.queues[s].push(event);
        self.stats.note_push(pushed);
        proof {
            assert(self.flow() =~= before.dispatched(event));
            lemma_routing_kept(before, event, 0);
        }
    }

    /// Takes the next event of worker `worker` and counts it.
    pub fn next_event(&mut self, worker: usize) -> (r: Option<NetworkEvent>)
        requires
            old(self).wf(),
            worker < old(self).queues@.len(),
        ensures
            final(self).wf(),
            final(self).flow() == old(self).flow().taken(worker as int),
            r == (if old(self).flow().queues[worker as int].len() > 0 {
                Some(old(self).flow().queues[worker as int][0])
            } else {
                None
            }),
            final(self).alerts == old(self).alerts,
    {
        let ghost before = self.flow();
        let event = self.queues[worker].pop();
        if event.is_some() {
            self.stats.note_processed();
        }
        proof {
            assert(self.flow() =~= before.taken(worker as int));
            if event is Some {
                lemma_routing_kept(before, event->0, worker as int);
            }
        }
        event
    }

    /// Lets a worker inspect its next event, and records the alerts that it
    /// raises. Returns whether there was an event.
    pub fn process_next<F: Fn(&HyperLogLog) -> PortEstimate>(
        &mut self,
        index: usize,
        worker: &mut Worker,
        estimate: F,
    ) -> (r: bool)
        requires
            old(self).wf(),
            old(worker).wf(),
            index < old(self).queues@.len(),
            forall|h: HyperLogLog| (#[trigger] h@).wf() ==> call_requires(estimate, (&h,)),
        ensures
            final(self).wf(),
            final(worker).wf(),
            r == (old(self).flow().queues[index as int].len() > 0),
            !r ==> final(self).flow() == old(self).flow() && final(self).alerts == old(self).alerts
                && *final(worker) == *old(worker),
            r ==> exists|alerts: Seq<Alert>|
                {
                    let taken = old(self).flow().taken(index as int);
                    &&& #[trigger] inspection(
                        *old(worker),
                        *final(worker),
                        old(self).flow().queues[index as int][0]@,
                        estimate,
                        crate::models::alert_views(alerts),
                    )
                    &&& final(self).flow() == (FlowView {
                        stats: Stats {
                            alerts_fired: crate::models::id_after(
                                taken.stats.alerts_fired,
                                alerts.len(),
                            ),
                            ..taken.stats
                        },
                        ..taken
                    })
                    &&& final(self).alerts@ == history_after(old(self).alerts@, alerts)
                },
    {
        match self.next_event(index) {
            Some(event) => {
                let ghost taken = self.flow();
                let alerts = worker.inspect(&event, estimate);
                let ghost found = alerts@;
                self.record_alerts(alerts);
                proof {
                    assert(self.flow().queues =~= taken.queues);
                    assert(self.flow().capacities =~= taken.capacities);
                    assert(inspection(
                        *old(worker),
                        *worker,
                        event@,
                        estimate,
                        crate::models::alert_views(found),
                    ));
                }
                true
            },
            None => false,
        }
    }
}

/// The detectors of one worker.
pub struct Worker {
    pub signature: SignatureDetector,
    pub anomaly: WindowedAnomalyDetector,
    pub cep: CepEngine,
}

/// What an inspection of `event` does to a worker and which alerts it raises: those
/// of the signatures, then those of the anomalies with the ports estimated by
/// `estimate`, then those of the sequences, the latter two each at a clock reading
/// that is no earlier than the one before.
pub open spec fn inspection<F: Fn(&HyperLogLog) -> PortEstimate>(
    before: Worker,
    after: Worker,
    event: crate::models::NetworkEventView,
    estimate: F,
    alerts: Seq<crate::models::AlertView>,
) -> bool {
    let signatures = crate::detection::signature::signature_alerts(
        event,
        before.signature.next_id(),
    );
    &&& after.signature.next_id() == crate::models::id_after(
        before.signature.next_id(),
        signatures.len(),
    )
    &&& after.anomaly.reading() >= before.anomaly.reading()
    &&& after.cep.reading() >= before.cep.reading()
    &&& after.cep@ == before.cep@.after(event, after.cep.reading())
    &&& exists|h: HyperLogLog, e: PortEstimate|
        {
            let now = after.anomaly.reading();
            let then = after.cep.reading();
            &&& #[trigger] call_ensures(estimate, (&h,), e)
            &&& h@ == before.anomaly@.rolled(now).ports_with(event)
            &&& after.anomaly@ == before.anomaly@.after(event, now, e)
            &&& alerts == signatures + before.anomaly@.alerts(event, now, e) + before.cep@.alerts(
                event,
                then,
                before.cep@.rules.len(),
            )
        }
}

impl Worker {
    /// The detectors are in order.
    pub open spec fn wf(&self) -> bool {
        self.signature.wf() && self.anomaly.wf() && self.cep@.wf()
    }

    /// Fresh detectors with their default rules and windows of five seconds.
    pub fn new() -> (r: Self)
        ensures
            r.wf(),
            r.signature.next_id() == 1,
            r.anomaly@ == crate::detection::anomaly::AnomalyView::fresh(5_000_000_000, 0, 1),
            r.cep@ == crate::detection::cep::after_events(Seq::empty()),
            r.anomaly.reading() == 0,
            r.cep.reading() == 0,
    {
        Worker {
            signature: SignatureDetector::with_default_rules(),
            anomaly: WindowedAnomalyDetector::new(Duration::from_secs(5)),
            cep: CepEngine::with_default_rules(),
        }
    }

    /// Shows `event` to the detectors, the signatures first, then the anomalies,
    /// then the sequences, and returns their alerts in that order.
    pub fn inspect<F: Fn(&HyperLogLog) -> PortEstimate>(
        &mut self,
        event: &NetworkEvent,
        estimate: F,
    ) -> (r: Vec<Alert>)
        requires
            old(self).wf(),
            forall|h: HyperLogLog| (#[trigger] h@).wf() ==> call_requires(estimate, (&h,)),
        ensures
            final(self).wf(),
            inspection(
                *old(self),
                *final(self),
                event@,
                estimate,
                crate::models::alert_views(r@),
            ),
    {
        let mut alerts = self.signature.scan(event);
        let mut anomalies = self.anomaly.observe(event, estimate);
        let mut sequences = self.cep.process(event);
        let ghost first = crate::models::alert_views(alerts@);
        let ghost second = crate::models::alert_views(anomalies@);
        let ghost third = crate::models::alert_views(sequences@);
        alerts.append(&mut anomalies);
        alerts.append(&mut sequences);
        assert(crate::models::alert_views(alerts@) =~= first + second + third);
        alerts
    }
}

/// Queueing and taking events keep every event with the worker of its source.
proof fn lemma_routing_kept(flow: FlowView, event: NetworkEvent, worker: int)
    requires
        flow.is_routed(),
        flow.capacities.len() == flow.queues.len(),
        0 <= worker < flow.queues.len(),
    ensures
        0 <= flow.shard(event) < flow.queues.len(),
        flow.dispatched(event).is_routed(),
        flow.taken(worker).is_routed(),
{
    let d = flow.dispatched(event);
    assert forall|i: int, k: int|
        0 <= i < d.queues.len() && 0 <= k < d.queues[i].len() implies d.shard(
        #[trigger] d.queues[i][k],
    ) == i by {
        if k < flow.queues[i].len() {
            assert(d.queues[i][k] == flow.queues[i][k]);
        }
    }
    let t = flow.taken(worker);
    assert forall|i: int, k: int|
        0 <= i < t.queues.len() && 0 <= k < t.queues[i].len() implies t.shard(
        #[trigger] t.queues[i][k],
    ) == i by {
        if i == worker && flow.queues[worker].len() > 0 {
            assert(t.queues[i][k] == flow.queues[i][k + 1]);
        } else {
            assert(t.queues[i][k] == flow.queues[i][k]);
        }
    }
}

/// One step of the flow.
pub enum FlowStep {
    /// An event arrives.
    Arrive(NetworkEvent),
    /// A worker asks for its next event.
    Take(int),
}

/// What has happened on the way of the events.
#[verifier::ext_equal]
pub struct FlowHistory {
    pub flow: FlowView,
    /// The events that arrived.
    pub arrived: Seq<NetworkEvent>,
    /// The events that were dropped.
    pub dropped: Seq<NetworkEvent>,
    /// For each worker, the events that were queued for it.
    pub accepted: Seq<Seq<NetworkEvent>>,
    /// For each worker, the events that it took.
    pub seen: Seq<Seq<NetworkEvent>>,
}

/// The history after `steps`, each as [`AppState::dispatch`] and
/// [`AppState::next_event`] state it, from empty queues on.
pub open spec fn flow_history(workers: nat, capacity: nat, steps: Seq<FlowStep>) -> FlowHistory
    decreases steps.len(),
{
    if steps.len() == 0 {
        FlowHistory {
            flow: FlowView::fresh(workers, capacity),
            arrived: Seq::empty(),
            dropped: Seq::empty(),
            accepted: Seq::new(workers, |i: int| Seq::empty()),
            seen: Seq::new(workers, |i: int| Seq::empty()),
        }
    } else {
        let h = flow_history(workers, capacity, steps.drop_last());
        match steps.last() {
            FlowStep::Arrive(event) => {
                let s = h.flow.shard(event);
                FlowHistory {
                    flow: h.flow.dispatched(event),
                    arrived: h.arrived.push(event),
                    dropped: if h.flow.accepts(event) {
                        h.dropped
                    } else {
                        h.dropped.push(event)
                    },
                    accepted: if h.flow.accepts(event) {
                        h.accepted.update(s, h.accepted[s].push(event))
                    } else {
                        h.accepted
                    },
                    ..h
                }
            },
            FlowStep::Take(w) => FlowHistory {
                flow: h.flow.taken(w),
                seen: if h.flow.queues[w].len() > 0 {
                    h.seen.update(w, h.seen[w].push(h.flow.queues[w][0]))
                } else {
                    h.seen
                },
                ..h
            },
        }
    }
}

/// The workers that ask for events exist.
pub open spec fn steps_fit(workers: nat, steps: Seq<FlowStep>) -> bool {
    forall|i: int|
        0 <= i < steps.len() ==> ((#[trigger] steps[i]) matches FlowStep::Take(w) ==> 0 <= w
            < workers)
}

/// How many events the lists hold together.
pub open spec fn total(lists: Seq<Seq<NetworkEvent>>) -> nat
    decreases lists.len(),
{
    if lists.len() == 0 {
        0
    } else {
        total(lists.drop_last()) + lists.last().len()
    }
}

proof fn lemma_total_updated(lists: Seq<Seq<NetworkEvent>>, i: int, list: Seq<NetworkEvent>)
    requires
        0 <= i < lists.len(),
    ensures
        total(lists.update(i, list)) == total(lists) - lists[i].len() + list.len(),
    decreases lists.len(),
{
    if i == lists.len() - 1 {
        assert(lists.update(i, list).drop_last() =~= lists.drop_last());
    } else {
        lemma_total_updated(lists.drop_last(), i, list);
        assert(lists.update(i, list).drop_last() =~= lists.drop_last().update(i, list));
    }
}

proof fn lemma_total_of_empty(lists: Seq<Seq<NetworkEvent>>)
    requires
        forall|i: int| 0 <= i < lists.len() ==> (#[trigger] lists[i]).len() == 0,
    ensures
        total(lists) == 0,
    decreases lists.len(),
{
    if lists.len() > 0 {
        assert(lists[lists.len() - 1].len() == 0);
        assert forall|i: int| 0 <= i < lists.drop_last().len() implies (
        #[trigger] lists.drop_last()[i]).len() == 0 by {
            assert(lists[i].len() == 0);
        }
        lemma_total_of_empty(lists.drop_last());
    }
}

/// All traffic of a source meets one worker, in order: whatever arrived and
/// whoever asked, each worker has taken the events that were queued for it, in
/// the order of their arrival, but for those that still wait; these are events of
/// its own sources only, and an event of one of its sources was never queued
/// elsewhere.
pub proof fn law_source_stays_with_its_worker(
    workers: nat,
    capacity: nat,
    steps: Seq<FlowStep>,
    w: int,
)
    requires
        steps_fit(workers, steps),
        0 <= w < workers,
    ensures
        ({
            let h = flow_history(workers, capacity, steps);
            &&& h.accepted.len() == workers && h.seen.len() == workers && h.flow.queues.len()
                == workers
            &&& h.accepted[w] == h.seen[w] + h.flow.queues[w]
            &&& h.flow.queues[w].len() <= capacity
            &&& forall|k: int|
                0 <= k < h.accepted[w].len() ==> shard(
                    (#[trigger] h.accepted[w][k]).src_ip,
                    workers,
                ) == w
        }),
    decreases steps.len(),
{
    if steps.len() > 0 {
        let before = steps.drop_last();
        assert forall|i: int| 0 <= i < before.len() implies ((#[trigger] before[i]) matches FlowStep::Take(
            v,
        ) ==> 0 <= v < workers) by {
            assert(before[i] == steps[i]);
        }
        law_source_stays_with_its_worker(workers, capacity, before, w);
        lemma_capacities_kept(workers, capacity, before);
        assert(steps[steps.len() - 1] == steps.last());
        let h = flow_history(workers, capacity, before);
        let n = flow_history(workers, capacity, steps);
        match steps.last() {
            FlowStep::Arrive(event) => {
                if h.flow.accepts(event) && h.flow.shard(event) == w {
                    assert(n.accepted[w] =~= h.accepted[w].push(event));
                    assert(n.accepted[w] =~= n.seen[w] + n.flow.queues[w]);
                }
            },
            FlowStep::Take(v) => {
                if v == w && h.flow.queues[w].len() > 0 {
                    assert(n.accepted[w] =~= n.seen[w] + n.flow.queues[w]);
                }
            },
        }
    } else {
        assert(flow_history(workers, capacity, steps).accepted[w] =~= Seq::empty());
        assert(Seq::<NetworkEvent>::empty() + Seq::<NetworkEvent>::empty()
            =~= Seq::<NetworkEvent>::empty());
    }
}

pub proof fn lemma_capacities_kept(workers: nat, capacity: nat, steps: Seq<FlowStep>)
    ensures
        flow_history(workers, capacity, steps).flow.capacities == Seq::new(
            workers,
            |i: int| capacity,
        ),
    decreases steps.len(),
{
    if steps.len() > 0 {
        lemma_capacities_kept(workers, capacity, steps.drop_last());
    }
}

/// A worker sees the complete traffic of its sources: where nothing was dropped,
/// what it has taken and what still waits for it are all the events of its
/// sources that arrived, in the order of their arrival.
pub proof fn law_worker_sees_all_of_its_sources(
    workers: nat,
    capacity: nat,
    steps: Seq<FlowStep>,
    w: int,
)
    requires
        steps_fit(workers, steps),
        0 <= w < workers,
        flow_history(workers, capacity, steps).dropped.len() == 0,
    ensures
        ({
            let h = flow_history(workers, capacity, steps);
            h.seen[w] + h.flow.queues[w] == h.arrived.filter(
                |e: NetworkEvent| shard(e.src_ip, workers) == w,
            )
        }),
{
    law_source_stays_with_its_worker(workers, capacity, steps, w);
    lemma_accepted_are_all(workers, capacity, steps, w);
}

proof fn lemma_accepted_are_all(workers: nat, capacity: nat, steps: Seq<FlowStep>, w: int)
    requires
        steps_fit(workers, steps),
        0 <= w < workers,
        flow_history(workers, capacity, steps).dropped.len() == 0,
    ensures
        flow_history(workers, capacity, steps).accepted[w] == flow_history(
            workers,
            capacity,
            steps,
        ).arrived.filter(|e: NetworkEvent| shard(e.src_ip, workers) == w),
    decreases steps.len(),
{
    reveal(Seq::filter);
    let of_worker = |e: NetworkEvent| shard(e.src_ip, workers) == w;
    let n = flow_history(workers, capacity, steps);
    if steps.len() > 0 {
        let before = steps.drop_last();
        assert forall|i: int| 0 <= i < before.len() implies ((#[trigger] before[i]) matches FlowStep::Take(
            v,
        ) ==> 0 <= v < workers) by {
            assert(before[i] == steps[i]);
        }
        lemma_accepted_are_all(workers, capacity, before, w);
        law_source_stays_with_its_worker(workers, capacity, before, w);
        let h = flow_history(workers, capacity, before);
        match steps.last() {
            FlowStep::Arrive(event) => {
                assert(n.arrived.drop_last() =~= h.arrived);
                assert(h.flow.accepts(event));
                assert(n.accepted[w] =~= n.arrived.filter(of_worker));
            },
            FlowStep::Take(v) => {},
        }
    } else {
        assert(n.accepted[w] =~= n.arrived.filter(of_worker));
    }
}

/// In `h` each event that arrived was taken, still waits or was dropped, and the
/// counters tell how many were taken and dropped.
pub open spec fn is_accounted_for(h: FlowHistory) -> bool {
    &&& h.arrived.len() == total(h.seen) + total(h.flow.queues) + h.dropped.len()
    &&& h.flow.stats.events_processed == crate::models::id_after(0, total(h.seen))
    &&& h.flow.stats.events_dropped == crate::models::id_after(0, h.dropped.len())
}

proof fn lemma_counted_next(n: nat)
    ensures
        counted(crate::models::id_after(0, n)) == crate::models::id_after(0, n + 1),
{
}

proof fn lemma_arrival_is_accounted_for(
    workers: nat,
    capacity: nat,
    steps: Seq<FlowStep>,
    event: NetworkEvent,
)
    requires
        workers > 0,
        flow_history(workers, capacity, steps).flow.queues.len() == workers,
        is_accounted_for(flow_history(workers, capacity, steps)),
    ensures
        is_accounted_for(flow_history(workers, capacity, steps.push(FlowStep::Arrive(event)))),
{
    let h = flow_history(workers, capacity, steps);
    assert(steps.push(FlowStep::Arrive(event)).drop_last() =~= steps);
    let s = h.flow.shard(event);
    if h.flow.accepts(event) {
        lemma_total_updated(h.flow.queues, s, h.flow.queues[s].push(event));
    } else {
        lemma_counted_next(h.dropped.len());
    }
}

proof fn lemma_taking_is_accounted_for(
    workers: nat,
    capacity: nat,
    steps: Seq<FlowStep>,
    w: int,
)
    requires
        0 <= w < workers,
        flow_history(workers, capacity, steps).flow.queues.len() == workers,
        flow_history(workers, capacity, steps).seen.len() == workers,
        is_accounted_for(flow_history(workers, capacity, steps)),
    ensures
        is_accounted_for(flow_history(workers, capacity, steps.push(FlowStep::Take(w)))),
{
    let h = flow_history(workers, capacity, steps);
    assert(steps.push(FlowStep::Take(w)).drop_last() =~= steps);
    if h.flow.queues[w].len() > 0 {
        lemma_total_updated(h.flow.queues, w, h.flow.queues[w].drop_first());
        lemma_total_updated(h.seen, w, h.seen[w].push(h.flow.queues[w][0]));
        lemma_counted_next(total(h.seen));
    }
}

/// No event is lost unnoticed: whatever arrived and whoever asked, each event
/// that arrived was taken by a worker, still waits or was dropped, and the
/// counters tell how many were taken and dropped, wrapping round at 2^64.
pub proof fn law_every_event_is_accounted_for(workers: nat, capacity: nat, steps: Seq<FlowStep>)
    requires
        steps_fit(workers, steps),
        workers > 0,
    ensures
        is_accounted_for(flow_history(workers, capacity, steps)),
    decreases steps.len(),
{
    if steps.len() > 0 {
        let before = steps.drop_last();
        assert forall|i: int| 0 <= i < before.len() implies ((#[trigger] before[i]) matches FlowStep::Take(
            v,
        ) ==> 0 <= v < workers) by {
            assert(before[i] == steps[i]);
        }
        law_every_event_is_accounted_for(workers, capacity, before);
        law_source_stays_with_its_worker(workers, capacity, before, 0);
        assert(steps =~= before.push(steps[steps.len() - 1]));
        match steps[steps.len() - 1] {
            FlowStep::Arrive(event) => {
                lemma_arrival_is_accounted_for(workers, capacity, before, event);
            },
            FlowStep::Take(w) => {
                lemma_taking_is_accounted_for(workers, capacity, before, w);
            },
        }
    } else {
        let n = flow_history(workers, capacity, steps);
        lemma_total_of_empty(n.seen);
        lemma_total_of_empty(n.flow.queues);
    }
}

/// The history keeps the latest alerts: after a run of alerts it holds the last
/// of them, in their order, and never more than its bound.
pub proof fn law_history_keeps_the_latest<A>(alerts: Seq<A>)
    ensures
        history_after(Seq::empty(), alerts) == (if alerts.len() > ALERT_HISTORY_CAP {
            alerts.skip(alerts.len() - ALERT_HISTORY_CAP)
        } else {
            alerts
        }),
    decreases alerts.len(),
{
    let kept = history_after(Seq::empty(), alerts);
    if alerts.len() > 0 {
        law_history_keeps_the_latest(alerts.drop_last());
    }
    if alerts.len() > ALERT_HISTORY_CAP {
        assert(kept =~= alerts.skip(alerts.len() - ALERT_HISTORY_CAP));
    } else {
        assert(kept =~= alerts);
    }
}

} // verus!
