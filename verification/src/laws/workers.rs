//! Workers: what the alerts of a worker tell of the events that it took.

use vstd::prelude::*;
use vstd::string::*;

use crate::detection::anomaly::PortEstimate;
use crate::detection::cardinality::HyperLogLog;
use crate::pipeline::Worker;

verus! {

/// A worker from its start on: `workers` is the worker before the first event and
/// after each of `events`, and `alerts` is what each inspection returned.
pub open spec fn is_shift<F: Fn(&HyperLogLog) -> PortEstimate>(
    workers: Seq<Worker>,
    events: Seq<crate::models::NetworkEventView>,
    estimate: F,
    alerts: Seq<Seq<crate::models::AlertView>>,
) -> bool {
    &&& workers.len() == events.len() + 1
    &&& alerts.len() == events.len()
    &&& workers[0].anomaly@ == crate::detection::anomaly::AnomalyView::fresh(5_000_000_000, 0, 1)
    &&& workers[0].cep@ == crate::detection::cep::after_events(Seq::empty())
    &&& forall|i: int|
        0 <= i < events.len() ==> crate::pipeline::inspection(
            workers[i],
            workers[i + 1],
            #[trigger] events[i],
            estimate,
            alerts[i],
        )
}

/// The events with the readings of the clock of the sequence detector.
pub open spec fn timed(
    workers: Seq<Worker>,
    events: Seq<crate::models::NetworkEventView>,
) -> Seq<(crate::models::NetworkEventView, u128)> {
    Seq::new(events.len(), |i: int| (events[i], workers[i + 1].cep.reading()))
}

/// The events with the readings of the clock of the anomaly detector, and with
/// estimates that `estimate` made from the tables of the sources.
pub open spec fn are_observations<F: Fn(&HyperLogLog) -> PortEstimate>(
    workers: Seq<Worker>,
    events: Seq<crate::models::NetworkEventView>,
    estimate: F,
    observations: Seq<crate::detection::anomaly::Observation>,
) -> bool {
    &&& observations.len() == events.len()
    &&& forall|i: int|
        0 <= i < events.len() ==> #[trigger] is_observation(
            workers,
            events,
            estimate,
            observations,
            i,
        )
}

/// Observation `i` is event `i` at its reading, with an estimate of its table.
pub open spec fn is_observation<F: Fn(&HyperLogLog) -> PortEstimate>(
    workers: Seq<Worker>,
    events: Seq<crate::models::NetworkEventView>,
    estimate: F,
    observations: Seq<crate::detection::anomaly::Observation>,
    i: int,
) -> bool {
    let start = crate::detection::anomaly::AnomalyView::fresh(5_000_000_000, 0, 1);
    let o = observations[i];
    &&& o.event == events[i]
    &&& o.now == workers[i + 1].anomaly.reading()
    &&& exists|h: HyperLogLog| #[trigger] call_ensures(estimate, (&h,), o.estimate) && h@
        == crate::detection::anomaly::estimated_table(start, observations, i)
}

/// The inspection was made with estimate `e`.
spec fn made_with<F: Fn(&HyperLogLog) -> PortEstimate>(
    before: Worker,
    after: Worker,
    event: crate::models::NetworkEventView,
    estimate: F,
    alerts: Seq<crate::models::AlertView>,
    e: PortEstimate,
) -> bool {
    let now = after.anomaly.reading();
    &&& after.anomaly@ == before.anomaly@.after(event, now, e)
    &&& alerts == crate::detection::signature::signature_alerts(event, before.signature.next_id())
        + before.anomaly@.alerts(event, now, e) + before.cep@.alerts(
        event,
        after.cep.reading(),
        before.cep@.rules.len(),
    )
    &&& exists|h: HyperLogLog| #[trigger] call_ensures(estimate, (&h,), e) && h@
        == before.anomaly@.rolled(now).ports_with(event)
}

/// The estimate with which an inspection was made.
spec fn estimate_between<F: Fn(&HyperLogLog) -> PortEstimate>(
    before: Worker,
    after: Worker,
    event: crate::models::NetworkEventView,
    estimate: F,
    alerts: Seq<crate::models::AlertView>,
) -> PortEstimate {
    choose|e: PortEstimate| made_with(before, after, event, estimate, alerts, e)
}

/// The estimate with which inspection `i` was made.
spec fn estimate_at<F: Fn(&HyperLogLog) -> PortEstimate>(
    workers: Seq<Worker>,
    events: Seq<crate::models::NetworkEventView>,
    estimate: F,
    alerts: Seq<Seq<crate::models::AlertView>>,
    i: int,
) -> PortEstimate {
    estimate_between(workers[i], workers[i + 1], events[i], estimate, alerts[i])
}

spec fn observations_of<F: Fn(&HyperLogLog) -> PortEstimate>(
    workers: Seq<Worker>,
    events: Seq<crate::models::NetworkEventView>,
    estimate: F,
    alerts: Seq<Seq<crate::models::AlertView>>,
) -> Seq<crate::detection::anomaly::Observation> {
    Seq::new(
        events.len(),
        |i: int|
            crate::detection::anomaly::Observation {
                event: events[i],
                now: workers[i + 1].anomaly.reading(),
                estimate: estimate_at(workers, events, estimate, alerts, i),
            },
    )
}

proof fn lemma_made_with<F: Fn(&HyperLogLog) -> PortEstimate>(
    workers: Seq<Worker>,
    events: Seq<crate::models::NetworkEventView>,
    estimate: F,
    alerts: Seq<Seq<crate::models::AlertView>>,
    i: int,
)
    requires
        is_shift(workers, events, estimate, alerts),
        0 <= i < events.len(),
    ensures
        made_with(
            workers[i],
            workers[i + 1],
            events[i],
            estimate,
            alerts[i],
            estimate_at(workers, events, estimate, alerts, i),
        ),
        workers[i + 1].cep@ == workers[i].cep@.after(events[i], workers[i + 1].cep.reading()),
        workers[i].cep.reading() <= workers[i + 1].cep.reading(),
{
    let before = workers[i];
    let after = workers[i + 1];
    let event = events[i];
    assert(crate::pipeline::inspection(before, after, event, estimate, alerts[i]));
    let now = after.anomaly.reading();
    let then = after.cep.reading();
    let signatures = crate::detection::signature::signature_alerts(
        event,
        before.signature.next_id(),
    );
    let (h, e) = choose|h: HyperLogLog, e: PortEstimate|
        {
            &&& #[trigger] call_ensures(estimate, (&h,), e)
            &&& h@ == before.anomaly@.rolled(now).ports_with(event)
            &&& after.anomaly@ == before.anomaly@.after(event, now, e)
            &&& alerts[i] == signatures + before.anomaly@.alerts(event, now, e)
                + before.cep@.alerts(event, then, before.cep@.rules.len())
        };
    assert(made_with(before, after, event, estimate, alerts[i], e));
}

proof fn lemma_detectors_follow<F: Fn(&HyperLogLog) -> PortEstimate>(
    workers: Seq<Worker>,
    events: Seq<crate::models::NetworkEventView>,
    estimate: F,
    alerts: Seq<Seq<crate::models::AlertView>>,
    i: int,
)
    requires
        is_shift(workers, events, estimate, alerts),
        0 <= i <= events.len(),
    ensures
        workers[i].anomaly@ == crate::detection::anomaly::after_observations(
            crate::detection::anomaly::AnomalyView::fresh(5_000_000_000, 0, 1),
            observations_of(workers, events, estimate, alerts).take(i),
        ),
        workers[i].cep@ == crate::detection::cep::after_events(timed(workers, events).take(i)),
        forall|j: int|
            0 <= j < i ==> (#[trigger] workers[j + 1]).cep.reading() <= workers[i].cep.reading(),
    decreases i,
{
    let observations = observations_of(workers, events, estimate, alerts);
    let run = timed(workers, events);
    if i == 0 {
        assert(run.take(0) =~= Seq::empty());
    } else {
        lemma_detectors_follow(workers, events, estimate, alerts, i - 1);
        lemma_made_with(workers, events, estimate, alerts, i - 1);
        assert(observations.take(i).drop_last() =~= observations.take(i - 1));
        assert(observations.take(i).last() == observations[i - 1]);
        assert(run.take(i).drop_last() =~= run.take(i - 1));
        assert(run.take(i).last() == run[i - 1]);
        assert forall|j: int| 0 <= j < i implies (#[trigger] workers[j + 1]).cep.reading()
            <= workers[i].cep.reading() by {
            if j + 1 < i {
                assert(workers[j + 1].cep.reading() <= workers[i - 1].cep.reading());
            }
        }
    }
}

proof fn lemma_none_named(alerts: Seq<crate::models::AlertView>, name: Seq<char>)
    requires
        forall|i: int| 0 <= i < alerts.len() ==> (#[trigger] alerts[i]).rule_name != name,
    ensures
        crate::laws::named(alerts, name) == 0,
    decreases alerts.len(),
{
    if alerts.len() > 0 {
        assert(alerts[alerts.len() - 1].rule_name != name);
        assert forall|i: int| 0 <= i < alerts.drop_last().len() implies (
        #[trigger] alerts.drop_last()[i]).rule_name != name by {
            assert(alerts[i].rule_name != name);
        }
        lemma_none_named(alerts.drop_last(), name);
    }
}

proof fn lemma_names_differ()
    ensures
        "syn-flood-anomaly"@ != "port-scan-anomaly"@,
        "syn-flood-anomaly"@ != "probe-then-exploit-attempt"@,
        "port-scan-anomaly"@ != "probe-then-exploit-attempt"@,
        forall|p: int|
            0 <= p < 5 ==> {
                &&& #[trigger] crate::laws::signatures::rule_name(p) != "syn-flood-anomaly"@
                &&& crate::laws::signatures::rule_name(p) != "port-scan-anomaly"@
                &&& crate::laws::signatures::rule_name(p) != "probe-then-exploit-attempt"@
            },
{
    reveal_strlit("syn-flood-anomaly");
    reveal_strlit("port-scan-anomaly");
    reveal_strlit("probe-then-exploit-attempt");
    reveal_strlit("path-traversal-passwd");
    reveal_strlit("sql-injection-union");
    reveal_strlit("xss-script-tag");
    reveal_strlit("windows-cmd-exec");
    reveal_strlit("path-traversal-generic");
    assert("syn-flood-anomaly"@[0] == 's');
    assert("port-scan-anomaly"@[0] == 'p');
    assert("syn-flood-anomaly"@.len() == 17 && "port-scan-anomaly"@.len() == 17);
    assert("probe-then-exploit-attempt"@.len() == 26);
    assert forall|p: int| 0 <= p < 5 implies {
        &&& #[trigger] crate::laws::signatures::rule_name(p) != "syn-flood-anomaly"@
        &&& crate::laws::signatures::rule_name(p) != "port-scan-anomaly"@
        &&& crate::laws::signatures::rule_name(p) != "probe-then-exploit-attempt"@
    } by {
        let n = crate::laws::signatures::rule_name(p).len();
        assert(n == 21 || n == 19 || n == 14 || n == 16 || n == 22);
    }
}

/// The alerts of the signatures have the names of their rules.
proof fn lemma_signature_names(event: crate::models::NetworkEventView, id: u64)
    requires
        event.payload_sample.len() <= usize::MAX,
    ensures
        ({
            let alerts = crate::detection::signature::signature_alerts(event, id);
            &&& crate::laws::named(alerts, "syn-flood-anomaly"@) == 0
            &&& crate::laws::named(alerts, "port-scan-anomaly"@) == 0
            &&& crate::laws::named(alerts, "probe-then-exploit-attempt"@) == 0
        }),
{
    let alerts = crate::detection::signature::signature_alerts(event, id);
    crate::laws::signatures::law_alerts_by_places(event, id);
    lemma_names_differ();
    let found = choose|found: Seq<(int, int)>|
        crate::laws::signatures::is_told_by(event, id, alerts, found);
    assert forall|i: int| 0 <= i < alerts.len() implies {
        let name = (#[trigger] alerts[i]).rule_name;
        name != "syn-flood-anomaly"@ && name != "port-scan-anomaly"@ && name
            != "probe-then-exploit-attempt"@
    } by {
        assert(0 <= found[i].0 < 5);
        assert(alerts[i].rule_name == crate::laws::signatures::rule_name(found[i].0));
    }
    lemma_none_named(alerts, "syn-flood-anomaly"@);
    lemma_none_named(alerts, "port-scan-anomaly"@);
    lemma_none_named(alerts, "probe-then-exploit-attempt"@);
}

/// The alerts of the anomalies within a window have the names that are due.
proof fn lemma_anomaly_names(run: Seq<crate::detection::anomaly::Observation>, i: int, name: Seq<char>)
    requires
        crate::laws::windows::falls_into(run, 0, 5_000_000_000),
        0 <= i < run.len(),
    ensures
        ({
            let start = crate::detection::anomaly::AnomalyView::fresh(5_000_000_000, 0, 1);
            let alerts = crate::detection::anomaly::after_observations(start, run.take(i)).alerts(
                run[i].event,
                run[i].now,
                run[i].estimate,
            );
            crate::laws::named(alerts, name) == (if name == "syn-flood-anomaly"@
                && crate::laws::windows::first_flood(run, i) {
                1int
            } else {
                0int
            }) + (if name == "port-scan-anomaly"@ && crate::laws::windows::first_scan(run, i) {
                1int
            } else {
                0int
            })
        }),
{
    let start = crate::detection::anomaly::AnomalyView::fresh(5_000_000_000, 0, 1);
    let alerts = crate::detection::anomaly::after_observations(start, run.take(i)).alerts(
        run[i].event,
        run[i].now,
        run[i].estimate,
    );
    crate::laws::windows::law_alerts_within_a_window(0, 5_000_000_000, 1, run, i);
    let flood = if crate::laws::windows::first_flood(run, i) {
        seq![alerts[0]]
    } else {
        Seq::empty()
    };
    let scan = if crate::laws::windows::first_scan(run, i) {
        seq![alerts[flood.len() as int]]
    } else {
        Seq::empty()
    };
    assert(alerts =~= flood + scan);
    crate::laws::lemma_named_joined(flood, scan, name);
    crate::laws::lemma_named_single(alerts[0], name);
    crate::laws::lemma_named_single(alerts[flood.len() as int], name);
}

/// Inspection `i` returned, of every name and in all, as many alerts as the three
/// detectors raise.
pub open spec fn returned_all(
    workers: Seq<Worker>,
    events: Seq<crate::models::NetworkEventView>,
    observations: Seq<crate::detection::anomaly::Observation>,
    alerts: Seq<crate::models::AlertView>,
    i: int,
) -> bool {
    &&& forall|name: Seq<char>| #[trigger]
        crate::laws::named(alerts, name) == alerts_due(workers, events, observations, i, name)
    &&& alerts.len() == number_due(workers, events, observations, i)
}

proof fn lemma_parts<F: Fn(&HyperLogLog) -> PortEstimate>(
    workers: Seq<Worker>,
    events: Seq<crate::models::NetworkEventView>,
    estimate: F,
    alerts: Seq<Seq<crate::models::AlertView>>,
    i: int,
)
    requires
        is_shift(workers, events, estimate, alerts),
        0 <= i < events.len(),
    ensures
        ({
            let observations = observations_of(workers, events, estimate, alerts);
            &&& alerts[i] == signature_part(workers, events, i) + anomaly_part(observations, i)
                + sequence_part(workers, events, i)
            &&& is_observation(workers, events, estimate, observations, i)
        }),
{
    lemma_made_with(workers, events, estimate, alerts, i);
    lemma_detectors_follow(workers, events, estimate, alerts, i);
}

proof fn lemma_returned_all(
    workers: Seq<Worker>,
    events: Seq<crate::models::NetworkEventView>,
    observations: Seq<crate::detection::anomaly::Observation>,
    alerts: Seq<crate::models::AlertView>,
    i: int,
)
    requires
        alerts == signature_part(workers, events, i) + anomaly_part(observations, i)
            + sequence_part(workers, events, i),
    ensures
        returned_all(workers, events, observations, alerts, i),
{
    let s = signature_part(workers, events, i);
    let a = anomaly_part(observations, i);
    let c = sequence_part(workers, events, i);
    assert forall|name: Seq<char>| #[trigger]
        crate::laws::named(alerts, name) == alerts_due(workers, events, observations, i, name) by {
        crate::laws::lemma_named_joined(s + a, c, name);
        crate::laws::lemma_named_joined(s, a, name);
    }
}

/// A worker keeps nothing back: whatever events it took since its start, each
/// inspection returned, of every name, the alerts that the signatures, the
/// anomalies and the sequences raise on that event after the events before it.
pub proof fn law_worker_returns_all_alerts<F: Fn(&HyperLogLog) -> PortEstimate>(
    workers: Seq<Worker>,
    events: Seq<crate::models::NetworkEventView>,
    estimate: F,
    alerts: Seq<Seq<crate::models::AlertView>>,
)
    requires
        is_shift(workers, events, estimate, alerts),
    ensures
        exists|observations: Seq<crate::detection::anomaly::Observation>|
            {
                &&& #[trigger] are_observations(workers, events, estimate, observations)
                &&& forall|i: int|
                    0 <= i < events.len() ==> returned_all(
                        workers,
                        events,
                        observations,
                        #[trigger] alerts[i],
                        i,
                    )
            },
{
    let observations = observations_of(workers, events, estimate, alerts);
    assert forall|i: int| 0 <= i < events.len() implies #[trigger] is_observation(
        workers,
        events,
        estimate,
        observations,
        i,
    ) by {
        lemma_parts(workers, events, estimate, alerts, i);
    }
    assert(are_observations(workers, events, estimate, observations));
    assert forall|i: int| 0 <= i < events.len() implies returned_all(
        workers,
        events,
        observations,
        #[trigger] alerts[i],
        i,
    ) by {
        lemma_parts(workers, events, estimate, alerts, i);
        lemma_returned_all(workers, events, observations, alerts[i], i);
    }
}

/// What the signatures raise on event `i`.
pub open spec fn signature_part(
    workers: Seq<Worker>,
    events: Seq<crate::models::NetworkEventView>,
    i: int,
) -> Seq<crate::models::AlertView> {
    crate::detection::signature::signature_alerts(events[i], workers[i].signature.next_id())
}

/// What the anomaly detector raises on observation `i`, after those before it.
pub open spec fn anomaly_part(
    observations: Seq<crate::detection::anomaly::Observation>,
    i: int,
) -> Seq<crate::models::AlertView> {
    crate::detection::anomaly::after_observations(
        crate::detection::anomaly::AnomalyView::fresh(5_000_000_000, 0, 1),
        observations.take(i),
    ).alerts(observations[i].event, observations[i].now, observations[i].estimate)
}

/// What the sequence detector raises on event `i`, after those before it.
pub open spec fn sequence_part(
    workers: Seq<Worker>,
    events: Seq<crate::models::NetworkEventView>,
    i: int,
) -> Seq<crate::models::AlertView> {
    let run = timed(workers, events);
    let m = crate::detection::cep::after_events(run.take(i));
    m.alerts(run[i].0, run[i].1, m.rules.len())
}

/// How many alerts of `name` the three detectors raise on event `i`.
pub open spec fn alerts_due(
    workers: Seq<Worker>,
    events: Seq<crate::models::NetworkEventView>,
    observations: Seq<crate::detection::anomaly::Observation>,
    i: int,
    name: Seq<char>,
) -> nat {
    crate::laws::named(signature_part(workers, events, i), name) + crate::laws::named(
        anomaly_part(observations, i),
        name,
    ) + crate::laws::named(sequence_part(workers, events, i), name)
}

/// How many alerts the three detectors raise on event `i`.
pub open spec fn number_due(
    workers: Seq<Worker>,
    events: Seq<crate::models::NetworkEventView>,
    observations: Seq<crate::detection::anomaly::Observation>,
    i: int,
) -> nat {
    signature_part(workers, events, i).len() + anomaly_part(observations, i).len() + sequence_part(
        workers,
        events,
        i,
    ).len()
}

/// What a worker reports in its first window: of each event exactly the signatures
/// whose texts stand in its payload, place by place; a flood with the first attempt
/// with which all counters of its source have met fifty; a scan with the first
/// estimate of twenty-five ports; and a sequence where an attempt of the source is
/// open and `passwd` stands in the payload.
pub proof fn law_worker_reports<F: Fn(&HyperLogLog) -> PortEstimate>(
    workers: Seq<Worker>,
    events: Seq<crate::models::NetworkEventView>,
    estimate: F,
    alerts: Seq<Seq<crate::models::AlertView>>,
)
    requires
        is_shift(workers, events, estimate, alerts),
        forall|i: int| 0 <= i < events.len() ==> (#[trigger] events[i]).payload_sample.len() <= usize::MAX,
        forall|i: int|
            0 <= i < workers.len() ==> (#[trigger] workers[i]).anomaly.reading() < 5_000_000_000,
    ensures
        exists|observations: Seq<crate::detection::anomaly::Observation>|
            {
                &&& #[trigger] are_observations(workers, events, estimate, observations)
                &&& forall|i: int|
                    0 <= i < events.len() ==> is_report(
                        events[i],
                        timed(workers, events).take(i + 1),
                        observations,
                        i,
                        #[trigger] alerts[i],
                    )
            },
{
    law_worker_returns_all_alerts(workers, events, estimate, alerts);
    let observations = choose|observations: Seq<crate::detection::anomaly::Observation>|
        {
            &&& #[trigger] are_observations(workers, events, estimate, observations)
            &&& forall|i: int|
                0 <= i < events.len() ==> returned_all(
                    workers,
                    events,
                    observations,
                    #[trigger] alerts[i],
                    i,
                )
        };
    lemma_observations_in_window(workers, events, estimate, observations);
    assert forall|i: int| 0 <= i < events.len() implies is_report(
        events[i],
        timed(workers, events).take(i + 1),
        observations,
        i,
        #[trigger] alerts[i],
    ) by {
        lemma_report(workers, events, estimate, alerts, observations, i);
    }
}

proof fn lemma_observations_in_window<F: Fn(&HyperLogLog) -> PortEstimate>(
    workers: Seq<Worker>,
    events: Seq<crate::models::NetworkEventView>,
    estimate: F,
    observations: Seq<crate::detection::anomaly::Observation>,
)
    requires
        workers.len() == events.len() + 1,
        are_observations(workers, events, estimate, observations),
        forall|i: int|
            0 <= i < workers.len() ==> (#[trigger] workers[i]).anomaly.reading() < 5_000_000_000,
    ensures
        crate::laws::windows::falls_into(observations, 0, 5_000_000_000),
{
    assert forall|j: int| 0 <= j < observations.len() implies (#[trigger] observations[j]).now < 0
        + 5_000_000_000 by {
        assert(is_observation(workers, events, estimate, observations, j));
        assert(workers[j + 1].anomaly.reading() < 5_000_000_000);
    }
}

proof fn lemma_report<F: Fn(&HyperLogLog) -> PortEstimate>(
    workers: Seq<Worker>,
    events: Seq<crate::models::NetworkEventView>,
    estimate: F,
    alerts: Seq<Seq<crate::models::AlertView>>,
    observations: Seq<crate::detection::anomaly::Observation>,
    i: int,
)
    requires
        is_shift(workers, events, estimate, alerts),
        0 <= i < events.len(),
        events[i].payload_sample.len() <= usize::MAX,
        observations.len() == events.len(),
        crate::laws::windows::falls_into(observations, 0, 5_000_000_000),
        returned_all(workers, events, observations, alerts[i], i),
    ensures
        is_report(events[i], timed(workers, events).take(i + 1), observations, i, alerts[i]),
{
    let run = timed(workers, events).take(i + 1);
    let event = events[i];
    let id = workers[i].signature.next_id();
    assert(run.drop_last() =~= timed(workers, events).take(i));
    assert(run[i] == timed(workers, events)[i]);
    lemma_run_in_order(workers, events, estimate, alerts, i);
    crate::laws::signatures::law_alerts_by_places(event, id);
    lemma_signature_names(event, id);
    crate::laws::sequences::law_alert_iff_attempt_is_open(run);
    crate::laws::windows::law_alerts_within_a_window(0, 5_000_000_000, 1, observations, i);
    let c = sequence_part(workers, events, i);
    lemma_names_differ();
    lemma_names_of_report(observations, i, c, "syn-flood-anomaly"@);
    lemma_names_of_report(observations, i, c, "port-scan-anomaly"@);
    lemma_names_of_report(observations, i, c, "probe-then-exploit-attempt"@);
    lemma_names_of_report(observations, i, c, crate::laws::signatures::rule_name(0));
    lemma_names_of_report(observations, i, c, crate::laws::signatures::rule_name(1));
    lemma_names_of_report(observations, i, c, crate::laws::signatures::rule_name(2));
    lemma_names_of_report(observations, i, c, crate::laws::signatures::rule_name(3));
    lemma_names_of_report(observations, i, c, crate::laws::signatures::rule_name(4));
}

proof fn lemma_names_of_report(
    observations: Seq<crate::detection::anomaly::Observation>,
    i: int,
    c: Seq<crate::models::AlertView>,
    name: Seq<char>,
)
    requires
        crate::laws::windows::falls_into(observations, 0, 5_000_000_000),
        0 <= i < observations.len(),
        c.len() <= 1,
        c.len() == 1 ==> c[0].rule_name == "probe-then-exploit-attempt"@,
    ensures
        crate::laws::named(anomaly_part(observations, i), name) == (if name
            == "syn-flood-anomaly"@ && crate::laws::windows::first_flood(observations, i) {
            1int
        } else {
            0int
        }) + (if name == "port-scan-anomaly"@ && crate::laws::windows::first_scan(
            observations,
            i,
        ) {
            1int
        } else {
            0int
        }),
        crate::laws::named(c, name) == (if name == "probe-then-exploit-attempt"@ {
            c.len()
        } else {
            0
        }),
{
    lemma_anomaly_names(observations, i, name);
    if c.len() == 1 {
        assert(c =~= seq![c[0]]);
        crate::laws::lemma_named_single(c[0], name);
    }
}

proof fn lemma_run_in_order<F: Fn(&HyperLogLog) -> PortEstimate>(
    workers: Seq<Worker>,
    events: Seq<crate::models::NetworkEventView>,
    estimate: F,
    alerts: Seq<Seq<crate::models::AlertView>>,
    i: int,
)
    requires
        is_shift(workers, events, estimate, alerts),
        0 <= i < events.len(),
    ensures
        crate::laws::sequences::in_order(timed(workers, events).take(i + 1)),
{
    let run = timed(workers, events).take(i + 1);
    assert forall|a: int, b: int| 0 <= a <= b < run.len() implies (#[trigger] run[a]).1 <= (
    #[trigger] run[b]).1 by {
        lemma_detectors_follow(workers, events, estimate, alerts, b + 1);
        assert(workers[a + 1].cep.reading() <= workers[b + 1].cep.reading());
    }
}

/// `alerts` reports on `event`, the last of `run` and observation `i`, what is due
/// and nothing else.
pub open spec fn is_report(
    event: crate::models::NetworkEventView,
    run: Seq<(crate::models::NetworkEventView, u128)>,
    observations: Seq<crate::detection::anomaly::Observation>,
    i: int,
    alerts: Seq<crate::models::AlertView>,
) -> bool {
    let payload = event.payload_sample;
    let passwd = crate::laws::signatures::places(payload, "/etc/passwd"@, payload.len());
    let union = crate::laws::signatures::places(payload, "UNION SELECT"@, payload.len());
    let script = crate::laws::signatures::places(payload, "<script>alert("@, payload.len());
    let cmd = crate::laws::signatures::places(payload, "cmd.exe"@, payload.len());
    let dots = crate::laws::signatures::places(payload, "../../"@, payload.len());
    let flood = if crate::laws::windows::first_flood(observations, i) {
        1nat
    } else {
        0nat
    };
    let scan = if crate::laws::windows::first_scan(observations, i) {
        1nat
    } else {
        0nat
    };
    let sequence = if crate::laws::stands_in(payload, "passwd"@) && exists|k: int| #[trigger]
        crate::laws::sequences::open_since(run, event.src_ip, k, run.len() - 1) && run.last().1
            - run[k].1 <= 5_000_000_000 {
        1nat
    } else {
        0nat
    };
    &&& crate::laws::named(alerts, "path-traversal-passwd"@) == passwd
    &&& crate::laws::named(alerts, "sql-injection-union"@) == union
    &&& crate::laws::named(alerts, "xss-script-tag"@) == script
    &&& crate::laws::named(alerts, "windows-cmd-exec"@) == cmd
    &&& crate::laws::named(alerts, "path-traversal-generic"@) == dots
    &&& crate::laws::named(alerts, "syn-flood-anomaly"@) == flood
    &&& crate::laws::named(alerts, "port-scan-anomaly"@) == scan
    &&& crate::laws::named(alerts, "probe-then-exploit-attempt"@) == sequence
    &&& alerts.len() == passwd + union + script + cmd + dots + flood + scan + sequence
}

/// How many of the first `n` events are connection attempts of source `src`.
pub open spec fn attempts_of(
    events: Seq<crate::models::NetworkEventView>,
    n: int,
    src: u32,
) -> nat
    decreases n,
{
    if n <= 0 {
        0
    } else {
        attempts_of(events, n - 1, src) + if events[n - 1].src_ip == src
            && crate::laws::opens_connection(events[n - 1]) {
            1nat
        } else {
            0nat
        }
    }
}

/// How many of the first `n` events are connection attempts.
pub open spec fn attempts_of_all(events: Seq<crate::models::NetworkEventView>, n: int) -> nat
    decreases n,
{
    if n <= 0 {
        0
    } else {
        attempts_of_all(events, n - 1) + if crate::laws::opens_connection(events[n - 1]) {
            1nat
        } else {
            0nat
        }
    }
}

proof fn lemma_attempts_observed<F: Fn(&HyperLogLog) -> PortEstimate>(
    workers: Seq<Worker>,
    events: Seq<crate::models::NetworkEventView>,
    estimate: F,
    observations: Seq<crate::detection::anomaly::Observation>,
    n: int,
    src: u32,
)
    requires
        are_observations(workers, events, estimate, observations),
        n <= events.len(),
    ensures
        crate::laws::windows::own_attempts(observations, n, src) == attempts_of(events, n, src),
        crate::laws::windows::all_attempts(observations, n) == attempts_of_all(events, n),
    decreases n,
{
    if n > 0 {
        lemma_attempts_observed(workers, events, estimate, observations, n - 1, src);
        assert(is_observation(workers, events, estimate, observations, n - 1));
    }
}

/// A worker reports a flood once: where a source makes fifty connection attempts
/// in a worker's first window, whatever their payloads and ports and whatever else
/// the worker takes, exactly one inspection of its events returns a flood alert,
/// and only one; and where fewer than fifty attempts are made in all, none does.
pub proof fn law_worker_reports_a_flood_once<F: Fn(&HyperLogLog) -> PortEstimate>(
    workers: Seq<Worker>,
    events: Seq<crate::models::NetworkEventView>,
    estimate: F,
    alerts: Seq<Seq<crate::models::AlertView>>,
    src: u32,
)
    requires
        is_shift(workers, events, estimate, alerts),
        forall|i: int| 0 <= i < events.len() ==> (#[trigger] events[i]).payload_sample.len() <= usize::MAX,
        forall|i: int|
            0 <= i < workers.len() ==> (#[trigger] workers[i]).anomaly.reading() < 5_000_000_000,
    ensures
        attempts_of(events, events.len() as int, src) >= 50 ==> exists|i: int|
            {
                &&& 0 <= i < events.len() && events[i].src_ip == src
                &&& crate::laws::named(#[trigger] alerts[i], "syn-flood-anomaly"@) == 1
                &&& attempts_of(events, i + 1, src) <= 50
                &&& forall|j: int|
                    0 <= j < events.len() && j != i && events[j].src_ip == src
                        ==> crate::laws::named(#[trigger] alerts[j], "syn-flood-anomaly"@) == 0
            },
        attempts_of_all(events, events.len() as int) < 50 ==> forall|j: int|
            0 <= j < events.len() ==> crate::laws::named(
                #[trigger] alerts[j],
                "syn-flood-anomaly"@,
            ) == 0,
{
    let n = events.len() as int;
    law_worker_reports(workers, events, estimate, alerts);
    let observations = choose|observations: Seq<crate::detection::anomaly::Observation>|
        {
            &&& #[trigger] are_observations(workers, events, estimate, observations)
            &&& forall|i: int|
                0 <= i < events.len() ==> is_report(
                    events[i],
                    timed(workers, events).take(i + 1),
                    observations,
                    i,
                    #[trigger] alerts[i],
                )
        };
    crate::laws::windows::law_floods_take_fifty_attempts(observations, src);
    lemma_attempts_observed(workers, events, estimate, observations, n, src);
    assert forall|j: int| 0 <= j < n implies crate::laws::named(
        #[trigger] alerts[j],
        "syn-flood-anomaly"@,
    ) == (if crate::laws::windows::first_flood(observations, j) {
        1nat
    } else {
        0nat
    }) && observations[j].event == events[j] by {
        assert(is_observation(workers, events, estimate, observations, j));
        assert(is_report(
            events[j],
            timed(workers, events).take(j + 1),
            observations,
            j,
            alerts[j],
        ));
    }
    if attempts_of(events, n, src) >= 50 {
        let i = choose|i: int|
            0 <= i < observations.len() && observations[i].event.src_ip == src
                && #[trigger] crate::laws::windows::first_flood(observations, i)
                && crate::laws::windows::own_attempts(observations, i + 1, src) <= 50;
        lemma_attempts_observed(workers, events, estimate, observations, i + 1, src);
        assert(crate::laws::named(alerts[i], "syn-flood-anomaly"@) == 1);
        assert forall|j: int| 0 <= j < events.len() && j != i && events[j].src_ip
            == src implies crate::laws::named(#[trigger] alerts[j], "syn-flood-anomaly"@) == 0 by {
            if crate::laws::windows::first_flood(observations, j) {
                assert(observations[j].event.src_ip == observations[i].event.src_ip);
            }
        }
    }
}

} // verus!
