//! Views: events, alerts and rules are seen as they are.

use vstd::prelude::*;

use crate::api::RuleSummary;
use crate::detection::cep::CepRule;
use crate::models::{Alert, NetworkEvent};
use crate::pipeline::AppState;

verus! {

/// An event is seen with all its fields and its whole payload.
pub proof fn law_event_is_seen_whole(e: NetworkEvent, events: Seq<NetworkEvent>, i: int)
    requires
        0 <= i < events.len(),
    ensures
        e@.timestamp_ms == e.timestamp_ms,
        e@.src_ip == e.src_ip && e@.dst_ip == e.dst_ip,
        e@.src_port == e.src_port && e@.dst_port == e.dst_port,
        e@.protocol == e.protocol && e@.flags == e.flags,
        e@.payload_sample == e.payload_sample@,
        crate::ingestion::event_views(events).len() == events.len(),
        crate::ingestion::event_views(events)[i] == events[i]@,
{
}

/// An alert is seen with all its fields and texts, and a list of alerts one by
/// one.
pub proof fn law_alert_is_seen_whole(a: Alert, alerts: Seq<Alert>, i: int)
    requires
        0 <= i < alerts.len(),
    ensures
        a@.id == a.id && a@.timestamp_ms == a.timestamp_ms,
        a@.rule_name == a.rule_name@ && a@.detail == a.detail@,
        a@.src_ip == a.src_ip@ && a@.dst_ip == a.dst_ip@,
        a@.severity == a.severity && a@.detector == a.detector,
        crate::models::alert_views(alerts).len() == alerts.len(),
        crate::models::alert_views(alerts)[i] == alerts[i]@,
{
}

/// A rule and its summary are seen with all that they say.
pub proof fn law_rules_are_seen_whole(rule: CepRule, summary: RuleSummary)
    ensures
        rule@.name == rule.name@ && rule@.severity == rule.severity,
        rule@.steps == rule.steps@ && rule@.window == rule.window@,
        summary@.name == summary.name@ && summary@.detector == summary.detector@,
        summary@.description == summary.description@,
{
}

/// The flow shows what each queue holds and can hold, and the counters.
pub proof fn law_flow_is_seen_whole(state: AppState, w: int)
    requires
        0 <= w < state.queues@.len(),
    ensures
        state.flow().queues.len() == state.queues@.len(),
        state.flow().queues[w] == state.queues@[w]@,
        state.flow().capacities[w] == state.queues@[w].capacity(),
        state.flow().stats == state.stats,
{
}

} // verus!
