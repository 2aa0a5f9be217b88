//! Complex event processing: sequences of events of one source within a window.
//!
//! A rule is a sequence of conditions. For each rule and source the engine keeps
//! the partial matches in progress: how many conditions each has met, and when
//! it started. An event expires the matches that are older than the window,
//! advances those whose next condition it meets, completes at most one of them,
//! which raises an alert, and starts a new match where it meets the first
//! condition. Where that condition is the only one, the new match is complete at
//! once: the event raises the alert, and there is nothing to keep.

use std::collections::HashMap;

use vstd::prelude::*;
use vstd::string::*;

use crate::models::{Alert, DetectorKind, NetworkEvent, Severity};
use crate::text::{contains_bytes, push_decimal};
use crate::time::{nanos_between, Clock, Duration};

verus! {

broadcast use vstd::std_specs::hash::group_hash_axioms;

/// One condition on an event.
#[derive(Debug, Clone, Copy, PartialEq, Eq, Structural)]
pub enum Condition {
    /// A connection attempt: SYN without ACK.
    IsSynOnly,
    /// A payload sample with a suspicious marker in it.
    HasSignaturePayload,
    /// A destination port above the given one.
    DistinctPortAbove(u16),
}

/// The bytes that mark a payload sample as suspicious: `passwd`.
pub open spec fn payload_marker() -> Seq<u8> {
    crate::text::ascii("passwd"@)
}

/// `event` meets condition `c`.
pub open spec fn meets(c: Condition, event: crate::models::NetworkEventView) -> bool {
    match c {
        Condition::IsSynOnly => crate::models::is_syn(event),
        Condition::HasSignaturePayload => crate::text::occurs(
            event.payload_sample,
            payload_marker(),
        ),
        Condition::DistinctPortAbove(port) => event.dst_port > port,
    }
}

impl Condition {
    /// Tells whether `event` meets the condition.
    pub fn matches(&self, event: &NetworkEvent) -> (r: bool)
        ensures
            r == meets(*self, event@),
    {
        match self {
            Condition::IsSynOnly => event.is_syn(),
            Condition::HasSignaturePayload => {
                let marker: &str = "passwd";
                proof {
                    reveal_strlit("passwd");
                    vstd::string::is_ascii_spec_bytes(marker);
                    assert(marker.spec_bytes() =~= payload_marker());
                }
                contains_bytes(event.payload_sample.as_slice(), marker.as_bytes())
            },
            Condition::DistinctPortAbove(port) => event.dst_port > *port,
        }
    }
}

/// A sequence of conditions to be met within a window.
pub struct CepRule {
    pub name: String,
    pub severity: Severity,
    pub steps: Vec<Condition>,
    pub window: Duration,
}

/// What a rule says.
#[verifier::ext_equal]
pub struct CepRuleView {
    pub name: Seq<char>,
    pub severity: Severity,
    pub steps: Seq<Condition>,
    /// In nanoseconds.
    pub window: nat,
}

impl View for CepRule {
    type V = CepRuleView;

    open spec fn view(&self) -> CepRuleView {
        CepRuleView {
            name: self.name@,
            severity: self.severity,
            steps: self.steps@,
            window: self.window@,
        }
    }
}

/// A match in progress: the conditions met so far, and the clock reading at
/// which it started.
#[derive(Debug, Clone, Copy, PartialEq, Eq, Structural)]
pub struct PartialMatch {
    pub step: usize,
    pub started_at: u128,
}

impl CepRuleView {
    /// The match started no longer ago than the window.
    pub open spec fn is_live(self, p: PartialMatch, now: u128) -> bool {
        crate::time::elapsed(now, p.started_at) <= self.window
    }

    /// `event` meets the next condition of the match.
    pub open spec fn advances(
        self,
        p: PartialMatch,
        event: crate::models::NetworkEventView,
    ) -> bool {
        p.step < self.steps.len() && meets(self.steps[p.step as int], event)
    }

    /// `event` meets the last condition of the match.
    pub open spec fn completes(
        self,
        p: PartialMatch,
        event: crate::models::NetworkEventView,
    ) -> bool {
        self.advances(p, event) && p.step + 1 == self.steps.len()
    }

    /// The youngest match that `event` completes, or -1.
    pub open spec fn completing(
        self,
        partials: Seq<PartialMatch>,
        event: crate::models::NetworkEventView,
    ) -> int
        decreases partials.len(),
    {
        if partials.len() == 0 {
            -1
        } else if self.completes(partials.last(), event) {
            partials.len() - 1
        } else {
            self.completing(partials.drop_last(), event)
        }
    }

    /// The matches of the source that are still live.
    pub open spec fn live(self, partials: Seq<PartialMatch>, now: u128) -> Seq<PartialMatch> {
        partials.filter(|p: PartialMatch| self.is_live(p, now))
    }

    /// The matches after `event` has advanced them. They are taken from the
    /// youngest to the oldest, and the first one that completes ends the round.
    pub open spec fn advanced(
        self,
        partials: Seq<PartialMatch>,
        event: crate::models::NetworkEventView,
    ) -> Seq<PartialMatch> {
        let done = self.completing(partials, event);
        Seq::new(
            partials.len(),
            |j: int|
                if j >= done && self.advances(partials[j], event) {
                    PartialMatch { step: (partials[j].step + 1) as usize, ..partials[j] }
                } else {
                    partials[j]
                },
        )
    }

    /// `event` meets the only condition of the rule.
    pub open spec fn met_at_once(self, event: crate::models::NetworkEventView) -> bool {
        self.steps.len() == 1 && meets(self.steps[0], event)
    }

    /// `event` completes a live match, or a match of its own.
    pub open spec fn fires(
        self,
        partials: Seq<PartialMatch>,
        event: crate::models::NetworkEventView,
        now: u128,
    ) -> bool {
        self.completing(self.live(partials, now), event) >= 0 || self.met_at_once(event)
    }

    /// The matches without those that have met every condition.
    pub open spec fn unfinished(self, partials: Seq<PartialMatch>) -> Seq<PartialMatch> {
        partials.filter(|p: PartialMatch| p.step < self.steps.len())
    }

    /// `event` starts a match that has conditions left.
    pub open spec fn starts(self, event: crate::models::NetworkEventView) -> bool {
        self.steps.len() > 1 && meets(self.steps[0], event)
    }

    /// The matches of the source of `event` after it.
    pub open spec fn after(
        self,
        partials: Seq<PartialMatch>,
        event: crate::models::NetworkEventView,
        now: u128,
    ) -> Seq<PartialMatch> {
        let moved = self.advanced(self.live(partials, now), event);
        let kept = if self.fires(partials, event, now) {
            self.unfinished(moved)
        } else {
            moved
        };
        if self.starts(event) {
            kept.push(PartialMatch { step: 1, started_at: now })
        } else {
            kept
        }
    }

    /// The detail text of the rule's alerts.
    pub open spec fn detail(self) -> Seq<char> {
        "CEP rule '"@ + self.name + "' completed: "@ + crate::text::decimal(self.steps.len())
            + " steps matched within "@ + crate::time::span_text(self.window)
    }

    /// The alert that the rule raises on `event`.
    pub open spec fn alert(
        self,
        event: crate::models::NetworkEventView,
        id: u64,
    ) -> crate::models::AlertView {
        crate::models::alert_on(
            event,
            id,
            self.name,
            self.severity,
            self.detail(),
            DetectorKind::Cep,
        )
    }
}

impl CepRule {
    /// Drops the matches that are older than the window.
    fn expire(&self, partials: &mut Vec<PartialMatch>, now: u128)
        ensures
            final(partials)@ == self@.live(old(partials)@, now),
    {
        let ghost keep = |p: PartialMatch| self@.is_live(p, now);
        let window: u128 = self.window.as_nanos();
        let mut kept: Vec<PartialMatch> = Vec::new();
        let mut i: usize = 0;
        assert(partials@.take(0).filter(keep) =~= Seq::<PartialMatch>::empty()) by {
            reveal(Seq::filter);
        }
        while i < partials.len()
            invariant
                i <= partials@.len(),
                window == self@.window,
                keep == (|p: PartialMatch| self@.is_live(p, now)),
                kept@ == partials@.take(i as int).filter(keep),
            decreases partials@.len() - i,
        {
            let p: PartialMatch = partials[i];
            proof {
                reveal(Seq::filter);
                assert(partials@.take(i + 1).drop_last() =~= partials@.take(i as int));
            }
            if nanos_between(now, p.started_at) <= window {
                kept.push(p);
            }
            i = i + 1;
        }
        assert(partials@.take(i as int) =~= partials@);
        *partials = kept;
    }

    /// Advances the matches by `event`, and tells whether one was completed.
    fn advance(&self, partials: &mut Vec<PartialMatch>, event: &NetworkEvent) -> (r: bool)
        ensures
            final(partials)@ == self@.advanced(old(partials)@, event@),
            r == (self@.completing(old(partials)@, event@) >= 0),
    {
        let ghost before = partials@;
        let ghost rule = self@;
        let mut i: usize = partials.len();
        proof {
            lemma_completing_bounds(rule, before, event@);
            assert(before.take(before.len() as int) =~= before);
        }
        while i > 0
            invariant
                before == old(partials)@,
                i <= before.len(),
                partials@.len() == before.len(),
                rule == self@,
                rule.completing(before, event@) == rule.completing(before.take(i as int), event@),
                rule.completing(before, event@) < i,
                forall|j: int| 0 <= j < i ==> partials@[j] == before[j],
                forall|j: int|
                    i <= j < before.len() ==> #[trigger] partials@[j] == (if rule.advances(
                        before[j],
                        event@,
                    ) {
                        PartialMatch { step: (before[j].step + 1) as usize, ..before[j] }
                    } else {
                        before[j]
                    }),
            decreases i,
        {
            i = i - 1;
            let p: PartialMatch = partials[i];
            proof {
                assert(before.take(i + 1).drop_last() =~= before.take(i as int));
                assert(before.take(i + 1).last() == p);
                lemma_completing_bounds(rule, before.take(i as int), event@);
            }
            if p.step < self.steps.len() && self.steps[p.step].matches(event) {
                partials.set(i, PartialMatch { step: p.step + 1, started_at: p.started_at });
                if p.step + 1 == self.steps.len() {
                    assert(partials@ =~= rule.advanced(before, event@));
                    return true;
                }
            }
        }
        assert(before.take(0) =~= Seq::<PartialMatch>::empty());
        assert(partials@ =~= rule.advanced(before, event@));
        false
    }

    /// Drops the matches that have met every condition.
    fn drop_finished(&self, partials: &mut Vec<PartialMatch>)
        ensures
            final(partials)@ == self@.unfinished(old(partials)@),
    {
        let ghost keep = |p: PartialMatch| p.step < self@.steps.len();
        let mut kept: Vec<PartialMatch> = Vec::new();
        let mut i: usize = 0;
        assert(partials@.take(0).filter(keep) =~= Seq::<PartialMatch>::empty()) by {
            reveal(Seq::filter);
        }
        while i < partials.len()
            invariant
                i <= partials@.len(),
                keep == (|p: PartialMatch| p.step < self@.steps.len()),
                kept@ == partials@.take(i as int).filter(keep),
            decreases partials@.len() - i,
        {
            let p: PartialMatch = partials[i];
            proof {
                reveal(Seq::filter);
                assert(partials@.take(i + 1).drop_last() =~= partials@.take(i as int));
            }
            if p.step < self.steps.len() {
                kept.push(p);
            }
            i = i + 1;
        }
        assert(partials@.take(i as int) =~= partials@);
        *partials = kept;
    }

    /// Takes `event`, read at `now`, into the matches of its source, and tells
    /// whether it completed one.
    pub fn observe(&self, partials: &mut Vec<PartialMatch>, event: &NetworkEvent, now: u128) -> (r:
        bool)
        ensures
            final(partials)@ == self@.after(old(partials)@, event@, now),
            r == self@.fires(old(partials)@, event@, now),
    {
        self.expire(partials, now);
        let advanced: bool = self.advance(partials, event);
        let first: bool = self.steps.len() > 0 && self.steps[0].matches(event);
        let completed: bool = advanced || first && self.steps.len() == 1;
        if completed {
            self.drop_finished(partials);
        }
        if first && self.steps.len() > 1 {
            partials.push(PartialMatch { step: 1, started_at: now });
        }
        completed
    }

    /// The detail text of the rule's alerts.
    fn detail_text(&self) -> (r: String)
        ensures
            r@ == self@.detail(),
    {
        let mut text = "CEP rule '".to_owned();
        text.append(self.name.as_str());
        text.append("' completed: ");
        push_decimal(&mut text, self.steps.len() as u64);
        text.append(" steps matched within ");
        let window = self.window.to_text();
        text.append(window.as_str());
        text
    }
}

proof fn lemma_completing_bounds(
    rule: CepRuleView,
    partials: Seq<PartialMatch>,
    event: crate::models::NetworkEventView,
)
    ensures
        -1 <= rule.completing(partials, event) < partials.len(),
    decreases partials.len(),
{
    if partials.len() > 0 {
        lemma_completing_bounds(rule, partials.drop_last(), event);
    }
}

/// The engine: the rules, and for each rule and source the matches in progress.
pub struct CepEngine {
    rules: Vec<CepRule>,
    active: Vec<HashMap<u32, Vec<PartialMatch>>>,
    next_id: u64,
    clock: Clock,
}

/// What the engine remembers.
#[verifier::ext_equal]
pub struct CepView {
    pub rules: Seq<CepRuleView>,
    /// For each rule, the matches in progress of each source.
    pub active: Seq<Map<u32, Seq<PartialMatch>>>,
    /// The identifier of the next alert.
    pub next_id: u64,
}

impl View for CepEngine {
    type V = CepView;

    closed spec fn view(&self) -> CepView {
        CepView {
            rules: self.rules@.map_values(|r: CepRule| r@),
            active: self.active@.map_values(
                |m: HashMap<u32, Vec<PartialMatch>>|
                    m@.map_values(|v: Vec<PartialMatch>| v@),
            ),
            next_id: self.next_id,
        }
    }
}

impl CepView {
    /// Each rule has its table of sources.
    pub open spec fn wf(self) -> bool {
        self.active.len() == self.rules.len()
    }

    /// The matches in progress of source `src` under rule `k`.
    pub open spec fn partials(self, k: int, src: u32) -> Seq<PartialMatch> {
        if self.active[k].contains_key(src) {
            self.active[k][src]
        } else {
            Seq::empty()
        }
    }

    /// Rule `k` raises an alert on `event`, read at `now`.
    pub open spec fn fires(
        self,
        k: int,
        event: crate::models::NetworkEventView,
        now: u128,
    ) -> bool {
        self.rules[k].fires(self.partials(k, event.src_ip), event, now)
    }

    /// The alerts of the first `k` rules on `event`: one for each that fires, in
    /// the order of the rules, with consecutive identifiers.
    pub open spec fn alerts(
        self,
        event: crate::models::NetworkEventView,
        now: u128,
        k: nat,
    ) -> Seq<crate::models::AlertView>
        decreases k,
    {
        if k == 0 {
            Seq::empty()
        } else {
            let before = self.alerts(event, now, (k - 1) as nat);
            if self.fires(k - 1, event, now) {
                before.push(
                    self.rules[k - 1].alert(
                        event,
                        crate::models::id_after(self.next_id, before.len()),
                    ),
                )
            } else {
                before
            }
        }
    }

    /// What the engine remembers after `event`, read at `now`.
    pub open spec fn after(self, event: crate::models::NetworkEventView, now: u128) -> CepView {
        CepView {
            rules: self.rules,
            active: Seq::new(
                self.active.len(),
                |k: int|
                    self.active[k].insert(
                        event.src_ip,
                        self.rules[k].after(self.partials(k, event.src_ip), event, now),
                    ),
            ),
            next_id: crate::models::id_after(
                self.next_id,
                self.alerts(event, now, self.rules.len()).len(),
            ),
        }
    }
}

/// The rule that the engine starts with: a connection attempt, then a suspicious
/// payload, from one source within five seconds.
pub open spec fn default_rule() -> CepRuleView {
    CepRuleView {
        name: "probe-then-exploit-attempt"@,
        severity: Severity::Critical,
        steps: seq![Condition::IsSynOnly, Condition::HasSignaturePayload],
        window: 5_000_000_000,
    }
}

impl CepEngine {
    /// The latest reading of the engine's clock.
    pub closed spec fn reading(&self) -> u128 {
        self.clock.latest()
    }

    /// An engine with the default rule and no match in progress.
    pub fn with_default_rules() -> (r: Self)
        ensures
            r.reading() == 0,
            r@ == (CepView { rules: seq![default_rule()], active: seq![Map::empty()], next_id: 1 }),
            r@.wf(),
    {
        let rule = CepRule {
            name: "probe-then-exploit-attempt".to_owned(),
            severity: Severity::Critical,
            steps: vec![Condition::IsSynOnly, Condition::HasSignaturePayload],
            window: Duration::from_secs(5),
        };
        assert(rule@ =~= default_rule());
        let mut active: Vec<HashMap<u32, Vec<PartialMatch>>> = Vec::new();
        active.push(HashMap::new());
        let r = CepEngine { rules: vec![rule], active, next_id: 1, clock: Clock::start() };
        assert(r@.active[0] =~= Map::empty());
        assert(r@.active =~= seq![Map::empty()]);
        assert(r@.rules =~= seq![default_rule()]);
        r
    }

    /// Takes `event`, read at `now`, and returns the alerts that it raises.
    pub fn process_at(&mut self, event: &NetworkEvent, now: u128) -> (r: Vec<Alert>)
        requires
            old(self)@.wf(),
        ensures
            final(self)@ == old(self)@.after(event@, now),
            final(self)@.wf(),
            final(self).reading() == old(self).reading(),
            crate::models::alert_views(r@) == old(self)@.alerts(
                event@,
                now,
                old(self)@.rules.len(),
            ),
    {
        let ghost before = self@;
        let mut alerts: Vec<Alert> = Vec::new();
        let key: u32 = event.src_ip;
        let mut k: usize = 0;
        assert(crate::models::alert_views(alerts@) =~= Seq::empty());
        while k < self.rules.len()
            invariant
                before == old(self)@,
                before.wf(),
                self.clock == old(self).clock,
                key == event.src_ip,
                k <= before.rules.len(),
                self@.rules == before.rules,
                self@.active.len() == before.active.len(),
                self@.next_id == crate::models::id_after(before.next_id, alerts@.len()),
                crate::models::alert_views(alerts@) == before.alerts(event@, now, k as nat),
                forall|j: int|
                    0 <= j < k ==> #[trigger] self@.active[j] == before.after(event@, now).active[j],
                forall|j: int|
                    k <= j < before.active.len() ==> #[trigger] self@.active[j] == before.active[j],
            decreases before.rules.len() - k,
        {
            let ghost tables = self@.active;
            let ghost seen = before.partials(k as int, key);
            let ghost known = alerts@;
            let rule: &CepRule = &self.rules[k];
            assert(rule@ == before.rules[k as int]);
            assert(self@.active[k as int] == before.active[k as int]);
            let partials: &mut Vec<PartialMatch> = self.active[k].entry(key).or_insert(Vec::new());
            assert(partials@ =~= seen);
            let completed: bool = rule.observe(partials, event, now);
            proof {
                assert(self@.active[k as int] =~= before.active[k as int].insert(
                    key,
                    before.rules[k as int].after(seen, event@, now),
                ));
                assert(self@.active =~= tables.update(k as int, self@.active[k as int]));
            }
            if completed {
                let id: u64 = self.next_id;
                self.next_id = id.wrapping_add(1);
                alerts.push(
                    Alert {
                        id,
                        timestamp_ms: event.timestamp_ms,
                        rule_name: self.rules[k].name.clone(),
                        severity: self.rules[k].severity,
                        src_ip: event.src_ip_str(),
                        dst_ip: event.dst_ip_str(),
                        detail: self.rules[k].detail_text(),
                        detector: DetectorKind::Cep,
                    },
                );
                assert(alerts@.last()@ =~= before.rules[k as int].alert(event@, id));
                assert(crate::models::alert_views(alerts@) =~= crate::models::alert_views(
                    known,
                ).push(alerts@.last()@));
            }
            k = k + 1;
        }
        alerts
    }

    /// Takes `event` at the present moment and returns the alerts that it
    /// raises: those of [`CepEngine::process_at`] at a reading of the clock that is
    /// no earlier than the one before.
    pub fn process(&mut self, event: &NetworkEvent) -> (r: Vec<Alert>)
        requires
            old(self)@.wf(),
        ensures
            final(self)@.wf(),
            final(self).reading() >= old(self).reading(),
            final(self)@ == old(self)@.after(event@, final(self).reading()),
            crate::models::alert_views(r@) == old(self)@.alerts(
                event@,
                final(self).reading(),
                old(self)@.rules.len(),
            ),
    {
        let now: u128 = self.clock.now();
        self.process_at(event, now)
    }
}

/// A filtered sequence has the members that pass, and no others.
pub proof fn lemma_filter_members<A>(s: Seq<A>, keep: spec_fn(A) -> bool, a: A)
    ensures
        s.filter(keep).contains(a) <==> s.contains(a) && keep(a),
    decreases s.len(),
{
    reveal(Seq::filter);
    if s.len() > 0 {
        let rest = s.drop_last();
        lemma_filter_members(rest, keep, a);
        if rest.contains(a) {
            let i = choose|i: int| 0 <= i < rest.len() && rest[i] == a;
            assert(s[i] == a);
        }
        if s.contains(a) && s.last() != a {
            let i = choose|i: int| 0 <= i < s.len() && s[i] == a;
            assert(rest[i] == a);
        }
        if keep(s.last()) {
            assert(s.filter(keep) == rest.filter(keep).push(s.last()));
            if rest.filter(keep).contains(a) {
                let i = choose|i: int|
                    0 <= i < rest.filter(keep).len() && rest.filter(keep)[i] == a;
                assert(s.filter(keep)[i] == a);
            }
            if s.last() == a {
                assert(s.filter(keep).last() == a);
                assert(s[s.len() - 1] == a);
            }
            if s.filter(keep).contains(a) && s.last() != a {
                let i = choose|i: int| 0 <= i < s.filter(keep).len() && s.filter(keep)[i] == a;
                assert(rest.filter(keep)[i] == a);
            }
        }
    }
}

/// Sources do not mix: an event leaves the matches of every other source as they
/// were, and the alerts that it raises depend on the matches of its own source
/// alone.
pub proof fn law_sources_apart(
    m: CepView,
    other: CepView,
    event: crate::models::NetworkEventView,
    now: u128,
    k: nat,
)
    requires
        m.wf(),
        k <= m.rules.len(),
    ensures
        forall|j: int, src: u32|
            0 <= j < m.rules.len() && src != event.src_ip ==> #[trigger] m.after(
                event,
                now,
            ).partials(j, src) == m.partials(j, src),
        m.rules == other.rules && m.next_id == other.next_id && (forall|j: int|
            0 <= j < k ==> #[trigger] m.partials(j, event.src_ip) == other.partials(
                j,
                event.src_ip,
            )) ==> m.alerts(event, now, k) == other.alerts(event, now, k),
    decreases k,
{
    if k > 0 {
        law_sources_apart(m, other, event, now, (k - 1) as nat);
        if forall|j: int|
            0 <= j < k ==> #[trigger] m.partials(j, event.src_ip) == other.partials(
                j,
                event.src_ip,
            ) {
            assert(m.partials(k - 1, event.src_ip) == other.partials(k - 1, event.src_ip));
        }
    }
}

/// A lone event never completes a sequence: without a match in progress of its
/// source, an event raises no alert, as long as no rule has one condition only.
pub proof fn law_lone_event_is_silent(
    m: CepView,
    event: crate::models::NetworkEventView,
    now: u128,
    k: nat,
)
    requires
        forall|j: int| 0 <= j < k ==> (#[trigger] m.partials(j, event.src_ip)).len() == 0,
        forall|j: int| 0 <= j < k ==> (#[trigger] m.rules[j]).steps.len() != 1,
    ensures
        m.alerts(event, now, k).len() == 0,
    decreases k,
{
    if k > 0 {
        law_lone_event_is_silent(m, event, now, (k - 1) as nat);
        let rule = m.rules[k - 1];
        let partials = m.partials(k - 1, event.src_ip);
        let keep = |p: PartialMatch| rule.is_live(p, now);
        partials.lemma_filter_len(keep);
        assert(rule.live(partials, now).len() == 0);
    }
}

/// All conditions met is a match, however few they are: an event that meets the
/// only condition of a rule raises that rule's alert, whatever came before, and an
/// event that does not meet it raises none where no match was put in progress.
pub proof fn law_single_condition_fires(
    rule: CepRuleView,
    m: CepView,
    event: crate::models::NetworkEventView,
    now: u128,
)
    requires
        m.wf(),
        m.rules == seq![rule],
        rule.steps.len() == 1,
    ensures
        meets(rule.steps[0], event) ==> m.alerts(event, now, 1) == seq![
            rule.alert(event, m.next_id),
        ],
        m.partials(0, event.src_ip).len() == 0 ==> {
            &&& !meets(rule.steps[0], event) ==> m.alerts(event, now, 1).len() == 0
            &&& m.after(event, now).partials(0, event.src_ip).len() == 0
        },
{
    reveal_with_fuel(CepView::alerts, 2);
    let partials = m.partials(0, event.src_ip);
    let keep = |p: PartialMatch| rule.is_live(p, now);
    let open = |p: PartialMatch| p.step < rule.steps.len();
    assert(m.alerts(event, now, 0).len() == 0);
    if meets(rule.steps[0], event) {
        assert(m.fires(0, event, now));
        assert(m.alerts(event, now, 1) =~= seq![rule.alert(event, m.next_id)]);
    }
    partials.lemma_filter_len(keep);
    rule.advanced(rule.live(partials, now), event).lemma_filter_len(open);
}

/// One event completes at most one match of each rule.
pub proof fn law_one_alert_for_each_rule(
    m: CepView,
    event: crate::models::NetworkEventView,
    now: u128,
    k: nat,
)
    ensures
        m.alerts(event, now, k).len() <= k,
    decreases k,
{
    if k > 0 {
        law_one_alert_for_each_rule(m, event, now, (k - 1) as nat);
    }
}

/// Old matches do not stay: after an event, every match of its source started no
/// longer ago than the window.
pub proof fn law_stale_matches_expire(
    rule: CepRuleView,
    partials: Seq<PartialMatch>,
    event: crate::models::NetworkEventView,
    now: u128,
    p: PartialMatch,
)
    requires
        rule.after(partials, event, now).contains(p),
    ensures
        rule.is_live(p, now),
{
    let keep = |p: PartialMatch| rule.is_live(p, now);
    let live = rule.live(partials, now);
    let moved = rule.advanced(live, event);
    let open = |p: PartialMatch| p.step < rule.steps.len();
    let after = rule.after(partials, event, now);
    let i = choose|i: int| 0 <= i < after.len() && after[i] == p;
    let kept = if rule.fires(partials, event, now) {
        rule.unfinished(moved)
    } else {
        moved
    };
    if i < kept.len() {
        assert(kept[i] == p);
        assert(kept.contains(p));
        lemma_filter_members(moved, open, p);
        assert(moved.contains(p));
        let j = choose|j: int| 0 <= j < moved.len() && moved[j] == p;
        partials.lemma_filter_pred(keep, j);
    }
}

/// An event that carries the marker of the default rule's second step.
pub open spec fn is_exploit(event: crate::models::NetworkEventView) -> bool {
    meets(Condition::HasSignaturePayload, event)
}

/// Under the default rule, where every match has met one step: an exploit takes
/// the youngest live match away, and a probe adds one.
pub proof fn lemma_default_rule_after(
    partials: Seq<PartialMatch>,
    event: crate::models::NetworkEventView,
    now: u128,
)
    requires
        forall|i: int| 0 <= i < partials.len() ==> (#[trigger] partials[i]).step == 1,
    ensures
        ({
            let rule = default_rule();
            let live = rule.live(partials, now);
            let kept = if is_exploit(event) && live.len() > 0 {
                live.drop_last()
            } else {
                live
            };
            &&& rule.fires(partials, event, now) <==> is_exploit(event) && live.len() > 0
            &&& rule.after(partials, event, now) == (if crate::models::is_syn(event) {
                kept.push(PartialMatch { step: 1, started_at: now })
            } else {
                kept
            })
        }),
{
    let rule = default_rule();
    let keep = |p: PartialMatch| rule.is_live(p, now);
    let live = rule.live(partials, now);
    assert forall|i: int| 0 <= i < live.len() implies (#[trigger] live[i]).step == 1 by {
        assert(live.contains(live[i]));
        lemma_filter_members(partials, keep, live[i]);
    }
    lemma_completing_of_one_step(live, event);
    let moved = rule.advanced(live, event);
    let open = |p: PartialMatch| p.step < rule.steps.len();
    if is_exploit(event) && live.len() > 0 {
        assert(moved.drop_last() =~= live.drop_last());
        assert(moved.last().step == 2);
        reveal(Seq::filter);
        lemma_filter_all(live.drop_last(), open);
        assert(moved.filter(open) == live.drop_last());
    } else {
        assert(moved =~= live);
    }
}

proof fn lemma_completing_of_one_step(
    live: Seq<PartialMatch>,
    event: crate::models::NetworkEventView,
)
    requires
        forall|i: int| 0 <= i < live.len() ==> (#[trigger] live[i]).step == 1,
    ensures
        default_rule().completing(live, event) == (if is_exploit(event) {
            live.len() - 1
        } else {
            -1
        }),
    decreases live.len(),
{
    if live.len() > 0 {
        lemma_completing_of_one_step(live.drop_last(), event);
    }
}

proof fn lemma_filter_all<A>(s: Seq<A>, keep: spec_fn(A) -> bool)
    requires
        forall|i: int| 0 <= i < s.len() ==> keep(#[trigger] s[i]),
    ensures
        s.filter(keep) == s,
    decreases s.len(),
{
    reveal(Seq::filter);
    if s.len() > 0 {
        lemma_filter_all(s.drop_last(), keep);
        assert(s =~= s.drop_last().push(s.last()));
    }
}

/// What an engine remembers after a run of events, each with the clock reading at
/// which it came.
pub open spec fn after_run(
    start: CepView,
    run: Seq<(crate::models::NetworkEventView, u128)>,
) -> CepView
    decreases run.len(),
{
    if run.len() == 0 {
        start
    } else {
        after_run(start, run.drop_last()).after(run.last().0, run.last().1)
    }
}

/// What an engine with the default rule remembers after a run of events.
pub open spec fn after_events(
    run: Seq<(crate::models::NetworkEventView, u128)>,
) -> CepView {
    after_run(
        CepView { rules: seq![default_rule()], active: seq![Map::empty()], next_id: 1 },
        run,
    )
}

/// The events of source `src` in a run.
pub open spec fn events_of(
    run: Seq<(crate::models::NetworkEventView, u128)>,
    src: u32,
) -> Seq<(crate::models::NetworkEventView, u128)> {
    run.filter(|e: (crate::models::NetworkEventView, u128)| e.0.src_ip == src)
}

proof fn lemma_matches_of_source(
    start: CepView,
    run: Seq<(crate::models::NetworkEventView, u128)>,
    src: u32,
)
    requires
        start.wf(),
    ensures
        after_run(start, run).wf(),
        after_run(start, run).rules == start.rules,
        after_run(start, events_of(run, src)).wf(),
        after_run(start, events_of(run, src)).rules == start.rules,
        forall|j: int|
            0 <= j < start.rules.len() ==> #[trigger] after_run(start, run).partials(j, src)
                == after_run(start, events_of(run, src)).partials(j, src),
    decreases run.len(),
{
    reveal(Seq::filter);
    if run.len() > 0 {
        let before = run.drop_last();
        let (event, now) = run.last();
        lemma_matches_of_source(start, before, src);
        let m = after_run(start, before);
        let own = after_run(start, events_of(before, src));
        if event.src_ip == src {
            assert(events_of(run, src) =~= events_of(before, src).push(run.last()));
            assert(events_of(run, src).drop_last() =~= events_of(before, src));
        }
        assert forall|j: int| 0 <= j < start.rules.len() implies #[trigger] after_run(
            start,
            run,
        ).partials(j, src) == after_run(start, events_of(run, src)).partials(j, src) by {
            assert(m.partials(j, src) == own.partials(j, src));
        }
    }
}

proof fn lemma_alerts_of_same_matches(
    a: CepView,
    b: CepView,
    event: crate::models::NetworkEventView,
    now: u128,
    k: nat,
)
    requires
        a.rules == b.rules,
        k <= a.rules.len(),
        forall|j: int|
            0 <= j < a.rules.len() ==> #[trigger] a.partials(j, event.src_ip) == b.partials(
                j,
                event.src_ip,
            ),
    ensures
        crate::models::same_but_for_ids(a.alerts(event, now, k), b.alerts(event, now, k)),
    decreases k,
{
    if k > 0 {
        lemma_alerts_of_same_matches(a, b, event, now, (k - 1) as nat);
        assert(a.partials(k - 1, event.src_ip) == b.partials(k - 1, event.src_ip));
    }
}

/// Other sources neither make nor hide an alert: after any run, an event raises
/// the alerts that it raises after the events of its own source alone, but for
/// the identifiers.
pub proof fn law_other_sources_do_not_matter(
    start: CepView,
    run: Seq<(crate::models::NetworkEventView, u128)>,
    event: crate::models::NetworkEventView,
    now: u128,
)
    requires
        start.wf(),
    ensures
        crate::models::same_but_for_ids(
            after_run(start, run).alerts(event, now, start.rules.len()),
            after_run(start, events_of(run, event.src_ip)).alerts(event, now, start.rules.len()),
        ),
{
    lemma_matches_of_source(start, run, event.src_ip);
    lemma_alerts_of_same_matches(
        after_run(start, run),
        after_run(start, events_of(run, event.src_ip)),
        event,
        now,
        start.rules.len(),
    );
}

/// The match `p` of source `src` was started by an event of the run.
pub open spec fn started_in(
    run: Seq<(crate::models::NetworkEventView, u128)>,
    src: u32,
    p: PartialMatch,
) -> bool {
    exists|i: int|
        0 <= i < run.len() && (#[trigger] run[i]).0.src_ip == src && crate::models::is_syn(run[i].0)
            && run[i].1 == p.started_at
}

pub proof fn lemma_matches_were_started(run: Seq<(crate::models::NetworkEventView, u128)>, src: u32)
    ensures
        after_events(run).wf(),
        after_events(run).rules == seq![default_rule()],
        forall|i: int|
            0 <= i < after_events(run).partials(0, src).len() ==> {
                let p = #[trigger] after_events(run).partials(0, src)[i];
                p.step == 1 && started_in(run, src, p)
            },
    decreases run.len(),
{
    if run.len() > 0 {
        let before = run.drop_last();
        let (event, now) = run.last();
        lemma_matches_were_started(before, src);
        let old_partials = after_events(before).partials(0, src);
        let partials = after_events(run).partials(0, src);
        let rule = default_rule();
        let keep = |p: PartialMatch| rule.is_live(p, now);
        assert forall|p: PartialMatch| started_in(before, src, p) implies started_in(run, src, p) by {
            let i = choose|i: int|
                0 <= i < before.len() && (#[trigger] before[i]).0.src_ip == src
                    && crate::models::is_syn(before[i].0) && before[i].1 == p.started_at;
            assert(run[i] == before[i]);
        }
        if src == event.src_ip {
            lemma_default_rule_after(old_partials, event, now);
            assert(partials == rule.after(old_partials, event, now));
            assert forall|i: int| 0 <= i < partials.len() implies {
                let p = #[trigger] partials[i];
                p.step == 1 && started_in(run, src, p)
            } by {
                let live = rule.live(old_partials, now);
                if i < live.len() && partials[i] == live[i] {
                    assert(live.contains(live[i]));
                    lemma_filter_members(old_partials, keep, live[i]);
                    let k = choose|k: int|
                        0 <= k < old_partials.len() && old_partials[k] == live[i];
                    assert(started_in(before, src, old_partials[k]));
                } else {
                    assert(run[run.len() - 1].0.src_ip == src);
                }
            }
        } else {
            assert(partials == old_partials);
        }
    }
}

/// An alert has a cause: whatever came before, an event raises the default
/// rule's alert only if it carries the marker and the same source sent a
/// connection attempt within the window before it.
pub proof fn law_alert_follows_probe(run: Seq<(crate::models::NetworkEventView, u128)>)
    requires
        run.len() > 0,
        after_events(run.drop_last()).alerts(run.last().0, run.last().1, 1).len() > 0,
    ensures
        is_exploit(run.last().0),
        exists|i: int|
            0 <= i < run.len() - 1 && (#[trigger] run[i]).0.src_ip == run.last().0.src_ip
                && crate::models::is_syn(run[i].0) && crate::time::elapsed(run.last().1, run[i].1)
                <= default_rule().window,
{
    let before = run.drop_last();
    let (event, now) = run.last();
    let m = after_events(before);
    lemma_matches_were_started(before, event.src_ip);
    let partials = m.partials(0, event.src_ip);
    let rule = default_rule();
    reveal_with_fuel(CepView::alerts, 2);
    assert(m.fires(0, event, now));
    lemma_default_rule_after(partials, event, now);
    let live = rule.live(partials, now);
    let keep = |p: PartialMatch| rule.is_live(p, now);
    assert(live.contains(live[0]));
    lemma_filter_members(partials, keep, live[0]);
    let k = choose|k: int| 0 <= k < partials.len() && partials[k] == live[0];
    assert(started_in(before, event.src_ip, partials[k]));
    let i = choose|i: int|
        0 <= i < before.len() && (#[trigger] before[i]).0.src_ip == event.src_ip
            && crate::models::is_syn(before[i].0) && before[i].1 == partials[k].started_at;
    assert(run[i] == before[i]);
}

proof fn lemma_match_stays(
    run: Seq<(crate::models::NetworkEventView, u128)>,
    i: int,
    deadline: u128,
)
    requires
        0 <= i < run.len(),
        crate::models::is_syn(run[i].0),
        crate::time::elapsed(deadline, run[i].1) <= default_rule().window,
        forall|j: int| i <= j < run.len() ==> (#[trigger] run[j]).1 <= deadline,
        forall|j: int|
            i < j < run.len() ==> !((#[trigger] run[j]).0.src_ip == run[i].0.src_ip && is_exploit(
                run[j].0,
            )),
    ensures
        after_events(run).partials(0, run[i].0.src_ip).contains(
            PartialMatch { step: 1, started_at: run[i].1 },
        ),
    decreases run.len(),
{
    let before = run.drop_last();
    let (event, now) = run.last();
    let src = run[i].0.src_ip;
    let p = PartialMatch { step: 1, started_at: run[i].1 };
    let rule = default_rule();
    lemma_matches_were_started(before, src);
    let old_partials = after_events(before).partials(0, src);
    let partials = after_events(run).partials(0, src);
    if src == event.src_ip {
        lemma_default_rule_after(old_partials, event, now);
        assert(partials == rule.after(old_partials, event, now));
    } else {
        assert(partials == old_partials);
    }
    if i == run.len() - 1 {
        assert(partials.last() == p);
    } else {
        assert forall|j: int| i <= j < before.len() implies (#[trigger] before[j]).1 <= deadline by {
            assert(run[j] == before[j]);
        }
        assert forall|j: int| i < j < before.len() implies !((#[trigger] before[j]).0.src_ip
            == before[i].0.src_ip && is_exploit(before[j].0)) by {
            assert(run[j] == before[j]);
        }
        lemma_match_stays(before, i, deadline);
        assert(run[run.len() - 1].1 <= deadline);
        if src == event.src_ip {
            let keep = |p: PartialMatch| rule.is_live(p, now);
            lemma_filter_members(old_partials, keep, p);
            let live = rule.live(old_partials, now);
            let k = choose|k: int| 0 <= k < live.len() && live[k] == p;
            assert(partials[k] == p);
        }
    }
}

/// A sequence within the window fires: where a source sent a connection attempt
/// and then, within the window and with no exploit of its own in between, an
/// event with the marker, that event raises exactly the default rule's alert,
/// whatever else came before and in between.
pub proof fn law_sequence_within_window_fires(
    run: Seq<(crate::models::NetworkEventView, u128)>,
    i: int,
)
    requires
        0 <= i < run.len() - 1,
        run[i].0.src_ip == run.last().0.src_ip,
        crate::models::is_syn(run[i].0),
        is_exploit(run.last().0),
        crate::time::elapsed(run.last().1, run[i].1) <= default_rule().window,
        forall|j: int| i <= j < run.len() ==> (#[trigger] run[j]).1 <= run.last().1,
        forall|j: int|
            i < j < run.len() - 1 ==> !((#[trigger] run[j]).0.src_ip == run[i].0.src_ip
                && is_exploit(run[j].0)),
    ensures
        after_events(run.drop_last()).alerts(run.last().0, run.last().1, 1) == seq![
            default_rule().alert(run.last().0, after_events(run.drop_last()).next_id),
        ],
{
    let before = run.drop_last();
    let (event, now) = run.last();
    let src = event.src_ip;
    assert forall|j: int| i <= j < before.len() implies (#[trigger] before[j]).1 <= now by {
        assert(run[j] == before[j]);
    }
    assert forall|j: int| i < j < before.len() implies !((#[trigger] before[j]).0.src_ip
        == before[i].0.src_ip && is_exploit(before[j].0)) by {
        assert(run[j] == before[j]);
    }
    lemma_match_stays(before, i, now);
    lemma_matches_were_started(before, src);
    let m = after_events(before);
    let partials = m.partials(0, src);
    let rule = default_rule();
    let p = PartialMatch { step: 1, started_at: run[i].1 };
    let keep = |p: PartialMatch| rule.is_live(p, now);
    lemma_filter_members(partials, keep, p);
    lemma_default_rule_after(partials, event, now);
    reveal_with_fuel(CepView::alerts, 2);
    assert(m.fires(0, event, now));
    assert(m.alerts(event, now, 0).len() == 0);
    assert(m.alerts(event, now, 1) =~= seq![rule.alert(event, m.next_id)]);
}

} // verus!
