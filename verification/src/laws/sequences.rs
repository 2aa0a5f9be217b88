//! Sequences: which events raise the alert of a rule.

use vstd::prelude::*;
use vstd::string::*;

use crate::detection::cep::{Condition, PartialMatch};
use crate::models::{DetectorKind, Severity};

verus! {

/// The bytes of `passwd` stand in `payload` from `at` on.
pub open spec fn marker_at(payload: Seq<u8>, at: int) -> bool {
    &&& 0 <= at && at + 6 <= payload.len()
    &&& payload[at] == 0x70u8 && payload[at + 1] == 0x61u8 && payload[at + 2] == 0x73u8
    &&& payload[at + 3] == 0x73u8 && payload[at + 4] == 0x77u8 && payload[at + 5] == 0x64u8
}

/// An event meets a condition if and only if: its flags are those of a connection
/// attempt; `passwd` stands somewhere in its payload; its destination port is
/// above the given one.
pub proof fn law_conditions(event: crate::models::NetworkEventView, port: u16)
    ensures
        crate::detection::cep::meets(Condition::IsSynOnly, event)
            <==> crate::laws::opens_connection(event),
        crate::detection::cep::meets(Condition::HasSignaturePayload, event) <==> exists|at: int|
            marker_at(event.payload_sample, at),
        crate::detection::cep::meets(Condition::DistinctPortAbove(port), event) <==> port
            < event.dst_port,
        crate::detection::cep::is_exploit(event) <==> crate::laws::stands_in(
            event.payload_sample,
            "passwd"@,
        ),
{
    let p = event.payload_sample;
    let text = "passwd"@;
    reveal_strlit("passwd");
    crate::laws::law_attempt_by_its_flags(event);
    crate::laws::law_search_finds_bytes(p, text);
    if crate::laws::stands_in(p, text) {
        let at = choose|at: int| crate::laws::stands_at(p, text, at);
        assert(p[at + 0] == text[0] as u8);
        assert(p[at + 1] == text[1] as u8 && p[at + 2] == text[2] as u8);
        assert(p[at + 3] == text[3] as u8 && p[at + 4] == text[4] as u8);
        assert(p[at + 5] == text[5] as u8);
        assert(marker_at(p, at));
    }
    if exists|at: int| marker_at(p, at) {
        let at = choose|at: int| marker_at(p, at);
        assert(crate::laws::stands_at(p, text, at));
    }
}

/// How many connection attempts source `src` makes from place `from` up to before
/// place `to` of a run.
pub open spec fn probes(
    run: Seq<(crate::models::NetworkEventView, u128)>,
    src: u32,
    from: int,
    to: int,
) -> nat
    decreases to - from,
{
    if to <= from {
        0
    } else {
        probes(run, src, from, to - 1) + if run[to - 1].0.src_ip == src
            && crate::laws::opens_connection(run[to - 1].0) {
            1nat
        } else {
            0nat
        }
    }
}

/// How many events with `passwd` in their payload source `src` sends from place
/// `from` up to before place `to` of a run.
pub open spec fn exploits(
    run: Seq<(crate::models::NetworkEventView, u128)>,
    src: u32,
    from: int,
    to: int,
) -> nat
    decreases to - from,
{
    if to <= from {
        0
    } else {
        exploits(run, src, from, to - 1) + if run[to - 1].0.src_ip == src && crate::laws::stands_in(
            run[to - 1].0.payload_sample,
            "passwd"@,
        ) {
            1nat
        } else {
            0nat
        }
    }
}

/// From the connection attempt at place `k` up to before place `to`, source `src`
/// has made more attempts than it sent exploits after the first of them.
pub open spec fn open_since(
    run: Seq<(crate::models::NetworkEventView, u128)>,
    src: u32,
    k: int,
    to: int,
) -> bool {
    &&& 0 <= k < to
    &&& run[k].0.src_ip == src
    &&& crate::laws::opens_connection(run[k].0)
    &&& probes(run, src, k, to) > exploits(run, src, k + 1, to)
}

/// The moments of a run do not decrease.
pub open spec fn in_order(run: Seq<(crate::models::NetworkEventView, u128)>) -> bool {
    forall|i: int, j: int|
        0 <= i <= j < run.len() ==> (#[trigger] run[i]).1 <= (#[trigger] run[j]).1
}

proof fn lemma_counts_of_prefix(
    run: Seq<(crate::models::NetworkEventView, u128)>,
    longer: Seq<(crate::models::NetworkEventView, u128)>,
    src: u32,
    from: int,
    to: int,
)
    requires
        0 <= from,
        to <= run.len() <= longer.len(),
        forall|i: int| 0 <= i < run.len() ==> #[trigger] run[i] == longer[i],
    ensures
        probes(run, src, from, to) == probes(longer, src, from, to),
        exploits(run, src, from, to) == exploits(longer, src, from, to),
    decreases to - from,
{
    if from < to {
        lemma_counts_of_prefix(run, longer, src, from, to - 1);
        assert(run[to - 1] == longer[to - 1]);
    }
}

/// Among matches in the order of their start, those that are live are the last
/// ones.
proof fn lemma_live_is_a_tail(partials: Seq<PartialMatch>, now: u128) -> (c: int)
    requires
        forall|i: int, j: int|
            0 <= i <= j < partials.len() ==> (#[trigger] partials[i]).started_at <= (
            #[trigger] partials[j]).started_at,
    ensures
        0 <= c <= partials.len(),
        crate::detection::cep::default_rule().live(partials, now) == partials.skip(c),
        forall|i: int|
            0 <= i < c ==> !crate::detection::cep::default_rule().is_live(
                #[trigger] partials[i],
                now,
            ),
        forall|i: int|
            c <= i < partials.len() ==> crate::detection::cep::default_rule().is_live(
                #[trigger] partials[i],
                now,
            ),
    decreases partials.len(),
{
    let rule = crate::detection::cep::default_rule();
    let keep = |p: PartialMatch| rule.is_live(p, now);
    reveal(Seq::filter);
    if partials.len() == 0 {
        assert(rule.live(partials, now) =~= partials.skip(0));
        0
    } else {
        let before = partials.drop_last();
        assert forall|i: int, j: int| 0 <= i <= j < before.len() implies (
        #[trigger] before[i]).started_at <= (#[trigger] before[j]).started_at by {
            assert(partials[i].started_at <= partials[j].started_at);
        }
        let c = lemma_live_is_a_tail(before, now);
        let last = partials[partials.len() - 1];
        assert forall|i: int| 0 <= i < c implies !rule.is_live(#[trigger] partials[i], now) by {
            assert(before[i] == partials[i]);
        }
        if rule.is_live(last, now) {
            assert forall|i: int| c <= i < partials.len() implies rule.is_live(
                #[trigger] partials[i],
                now,
            ) by {
                if i < before.len() {
                    assert(before[i] == partials[i]);
                }
            }
            assert(partials.filter(keep) =~= partials.skip(c));
            c
        } else {
            if c < before.len() {
                assert(rule.is_live(before[c], now));
                assert(partials[c].started_at <= last.started_at);
            }
            assert(partials.filter(keep) =~= partials.skip(partials.len() as int));
            partials.len() as int
        }
    }
}

/// The attempt at place `k` is the match `q` of the list: as many attempts are open
/// since then as there are matches from `q` on.
spec fn is_match(
    run: Seq<(crate::models::NetworkEventView, u128)>,
    src: u32,
    partials: Seq<PartialMatch>,
    q: int,
    k: int,
) -> bool {
    &&& 0 <= k < run.len()
    &&& run[k].0.src_ip == src
    &&& crate::laws::opens_connection(run[k].0)
    &&& partials[q].started_at == run[k].1
    &&& probes(run, src, k, run.len() as int) - exploits(run, src, k + 1, run.len() as int)
        == partials.len() - q
}

/// The match `q` of the list is an open attempt of the run.
spec fn has_attempt(
    run: Seq<(crate::models::NetworkEventView, u128)>,
    src: u32,
    partials: Seq<PartialMatch>,
    q: int,
) -> bool {
    exists|k: int| is_match(run, src, partials, q, k)
}

/// The list holds one step of each match, in the order of their start, and each is
/// an open attempt of the run.
spec fn is_list_of_matches(
    run: Seq<(crate::models::NetworkEventView, u128)>,
    src: u32,
    partials: Seq<PartialMatch>,
) -> bool {
    &&& forall|q: int| 0 <= q < partials.len() ==> (#[trigger] partials[q]).step == 1
    &&& forall|i: int, j: int|
        0 <= i <= j < partials.len() ==> (#[trigger] partials[i]).started_at <= (
        #[trigger] partials[j]).started_at
    &&& forall|q: int|
        0 <= q < partials.len() ==> #[trigger] has_attempt(run, src, partials, q)
}

proof fn lemma_match_of_prefix(
    run: Seq<(crate::models::NetworkEventView, u128)>,
    src: u32,
    known: Seq<PartialMatch>,
    r: int,
    k: int,
)
    requires
        run.len() > 0,
        is_match(run.drop_last(), src, known, r, k),
    ensures
        0 <= k < run.len() - 1,
        run[k].0.src_ip == src && crate::laws::opens_connection(run[k].0),
        known[r].started_at == run[k].1,
        probes(run, src, k, run.len() - 1) - exploits(run, src, k + 1, run.len() - 1)
            == known.len() - r,
{
    let before = run.drop_last();
    assert(before[k] == run[k]);
    lemma_counts_of_prefix(before, run, src, k, run.len() - 1);
    lemma_counts_of_prefix(before, run, src, k + 1, run.len() - 1);
}

proof fn lemma_list_after_other(
    run: Seq<(crate::models::NetworkEventView, u128)>,
    src: u32,
    known: Seq<PartialMatch>,
)
    requires
        run.len() > 0,
        run.last().0.src_ip != src,
        is_list_of_matches(run.drop_last(), src, known),
    ensures
        is_list_of_matches(run, src, known),
{
    assert(run[run.len() - 1] == run.last());
    assert forall|q: int| 0 <= q < known.len() implies #[trigger] has_attempt(
        run,
        src,
        known,
        q,
    ) by {
        assert(has_attempt(run.drop_last(), src, known, q));
        let k = choose|k: int| is_match(run.drop_last(), src, known, q, k);
        lemma_match_of_prefix(run, src, known, q, k);
        assert(is_match(run, src, known, q, k));
    }
}

proof fn lemma_list_after_own(
    run: Seq<(crate::models::NetworkEventView, u128)>,
    src: u32,
    known: Seq<PartialMatch>,
)
    requires
        run.len() > 0,
        in_order(run),
        run.last().0.src_ip == src,
        is_list_of_matches(run.drop_last(), src, known),
    ensures
        is_list_of_matches(
            run,
            src,
            crate::detection::cep::default_rule().after(known, run.last().0, run.last().1),
        ),
{
    let before = run.drop_last();
    let n = before.len() as int;
    let (event, now) = run.last();
    let rule = crate::detection::cep::default_rule();
    let partials = rule.after(known, event, now);
    assert(run[n] == run.last());
    law_conditions(event, 0);
    crate::laws::law_attempt_by_its_flags(event);
    crate::detection::cep::lemma_default_rule_after(known, event, now);
    let c = lemma_live_is_a_tail(known, now);
    let live = rule.live(known, now);
    let taken = crate::detection::cep::is_exploit(event) && live.len() > 0;
    let kept = if taken {
        live.drop_last()
    } else {
        live
    };
    assert forall|q: int| 0 <= q < kept.len() implies (#[trigger] partials[q]) == known[c + q]
        && partials[q].started_at <= now && has_attempt(run, src, partials, q) by {
        let r = c + q;
        assert(has_attempt(before, src, known, r));
        let k = choose|k: int| is_match(before, src, known, r, k);
        lemma_match_of_prefix(run, src, known, r, k);
        assert(run[k].1 <= run[n].1);
        assert(is_match(run, src, partials, q, k));
    }
    assert forall|q: int| 0 <= q < partials.len() implies #[trigger] has_attempt(
        run,
        src,
        partials,
        q,
    ) by {
        if q < kept.len() {
            assert(partials[q] == known[c + q]);
        } else {
            assert(probes(run, src, n, n) == 0);
            assert(is_match(run, src, partials, q, n));
        }
    }
    assert forall|i: int, j: int| 0 <= i <= j < partials.len() implies (
    #[trigger] partials[i]).started_at <= (#[trigger] partials[j]).started_at by {
        if j < kept.len() {
            assert(known[c + i].started_at <= known[c + j].started_at);
        }
    }
}

proof fn lemma_matches_are_open_attempts(
    run: Seq<(crate::models::NetworkEventView, u128)>,
    src: u32,
)
    requires
        in_order(run),
    ensures
        crate::detection::cep::after_events(run).rules == seq![
            crate::detection::cep::default_rule(),
        ],
        crate::detection::cep::after_events(run).wf(),
        is_list_of_matches(
            run,
            src,
            crate::detection::cep::after_events(run).partials(0, src),
        ),
    decreases run.len(),
{
    crate::detection::cep::lemma_matches_were_started(run, src);
    if run.len() > 0 {
        let before = run.drop_last();
        assert forall|i: int, j: int| 0 <= i <= j < before.len() implies (
        #[trigger] before[i]).1 <= (#[trigger] before[j]).1 by {
            assert(run[i].1 <= run[j].1);
        }
        lemma_matches_are_open_attempts(before, src);
        let m = crate::detection::cep::after_events(before);
        let known = m.partials(0, src);
        let partials = crate::detection::cep::after_events(run).partials(0, src);
        if run.last().0.src_ip == src {
            lemma_list_after_own(run, src, known);
            assert(partials == crate::detection::cep::default_rule().after(
                known,
                run.last().0,
                run.last().1,
            ));
        } else {
            lemma_list_after_other(run, src, known);
            assert(partials == known);
        }
    }
}

/// Attempts that are open since place `k` are matches in progress, all of them
/// started no earlier.
proof fn lemma_open_attempts_are_matches(
    run: Seq<(crate::models::NetworkEventView, u128)>,
    src: u32,
    k: int,
    now: u128,
)
    requires
        in_order(run),
        0 <= k < run.len(),
        run[k].0.src_ip == src,
        crate::laws::opens_connection(run[k].0),
        run.last().1 <= now,
        now - run[k].1 <= 5_000_000_000,
    ensures
        ({
            let partials = crate::detection::cep::after_events(run).partials(0, src);
            let open = probes(run, src, k, run.len() as int) - exploits(
                run,
                src,
                k + 1,
                run.len() as int,
            );
            &&& partials.len() >= open
            &&& forall|q: int|
                0 <= q < partials.len() && partials.len() - q <= open ==> (
                #[trigger] partials[q]).started_at >= run[k].1
        }),
    decreases run.len(),
{
    let before = run.drop_last();
    let n = before.len() as int;
    let (event, t) = run.last();
    assert(run[n] == run.last());
    assert forall|i: int, j: int| 0 <= i <= j < before.len() implies (#[trigger] before[i]).1 <= (
    #[trigger] before[j]).1 by {
        assert(run[i].1 <= run[j].1);
    }
    lemma_matches_are_open_attempts(before, src);
    lemma_counts_of_prefix(before, run, src, k, n);
    lemma_counts_of_prefix(before, run, src, k + 1, n);
    let known = crate::detection::cep::after_events(before).partials(0, src);
    let partials = crate::detection::cep::after_events(run).partials(0, src);
    law_conditions(event, 0);
    crate::laws::law_attempt_by_its_flags(event);
    let rule = crate::detection::cep::default_rule();
    if k == n {
        assert(probes(run, src, n, n) == 0);
        crate::detection::cep::lemma_default_rule_after(known, event, t);
    } else {
        assert(before[n - 1] == before.last());
        assert(run[n - 1].1 <= run[n].1);
        assert(before[k] == run[k]);
        lemma_open_attempts_are_matches(before, src, k, now);
        if event.src_ip == src {
            crate::detection::cep::lemma_default_rule_after(known, event, t);
            let c = lemma_live_is_a_tail(known, t);
            let open = probes(before, src, k, n) - exploits(before, src, k + 1, n);
            if known.len() - open < c && open > 0 {
                assert(!rule.is_live(known[c - 1], t));
                assert(known[c - 1].started_at >= run[k].1);
            }
            let live = rule.live(known, t);
            assert(live == known.skip(c));
            let open_now = probes(run, src, k, n + 1) - exploits(run, src, k + 1, n + 1);
            assert forall|q: int|
                0 <= q < partials.len() && partials.len() - q <= open_now implies (
            #[trigger] partials[q]).started_at >= run[k].1 by {
                assert(run[k].1 <= run[n].1);
                if q < live.len() && partials[q] == live[q] {
                    assert(live[q] == known[c + q]);
                }
            }
        }
    }
}

/// Which events raise the alert of the default rule: over any run of events in the
/// order of their moments, the last one raises it if and only if `passwd` stands
/// in its payload and there is an attempt of the same source, no more than five
/// seconds before, since which the source has made more attempts than it has sent
/// exploits: each attempt serves one exploit. What other sources send does not
/// count.
pub proof fn law_alert_iff_attempt_is_open(run: Seq<(crate::models::NetworkEventView, u128)>)
    requires
        run.len() > 0,
        in_order(run),
    ensures
        ({
            let n = run.len() - 1;
            let (event, now) = run[n];
            let m = crate::detection::cep::after_events(run.drop_last());
            let alerts = m.alerts(event, now, m.rules.len());
            let fires = crate::laws::stands_in(event.payload_sample, "passwd"@) && exists|k: int|
                #[trigger] open_since(run, event.src_ip, k, n) && now - run[k].1 <= 5_000_000_000;
            &&& alerts.len() == (if fires {
                1nat
            } else {
                0nat
            })
            &&& fires ==> alerts[0] == (crate::models::AlertView {
                id: m.next_id,
                timestamp_ms: event.timestamp_ms,
                rule_name: "probe-then-exploit-attempt"@,
                severity: Severity::Critical,
                src_ip: crate::models::ip_text(event.src_ip),
                dst_ip: crate::models::ip_text(event.dst_ip),
                detail:
                    "CEP rule 'probe-then-exploit-attempt' completed: 2 steps matched within "@
                    + crate::time::span_text(5_000_000_000),
                detector: DetectorKind::Cep,
            })
        }),
{
    let before = run.drop_last();
    let n = before.len() as int;
    let (event, now) = run[n];
    let src = event.src_ip;
    assert forall|i: int, j: int| 0 <= i <= j < before.len() implies (#[trigger] before[i]).1 <= (
    #[trigger] before[j]).1 by {
        assert(run[i].1 <= run[j].1);
    }
    lemma_matches_are_open_attempts(before, src);
    let m = crate::detection::cep::after_events(before);
    let partials = m.partials(0, src);
    let rule = crate::detection::cep::default_rule();
    crate::detection::cep::lemma_default_rule_after(partials, event, now);
    let c = lemma_live_is_a_tail(partials, now);
    let live = rule.live(partials, now);
    law_conditions(event, 0);
    let fires = crate::laws::stands_in(event.payload_sample, "passwd"@) && exists|k: int| #[trigger]
        open_since(run, src, k, n) && now - run[k].1 <= 5_000_000_000;
    if live.len() > 0 {
        let q = partials.len() - 1;
        assert(rule.is_live(partials[q], now));
        assert(has_attempt(before, src, partials, q));
        let k = choose|k: int| is_match(before, src, partials, q, k);
        assert(before[k] == run[k]);
        assert(run[k].1 <= run[n].1);
        lemma_counts_of_prefix(before, run, src, k, n);
        lemma_counts_of_prefix(before, run, src, k + 1, n);
        assert(open_since(run, src, k, n));
    }
    if exists|k: int| #[trigger] open_since(run, src, k, n) && now - run[k].1 <= 5_000_000_000 {
        let k = choose|k: int| #[trigger]
            open_since(run, src, k, n) && now - run[k].1 <= 5_000_000_000;
        assert(before[k] == run[k]);
        assert(before[n - 1] == before.last());
        assert(run[n - 1].1 <= run[n].1);
        lemma_counts_of_prefix(before, run, src, k, n);
        lemma_counts_of_prefix(before, run, src, k + 1, n);
        lemma_open_attempts_are_matches(before, src, k, now);
        let q = partials.len() - 1;
        assert(partials[q].started_at >= run[k].1);
        assert(rule.is_live(partials[q], now));
        assert(c <= q);
    }
    reveal_with_fuel(crate::detection::cep::CepView::alerts, 2);
    assert(m.alerts(event, now, 0).len() == 0);
    assert(m.fires(0, event, now) == fires);
    if fires {
        assert(m.alerts(event, now, 1) =~= seq![rule.alert(event, m.next_id)]);
        lemma_detail_of_default_rule();
    }
}

proof fn lemma_detail_of_default_rule()
    ensures
        crate::detection::cep::default_rule().detail()
            == "CEP rule 'probe-then-exploit-attempt' completed: 2 steps matched within "@
            + crate::time::span_text(5_000_000_000),
{
    reveal_strlit("CEP rule '");
    reveal_strlit("probe-then-exploit-attempt");
    reveal_strlit("' completed: ");
    reveal_strlit(" steps matched within ");
    reveal_strlit("CEP rule 'probe-then-exploit-attempt' completed: 2 steps matched within ");
    let rule = crate::detection::cep::default_rule();
    assert(crate::text::decimal(2) =~= seq!['2']);
    assert("CEP rule '"@ + rule.name + "' completed: "@ + crate::text::decimal(rule.steps.len())
        + " steps matched within "@
        =~= "CEP rule 'probe-then-exploit-attempt' completed: 2 steps matched within "@);
}

/// The matches in progress of a source under `rule` after a run of its events.
pub open spec fn matches_after(
    rule: crate::detection::cep::CepRuleView,
    run: Seq<(crate::models::NetworkEventView, u128)>,
) -> Seq<PartialMatch>
    decreases run.len(),
{
    if run.len() == 0 {
        Seq::empty()
    } else {
        rule.after(matches_after(rule, run.drop_last()), run.last().0, run.last().1)
    }
}

proof fn lemma_completing(
    rule: crate::detection::cep::CepRuleView,
    partials: Seq<PartialMatch>,
    event: crate::models::NetworkEventView,
)
    ensures
        ({
            let c = rule.completing(partials, event);
            &&& -1 <= c < partials.len()
            &&& c >= 0 ==> rule.completes(partials[c], event)
            &&& c < 0 ==> forall|j: int|
                0 <= j < partials.len() ==> !rule.completes(#[trigger] partials[j], event)
        }),
    decreases partials.len(),
{
    if partials.len() > 0 && !rule.completes(partials.last(), event) {
        lemma_completing(rule, partials.drop_last(), event);
        assert forall|j: int|
            rule.completing(partials, event) < 0 && 0 <= j < partials.len() implies !rule.completes(
            #[trigger] partials[j],
            event,
        ) by {
            if j < partials.len() - 1 {
                assert(partials.drop_last()[j] == partials[j]);
            }
        }
    }
}

proof fn lemma_first_stays_first<A>(s: Seq<A>, keep: spec_fn(A) -> bool)
    requires
        s.len() > 0,
        keep(s[0]),
    ensures
        s.filter(keep).len() > 0,
        s.filter(keep)[0] == s[0],
    decreases s.len(),
{
    reveal(Seq::filter);
    if s.len() == 1 {
        assert(s.drop_last() =~= Seq::empty());
        assert(s.drop_last().filter(keep).len() == 0);
    } else {
        lemma_first_stays_first(s.drop_last(), keep);
    }
}

/// The oldest match has met as many conditions as there were events, and the
/// others fewer.
spec fn leads(partials: Seq<PartialMatch>, met: int, since: u128) -> bool {
    &&& partials.len() > 0
    &&& partials[0].step == met && partials[0].started_at == since
    &&& forall|q: int| 1 <= q < partials.len() ==> (#[trigger] partials[q]).step < met
}

/// Of the live matches, the leading one still leads.
proof fn lemma_lead_is_live(
    rule: crate::detection::cep::CepRuleView,
    partials: Seq<PartialMatch>,
    met: int,
    since: u128,
    now: u128,
)
    requires
        leads(partials, met, since),
        now - since <= rule.window,
    ensures
        ({
            let live = rule.live(partials, now);
            &&& live.len() > 0 && live[0] == partials[0]
            &&& forall|q: int| 0 <= q < live.len() ==> (#[trigger] live[q]).step <= met
            &&& forall|q: int| 1 <= q < live.len() ==> (#[trigger] live[q]).step < met
        }),
{
    let keep = |p: PartialMatch| rule.is_live(p, now);
    let live = rule.live(partials, now);
    assert(keep(partials[0]));
    lemma_first_stays_first(partials, keep);
    let rest = partials.skip(1);
    lemma_filter_of_rest(partials, keep);
    assert forall|q: int| 1 <= q < live.len() implies (#[trigger] live[q]).step < met by {
        assert(live[q] == rest.filter(keep)[q - 1]);
        assert(rest.filter(keep).contains(live[q]));
        crate::detection::cep::lemma_filter_members(rest, keep, live[q]);
        let k = choose|k: int| 0 <= k < rest.len() && rest[k] == live[q];
        assert(partials[k + 1] == live[q]);
    }
}

proof fn lemma_filter_of_rest<A>(s: Seq<A>, keep: spec_fn(A) -> bool)
    requires
        s.len() > 0,
        keep(s[0]),
    ensures
        s.filter(keep) == seq![s[0]] + s.skip(1).filter(keep),
    decreases s.len(),
{
    reveal(Seq::filter);
    if s.len() == 1 {
        assert(s.drop_last() =~= Seq::empty());
        assert(s.drop_last().filter(keep) =~= Seq::empty());
        assert(s.skip(1) =~= Seq::empty());
        assert(s.filter(keep) =~= seq![s[0]] + s.skip(1).filter(keep));
    } else {
        lemma_filter_of_rest(s.drop_last(), keep);
        assert(s.drop_last().skip(1) =~= s.skip(1).drop_last());
        assert(s.skip(1).last() == s.last());
        assert(s.filter(keep) =~= seq![s[0]] + s.skip(1).filter(keep));
    }
}

/// Each event of `run` meets the condition in its place, within the window of the
/// rule since the first of them.
pub open spec fn meets_in_order(
    rule: crate::detection::cep::CepRuleView,
    run: Seq<(crate::models::NetworkEventView, u128)>,
) -> bool {
    &&& run.len() <= rule.steps.len()
    &&& forall|i: int|
        0 <= i < run.len() ==> {
            &&& crate::detection::cep::meets(rule.steps[i], (#[trigger] run[i]).0)
            &&& run[0].1 <= run[i].1 && run[i].1 - run[0].1 <= rule.window
        }
}

proof fn lemma_lead_grows(
    rule: crate::detection::cep::CepRuleView,
    run: Seq<(crate::models::NetworkEventView, u128)>,
)
    requires
        0 < run.len() < rule.steps.len() <= usize::MAX,
        meets_in_order(rule, run),
    ensures
        leads(matches_after(rule, run), run.len() as int, run[0].1),
        !rule.fires(matches_after(rule, run.drop_last()), run.last().0, run.last().1),
    decreases run.len(),
{
    let before = run.drop_last();
    let (event, now) = run.last();
    let n = before.len() as int;
    let partials = matches_after(rule, before);
    let live = rule.live(partials, now);
    let keep = |p: PartialMatch| rule.is_live(p, now);
    assert(run[n] == run.last());
    assert(crate::detection::cep::meets(rule.steps[n], run[n].0));
    if n == 0 {
        partials.lemma_filter_len(keep);
        assert(live.len() == 0);
    } else {
        assert forall|i: int| 0 <= i < before.len() implies {
            &&& crate::detection::cep::meets(rule.steps[i], (#[trigger] before[i]).0)
            &&& before[0].1 <= before[i].1 && before[i].1 - before[0].1 <= rule.window
        } by {
            assert(before[i] == run[i]);
        }
        lemma_lead_grows(rule, before);
        lemma_lead_is_live(rule, partials, n, run[0].1, now);
    }
    lemma_completing(rule, live, event);
    assert(rule.completing(live, event) < 0);
    let moved = rule.advanced(live, event);
    assert(rule.after(partials, event, now) == (if rule.starts(event) {
        moved.push(PartialMatch { step: 1, started_at: now })
    } else {
        moved
    }));
    if n > 0 {
        assert(rule.advances(live[0], event));
        assert(moved[0].step == n + 1);
    }
}

/// Conditions that are met in order within the window raise the alert: where a
/// source without a match in progress sends one event for each condition of a rule,
/// in their order and within its window, the last of them fires and none before.
pub proof fn law_conditions_met_in_order_fire(
    rule: crate::detection::cep::CepRuleView,
    run: Seq<(crate::models::NetworkEventView, u128)>,
    i: int,
)
    requires
        0 <= i < run.len(),
        run.len() == rule.steps.len() <= usize::MAX,
        meets_in_order(rule, run),
    ensures
        rule.fires(matches_after(rule, run.take(i)), run[i].0, run[i].1) <==> i == run.len() - 1,
{
    let upto = run.take(i + 1);
    assert(upto.drop_last() =~= run.take(i));
    assert(upto.last() == run[i]);
    assert forall|j: int| 0 <= j < upto.len() implies {
        &&& crate::detection::cep::meets(rule.steps[j], (#[trigger] upto[j]).0)
        &&& upto[0].1 <= upto[j].1 && upto[j].1 - upto[0].1 <= rule.window
    } by {
        assert(upto[j] == run[j]);
    }
    if i < run.len() - 1 {
        lemma_lead_grows(rule, upto);
    } else if i > 0 {
        let before = run.take(i);
        assert forall|j: int| 0 <= j < before.len() implies {
            &&& crate::detection::cep::meets(rule.steps[j], (#[trigger] before[j]).0)
            &&& before[0].1 <= before[j].1 && before[j].1 - before[0].1 <= rule.window
        } by {
            assert(before[j] == run[j]);
        }
        lemma_lead_grows(rule, before);
        let partials = matches_after(rule, before);
        assert(run[i].1 - run[0].1 <= rule.window);
        lemma_lead_is_live(rule, partials, i, run[0].1, run[i].1);
        lemma_completing(rule, rule.live(partials, run[i].1), run[i].0);
        assert(rule.completes(rule.live(partials, run[i].1)[0], run[i].0));
    }
}

/// A rule fires only with its last condition, and only on a match of the source
/// that has met all others within the window, unless it has no others.
pub proof fn law_rule_fires_with_its_last_condition(
    rule: crate::detection::cep::CepRuleView,
    partials: Seq<PartialMatch>,
    event: crate::models::NetworkEventView,
    now: u128,
)
    requires
        rule.fires(partials, event, now),
    ensures
        rule.steps.len() > 0,
        crate::detection::cep::meets(rule.steps.last(), event),
        rule.steps.len() == 1 || exists|q: int|
            0 <= q < partials.len() && (#[trigger] partials[q]).step + 1 == rule.steps.len() && now
                - partials[q].started_at <= rule.window,
{
    let live = rule.live(partials, now);
    let keep = |p: PartialMatch| rule.is_live(p, now);
    lemma_completing(rule, live, event);
    if rule.completing(live, event) >= 0 {
        let p = live[rule.completing(live, event)];
        assert(live.contains(p));
        crate::detection::cep::lemma_filter_members(partials, keep, p);
        let q = choose|q: int| 0 <= q < partials.len() && partials[q] == p;
        assert(partials[q].step + 1 == rule.steps.len());
    }
}

/// How many alerts an engine with the default rule raises over a run.
pub open spec fn alerts_over(run: Seq<(crate::models::NetworkEventView, u128)>) -> nat
    decreases run.len(),
{
    if run.len() == 0 {
        0
    } else {
        let m = crate::detection::cep::after_events(run.drop_last());
        alerts_over(run.drop_last()) + m.alerts(
            run.last().0,
            run.last().1,
            m.rules.len(),
        ).len()
    }
}

/// Identifiers of sequence alerts count on from one, whatever the run: the next
/// one is one more than the alerts so far, round at 2^64.
pub proof fn law_sequence_ids_go_on_counting(run: Seq<(crate::models::NetworkEventView, u128)>)
    ensures
        crate::detection::cep::after_events(run).next_id == ((1 + alerts_over(run))
            % 0x1_0000_0000_0000_0000) as u64,
    decreases run.len(),
{
    if run.len() > 0 {
        law_sequence_ids_go_on_counting(run.drop_last());
    }
}

/// The matches that started no longer ago than the window of the rule.
pub open spec fn recent(
    rule: crate::detection::cep::CepRuleView,
    partials: Seq<PartialMatch>,
    now: u128,
) -> Seq<PartialMatch> {
    partials.filter(|p: PartialMatch| now - p.started_at <= rule.window)
}

/// Matches go on one by one: an event that does not fire advances by one step each
/// match of its source that is not too old and whose next condition it meets, and
/// leaves the others as they are; where it meets the first of several conditions,
/// it starts one more match. Older matches are dropped.
pub proof fn law_matches_go_on_one_by_one(
    rule: crate::detection::cep::CepRuleView,
    partials: Seq<PartialMatch>,
    event: crate::models::NetworkEventView,
    now: u128,
)
    requires
        rule.steps.len() <= usize::MAX,
        !rule.fires(partials, event, now),
    ensures
        ({
            let old = recent(rule, partials, now);
            let new = rule.after(partials, event, now);
            let starts = rule.steps.len() > 1 && crate::detection::cep::meets(rule.steps[0], event);
            &&& new.len() == old.len() + (if starts {
                1int
            } else {
                0int
            })
            &&& starts ==> new.last().step == 1 && new.last().started_at == now
            &&& forall|j: int|
                0 <= j < old.len() ==> {
                    let p = #[trigger] old[j];
                    &&& new[j].started_at == p.started_at
                    &&& new[j].step == p.step + (if p.step < rule.steps.len()
                        && crate::detection::cep::meets(rule.steps[p.step as int], event) {
                        1int
                    } else {
                        0int
                    })
                }
        }),
{
    lemma_recent_is_live(rule, partials, now);
    lemma_completing(rule, rule.live(partials, now), event);
}

proof fn lemma_recent_is_live(
    rule: crate::detection::cep::CepRuleView,
    partials: Seq<PartialMatch>,
    now: u128,
)
    ensures
        rule.live(partials, now) == recent(rule, partials, now),
{
    let keep = |p: PartialMatch| rule.is_live(p, now);
    let young = |p: PartialMatch| now - p.started_at <= rule.window;
    assert forall|p: PartialMatch| #[trigger] keep(p) == young(p) by {}
    assert(keep =~= young);
}

/// A completed match is gone: after an event that fires, no match of its source has
/// met all conditions.
pub proof fn law_completed_matches_are_gone(
    rule: crate::detection::cep::CepRuleView,
    partials: Seq<PartialMatch>,
    event: crate::models::NetworkEventView,
    now: u128,
    j: int,
)
    requires
        rule.fires(partials, event, now),
        0 <= j < rule.after(partials, event, now).len(),
    ensures
        rule.after(partials, event, now)[j].step < rule.steps.len(),
{
    let moved = rule.advanced(rule.live(partials, now), event);
    let open = |p: PartialMatch| p.step < rule.steps.len();
    let kept = rule.unfinished(moved);
    law_rule_fires_with_its_last_condition(rule, partials, event, now);
    if j < kept.len() {
        assert(kept.contains(kept[j]));
        crate::detection::cep::lemma_filter_members(moved, open, kept[j]);
    }
}

} // verus!
