//! Signatures: which payloads raise which alerts.

use vstd::prelude::*;
use vstd::string::*;

use crate::models::{DetectorKind, Severity};

verus! {

/// How many places up to `end` there are in `payload` at which `text` ends.
pub open spec fn places(payload: Seq<u8>, text: Seq<char>, end: nat) -> nat
    decreases end,
{
    if end == 0 {
        0
    } else {
        places(payload, text, (end - 1) as nat) + if crate::laws::stands_at(
            payload,
            text,
            end - text.len(),
        ) {
            1nat
        } else {
            0nat
        }
    }
}

/// The names of the rules.
pub open spec fn rule_name(rule: int) -> Seq<char> {
    if rule == 0 {
        "path-traversal-passwd"@
    } else if rule == 1 {
        "sql-injection-union"@
    } else if rule == 2 {
        "xss-script-tag"@
    } else if rule == 3 {
        "windows-cmd-exec"@
    } else {
        "path-traversal-generic"@
    }
}

/// What the rules look for.
pub open spec fn rule_text(rule: int) -> Seq<char> {
    if rule == 0 {
        "/etc/passwd"@
    } else if rule == 1 {
        "UNION SELECT"@
    } else if rule == 2 {
        "<script>alert("@
    } else if rule == 3 {
        "cmd.exe"@
    } else {
        "../../"@
    }
}

/// How serious the rules are.
pub open spec fn rule_severity(rule: int) -> Severity {
    if rule == 0 || rule == 1 {
        Severity::High
    } else if rule == 2 || rule == 4 {
        Severity::Medium
    } else {
        Severity::Critical
    }
}

proof fn lemma_rules()
    ensures
        forall|a: int, b: int|
            0 <= a < 5 && 0 <= b < 5 && #[trigger] rule_name(a) == #[trigger] rule_name(b) ==> a
                == b,
        forall|p: int|
            0 <= p < 5 ==> #[trigger] crate::detection::signature::default_patterns()[p]
                == crate::text::ascii(rule_text(p)),
        forall|p: int| 0 <= p < 5 ==> 0 < (#[trigger] rule_text(p)).len(),
{
    reveal_strlit("path-traversal-passwd");
    reveal_strlit("sql-injection-union");
    reveal_strlit("xss-script-tag");
    reveal_strlit("windows-cmd-exec");
    reveal_strlit("path-traversal-generic");
    reveal_strlit("/etc/passwd");
    reveal_strlit("UNION SELECT");
    reveal_strlit("<script>alert(");
    reveal_strlit("cmd.exe");
    reveal_strlit("../../");
    assert forall|a: int, b: int|
        0 <= a < 5 && 0 <= b < 5 && #[trigger] rule_name(a) == #[trigger] rule_name(b) implies a
        == b by {
        assert(rule_name(a).len() == rule_name(b).len());
    }
}

/// The alerts on the occurrences that end up to `limit`.
spec fn alerts_up_to(
    event: crate::models::NetworkEventView,
    id: u64,
    limit: nat,
) -> Seq<crate::models::AlertView> {
    let found = crate::detection::signature::hits(event.payload_sample, limit);
    Seq::new(
        found.len(),
        |i: int|
            crate::detection::signature::signature_alert(
                event,
                crate::models::id_after(id, i as nat),
                found[i].0 as int,
            ),
    )
}

proof fn lemma_ends(payload: Seq<u8>, p: int, end: int)
    requires
        0 <= p < 5,
    ensures
        crate::detection::signature::ends_at(
            crate::detection::signature::default_patterns(),
            payload,
            p,
            end,
        ) <==> crate::laws::stands_at(payload, rule_text(p), end - rule_text(p).len()),
{
    lemma_rules();
    crate::laws::law_search_finds_bytes(payload, rule_text(p));
    let patterns = crate::detection::signature::default_patterns();
    assert(patterns[p] == crate::text::ascii(rule_text(p)));
    assert(patterns[p].len() == rule_text(p).len());
    assert(crate::text::occurs_at(payload, patterns[p], end - patterns[p].len())
        <==> crate::laws::stands_at(payload, rule_text(p), end - rule_text(p).len()));
}

proof fn lemma_alerts_up_to(event: crate::models::NetworkEventView, id: u64, limit: nat, rule: int)
    requires
        0 <= rule < 5,
        limit <= event.payload_sample.len() <= usize::MAX,
    ensures
        crate::laws::named(alerts_up_to(event, id, limit), rule_name(rule)) == places(
            event.payload_sample,
            rule_text(rule),
            limit,
        ),
        alerts_up_to(event, id, limit).len() == places(event.payload_sample, rule_text(0), limit)
            + places(event.payload_sample, rule_text(1), limit) + places(
            event.payload_sample,
            rule_text(2),
            limit,
        ) + places(event.payload_sample, rule_text(3), limit) + places(
            event.payload_sample,
            rule_text(4),
            limit,
        ),
        forall|i: int|
            0 <= i < crate::detection::signature::hits(event.payload_sample, limit).len() ==> (
            #[trigger] crate::detection::signature::hits(event.payload_sample, limit)[i]).0 < 5,
    decreases limit,
{
    let payload = event.payload_sample;
    let alerts = alerts_up_to(event, id, limit);
    if limit > 0 {
        let earlier = (limit - 1) as nat;
        lemma_alerts_up_to(event, id, earlier, rule);
        let before = alerts_up_to(event, id, earlier);
        let patterns = crate::detection::signature::default_patterns();
        let p = crate::detection::signature::pattern_ending(patterns, payload, 0, limit as int);
        crate::detection::signature::lemma_pattern_ending(patterns, payload, 0, limit as int);
        lemma_rules();
        assert forall|q: int| 0 <= q < 5 implies (#[trigger] crate::laws::stands_at(
            payload,
            rule_text(q),
            limit - rule_text(q).len(),
        ) <==> q == p) by {
            lemma_ends(payload, q, limit as int);
            if crate::detection::signature::ends_at(patterns, payload, q, limit as int) {
                crate::detection::signature::lemma_one_pattern_ends(payload, p, q, limit as int);
            }
        }
        assert(crate::laws::stands_at(payload, rule_text(0), limit - rule_text(0).len()) <==> 0
            == p);
        assert(crate::laws::stands_at(payload, rule_text(1), limit - rule_text(1).len()) <==> 1
            == p);
        assert(crate::laws::stands_at(payload, rule_text(2), limit - rule_text(2).len()) <==> 2
            == p);
        assert(crate::laws::stands_at(payload, rule_text(3), limit - rule_text(3).len()) <==> 3
            == p);
        assert(crate::laws::stands_at(payload, rule_text(4), limit - rule_text(4).len()) <==> 4
            == p);
        if p >= 0 {
            assert(alerts.drop_last() =~= before);
            assert(alerts.last().rule_name == rule_name(p));
            assert(rule_name(p) == rule_name(rule) ==> p == rule);
        } else {
            assert(alerts =~= before);
        }
    }
}

/// Which alerts a payload raises: of each rule as many as there are places in the
/// payload at which its text ends, overlapping ones included, and none besides.
/// They come in the order of these places, with consecutive identifiers, and each
/// says of its event and its rule what it should.
pub proof fn law_alerts_by_places(event: crate::models::NetworkEventView, id: u64)
    requires
        event.payload_sample.len() <= usize::MAX,
    ensures
        ({
            let payload = event.payload_sample;
            let n = payload.len();
            let alerts = crate::detection::signature::signature_alerts(event, id);
            &&& crate::laws::named(alerts, "path-traversal-passwd"@) == places(
                payload,
                "/etc/passwd"@,
                n,
            )
            &&& crate::laws::named(alerts, "sql-injection-union"@) == places(
                payload,
                "UNION SELECT"@,
                n,
            )
            &&& crate::laws::named(alerts, "xss-script-tag"@) == places(
                payload,
                "<script>alert("@,
                n,
            )
            &&& crate::laws::named(alerts, "windows-cmd-exec"@) == places(payload, "cmd.exe"@, n)
            &&& crate::laws::named(alerts, "path-traversal-generic"@) == places(
                payload,
                "../../"@,
                n,
            )
            &&& alerts.len() == places(payload, "/etc/passwd"@, n) + places(
                payload,
                "UNION SELECT"@,
                n,
            ) + places(payload, "<script>alert("@, n) + places(payload, "cmd.exe"@, n) + places(
                payload,
                "../../"@,
                n,
            )
            &&& exists|found: Seq<(int, int)>| is_told_by(event, id, alerts, found)
        }),
{
    let payload = event.payload_sample;
    let n = payload.len();
    let alerts = crate::detection::signature::signature_alerts(event, id);
    assert(alerts =~= alerts_up_to(event, id, n));
    lemma_alerts_up_to(event, id, n, 0);
    lemma_alerts_up_to(event, id, n, 1);
    lemma_alerts_up_to(event, id, n, 2);
    lemma_alerts_up_to(event, id, n, 3);
    lemma_alerts_up_to(event, id, n, 4);
    crate::detection::signature::lemma_hits_list(payload, n);
    let hits = crate::detection::signature::hits(payload, n);
    let found = Seq::new(hits.len(), |i: int| (hits[i].0 as int, hits[i].1 as int));
    assert forall|i: int| 0 <= i < alerts.len() implies crate::laws::stands_at(
        payload,
        rule_text((#[trigger] found[i]).0),
        found[i].1 - rule_text(found[i].0).len(),
    ) by {
        assert(hits[i].0 < 5);
        lemma_ends(payload, found[i].0, found[i].1);
    }
    assert forall|i: int, j: int| 0 <= i < j < alerts.len() implies (#[trigger] found[i]).1 <= (
    #[trigger] found[j]).1 by {
        assert(hits[i].1 <= hits[j].1);
    }
    assert forall|i: int| 0 <= i < alerts.len() implies 0 <= (#[trigger] found[i]).0 < 5
        && alerts[i] == alert_of(event, id, i, found[i].0) by {
        assert(hits[i].0 < 5);
    }
    assert(is_told_by(event, id, alerts, found));
}

/// The alert of `rule` on `event` in place `i`.
pub open spec fn alert_of(
    event: crate::models::NetworkEventView,
    id: u64,
    i: int,
    rule: int,
) -> crate::models::AlertView {
    crate::models::AlertView {
        id: ((id + i) % 0x1_0000_0000_0000_0000) as u64,
        timestamp_ms: event.timestamp_ms,
        rule_name: rule_name(rule),
        severity: rule_severity(rule),
        src_ip: crate::models::ip_text(event.src_ip),
        dst_ip: crate::models::ip_text(event.dst_ip),
        detail: "signature match for rule '"@ + rule_name(rule) + "' in payload sample"@,
        detector: DetectorKind::Signature,
    }
}

/// Alert by alert, `found` gives the rule and the place at which its text ends, in
/// the order of the places.
pub open spec fn is_told_by(
    event: crate::models::NetworkEventView,
    id: u64,
    alerts: Seq<crate::models::AlertView>,
    found: Seq<(int, int)>,
) -> bool {
    &&& found.len() == alerts.len()
    &&& forall|i: int|
        0 <= i < alerts.len() ==> 0 <= (#[trigger] found[i]).0 < 5 && alerts[i] == alert_of(
            event,
            id,
            i,
            found[i].0,
        )
    &&& forall|i: int|
        0 <= i < alerts.len() ==> crate::laws::stands_at(
            event.payload_sample,
            rule_text((#[trigger] found[i]).0),
            found[i].1 - rule_text(found[i].0).len(),
        )
    &&& forall|i: int, j: int|
        0 <= i < j < alerts.len() ==> (#[trigger] found[i]).1 <= (#[trigger] found[j]).1
}

} // verus!
