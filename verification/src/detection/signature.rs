//! Signature detection: known byte patterns in the payload sample.
//!
//! All patterns are compiled into one Aho-Corasick automaton, which finds every
//! occurrence of every pattern in one pass. Occurrences may overlap: `../../` and
//! `/etc/passwd` share a slash in `../../etc/passwd`, and both are reported.

use aho_corasick::AhoCorasick;
use vstd::prelude::*;
use vstd::string::*;

use crate::models::{Alert, DetectorKind, NetworkEvent, Severity};

verus! {

/// The compiled automaton.
#[verifier::external_type_specification]
#[verifier::external_body]
pub struct ExAhoCorasick(AhoCorasick);

/// The patterns that an automaton holds, in the order of their identifiers.
pub uninterp spec fn automaton_patterns(automaton: AhoCorasick) -> Seq<Seq<u8>>;

/// The automaton was built with the default options: it looks for its patterns
/// byte by byte, and supports unanchored overlapping searches.
pub uninterp spec fn automaton_is_standard(automaton: AhoCorasick) -> bool;

/// Pattern `p` ends at `end` in the haystack.
pub open spec fn ends_at(patterns: Seq<Seq<u8>>, haystack: Seq<u8>, p: int, end: int) -> bool {
    0 <= p < patterns.len() && end <= haystack.len() && crate::text::occurs_at(
        haystack,
        patterns[p],
        end - patterns[p].len(),
    )
}

/// `found` lists exactly the occurrences that end no later than `limit`, each one
/// once as pattern and end, in the order of their ends.
pub open spec fn lists_occurrences(
    patterns: Seq<Seq<u8>>,
    haystack: Seq<u8>,
    limit: int,
    found: Seq<(usize, usize)>,
) -> bool {
    &&& forall|i: int|
        0 <= i < found.len() ==> (#[trigger] found[i]).1 <= limit && ends_at(
            patterns,
            haystack,
            found[i].0 as int,
            found[i].1 as int,
        )
    &&& forall|p: int, end: int|
        end <= limit && #[trigger] ends_at(patterns, haystack, p, end) ==> exists|i: int|
            0 <= i < found.len() && #[trigger] found[i] == (p as usize, end as usize)
    &&& forall|i: int, j: int|
        0 <= i < j < found.len() ==> (#[trigger] found[i]).1 <= (#[trigger] found[j]).1
            && found[i] != found[j]
}

/// Calls `AhoCorasick::new`, which builds an automaton with the default options.
/// It refuses only pattern sets whose states or identifiers overflow 31 bits,
/// which the bounds on the number and the lengths of the patterns leave out.
#[verifier::external_body]
fn compile(patterns: &Vec<&'static str>) -> (r: AhoCorasick)
    requires
        patterns@.len() <= 100,
        forall|i: int|
            0 <= i < patterns@.len() ==> 0 < vstd::utf8::encode_utf8((#[trigger] patterns@[i])@).len()
                <= 1000,
    ensures
        automaton_is_standard(r),
        automaton_patterns(r) == patterns@.map_values(|p: &str| vstd::utf8::encode_utf8(p@)),
{
    AhoCorasick::new(patterns).expect("valid pattern set")
}

/// Runs `AhoCorasick::find_overlapping_iter` to its end and returns the pattern
/// and the end of each match. It reports every occurrence of every pattern
/// exactly once, advancing through the haystack byte by byte, so the ends never
/// decrease; nothing is claimed of the order of patterns that end together. It
/// panics on an automaton that does not support overlapping searches, which
/// `requires` leaves out.
#[verifier::external_body]
fn find_overlapping(automaton: &AhoCorasick, haystack: &[u8]) -> (r: Vec<(usize, usize)>)
    requires
        automaton_is_standard(*automaton),
    ensures
        lists_occurrences(automaton_patterns(*automaton), haystack@, haystack@.len() as int, r@),
{
    automaton.find_overlapping_iter(haystack).map(|m| (m.pattern().as_usize(), m.end())).collect()
}

/// The patterns of the default rules.
pub open spec fn default_patterns() -> Seq<Seq<u8>> {
    seq![
        crate::text::ascii("/etc/passwd"@),
        crate::text::ascii("UNION SELECT"@),
        crate::text::ascii("<script>alert("@),
        crate::text::ascii("cmd.exe"@),
        crate::text::ascii("../../"@),
    ]
}

/// The names of the default rules.
pub open spec fn default_names() -> Seq<Seq<char>> {
    seq![
        "path-traversal-passwd"@,
        "sql-injection-union"@,
        "xss-script-tag"@,
        "windows-cmd-exec"@,
        "path-traversal-generic"@,
    ]
}

/// The severities of the default rules.
pub open spec fn default_severities() -> Seq<Severity> {
    seq![
        Severity::High,
        Severity::High,
        Severity::Medium,
        Severity::Critical,
        Severity::Medium,
    ]
}

/// The first of the patterns from `p` on that ends at `end`, or -1.
pub open spec fn pattern_ending(
    patterns: Seq<Seq<u8>>,
    haystack: Seq<u8>,
    p: int,
    end: int,
) -> int
    decreases patterns.len() - p,
{
    if p < 0 || p >= patterns.len() {
        -1
    } else if ends_at(patterns, haystack, p, end) {
        p
    } else {
        pattern_ending(patterns, haystack, p + 1, end)
    }
}

/// The occurrences of the default patterns that end no later than `limit`, as
/// pattern and end, in the order of their ends. At most one pattern ends at each
/// place, as no two of them have the same last byte.
pub open spec fn hits(payload: Seq<u8>, limit: nat) -> Seq<(usize, usize)>
    decreases limit,
{
    if limit == 0 {
        Seq::empty()
    } else {
        let before = hits(payload, (limit - 1) as nat);
        let p = pattern_ending(default_patterns(), payload, 0, limit as int);
        if p >= 0 {
            before.push((p as usize, limit as usize))
        } else {
            before
        }
    }
}

/// The detail text of the alerts of a rule.
pub open spec fn signature_detail(name: Seq<char>) -> Seq<char> {
    "signature match for rule '"@ + name + "' in payload sample"@
}

/// The alert of rule `p` on `event`.
pub open spec fn signature_alert(
    event: crate::models::NetworkEventView,
    id: u64,
    p: int,
) -> crate::models::AlertView {
    crate::models::alert_on(
        event,
        id,
        default_names()[p],
        default_severities()[p],
        signature_detail(default_names()[p]),
        DetectorKind::Signature,
    )
}

/// The alerts on `event`: one for each occurrence of a pattern in its payload,
/// in the order in which they end, with consecutive identifiers from `id` on.
pub open spec fn signature_alerts(
    event: crate::models::NetworkEventView,
    id: u64,
) -> Seq<crate::models::AlertView> {
    let found = hits(event.payload_sample, event.payload_sample.len());
    Seq::new(
        found.len(),
        |i: int| signature_alert(event, crate::models::id_after(id, i as nat), found[i].0 as int),
    )
}

/// The detector: the automaton, and for each pattern its rule.
pub struct SignatureDetector {
    automaton: AhoCorasick,
    rule_names: Vec<String>,
    severities: Vec<Severity>,
    next_id: u64,
}

impl SignatureDetector {
    /// The automaton holds the default patterns, and the rules go with them.
    pub closed spec fn wf(&self) -> bool {
        &&& automaton_is_standard(self.automaton)
        &&& automaton_patterns(self.automaton) == default_patterns()
        &&& self.rule_names@.len() == default_names().len()
        &&& forall|p: int|
            0 <= p < default_names().len() ==> (#[trigger] self.rule_names@[p])@
                == default_names()[p]
        &&& self.severities@ == default_severities()
    }

    /// The identifier of the next alert.
    pub closed spec fn next_id(&self) -> u64 {
        self.next_id
    }

    /// A detector with the default rules.
    pub fn with_default_rules() -> (r: Self)
        ensures
            r.wf(),
            r.next_id() == 1,
    {
        let patterns: Vec<&'static str> = vec![
            "/etc/passwd",
            "UNION SELECT",
            "<script>alert(",
            "cmd.exe",
            "../../",
        ];
        let rule_names: Vec<String> = vec![
            "path-traversal-passwd".to_owned(),
            "sql-injection-union".to_owned(),
            "xss-script-tag".to_owned(),
            "windows-cmd-exec".to_owned(),
            "path-traversal-generic".to_owned(),
        ];
        let severities: Vec<Severity> = vec![
            Severity::High,
            Severity::High,
            Severity::Medium,
            Severity::Critical,
            Severity::Medium,
        ];
        proof {
            lemma_patterns_are_ascii();
            assert forall|i: int| 0 <= i < patterns@.len() implies 0 < vstd::utf8::encode_utf8(
                (#[trigger] patterns@[i])@,
            ).len() <= 1000 by {
                assert(vstd::utf8::encode_utf8(patterns@[i]@) == default_patterns()[i]);
            }
        }
        let automaton = compile(&patterns);
        assert(automaton_patterns(automaton) =~= default_patterns());
        assert(severities@ =~= default_severities());
        SignatureDetector { automaton, rule_names, severities, next_id: 1 }
    }

    /// The alerts that `event` raises.
    pub fn scan(&mut self, event: &NetworkEvent) -> (r: Vec<Alert>)
        requires
            old(self).wf(),
        ensures
            final(self).wf(),
            crate::models::alert_views(r@) == signature_alerts(event@, old(self).next_id()),
            final(self).next_id() == crate::models::id_after(old(self).next_id(), r@.len()),
    {
        if event.payload_sample.is_empty() {
            let none: Vec<Alert> = Vec::new();
            assert(crate::models::alert_views(none@) =~= signature_alerts(event@, self.next_id));
            return none;
        }
        let found = find_overlapping(&self.automaton, event.payload_sample.as_slice());
        proof {
            assert(event.payload_sample@.len() == event.payload_sample.len());
            lemma_search_is_hits(event.payload_sample@, event.payload_sample@.len(), found@);
        }
        let alerts = self.report(event, &found);
        assert(crate::models::alert_views(alerts@).len() == alerts@.len());
        alerts
    }

    /// The alerts for a list of occurrences, given as pattern and end.
    pub fn report(&mut self, event: &NetworkEvent, found: &Vec<(usize, usize)>) -> (r: Vec<Alert>)
        requires
            old(self).wf(),
            forall|i: int| 0 <= i < found@.len() ==> (#[trigger] found@[i]).0 < default_names().len(),
        ensures
            final(self).wf(),
            crate::models::alert_views(r@) == Seq::new(
                found@.len(),
                |i: int|
                    signature_alert(
                        event@,
                        crate::models::id_after(old(self).next_id(), i as nat),
                        found@[i].0 as int,
                    ),
            ),
            final(self).next_id() == crate::models::id_after(old(self).next_id(), found@.len()),
    {
        let ghost first = self.next_id;
        let ghost due = Seq::new(
            found@.len(),
            |i: int|
                signature_alert(
                    event@,
                    crate::models::id_after(first, i as nat),
                    found@[i].0 as int,
                ),
        );
        let mut alerts: Vec<Alert> = Vec::new();
        let mut i: usize = 0;
        while i < found.len()
            invariant
                self.wf(),
                first == old(self).next_id,
                i <= found@.len(),
                forall|j: int| 0 <= j < found@.len() ==> (#[trigger] found@[j]).0 < default_names().len(),
                self.next_id == crate::models::id_after(first, i as nat),
                due == Seq::new(
                    found@.len(),
                    |i: int|
                        signature_alert(
                            event@,
                            crate::models::id_after(first, i as nat),
                            found@[i].0 as int,
                        ),
                ),
                alerts@.len() == i,
                forall|j: int| 0 <= j < i ==> (#[trigger] alerts@[j])@ == due[j],
            decreases found@.len() - i,
        {
            let p: usize = found[i].0;
            let id: u64 = self.next_id;
            self.next_id = id.wrapping_add(1);
            let mut detail = "signature match for rule '".to_owned();
            detail.append(self.rule_names[p].as_str());
            detail.append("' in payload sample");
            let alert = Alert {
                id,
                timestamp_ms: event.timestamp_ms,
                rule_name: self.rule_names[p].clone(),
                severity: self.severities[p],
                src_ip: event.src_ip_str(),
                dst_ip: event.dst_ip_str(),
                detail,
                detector: DetectorKind::Signature,
            };
            assert(alert@ =~= due[i as int]);
            alerts.push(alert);
            i = i + 1;
        }
        assert(crate::models::alert_views(alerts@) =~= due);
        alerts
    }
}

pub proof fn lemma_patterns_are_ascii()
    ensures
        vstd::utf8::encode_utf8("/etc/passwd"@) == default_patterns()[0],
        vstd::utf8::encode_utf8("UNION SELECT"@) == default_patterns()[1],
        vstd::utf8::encode_utf8("<script>alert("@) == default_patterns()[2],
        vstd::utf8::encode_utf8("cmd.exe"@) == default_patterns()[3],
        vstd::utf8::encode_utf8("../../"@) == default_patterns()[4],
        default_patterns()[0].len() == 11 && default_patterns()[0].last() == 'd' as u8,
        default_patterns()[1].len() == 12 && default_patterns()[1].last() == 'T' as u8,
        default_patterns()[2].len() == 14 && default_patterns()[2].last() == '(' as u8,
        default_patterns()[3].len() == 7 && default_patterns()[3].last() == 'e' as u8,
        default_patterns()[4].len() == 6 && default_patterns()[4].last() == '/' as u8,
{
    reveal_strlit("/etc/passwd");
    reveal_strlit("UNION SELECT");
    reveal_strlit("<script>alert(");
    reveal_strlit("cmd.exe");
    reveal_strlit("../../");
    is_ascii_spec_bytes("/etc/passwd");
    is_ascii_spec_bytes("UNION SELECT");
    is_ascii_spec_bytes("<script>alert(");
    is_ascii_spec_bytes("cmd.exe");
    is_ascii_spec_bytes("../../");
}

/// At most one of the default patterns ends at a place.
pub proof fn lemma_one_pattern_ends(payload: Seq<u8>, p: int, q: int, end: int)
    requires
        ends_at(default_patterns(), payload, p, end),
        ends_at(default_patterns(), payload, q, end),
    ensures
        p == q,
{
    lemma_patterns_are_ascii();
    let patterns = default_patterns();
    let a = patterns[p];
    let b = patterns[q];
    assert(payload.subrange(end - a.len(), end)[a.len() - 1] == payload[end - 1]);
    assert(payload.subrange(end - b.len(), end)[b.len() - 1] == payload[end - 1]);
    assert(a.last() == b.last());
}

pub proof fn lemma_pattern_ending(
    patterns: Seq<Seq<u8>>,
    haystack: Seq<u8>,
    p: int,
    end: int,
)
    requires
        0 <= p,
    ensures
        ({
            let found = pattern_ending(patterns, haystack, p, end);
            &&& found >= 0 ==> p <= found && ends_at(patterns, haystack, found, end)
            &&& found < 0 ==> found == -1 && forall|q: int|
                p <= q ==> !#[trigger] ends_at(patterns, haystack, q, end)
        }),
    decreases patterns.len() - p,
{
    if p < patterns.len() && !ends_at(patterns, haystack, p, end) {
        lemma_pattern_ending(patterns, haystack, p + 1, end);
    }
}

/// A list of the occurrences of the default patterns is the list of hits.
pub proof fn lemma_search_is_hits(payload: Seq<u8>, limit: nat, found: Seq<(usize, usize)>)
    requires
        lists_occurrences(default_patterns(), payload, limit as int, found),
        limit <= payload.len() <= usize::MAX,
    ensures
        found == hits(payload, limit),
        forall|i: int| 0 <= i < found.len() ==> (#[trigger] found[i]).0 < default_names().len(),
    decreases limit,
{
    let patterns = default_patterns();
    lemma_patterns_are_ascii();
    if limit == 0 {
        if found.len() > 0 {
            assert(ends_at(patterns, payload, found[0].0 as int, found[0].1 as int));
        }
        assert(found =~= hits(payload, 0));
    } else {
        let p = pattern_ending(patterns, payload, 0, limit as int);
        lemma_pattern_ending(patterns, payload, 0, limit as int);
        if p >= 0 {
            let k = choose|k: int|
                0 <= k < found.len() && #[trigger] found[k] == (p as usize, limit as usize);
            assert(found[k] == (p as usize, limit as usize)) by {
                assert(ends_at(patterns, payload, p, limit as int));
            }
            assert forall|i: int| 0 <= i < found.len() && i != k implies (#[trigger] found[i]).1
                < limit by {
                if found[i].1 == limit {
                    lemma_one_pattern_ends(payload, p, found[i].0 as int, limit as int);
                    if i < k {
                        assert(found[i] != found[k]);
                    } else {
                        assert(found[k] != found[i]);
                    }
                }
            }
            if k < found.len() - 1 {
                assert(found[k].1 <= found[found.len() - 1].1);
            }
            let rest = found.drop_last();
            assert forall|q: int, end: int|
                end <= limit - 1 && #[trigger] ends_at(
                    patterns,
                    payload,
                    q,
                    end,
                ) implies exists|i: int|
                0 <= i < rest.len() && #[trigger] rest[i] == (q as usize, end as usize) by {
                let i = choose|i: int|
                    0 <= i < found.len() && #[trigger] found[i] == (q as usize, end as usize);
                assert(rest[i] == found[i]);
            }
            lemma_search_is_hits(payload, (limit - 1) as nat, rest);
            assert(found =~= rest.push((p as usize, limit as usize)));
            assert forall|i: int| 0 <= i < found.len() implies (#[trigger] found[i]).0 < default_names().len() by {
                if i < rest.len() {
                    assert(rest[i] == found[i]);
                }
            }
        } else {
            assert forall|i: int| 0 <= i < found.len() implies (#[trigger] found[i]).1 <= limit - 1 by {
                assert(ends_at(patterns, payload, found[i].0 as int, found[i].1 as int));
            }
            lemma_search_is_hits(payload, (limit - 1) as nat, found);
        }
    }
}

/// Every occurrence is reported, once, and nothing else: the alerts on an event
/// stand for exactly the places at which a pattern of their rule ends in the
/// payload, overlapping ones included.
pub proof fn law_every_occurrence_is_reported(
    event: crate::models::NetworkEventView,
    id: u64,
)
    requires
        event.payload_sample.len() <= usize::MAX,
    ensures
        ({
            let payload = event.payload_sample;
            let found = hits(payload, payload.len());
            let alerts = signature_alerts(event, id);
            &&& lists_occurrences(default_patterns(), payload, payload.len() as int, found)
            &&& alerts.len() == found.len()
            &&& forall|i: int|
                0 <= i < alerts.len() ==> (#[trigger] alerts[i]).rule_name
                    == default_names()[found[i].0 as int]
        }),
{
    lemma_hits_list(event.payload_sample, event.payload_sample.len());
}

pub proof fn lemma_hits_list(payload: Seq<u8>, limit: nat)
    requires
        limit <= payload.len() <= usize::MAX,
    ensures
        lists_occurrences(default_patterns(), payload, limit as int, hits(payload, limit)),
    decreases limit,
{
    let patterns = default_patterns();
    lemma_patterns_are_ascii();
    let found = hits(payload, limit);
    if limit > 0 {
        lemma_hits_list(payload, (limit - 1) as nat);
        let before = hits(payload, (limit - 1) as nat);
        let p = pattern_ending(patterns, payload, 0, limit as int);
        lemma_pattern_ending(patterns, payload, 0, limit as int);
        assert forall|q: int, end: int|
            end <= limit && #[trigger] ends_at(patterns, payload, q, end) implies exists|i: int|
            0 <= i < found.len() && #[trigger] found[i] == (q as usize, end as usize) by {
            if end == limit {
                lemma_one_pattern_ends(payload, p, q, end);
                assert(found[found.len() - 1] == (q as usize, end as usize));
            } else {
                let i = choose|i: int|
                    0 <= i < before.len() && #[trigger] before[i] == (q as usize, end as usize);
                assert(found[i] == before[i]);
            }
        }
    }
}

/// A payload in which no pattern stands raises no alert, and one in which a
/// pattern stands raises the alert of its rule.
pub proof fn law_alerts_where_a_pattern_stands(
    event: crate::models::NetworkEventView,
    id: u64,
    p: int,
)
    requires
        event.payload_sample.len() <= usize::MAX,
        0 <= p < default_patterns().len(),
    ensures
        crate::text::occurs(event.payload_sample, default_patterns()[p]) <==> exists|i: int|
            0 <= i < signature_alerts(event, id).len() && hits(
                event.payload_sample,
                event.payload_sample.len(),
            )[i].0 == p && (#[trigger] signature_alerts(event, id)[i]).rule_name
                == default_names()[p],
        (forall|q: int|
            0 <= q < default_patterns().len() ==> !crate::text::occurs(
                event.payload_sample,
                #[trigger] default_patterns()[q],
            )) ==> signature_alerts(event, id).len() == 0,
{
    let payload = event.payload_sample;
    let patterns = default_patterns();
    let found = hits(payload, payload.len());
    let alerts = signature_alerts(event, id);
    lemma_hits_list(payload, payload.len());
    if crate::text::occurs(payload, patterns[p]) {
        let at = choose|at: int| crate::text::occurs_at(payload, patterns[p], at);
        let end = at + patterns[p].len();
        assert(ends_at(patterns, payload, p, end));
        let i = choose|i: int|
            0 <= i < found.len() && #[trigger] found[i] == (p as usize, end as usize);
        assert(alerts[i].rule_name == default_names()[p]);
    }
    if exists|i: int|
        0 <= i < alerts.len() && found[i].0 == p && (#[trigger] alerts[i]).rule_name
            == default_names()[p] {
        let i = choose|i: int|
            0 <= i < alerts.len() && found[i].0 == p && (#[trigger] alerts[i]).rule_name
                == default_names()[p];
        assert(ends_at(patterns, payload, p, found[i].1 as int));
    }
    if alerts.len() > 0 {
        let q = found[0].0 as int;
        assert(ends_at(patterns, payload, q, found[0].1 as int));
        assert(crate::text::occurs(payload, patterns[q]));
    }
}

} // verus!
