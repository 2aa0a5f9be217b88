use threat_engine::detection::signature::SignatureDetector;
use threat_engine::models::{DetectorKind, NetworkEvent, Protocol, Severity};

fn evt(payload: &str) -> NetworkEvent {
    NetworkEvent {
        timestamp_ms: 0,
        src_ip: 1,
        dst_ip: 2,
        src_port: 1234,
        dst_port: 80,
        protocol: Protocol::Tcp,
        flags: 0,
        payload_sample: payload.as_bytes().to_vec(),
    }
}

fn names(payload: &str) -> Vec<String> {
    let mut d = SignatureDetector::with_default_rules();
    d.scan(&evt(payload)).into_iter().map(|a| a.rule_name).collect()
}

#[test]
fn detects_path_traversal() {
    let mut d = SignatureDetector::with_default_rules();
    let alerts = d.scan(&evt("GET /../../etc/passwd HTTP/1.1"));
    assert!(alerts.iter().any(|a| a.rule_name == "path-traversal-passwd"));
}

#[test]
fn benign_payload_produces_no_alerts() {
    let mut d = SignatureDetector::with_default_rules();
    let alerts = d.scan(&evt("GET /index.html HTTP/1.1"));
    assert!(alerts.is_empty());
}

#[test]
fn overlapping_patterns_are_both_found() {
    assert_eq!(
        names("GET /../../etc/passwd HTTP/1.1"),
        vec!["path-traversal-generic", "path-traversal-passwd"]
    );
}

#[test]
fn every_pattern_has_its_rule() {
    assert_eq!(names("/etc/passwd"), vec!["path-traversal-passwd"]);
    assert_eq!(names("1 UNION SELECT 2"), vec!["sql-injection-union"]);
    assert_eq!(names("<script>alert(1)"), vec!["xss-script-tag"]);
    assert_eq!(names("run cmd.exe"), vec!["windows-cmd-exec"]);
    assert_eq!(names("../../"), vec!["path-traversal-generic"]);
}

#[test]
fn every_occurrence_counts() {
    assert_eq!(names("../../../").len(), 2);
    assert_eq!(names("cmd.execmd.exe").len(), 2);
}

#[test]
fn matching_minds_the_case() {
    assert!(names("union select CMD.EXE").is_empty());
}

#[test]
fn an_empty_payload_is_silent() {
    assert!(names("").is_empty());
}

#[test]
fn alerts_say_what_was_found() {
    let mut d = SignatureDetector::with_default_rules();
    let mut event = evt("../../etc/passwd");
    event.timestamp_ms = 5;
    let alerts = d.scan(&event);
    assert_eq!(alerts.len(), 2);
    assert_eq!((alerts[0].id, alerts[1].id), (1, 2));
    assert_eq!(alerts[0].severity, Severity::Medium);
    assert_eq!(alerts[1].severity, Severity::High);
    assert_eq!(alerts[1].timestamp_ms, 5);
    assert_eq!(alerts[1].src_ip, "0.0.0.1");
    assert_eq!(alerts[1].dst_ip, "0.0.0.2");
    assert_eq!(alerts[1].detector, DetectorKind::Signature);
    assert_eq!(
        alerts[1].detail,
        "signature match for rule 'path-traversal-passwd' in payload sample"
    );
    assert_eq!(d.scan(&evt("cmd.exe"))[0].id, 3);
}

#[test]
fn a_list_of_occurrences_is_reported_in_its_order() {
    let mut d = SignatureDetector::with_default_rules();
    let alerts = d.report(&evt(""), &vec![(3, 7), (1, 20)]);
    assert_eq!(alerts.len(), 2);
    assert_eq!(alerts[0].rule_name, "windows-cmd-exec");
    assert_eq!(alerts[0].severity, Severity::Critical);
    assert_eq!(alerts[1].rule_name, "sql-injection-union");
}
