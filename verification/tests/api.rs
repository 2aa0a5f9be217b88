use std::collections::VecDeque;

use threat_engine::api::{
    alerts, endpoints, expected_token, guard, health, login, require_auth, rules, stats,
    AlertsQuery, Endpoint, LoginRequest, StatsResponse,
};
use threat_engine::models::{Alert, DetectorKind, Severity};
use threat_engine::pipeline::Stats;

fn history(n: u64) -> VecDeque<Alert> {
    (0..n)
        .map(|id| Alert {
            id,
            timestamp_ms: 0,
            rule_name: "rule".to_string(),
            severity: Severity::Low,
            src_ip: "a".to_string(),
            dst_ip: "b".to_string(),
            detail: "c".to_string(),
            detector: DetectorKind::Signature,
        })
        .collect()
}

fn ids(n: u64, limit: Option<usize>) -> Vec<u64> {
    alerts(&history(n), AlertsQuery { limit }).iter().map(|a| a.id).collect()
}

#[test]
fn the_token_is_the_configured_one_or_that_for_development() {
    assert_eq!(expected_token(Some("mine".to_string())), "mine");
    assert_eq!(expected_token(Some(String::new())), "");
    assert_eq!(expected_token(None), "dev-token-change-me");
}

#[test]
fn only_the_exact_header_is_accepted() {
    let token = "mine".to_string();
    assert!(require_auth(Some("Bearer mine".to_string()), &token).is_ok());
    let wrong = ["mine", "Bearer  mine", "bearer mine", "Bearer mine ", "Bearer min", "Bearer ", ""];
    for header in wrong {
        let refusal = require_auth(Some(header.to_string()), &token).unwrap_err();
        assert_eq!(refusal.status, 401);
        assert_eq!(refusal.message, "missing or invalid bearer token");
    }
    assert_eq!(require_auth(None, &token).unwrap_err().status, 401);
}

#[test]
fn health_and_login_are_open_and_the_rest_is_guarded() {
    let token = "mine".to_string();
    let open: Vec<&str> = endpoints()
        .into_iter()
        .filter(|e| guard(*e, None, &token).is_ok())
        .map(|e| e.path())
        .collect();
    assert_eq!(open, vec!["/health", "/login"]);
    let guarded: Vec<&str> =
        endpoints().into_iter().filter(|e| e.requires_token()).map(|e| e.path()).collect();
    assert_eq!(guarded, vec!["/stats", "/alerts", "/rules"]);
    let refusal = guard(Endpoint::Rules, Some("x".to_string()), &token).unwrap_err();
    assert_eq!(refusal.status, 401);
    assert!(guard(Endpoint::Rules, Some("Bearer mine".to_string()), &token).is_ok());
}

#[test]
fn the_login_agrees_with_the_guard() {
    let token = "mine".to_string();
    for given in ["mine", "other", "", "mine ", "Bearer mine"] {
        let (status, body) = login(&LoginRequest { token: given.to_string() }, &token);
        assert_eq!(body.ok, given == "mine");
        assert_eq!(status, if body.ok { 200 } else { 401 });
        assert_eq!(require_auth(Some(format!("Bearer {given}")), &token).is_ok(), body.ok);
    }
}

#[test]
fn counters_are_reported() {
    let counters = Stats { events_processed: 3, events_dropped: 2, alerts_fired: 1 };
    let h = health(&counters);
    assert_eq!((h.status, h.events_processed, h.events_dropped), ("ok", 3, 2));
    assert_eq!(
        stats(&counters),
        StatsResponse {
            events_processed: 3,
            events_dropped: 2,
            alerts_fired: 1,
            queue_backpressure_events: 2,
        }
    );
}

#[test]
fn the_newest_alerts_come_first() {
    assert_eq!(ids(5, Some(3)), vec![4, 3, 2]);
    assert_eq!(ids(2, Some(3)), vec![1, 0]);
    assert!(ids(5, Some(0)).is_empty());
    assert!(ids(0, None).is_empty());
}

#[test]
fn the_number_of_alerts_is_limited() {
    let latest = ids(300, None);
    assert_eq!(latest.len(), 200);
    assert_eq!((latest[0], latest[199]), (299, 100));
    assert_eq!(ids(6000, Some(usize::MAX)).len(), 5000);
    assert_eq!(ids(6000, Some(5000)).len(), 5000);
}

#[test]
fn five_rules_are_listed() {
    let listed: Vec<(&str, &str)> = rules().iter().map(|r| (r.name, r.detector)).collect();
    assert_eq!(
        listed,
        vec![
            ("path-traversal-passwd", "signature"),
            ("sql-injection-union", "signature"),
            ("syn-flood-anomaly", "anomaly"),
            ("port-scan-anomaly", "anomaly"),
            ("probe-then-exploit-attempt", "cep"),
        ]
    );
    assert_eq!(
        rules()[0].description,
        "Aho-Corasick match on '/etc/passwd' in payload sample"
    );
}
