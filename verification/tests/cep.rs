use threat_engine::detection::cep::{CepEngine, CepRule, Condition, PartialMatch};
use threat_engine::models::{DetectorKind, NetworkEvent, Protocol, Severity};
use threat_engine::time::Duration;

const SECOND: u128 = 1_000_000_000;

fn syn_event(ip: u32) -> NetworkEvent {
    NetworkEvent {
        timestamp_ms: 0,
        src_ip: ip,
        dst_ip: 99,
        src_port: 1111,
        dst_port: 80,
        protocol: Protocol::Tcp,
        flags: 0b0001,
        payload_sample: vec![],
    }
}

fn payload_event(ip: u32) -> NetworkEvent {
    NetworkEvent {
        timestamp_ms: 0,
        src_ip: ip,
        dst_ip: 99,
        src_port: 1111,
        dst_port: 80,
        protocol: Protocol::Tcp,
        flags: 0b0011,
        payload_sample: b"GET /../../etc/passwd".to_vec(),
    }
}

#[test]
fn sequence_within_window_fires_alert() {
    let mut cep = CepEngine::with_default_rules();
    assert!(cep.process(&syn_event(42)).is_empty());
    let alerts = cep.process(&payload_event(42));
    assert_eq!(alerts.len(), 1);
    assert_eq!(alerts[0].rule_name, "probe-then-exploit-attempt");
}

#[test]
fn different_source_does_not_cross_contaminate() {
    let mut cep = CepEngine::with_default_rules();
    assert!(cep.process(&syn_event(1)).is_empty());
    let alerts = cep.process(&payload_event(2));
    assert!(alerts.is_empty());
}

#[test]
fn single_out_of_order_event_does_not_fire() {
    let mut cep = CepEngine::with_default_rules();
    let alerts = cep.process(&payload_event(7));
    assert!(alerts.is_empty());
}

#[test]
fn the_alert_says_what_happened() {
    let mut cep = CepEngine::with_default_rules();
    cep.process_at(&syn_event(0x0A00_0001), 0);
    let mut exploit = payload_event(0x0A00_0001);
    exploit.timestamp_ms = -3;
    let alerts = cep.process_at(&exploit, SECOND);
    assert_eq!(alerts.len(), 1);
    let a = &alerts[0];
    assert_eq!(a.id, 1);
    assert_eq!(a.timestamp_ms, -3);
    assert_eq!(a.severity, Severity::Critical);
    assert_eq!(a.src_ip, "10.0.0.1");
    assert_eq!(a.dst_ip, "0.0.0.99");
    assert_eq!(a.detector, DetectorKind::Cep);
    assert_eq!(
        a.detail,
        "CEP rule 'probe-then-exploit-attempt' completed: 2 steps matched within 5s"
    );
}

#[test]
fn the_window_counts_its_last_moment() {
    let mut cep = CepEngine::with_default_rules();
    cep.process_at(&syn_event(1), 0);
    assert_eq!(cep.process_at(&payload_event(1), 5 * SECOND).len(), 1);
    cep.process_at(&syn_event(2), 0);
    assert!(cep.process_at(&payload_event(2), 5 * SECOND + 1).is_empty());
}

#[test]
fn each_probe_serves_one_exploit() {
    let mut cep = CepEngine::with_default_rules();
    cep.process_at(&syn_event(1), 0);
    cep.process_at(&syn_event(1), 1);
    assert_eq!(cep.process_at(&payload_event(1), 2)[0].id, 1);
    assert_eq!(cep.process_at(&payload_event(1), 3)[0].id, 2);
    assert!(cep.process_at(&payload_event(1), 4).is_empty());
}

#[test]
fn other_traffic_in_between_does_not_matter() {
    let mut cep = CepEngine::with_default_rules();
    cep.process_at(&syn_event(1), 0);
    for ip in 2..50 {
        cep.process_at(&payload_event(ip), 1);
        cep.process_at(&syn_event(ip), 2);
    }
    assert_eq!(cep.process_at(&payload_event(1), 3).len(), 1);
}

#[test]
fn conditions_look_at_flags_payload_and_port() {
    assert!(Condition::IsSynOnly.matches(&syn_event(1)));
    assert!(!Condition::IsSynOnly.matches(&payload_event(1)));
    assert!(Condition::HasSignaturePayload.matches(&payload_event(1)));
    assert!(!Condition::HasSignaturePayload.matches(&syn_event(1)));
    let mut odd = payload_event(1);
    odd.payload_sample = b"\xC3passwd\xFF".to_vec();
    assert!(Condition::HasSignaturePayload.matches(&odd));
    odd.payload_sample = b"pass\xFFwd".to_vec();
    assert!(!Condition::HasSignaturePayload.matches(&odd));
    assert!(Condition::DistinctPortAbove(79).matches(&syn_event(1)));
    assert!(!Condition::DistinctPortAbove(80).matches(&syn_event(1)));
}

#[test]
fn one_event_can_advance_a_match_and_start_another() {
    let rule = CepRule {
        name: "twice".to_string(),
        severity: Severity::Low,
        steps: vec![Condition::IsSynOnly, Condition::IsSynOnly],
        window: Duration::from_secs(5),
    };
    let mut partials: Vec<PartialMatch> = Vec::new();
    assert!(!rule.observe(&mut partials, &syn_event(1), 0));
    assert!(rule.observe(&mut partials, &syn_event(1), 1));
    assert!(rule.observe(&mut partials, &syn_event(1), 2));
    assert_eq!(partials.len(), 1);
}

#[test]
fn a_rule_without_steps_never_fires() {
    let rule = CepRule {
        name: "never".to_string(),
        severity: Severity::Low,
        steps: vec![],
        window: Duration::from_secs(5),
    };
    let mut partials: Vec<PartialMatch> = Vec::new();
    assert!(!rule.observe(&mut partials, &syn_event(1), 0));
    assert!(partials.is_empty());
}

#[test]
fn a_rule_of_one_step_fires_at_once() {
    let rule = CepRule {
        name: "once".to_string(),
        severity: Severity::Low,
        steps: vec![Condition::IsSynOnly],
        window: Duration::from_secs(5),
    };
    let mut partials: Vec<PartialMatch> = Vec::new();
    assert!(rule.observe(&mut partials, &syn_event(1), 0));
    assert!(partials.is_empty());
    assert!(!rule.observe(&mut partials, &payload_event(1), 1));
    assert!(rule.observe(&mut partials, &syn_event(1), 2));
    assert!(partials.is_empty());
}

#[test]
fn a_rule_of_three_steps_takes_three_events() {
    let rule = CepRule {
        name: "thrice".to_string(),
        severity: Severity::Low,
        steps: vec![
            Condition::IsSynOnly,
            Condition::DistinctPortAbove(79),
            Condition::HasSignaturePayload,
        ],
        window: Duration::from_secs(5),
    };
    let mut partials: Vec<PartialMatch> = Vec::new();
    assert!(!rule.observe(&mut partials, &syn_event(1), 0));
    assert!(!rule.observe(&mut partials, &payload_event(1), 1));
    assert_eq!(partials, vec![PartialMatch { step: 2, started_at: 0 }]);
    assert!(rule.observe(&mut partials, &payload_event(1), 2));
    assert!(partials.is_empty());
}

#[test]
fn other_sources_neither_make_nor_hide_an_alert() {
    let mut alone = CepEngine::with_default_rules();
    let mut among = CepEngine::with_default_rules();
    for i in 0..40u32 {
        let now = i as u128 * SECOND;
        for ip in 2..6 {
            among.process_at(&syn_event(ip), now);
            among.process_at(&payload_event(ip), now);
        }
        let event = if i % 3 == 0 { syn_event(1) } else { payload_event(1) };
        let a = alone.process_at(&event, now);
        let b = among.process_at(&event, now);
        assert_eq!(a.len(), b.len());
        for (x, y) in a.iter().zip(&b) {
            assert_eq!((&x.rule_name, &x.detail), (&y.rule_name, &y.detail));
        }
    }
}
