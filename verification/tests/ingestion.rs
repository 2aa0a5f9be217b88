use threat_engine::detection::anomaly::{PortEstimate, WindowedAnomalyDetector};
use threat_engine::detection::cep::CepEngine;
use threat_engine::detection::signature::SignatureDetector;
use threat_engine::ingestion::{
    attempt_event, benign_event_from, exploit_event, injections, now_ms, sql_event, to_timestamp,
    Injections, Simulator,
};
use threat_engine::models::{NetworkEvent, Protocol};
use threat_engine::time::{Clock, Duration};

fn is_ordinary(e: &NetworkEvent) -> bool {
    e.flags == 0b0011
        && e.dst_ip == 0xC0A8_0101
        && e.protocol == Protocol::Tcp
        && (1024..65535).contains(&e.src_port)
        && [80u16, 443, 22, 53].contains(&e.dst_port)
        && e.payload_sample == b"GET /index.html HTTP/1.1".to_vec()
}

#[test]
fn attacks_come_at_their_ticks() {
    let none = Injections {
        flood: false,
        traversal: false,
        sql: false,
        sequence: false,
        scan: false,
    };
    assert_eq!(injections(1), none);
    assert_eq!(injections(500), Injections { flood: true, ..none });
    assert_eq!(injections(733), Injections { traversal: true, ..none });
    assert_eq!(injections(1466), Injections { sql: true, ..none });
    assert_eq!(injections(2199), Injections { traversal: true, ..none });
    assert_eq!(injections(2932), Injections { sql: true, ..none });
    assert_eq!(injections(900), Injections { sequence: true, ..none });
    assert_eq!(injections(611), Injections { scan: true, ..none });
    assert_eq!(injections(4500), Injections { flood: true, sequence: true, ..none });
}

#[test]
fn batches_follow_the_schedule() {
    let mut sim = Simulator::new();
    assert_eq!(sim.batches(), 0);
    let mut sources = Vec::new();
    for tick in 1..=1499u64 {
        let events = sim.next_batch();
        assert_eq!(sim.batches(), tick);
        let ordinary = events.iter().take_while(|e| is_ordinary(e)).count();
        assert!((20..60).contains(&ordinary));
        sources.push(events[0].src_ip);
        let rest = &events[ordinary..];
        match tick {
            500 | 1000 => {
                assert_eq!(rest.len(), 80);
                assert!(rest.iter().all(|e| e.flags == 1
                    && e.dst_port == 80
                    && e.payload_sample.is_empty()
                    && e.src_ip == rest[0].src_ip
                    && e.src_ip >> 8 == 0x0A_0000
                    && e.src_ip & 0xFF < 255));
            }
            611 | 1222 => {
                assert_eq!(rest.len(), 39);
                let ports: Vec<u16> = rest.iter().map(|e| e.dst_port).collect();
                let expected: Vec<u16> = (1..40).map(|i| 1000 + i * 7).collect();
                assert_eq!(ports, expected);
                assert!(rest.iter().all(|e| e.flags == 1 && e.src_ip == rest[0].src_ip));
            }
            733 => {
                assert_eq!(rest.len(), 1);
                assert_eq!(rest[0].payload_sample, b"GET /../../etc/passwd HTTP/1.1".to_vec());
                assert_eq!(rest[0].flags, 3);
            }
            1466 => {
                assert_eq!(rest.len(), 1);
                assert_eq!(rest[0].payload_sample, b"GET /item?id=1 UNION SELECT 1 HTTP/1.1".to_vec());
                assert_eq!(rest[0].flags, 3);
            }
            900 => {
                assert_eq!(rest.len(), 2);
                assert_eq!(rest[0].flags, 1);
                assert!(rest[0].payload_sample.is_empty());
                assert_eq!(rest[1].flags, 3);
                assert_eq!(rest[1].payload_sample, b"GET /../../etc/passwd HTTP/1.1".to_vec());
                assert_eq!(rest[0].src_ip, rest[1].src_ip);
            }
            _ => assert!(rest.is_empty()),
        }
    }
    sources.dedup();
    assert!(sources.len() > 1400, "sources are drawn at random");
}

#[test]
fn a_default_simulator_is_a_new_one() {
    assert_eq!(Simulator::default().batches(), 0);
}

#[test]
fn timestamps_count_from_the_epoch() {
    assert_eq!(to_timestamp(Ok(0)), 0);
    assert_eq!(to_timestamp(Ok(1_700_000_000_123)), 1_700_000_000_123);
    assert_eq!(to_timestamp(Err(5)), -5);
    assert_eq!(to_timestamp(Ok(1u128 << 64 | 7)), 7);
    assert_eq!(to_timestamp(Err(1u128 << 63)), i64::MIN);
    assert!(now_ms() > 1_600_000_000_000);
}

#[test]
fn the_clock_does_not_run_backwards() {
    let mut clock = Clock::start();
    let first = clock.now();
    let second = clock.now();
    assert!(first <= second);
    assert!(second < 60_000_000_000);
}

#[test]
fn a_reading_from_the_past_is_replaced_by_the_latest() {
    let mut clock = Clock::start();
    assert_eq!(clock.advance(0), 0);
    assert_eq!(clock.advance(u128::MAX - 1), u128::MAX - 1);
    assert_eq!(clock.advance(3), u128::MAX - 1);
    assert_eq!(clock.now(), u128::MAX - 1);
}

#[test]
fn spans_are_printed_with_their_unit() {
    assert_eq!(Duration::from_secs(5).to_text(), "5s");
    assert_eq!(Duration::from_secs(0).to_text(), "0ns");
    assert_eq!(Duration::new(0, 1_500_000).to_text(), "1.5ms");
    assert_eq!(Duration::new(1, 2_500_000_000).to_text(), "3.5s");
    assert_eq!(Duration::new(1, 2_500_000_000).as_nanos(), 3_500_000_000);
    assert_eq!(Duration::from_secs(5).as_nanos(), 5_000_000_000);
    assert_eq!(Duration::from_secs(u64::MAX).as_nanos(), u64::MAX as u128 * 1_000_000_000);
}

#[test]
fn drawn_numbers_decide_the_event() {
    for (choice, port) in [80u16, 443, 22, 53].iter().enumerate() {
        let e = benign_event_from(9, 1, 2000, choice);
        assert!(is_ordinary(&e));
        assert_eq!((e.timestamp_ms, e.src_ip, e.src_port, e.dst_port), (9, 1, 2000, *port));
    }
    let e = attempt_event(9, 1, 2000, 3000);
    assert!(e.is_syn());
    assert_eq!((e.timestamp_ms, e.src_ip, e.src_port, e.dst_port), (9, 1, 2000, 3000));
    let e = exploit_event(9, 1, 2000, 80);
    assert!(!e.is_syn());
    assert_eq!(e.payload_sample, b"GET /../../etc/passwd HTTP/1.1".to_vec());
}

#[test]
fn injected_attacks_are_detected_and_ordinary_traffic_is_quiet() {
    let few = |_: &threat_engine::detection::cardinality::HyperLogLog| PortEstimate {
        whole: 1,
        rounded: 1,
    };
    let mut sig = SignatureDetector::with_default_rules();
    let mut anomaly = WindowedAnomalyDetector::new(Duration::from_secs(5));
    let mut cep = CepEngine::with_default_rules();
    for choice in 0..4 {
        let e = benign_event_from(0, 1, 2000, choice);
        assert!(sig.scan(&e).is_empty());
        assert!(anomaly.observe_at(&e, 0, few).is_empty());
        assert!(cep.process_at(&e, 0).is_empty());
    }
    let mut floods = 0;
    for _ in 0..80 {
        floods += anomaly.observe_at(&attempt_event(0, 5, 2000, 80), 0, few).len();
    }
    assert_eq!(floods, 1);
    assert!(cep.process_at(&attempt_event(0, 6, 2000, 80), 0).is_empty());
    assert_eq!(cep.process_at(&exploit_event(0, 6, 2000, 80), 1).len(), 1);
    assert_eq!(sig.scan(&exploit_event(0, 6, 2000, 80)).len(), 2);
    let sql = sig.scan(&sql_event(0, 6, 2000, 80));
    assert_eq!(sql.len(), 1);
    assert_eq!(sql[0].rule_name, "sql-injection-union");
    assert!(cep.process_at(&sql_event(0, 6, 2000, 80), 1).is_empty());
}
