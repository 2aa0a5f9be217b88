use threat_engine::detection::anomaly::PortEstimate;
use threat_engine::detection::cardinality::HyperLogLog;
use threat_engine::models::{Alert, DetectorKind, NetworkEvent, Protocol, Severity};
use threat_engine::pipeline::{shard_of, AppState, Stats, Worker, ALERT_HISTORY_CAP};

fn event(src_ip: u32, src_port: u16) -> NetworkEvent {
    NetworkEvent {
        timestamp_ms: 0,
        src_ip,
        dst_ip: 99,
        src_port,
        dst_port: 80,
        protocol: Protocol::Tcp,
        flags: 0b0011,
        payload_sample: vec![],
    }
}

fn alert(id: u64) -> Alert {
    Alert {
        id,
        timestamp_ms: 0,
        rule_name: "rule".to_string(),
        severity: Severity::Low,
        src_ip: "a".to_string(),
        dst_ip: "b".to_string(),
        detail: "c".to_string(),
        detector: DetectorKind::Signature,
    }
}

fn few(_: &HyperLogLog) -> PortEstimate {
    PortEstimate { whole: 1, rounded: 1 }
}

#[test]
fn counters_start_at_nothing_and_wrap_round() {
    let mut stats = Stats::default();
    assert_eq!(stats, Stats { events_processed: 0, events_dropped: 0, alerts_fired: 0 });
    stats.events_processed = u64::MAX;
    stats.note_processed();
    stats.note_push(Ok(()));
    stats.note_push(Err(event(1, 1)));
    assert_eq!(stats, Stats { events_processed: 0, events_dropped: 1, alerts_fired: 0 });
}

#[test]
fn a_source_stays_with_its_worker_whatever_its_ports() {
    assert_eq!(shard_of(&event(1, 1111), 4), 0);
    assert_eq!(shard_of(&event(2, 1111), 4), 1);
    assert_eq!(shard_of(&event(3, 1111), 4), 2);
    assert_eq!(shard_of(&event(0x0A00_0001, 1111), 4), 2);
    for port in 1024..2048 {
        assert_eq!(shard_of(&event(1, port), 4), 0);
    }
}

#[test]
fn events_are_queued_for_their_worker_in_order() {
    let mut state = AppState::new(4, 8);
    assert_eq!(state.queues.len(), 4);
    state.dispatch(event(1, 10));
    state.dispatch(event(2, 20));
    state.dispatch(event(1, 11));
    assert_eq!(state.next_event(0).map(|e| e.src_port), Some(10));
    assert_eq!(state.next_event(0).map(|e| e.src_port), Some(11));
    assert!(state.next_event(0).is_none());
    assert_eq!(state.next_event(1).map(|e| e.src_port), Some(20));
    assert!(state.next_event(2).is_none());
    assert_eq!(state.stats.events_processed, 3);
    assert_eq!(state.stats.events_dropped, 0);
}

#[test]
fn a_full_queue_drops_and_counts() {
    let mut state = AppState::new(4, 2);
    for port in 0..5 {
        state.dispatch(event(1, port));
    }
    state.dispatch(event(2, 9));
    assert_eq!(state.stats.events_dropped, 3);
    assert_eq!(state.next_event(0).map(|e| e.src_port), Some(0));
    assert_eq!(state.next_event(0).map(|e| e.src_port), Some(1));
    assert!(state.next_event(0).is_none());
    assert!(state.next_event(1).is_some());
}

#[test]
fn a_state_without_workers_has_no_queues() {
    assert!(AppState::new(0, 3).queues.is_empty());
}

#[test]
fn the_history_keeps_the_latest_alerts() {
    let mut state = AppState::new(1, 1);
    for id in 0..ALERT_HISTORY_CAP as u64 {
        state.record_alert(alert(id));
    }
    assert_eq!(state.alerts.len(), 5000);
    assert_eq!(state.alerts[0].id, 0);
    state.record_alert(alert(5000));
    state.record_alerts(vec![alert(5001), alert(5002)]);
    assert_eq!(state.alerts.len(), 5000);
    assert_eq!(state.alerts[0].id, 3);
    assert_eq!(state.alerts[4999].id, 5002);
    assert_eq!(state.stats.alerts_fired, 5003);
}

#[test]
fn a_worker_asks_its_detectors_in_turn() {
    let mut worker = Worker::new();
    let mut probe = event(1, 1);
    probe.flags = 1;
    assert!(worker.inspect(&probe, few).is_empty());
    let mut exploit = event(1, 1);
    exploit.payload_sample = b"../../etc/passwd".to_vec();
    let scan = |_: &HyperLogLog| PortEstimate { whole: 30, rounded: 31 };
    let names: Vec<String> =
        worker.inspect(&exploit, scan).into_iter().map(|a| a.rule_name).collect();
    assert_eq!(
        names,
        vec![
            "path-traversal-generic",
            "path-traversal-passwd",
            "port-scan-anomaly",
            "probe-then-exploit-attempt",
        ]
    );
}

#[test]
fn a_processed_event_leaves_its_alerts() {
    let mut state = AppState::new(4, 8);
    let mut worker = Worker::new();
    assert!(!state.process_next(0, &mut worker, few));
    let mut bad = event(1, 1);
    bad.payload_sample = b"cmd.exe".to_vec();
    state.dispatch(bad);
    assert!(state.process_next(0, &mut worker, few));
    assert!(!state.process_next(0, &mut worker, few));
    assert_eq!(state.stats, Stats { events_processed: 1, events_dropped: 0, alerts_fired: 1 });
    assert_eq!(state.alerts[0].rule_name, "windows-cmd-exec");
}

#[test]
fn every_event_is_taken_waiting_or_dropped() {
    let mut state = AppState::new(4, 4);
    let mut taken = 0u64;
    for i in 0..300u32 {
        state.dispatch(event(i * 7919, 1));
        if i % 3 == 0 {
            for worker in 0..4 {
                taken += state.next_event(worker).is_some() as u64;
            }
        }
    }
    assert_eq!(state.stats.events_processed, taken);
    let mut waiting = 0;
    for worker in 0..4 {
        while state.next_event(worker).is_some() {
            waiting += 1;
        }
    }
    assert_eq!(taken + waiting + state.stats.events_dropped, 300);
}
