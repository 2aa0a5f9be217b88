use std::hash::{Hash, Hasher};

use rustc_hash::FxHasher;
use threat_engine::detection::anomaly::{PortEstimate, WindowedAnomalyDetector};
use threat_engine::detection::cardinality::HyperLogLog;
use threat_engine::detection::sketch::CountMinSketch;
use threat_engine::models::{DetectorKind, NetworkEvent, Protocol, Severity};
use threat_engine::time::Duration;

const SECOND: u128 = 1_000_000_000;

/// The number of distinct keys that the registers stand for.
fn estimate(hll: &HyperLogLog) -> f64 {
    let m = hll.registers().len() as f64;
    if hll.is_sparse() {
        return m * (m / hll.empty_buckets() as f64).ln();
    }
    let alpha = 0.7213 / (1.0 + 1.079 / m);
    let sum: f64 = hll.registers().iter().map(|&r| 2f64.powi(-(r as i32))).sum();
    alpha * m * m / sum
}

fn ports(hll: &HyperLogLog) -> PortEstimate {
    let distinct = estimate(hll);
    PortEstimate { whole: distinct.floor() as u64, rounded: distinct.round() as u64 }
}

fn syn(src_ip: u32, dst_port: u16) -> NetworkEvent {
    NetworkEvent {
        timestamp_ms: 77,
        src_ip,
        dst_ip: 0xC0A8_0101,
        src_port: 4444,
        dst_port,
        protocol: Protocol::Tcp,
        flags: 0b0001,
        payload_sample: vec![],
    }
}

#[test]
fn count_min_sketch_never_undercounts() {
    let mut cms = CountMinSketch::new(64, 4);
    for _ in 0..100 {
        cms.increment(b"1.2.3.4");
    }
    assert!(cms.estimate(b"1.2.3.4") >= 100);
}

#[test]
fn hyperloglog_small_cardinality_does_not_overestimate() {
    let mut hll = HyperLogLog::new(10);
    hll.add(b"only-one-item");
    let est = estimate(&hll);
    assert!(est < 5.0, "true cardinality of 1 should estimate small, got {est}");
}

#[test]
fn hyperloglog_estimates_within_reasonable_error() {
    let mut hll = HyperLogLog::new(10);
    for i in 0..1000u32 {
        hll.add(&i.to_be_bytes());
    }
    let est = estimate(&hll);
    assert!(est > 800.0 && est < 1200.0, "estimate was {est}");
}

#[test]
fn syn_flood_fires_even_when_estimate_jumps_past_threshold() {
    let mut det = WindowedAnomalyDetector::new(Duration::from_secs(5));
    for i in 0u32..40 {
        det.syn_counts.increment(&i.to_be_bytes());
    }

    let attacker_ip: u32 = 0x0A00_00FF;
    let mut event = NetworkEvent {
        timestamp_ms: 0,
        src_ip: attacker_ip,
        dst_ip: 0xC0A80101,
        src_port: 4444,
        dst_port: 80,
        protocol: Protocol::Tcp,
        flags: 0b0001,
        payload_sample: vec![],
    };

    let mut fired = 0;
    for _ in 0..80 {
        event.src_port = event.src_port.wrapping_add(1);
        let alerts = det.observe(&event, ports);
        fired += alerts.iter().filter(|a| a.rule_name == "syn-flood-anomaly").count();
    }

    assert_eq!(
        fired, 1,
        "expected exactly one syn-flood alert once the threshold was crossed, got {fired}"
    );
}

#[test]
fn a_sketch_counts_exactly_without_collisions_and_forgets_when_cleared() {
    let mut cms = CountMinSketch::new(64, 4);
    assert_eq!(cms.estimate(b"1.2.3.4"), 0);
    for _ in 0..3 {
        cms.increment(b"1.2.3.4");
    }
    assert_eq!(cms.estimate(b"1.2.3.4"), 3);
    cms.clear();
    assert_eq!(cms.estimate(b"1.2.3.4"), 0);
}

#[test]
fn a_sketch_of_one_column_counts_all_keys_together() {
    let mut cms = CountMinSketch::new(1, 2);
    cms.increment(b"a");
    cms.increment(b"b");
    assert_eq!(cms.estimate(b"a"), 2);
    assert_eq!(cms.estimate(b"never seen"), 2);
}

#[test]
fn a_sketch_without_rows_estimates_nothing() {
    let mut cms = CountMinSketch::new(8, 0);
    cms.increment(b"a");
    assert_eq!(cms.estimate(b"a"), 0);
}

#[test]
fn sketch_rows_spread_keys_by_the_seeded_hash() {
    let column = |seed: u64, key: &[u8]| {
        let mut hasher = FxHasher::default();
        seed.hash(&mut hasher);
        key.hash(&mut hasher);
        (hasher.finish() as usize) % 8
    };
    let seeds: Vec<u64> =
        (1..=3u64).map(|i| 0x9E37_79B9_7F4A_7C15u64.wrapping_mul(i)).collect();
    let keys: Vec<[u8; 4]> = (0..50u32).map(|i| i.to_be_bytes()).collect();
    let mut cms = CountMinSketch::new(8, 3);
    let mut table = vec![vec![0u32; 8]; 3];
    for key in &keys {
        cms.increment(key);
        for (row, seed) in seeds.iter().enumerate() {
            table[row][column(*seed, key)] += 1;
        }
    }
    for key in &keys {
        let expected =
            seeds.iter().enumerate().map(|(row, s)| table[row][column(*s, key)]).min().unwrap();
        assert_eq!(cms.estimate(key), expected);
    }
}

#[test]
fn a_key_raises_the_register_of_its_hash() {
    let key: &[u8] = b"only-one-item";
    let mut hasher = FxHasher::default();
    key.hash(&mut hasher);
    let h = hasher.finish();
    let mut hll = HyperLogLog::new(10);
    hll.add(key);
    let touched: Vec<usize> = (0..1024).filter(|i| hll.registers()[*i] > 0).collect();
    assert_eq!(touched, vec![(h >> 54) as usize]);
    assert_eq!(hll.registers()[touched[0]] as u32, (h << 10).leading_zeros() + 1);
    assert_eq!(hll.empty_buckets(), 1023);
}

#[test]
fn ranks_have_their_exact_values() {
    let mut hll = HyperLogLog::new(4);
    hll.raise(0x0800_0000_0000_0000);
    assert_eq!(hll.registers()[0], 1);
    hll.raise(0x0100_0000_0000_0000);
    assert_eq!(hll.registers()[0], 4);
    hll.raise(0x0800_0000_0000_0000);
    assert_eq!(hll.registers()[0], 4);
    hll.raise(0xF000_0000_0000_0000);
    assert_eq!(hll.registers()[15], 61);
    assert_eq!(hll.empty_buckets(), 14);
}

#[test]
fn adding_again_or_in_another_order_changes_nothing() {
    let mut a = HyperLogLog::new(6);
    let mut b = HyperLogLog::new(6);
    for i in 0..40u32 {
        a.add(&i.to_be_bytes());
    }
    for i in (0..40u32).rev() {
        b.add(&i.to_be_bytes());
        b.add(&i.to_be_bytes());
    }
    assert_eq!(a.registers(), b.registers());
}

#[test]
fn a_table_is_sparse_above_nine_tenths() {
    let mut hll = HyperLogLog::new(10);
    for i in 0..102u64 {
        assert!(hll.is_sparse());
        hll.raise(i << 54 | 1 << 53);
    }
    assert_eq!(hll.empty_buckets(), 922);
    assert!(hll.is_sparse());
    hll.raise(102 << 54 | 1 << 53);
    assert!(!hll.is_sparse());
    hll.clear();
    assert_eq!(hll.empty_buckets(), 1024);
}

#[test]
fn the_flood_alert_comes_with_the_fiftieth_attempt() {
    let mut det = WindowedAnomalyDetector::new(Duration::from_secs(5));
    for _ in 0..49 {
        assert!(det.observe_at(&syn(0x0A00_0001, 80), 0, ports).is_empty());
    }
    let alerts = det.observe_at(&syn(0x0A00_0001, 80), 0, ports);
    assert_eq!(alerts.len(), 1);
    let a = &alerts[0];
    assert_eq!(a.id, 1);
    assert_eq!(a.timestamp_ms, 77);
    assert_eq!(a.rule_name, "syn-flood-anomaly");
    assert_eq!(a.severity, Severity::Critical);
    assert_eq!(a.src_ip, "10.0.0.1");
    assert_eq!(a.dst_ip, "192.168.1.1");
    assert_eq!(a.detail, "source 10.0.0.1 sent an estimated 50+ SYNs within 5s window");
    assert_eq!(a.detector, DetectorKind::Anomaly);
    assert!(det.observe_at(&syn(0x0A00_0001, 80), 0, ports).is_empty());
}

#[test]
fn the_scan_alert_comes_with_the_twenty_fifth_port() {
    let mut det = WindowedAnomalyDetector::new(Duration::from_secs(5));
    for i in 1..25u16 {
        assert!(det.observe_at(&syn(0x0A00_0002, 1000 + i * 7), 0, ports).is_empty());
    }
    let alerts = det.observe_at(&syn(0x0A00_0002, 1000 + 25 * 7), 0, ports);
    assert_eq!(alerts.len(), 1);
    assert_eq!(alerts[0].rule_name, "port-scan-anomaly");
    assert_eq!(alerts[0].severity, Severity::High);
    assert_eq!(
        alerts[0].detail,
        "source 10.0.0.2 touched an estimated 25 distinct destination ports within 5s window"
    );
    for i in 26..40u16 {
        assert!(det.observe_at(&syn(0x0A00_0002, 1000 + i * 7), 0, ports).is_empty());
    }
}

#[test]
fn estimates_are_judged_at_the_threshold() {
    let mut det = WindowedAnomalyDetector::new(Duration::from_secs(5));
    let event = syn(9, 80);
    assert!(det.count(&event, 0).is_none());
    assert!(det.judge_ports(&event, PortEstimate { whole: 24, rounded: 25 }).is_none());
    assert!(det.judge_ports(&event, PortEstimate { whole: 25, rounded: 25 }).is_some());
    assert!(det.judge_ports(&event, PortEstimate { whole: 90, rounded: 90 }).is_none());
}

#[test]
fn a_new_window_forgets_the_old_one() {
    let mut det = WindowedAnomalyDetector::new(Duration::from_secs(5));
    let mut fired = 0;
    for i in 0..120 {
        let now = if i < 60 { 5 * SECOND - 1 } else { 5 * SECOND };
        fired += det.observe_at(&syn(3, 80), now, ports).len();
        if i == 60 {
            assert_eq!(fired, 1);
        }
    }
    assert_eq!(fired, 2);
}

#[test]
fn attempts_in_two_windows_make_no_flood() {
    let mut det = WindowedAnomalyDetector::new(Duration::from_secs(5));
    for _ in 0..49 {
        assert!(det.observe_at(&syn(3, 80), 4 * SECOND, ports).is_empty());
    }
    for _ in 0..49 {
        assert!(det.observe_at(&syn(3, 80), 6 * SECOND, ports).is_empty());
    }
}

#[test]
fn traffic_without_attempts_makes_no_flood() {
    let mut det = WindowedAnomalyDetector::new(Duration::from_secs(5));
    let mut event = syn(3, 80);
    event.flags = 0b0011;
    for _ in 0..200 {
        assert!(det.observe(&event, ports).is_empty());
    }
}

#[test]
fn windows_need_not_be_whole_seconds() {
    let mut det = WindowedAnomalyDetector::new(Duration::new(0, 250_000_000));
    let mut details = Vec::new();
    for i in 0..60 {
        let now = if i < 10 { 0 } else { 250_000_000 };
        details.extend(det.observe_at(&syn(3, 80), now, ports).into_iter().map(|a| a.detail));
    }
    assert_eq!(details, vec!["source 0.0.0.3 sent an estimated 50+ SYNs within 250ms window"]);
}

#[test]
fn after_a_window_the_detector_answers_as_a_new_one() {
    let mut used = WindowedAnomalyDetector::new(Duration::from_secs(5));
    let mut before = 0;
    for i in 0..80u16 {
        before += used.observe_at(&syn(3, 2000 + i), SECOND, ports).len() as u64;
    }
    assert_eq!(before, 2);
    let mut fresh = WindowedAnomalyDetector::new(Duration::from_secs(5));
    let mut seen = 0;
    for i in 0..400u128 {
        let then = i * SECOND / 25;
        let event = syn(3, 1000 + (i % 60) as u16);
        let a = used.observe_at(&event, 9 * SECOND + then, ports);
        let b = fresh.observe_at(&event, then, ports);
        assert_eq!(a.len(), b.len());
        for (x, y) in a.iter().zip(&b) {
            assert_eq!((&x.rule_name, &x.detail), (&y.rule_name, &y.detail));
            assert_eq!(x.id, y.id + before);
            seen += 1;
        }
    }
    assert!(seen >= 6);
}

#[test]
fn rolling_a_window_forgets_only_what_is_over() {
    let mut det = WindowedAnomalyDetector::new(Duration::from_secs(5));
    for _ in 0..49 {
        det.count(&syn(3, 80), 0);
    }
    det.maybe_roll_window(5 * SECOND - 1);
    assert_eq!(det.syn_counts.estimate(&3u32.to_be_bytes()), 49);
    assert_eq!(det.window_start, 0);
    det.maybe_roll_window(5 * SECOND);
    assert_eq!(det.syn_counts.estimate(&3u32.to_be_bytes()), 0);
    assert_eq!(det.window_start, 5 * SECOND);
}

#[test]
fn the_estimate_reaches_the_threshold_with_as_many_registers() {
    let mut hll = HyperLogLog::new(10);
    for touched in 1..=24u64 {
        hll.raise(touched << 54);
        assert_eq!(hll.empty_buckets(), 1024 - touched as usize);
        assert!(ports(&hll).whole < 25);
    }
    hll.raise(25 << 54);
    assert_eq!(ports(&hll).whole, 25);
}

#[test]
fn repeated_keys_leave_a_table_sparse() {
    let mut hll = HyperLogLog::new(10);
    for i in 0..5000u32 {
        hll.add(&(i % 100).to_be_bytes());
    }
    assert!(hll.empty_buckets() >= 924);
    assert!(hll.is_sparse());
}

#[test]
fn few_ports_are_no_scan_however_often_they_are_touched() {
    let mut det = WindowedAnomalyDetector::new(Duration::from_secs(5));
    let mut event = syn(3, 0);
    event.flags = 0b0011;
    for i in 0..2400u16 {
        event.src_ip = 3;
        event.dst_port = 1000 + i % 24;
        assert!(det.observe_at(&event, 0, ports).is_empty());
        event.src_ip = 4;
        event.dst_port = i;
        let others = det.observe_at(&event, 0, ports);
        assert!(others.iter().all(|a| a.src_ip == "0.0.0.4"));
    }
}
