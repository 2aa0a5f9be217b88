use threat_engine::models::{
    ip_octets, ip_to_string, port_bytes, Alert, DetectorKind, NetworkEvent, Protocol, Severity,
};

fn event() -> NetworkEvent {
    NetworkEvent {
        timestamp_ms: 7,
        src_ip: 0x0A00_0001,
        dst_ip: 0xC0A8_0101,
        src_port: 4444,
        dst_port: 80,
        protocol: Protocol::Udp,
        flags: 0,
        payload_sample: vec![1, 2, 3],
    }
}

#[test]
fn addresses_are_printed_as_dotted_quads() {
    assert_eq!(ip_to_string(0), "0.0.0.0");
    assert_eq!(ip_to_string(u32::MAX), "255.255.255.255");
    assert_eq!(ip_to_string(0x0A00_00FF), "10.0.0.255");
    assert_eq!(event().src_ip_str(), "10.0.0.1");
    assert_eq!(event().dst_ip_str(), "192.168.1.1");
}

#[test]
fn octets_come_most_significant_first() {
    assert_eq!(ip_octets(0x0102_0304), [1, 2, 3, 4]);
    assert_eq!(port_bytes(0x1234), [0x12, 0x34]);
}

#[test]
fn only_syn_without_ack_opens_a_connection() {
    let mut e = event();
    for flags in 0..=255u8 {
        e.flags = flags;
        assert_eq!(e.is_syn(), flags & 1 == 1 && flags & 2 == 0);
    }
}

#[test]
fn keys_have_their_exact_values() {
    assert_eq!(event().shard_key(), 17380602428615072486);
    assert_eq!(event().flow_key(), 1678611474520894592);
}

#[test]
fn the_flow_key_tells_protocols_apart() {
    let mut e = event();
    e.protocol = Protocol::Tcp;
    assert_eq!(e.flow_key(), 1678636763288343445);
    e.protocol = Protocol::Icmp;
    assert_eq!(e.flow_key(), 1678629066706945968);
    assert_eq!(e.shard_key(), event().shard_key());
}

#[test]
fn the_shard_key_depends_on_the_source_alone() {
    let mut e = event();
    let shard = e.shard_key();
    let flow = e.flow_key();
    e.src_port = 4445;
    e.dst_port = 443;
    e.dst_ip = 1;
    assert_eq!(e.shard_key(), shard);
    assert_ne!(e.flow_key(), flow);
    e.src_ip = 0x0A00_0002;
    assert_ne!(e.shard_key(), shard);
}

#[test]
fn clones_keep_everything() {
    let e = event();
    let c = e.clone();
    assert_eq!(format!("{c:?}"), format!("{e:?}"));
    let a = Alert {
        id: 1,
        timestamp_ms: 2,
        rule_name: "r".to_string(),
        severity: Severity::Low,
        src_ip: "s".to_string(),
        dst_ip: "d".to_string(),
        detail: "t".to_string(),
        detector: DetectorKind::Cep,
    };
    assert_eq!(format!("{:?}", a.clone()), format!("{a:?}"));
}
