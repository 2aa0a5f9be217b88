//! The data that flows through the engine: network events and alerts.

use vstd::arithmetic::div_mod::*;
use vstd::arithmetic::mul::*;
use vstd::prelude::*;
use vstd::string::*;

use crate::text::push_decimal;

verus! {

/// Transport protocol of an event.
#[derive(Debug, Clone, Copy, PartialEq, Eq, Structural)]
pub enum Protocol {
    Tcp,
    Udp,
    Icmp,
}

/// One observed packet.
#[derive(Debug)]
pub struct NetworkEvent {
    pub timestamp_ms: i64,
    pub src_ip: u32,
    pub dst_ip: u32,
    pub src_port: u16,
    pub dst_port: u16,
    pub protocol: Protocol,
    /// TCP flags packed as bits: SYN=1, ACK=2, FIN=4, RST=8
    pub flags: u8,
    /// The first bytes of the payload, which the detectors inspect.
    pub payload_sample: Vec<u8>,
}

/// What an event says, with its payload as a sequence of bytes.
#[verifier::ext_equal]
pub struct NetworkEventView {
    pub timestamp_ms: i64,
    pub src_ip: u32,
    pub dst_ip: u32,
    pub src_port: u16,
    pub dst_port: u16,
    pub protocol: Protocol,
    pub flags: u8,
    pub payload_sample: Seq<u8>,
}

impl View for NetworkEvent {
    type V = NetworkEventView;

    open spec fn view(&self) -> NetworkEventView {
        NetworkEventView {
            timestamp_ms: self.timestamp_ms,
            src_ip: self.src_ip,
            dst_ip: self.dst_ip,
            src_port: self.src_port,
            dst_port: self.dst_port,
            protocol: self.protocol,
            flags: self.flags,
            payload_sample: self.payload_sample@,
        }
    }
}

impl Clone for NetworkEvent {
    fn clone(&self) -> (r: Self)
        ensures
            r@ == self@,
    {
        let payload_sample = self.payload_sample.clone();
        assert(payload_sample@ =~= self.payload_sample@);
        NetworkEvent {
            timestamp_ms: self.timestamp_ms,
            src_ip: self.src_ip,
            dst_ip: self.dst_ip,
            src_port: self.src_port,
            dst_port: self.dst_port,
            protocol: self.protocol,
            flags: self.flags,
            payload_sample,
        }
    }
}

/// Bit of the SYN flag in [`NetworkEvent::flags`].
pub const SYN: u8 = 1;

/// Bit of the ACK flag in [`NetworkEvent::flags`].
pub const ACK: u8 = 2;

/// The four octets of an address, the most significant first.
pub open spec fn octets(ip: u32) -> Seq<u8> {
    seq![
        (ip / 0x100_0000) as u8,
        (ip / 0x1_0000 % 0x100) as u8,
        (ip / 0x100 % 0x100) as u8,
        (ip % 0x100) as u8,
    ]
}

/// The two octets of a port, the most significant first.
pub open spec fn port_octets(port: u16) -> Seq<u8> {
    seq![(port / 0x100) as u8, (port % 0x100) as u8]
}

/// FNV-1a offset basis.
pub const FNV_OFFSET: u64 = 1469598103934665603;

/// FNV-1a prime.
pub const FNV_PRIME: u64 = 1099511628211;

/// One FNV-1a step: exclusive or with the byte, then product modulo 2^64.
pub open spec fn fnv1a_step(h: u64, byte: u8) -> u64 {
    ((h ^ (byte as u64)) * FNV_PRIME % 0x1_0000_0000_0000_0000) as u64
}

/// The FNV-1a hash of a sequence of bytes.
pub open spec fn fnv1a(bytes: Seq<u8>) -> u64
    decreases bytes.len(),
{
    if bytes.len() == 0 {
        FNV_OFFSET
    } else {
        fnv1a_step(fnv1a(bytes.drop_last()), bytes.last())
    }
}

/// The number of a protocol in an IP header.
pub open spec fn protocol_number(protocol: Protocol) -> u8 {
    match protocol {
        Protocol::Tcp => 6,
        Protocol::Udp => 17,
        Protocol::Icmp => 1,
    }
}

/// The bytes of the 5-tuple that identifies a connection: both addresses, both
/// ports, and the protocol.
pub open spec fn flow_bytes(event: NetworkEventView) -> Seq<u8> {
    octets(event.src_ip) + octets(event.dst_ip) + port_octets(event.src_port) + port_octets(
        event.dst_port,
    ) + seq![protocol_number(event.protocol)]
}

/// The dotted-quad text of an address.
pub open spec fn ip_text(ip: u32) -> Seq<char> {
    let o = octets(ip);
    crate::text::decimal(o[0] as nat) + seq!['.'] + crate::text::decimal(o[1] as nat) + seq!['.']
        + crate::text::decimal(o[2] as nat) + seq!['.'] + crate::text::decimal(o[3] as nat)
}

/// The octets of `ip`, the most significant first.
pub fn ip_octets(ip: u32) -> (r: [u8; 4])
    ensures
        r@ == octets(ip),
{
    assert((ip >> 24) as u8 == (ip / 0x100_0000) as u8) by (bit_vector);
    assert((ip >> 16) as u8 == (ip / 0x1_0000 % 0x100) as u8) by (bit_vector);
    assert((ip >> 8) as u8 == (ip / 0x100 % 0x100) as u8) by (bit_vector);
    assert(ip as u8 == (ip % 0x100) as u8) by (bit_vector);
    let r: [u8; 4] = [(ip >> 24) as u8, (ip >> 16) as u8, (ip >> 8) as u8, ip as u8];
    assert(r@ =~= octets(ip));
    r
}

/// The octets of `port`, the most significant first.
pub fn port_bytes(port: u16) -> (r: [u8; 2])
    ensures
        r@ == port_octets(port),
{
    assert((port >> 8) as u8 == (port / 0x100) as u8) by (bit_vector);
    assert(port as u8 == (port % 0x100) as u8) by (bit_vector);
    let r: [u8; 2] = [(port >> 8) as u8, port as u8];
    assert(r@ =~= port_octets(port));
    r
}

impl Protocol {
    /// The number of the protocol in an IP header.
    pub fn number(&self) -> (r: u8)
        ensures
            r == protocol_number(*self),
    {
        match self {
            Protocol::Tcp => 6,
            Protocol::Udp => 17,
            Protocol::Icmp => 1,
        }
    }
}

/// Continues an FNV-1a hash with `bytes`.
fn fnv1a_extend(h: u64, bytes: &[u8], Ghost(before): Ghost<Seq<u8>>) -> (r: u64)
    requires
        h == fnv1a(before),
    ensures
        r == fnv1a(before + bytes@),
{
    let mut h: u64 = h;
    let mut i: usize = 0;
    assert(before + bytes@.take(0) =~= before);
    while i < bytes.len()
        invariant
            i <= bytes@.len(),
            h == fnv1a(before + bytes@.take(i as int)),
        decreases bytes@.len() - i,
    {
        let ghost next = before + bytes@.take(i + 1);
        assert(next.drop_last() =~= before + bytes@.take(i as int));
        assert(next.last() == bytes@[i as int]);
        h = (h ^ (bytes[i] as u64)).wrapping_mul(FNV_PRIME);
        i = i + 1;
    }
    assert(bytes@.take(i as int) =~= bytes@);
    h
}

impl NetworkEvent {
    /// Tells whether the event opens a connection: SYN set, ACK clear.
    pub fn is_syn(&self) -> (r: bool)
        ensures
            r == is_syn(self@),
    {
        self.flags & SYN != 0 && self.flags & ACK == 0
    }

    /// The source address in dotted-quad form.
    pub fn src_ip_str(&self) -> (r: String)
        ensures
            r@ == ip_text(self.src_ip),
    {
        ip_to_string(self.src_ip)
    }

    /// The destination address in dotted-quad form.
    pub fn dst_ip_str(&self) -> (r: String)
        ensures
            r@ == ip_text(self.dst_ip),
    {
        ip_to_string(self.dst_ip)
    }

    /// Hash of the 5-tuple, both addresses, both ports and the protocol, which
    /// identifies one connection. Workers are chosen by
    /// [`NetworkEvent::shard_key`] instead.
    pub fn flow_key(&self) -> (r: u64)
        ensures
            r == fnv1a(flow_bytes(self@)),
    {
        let src = ip_octets(self.src_ip);
        let dst = ip_octets(self.dst_ip);
        let src_port = port_bytes(self.src_port);
        let dst_port = port_bytes(self.dst_port);
        let ghost none = Seq::<u8>::empty();
        assert(none + src@ =~= src@);
        let h: u64 = fnv1a_extend(FNV_OFFSET, src.as_slice(), Ghost(none));
        let h: u64 = fnv1a_extend(h, dst.as_slice(), Ghost(src@));
        let h: u64 = fnv1a_extend(h, src_port.as_slice(), Ghost(src@ + dst@));
        let h: u64 = fnv1a_extend(h, dst_port.as_slice(), Ghost(src@ + dst@ + src_port@));
        let protocol: [u8; 1] = [self.protocol.number()];
        assert(protocol@ =~= seq![protocol_number(self.protocol)]);
        fnv1a_extend(h, protocol.as_slice(), Ghost(src@ + dst@ + src_port@ + dst_port@))
    }

    /// Hash of the source address alone, by which events are routed to
    /// workers: all traffic of one source meets the same worker, whatever
    /// ports it uses.
    pub fn shard_key(&self) -> (r: u64)
        ensures
            r == fnv1a(octets(self.src_ip)),
    {
        let src = ip_octets(self.src_ip);
        let ghost none = Seq::<u8>::empty();
        assert(none + src@ =~= src@);
        fnv1a_extend(FNV_OFFSET, src.as_slice(), Ghost(none))
    }
}

/// Hashes that differ in their last byte alone differ.
pub proof fn lemma_last_byte_tells(bytes: Seq<u8>, a: u8, b: u8)
    requires
        a != b,
    ensures
        fnv1a(bytes.push(a)) != fnv1a(bytes.push(b)),
{
    let h = fnv1a(bytes);
    let x = h ^ (a as u64);
    let y = h ^ (b as u64);
    assert(bytes.push(a).drop_last() =~= bytes);
    assert(bytes.push(b).drop_last() =~= bytes);
    assert(x != y) by (bit_vector)
        requires
            a != b,
            x == h ^ (a as u64),
            y == h ^ (b as u64),
    ;
    // The prime is odd, so that a product with it can be undone modulo 2^64.
    let m: int = 0x1_0000_0000_0000_0000;
    let inverse: int = 14886173955864302971;
    assert(FNV_PRIME * inverse % m == 1) by (nonlinear_arith)
        requires
            m == 0x1_0000_0000_0000_0000,
            inverse == 14886173955864302971,
    ;
    lemma_product_undone(x as int, FNV_PRIME as int, inverse, m);
    lemma_product_undone(y as int, FNV_PRIME as int, inverse, m);
}

proof fn lemma_product_undone(x: int, factor: int, inverse: int, m: int)
    requires
        m > 1,
        0 <= x < m,
        factor * inverse % m == 1,
    ensures
        (x * factor % m) * inverse % m == x,
{
    lemma_mul_mod_noop_left(x * factor, inverse, m);
    lemma_mul_is_associative(x, factor, inverse);
    lemma_mul_mod_noop_right(x, factor * inverse, m);
    lemma_small_mod(x as nat, m as nat);
}

/// The flow key tells protocols apart: events that are equal but for the protocol
/// have different flow keys.
pub proof fn law_flow_key_tells_protocols_apart(a: NetworkEventView, b: NetworkEventView)
    requires
        a == (NetworkEventView { protocol: a.protocol, ..b }),
        a.protocol != b.protocol,
    ensures
        fnv1a(flow_bytes(a)) != fnv1a(flow_bytes(b)),
{
    let bytes = octets(a.src_ip) + octets(a.dst_ip) + port_octets(a.src_port) + port_octets(
        a.dst_port,
    );
    assert(flow_bytes(a) =~= bytes.push(protocol_number(a.protocol)));
    assert(flow_bytes(b) =~= bytes.push(protocol_number(b.protocol)));
    lemma_last_byte_tells(bytes, protocol_number(a.protocol), protocol_number(b.protocol));
}

/// SYN is set and ACK is clear.
pub open spec fn is_syn(event: NetworkEventView) -> bool {
    event.flags & SYN != 0 && event.flags & ACK == 0
}

/// The dotted-quad form of an address.
pub fn ip_to_string(ip: u32) -> (r: String)
    ensures
        r@ == ip_text(ip),
{
    proof {
        reveal_strlit(".");
    }
    let o = ip_octets(ip);
    let mut text = String::new();
    push_decimal(&mut text, o[0] as u64);
    text.append(".");
    push_decimal(&mut text, o[1] as u64);
    text.append(".");
    push_decimal(&mut text, o[2] as u64);
    text.append(".");
    push_decimal(&mut text, o[3] as u64);
    assert("."@ =~= seq!['.']);
    assert(text@ =~= ip_text(ip));
    text
}

/// How serious an alert is.
#[derive(Debug, Clone, Copy, PartialEq, Eq, Structural)]
pub enum Severity {
    Low,
    Medium,
    High,
    Critical,
}

/// The detector that raised an alert.
#[derive(Debug, Clone, Copy, PartialEq, Eq, Structural)]
pub enum DetectorKind {
    Signature,
    Anomaly,
    Cep,
}

/// One finding of a detector.
#[derive(Debug)]
pub struct Alert {
    pub id: u64,
    pub timestamp_ms: i64,
    pub rule_name: String,
    pub severity: Severity,
    pub src_ip: String,
    pub dst_ip: String,
    pub detail: String,
    pub detector: DetectorKind,
}

/// What an alert says, with its texts as sequences of characters.
#[verifier::ext_equal]
pub struct AlertView {
    pub id: u64,
    pub timestamp_ms: i64,
    pub rule_name: Seq<char>,
    pub severity: Severity,
    pub src_ip: Seq<char>,
    pub dst_ip: Seq<char>,
    pub detail: Seq<char>,
    pub detector: DetectorKind,
}

impl View for Alert {
    type V = AlertView;

    open spec fn view(&self) -> AlertView {
        AlertView {
            id: self.id,
            timestamp_ms: self.timestamp_ms,
            rule_name: self.rule_name@,
            severity: self.severity,
            src_ip: self.src_ip@,
            dst_ip: self.dst_ip@,
            detail: self.detail@,
            detector: self.detector,
        }
    }
}

impl Clone for Alert {
    fn clone(&self) -> (r: Self)
        ensures
            r == *self,
    {
        Alert {
            id: self.id,
            timestamp_ms: self.timestamp_ms,
            rule_name: self.rule_name.clone(),
            severity: self.severity,
            src_ip: self.src_ip.clone(),
            dst_ip: self.dst_ip.clone(),
            detail: self.detail.clone(),
            detector: self.detector,
        }
    }
}

/// The views of a list of alerts.
pub open spec fn alert_views(alerts: Seq<Alert>) -> Seq<AlertView> {
    alerts.map_values(|a: Alert| a@)
}

/// The alert that `detector` raises on `event`.
pub open spec fn alert_on(
    event: NetworkEventView,
    id: u64,
    rule_name: Seq<char>,
    severity: Severity,
    detail: Seq<char>,
    detector: DetectorKind,
) -> AlertView {
    AlertView {
        id,
        timestamp_ms: event.timestamp_ms,
        rule_name,
        severity,
        src_ip: ip_text(event.src_ip),
        dst_ip: ip_text(event.dst_ip),
        detail,
        detector,
    }
}

/// The alerts `a` and `b` are the same one by one, but for their identifiers.
pub open spec fn same_but_for_ids(a: Seq<AlertView>, b: Seq<AlertView>) -> bool {
    &&& a.len() == b.len()
    &&& forall|i: int|
        0 <= i < a.len() ==> #[trigger] a[i] == (AlertView { id: a[i].id, ..b[i] })
}

/// The identifier that stands `n` places after `id`. Identifiers wrap round at
/// 2^64.
pub open spec fn id_after(id: u64, n: nat) -> u64 {
    ((id + n) % 0x1_0000_0000_0000_0000) as u64
}

} // verus!
