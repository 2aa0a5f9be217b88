//! The event source: simulated traffic with injected attacks.
//!
//! The traffic is drawn at random. What each drawn event is, and which attacks
//! which tick brings, is decided by functions that take the draws as arguments;
//! what a batch looks like whatever was drawn is stated by [`is_batch`].

use rand::rngs::ThreadRng;
use rand::Rng;
use vstd::prelude::*;
use vstd::string::*;

use crate::models::{NetworkEvent, Protocol};

verus! {

/// The random number generator of the thread.
#[verifier::external_type_specification]
#[verifier::external_body]
pub struct ExThreadRng(ThreadRng);

/// Calls `rand::thread_rng`. Nothing is claimed of the generator.
#[verifier::external_body]
fn thread_rng() -> ThreadRng {
    rand::thread_rng()
}

/// Draws with `Rng::gen_range` from `low..high`. The claim is that the number
/// lies in the range; which one it is rests on chance. An empty range panics,
/// which `requires` leaves out.
#[verifier::external_body]
fn draw(rng: &mut ThreadRng, low: u32, high: u32) -> (r: u32)
    requires
        low < high,
    ensures
        low <= r < high,
{
    rng.gen_range(low..high)
}

/// A moment of the machine's calendar clock.
#[verifier::external_type_specification]
#[verifier::external_body]
pub struct ExSystemTime(std::time::SystemTime);

/// Reads `std::time::SystemTime::now`. Nothing is claimed of the moment.
#[verifier::external_body]
fn system_time() -> std::time::SystemTime {
    std::time::SystemTime::now()
}

/// Calls `SystemTime::duration_since` with `UNIX_EPOCH` and returns the span in
/// whole milliseconds: `Ok` since the epoch, or `Err` before it. Nothing is
/// claimed of the number, as nothing is known of the moment.
#[verifier::external_body]
fn since_epoch(moment: &std::time::SystemTime) -> Result<u128, u128> {
    match moment.duration_since(std::time::UNIX_EPOCH) {
        Ok(since) => Ok(since.as_millis()),
        Err(before) => Err(before.duration().as_millis()),
    }
}

/// The timestamp of a system time: milliseconds since the epoch, negative before
/// it, cut to 64 bits.
pub open spec fn timestamp_of(reading: Result<u128, u128>) -> i64 {
    match reading {
        Ok(ms) => ms as i64,
        Err(ms) => if ms as i64 == i64::MIN {
            i64::MIN
        } else {
            (-(ms as i64)) as i64
        },
    }
}

/// The timestamp of a system time.
pub fn to_timestamp(reading: Result<u128, u128>) -> (r: i64)
    ensures
        r == timestamp_of(reading),
{
    match reading {
        Ok(ms) => #[verifier::truncate]
        (ms as i64),
        Err(ms) => {
            let back: i64 = #[verifier::truncate]
            (ms as i64);
            if back == i64::MIN {
                back
            } else {
                -back
            }
        },
    }
}

/// The present timestamp.
pub fn now_ms() -> i64 {
    let moment = system_time();
    to_timestamp(since_epoch(&moment))
}

/// The address that all simulated traffic goes to: 192.168.1.1.
pub const TARGET_IP: u32 = 0xC0A8_0101;

/// The source addresses of injected attacks: 10.0.0.x.
pub const ATTACK_NET: u32 = 0x0A00_0000;

/// Connection attempts in an injected flood.
pub const FLOOD_SIZE: usize = 80;

/// Ports in an injected scan.
pub const SCAN_SIZE: usize = 39;

/// The source address of an attack from host `host`.
pub open spec fn attack_source(host: u32) -> u32 {
    (ATTACK_NET + host) as u32
}

/// The payload of ordinary traffic.
pub open spec fn benign_payload() -> Seq<u8> {
    crate::text::ascii("GET /index.html HTTP/1.1"@)
}

/// The payload of an exploit attempt by path traversal.
pub open spec fn exploit_payload() -> Seq<u8> {
    crate::text::ascii("GET /../../etc/passwd HTTP/1.1"@)
}

/// The payload of an exploit attempt by SQL injection.
pub open spec fn sql_payload() -> Seq<u8> {
    crate::text::ascii("GET /item?id=1 UNION SELECT 1 HTTP/1.1"@)
}

/// The destination ports of ordinary traffic.
pub open spec fn benign_ports() -> Seq<u16> {
    seq![80u16, 443u16, 22u16, 53u16]
}

/// Ordinary traffic: part of an established connection.
pub open spec fn benign_view(
    timestamp_ms: i64,
    src_ip: u32,
    src_port: u16,
    dst_port: u16,
) -> crate::models::NetworkEventView {
    crate::models::NetworkEventView {
        timestamp_ms,
        src_ip,
        dst_ip: TARGET_IP,
        src_port,
        dst_port,
        protocol: Protocol::Tcp,
        flags: 3,
        payload_sample: benign_payload(),
    }
}

/// A connection attempt: SYN alone, no payload.
pub open spec fn attempt_view(
    timestamp_ms: i64,
    src_ip: u32,
    src_port: u16,
    dst_port: u16,
) -> crate::models::NetworkEventView {
    crate::models::NetworkEventView {
        flags: 1,
        payload_sample: Seq::empty(),
        ..benign_view(timestamp_ms, src_ip, src_port, dst_port)
    }
}

/// An exploit attempt: a known-bad payload in an established connection.
pub open spec fn exploit_view(
    timestamp_ms: i64,
    src_ip: u32,
    src_port: u16,
    dst_port: u16,
) -> crate::models::NetworkEventView {
    crate::models::NetworkEventView {
        payload_sample: exploit_payload(),
        ..benign_view(timestamp_ms, src_ip, src_port, dst_port)
    }
}

/// An SQL injection: the other known-bad payload in an established connection.
pub open spec fn sql_view(
    timestamp_ms: i64,
    src_ip: u32,
    src_port: u16,
    dst_port: u16,
) -> crate::models::NetworkEventView {
    crate::models::NetworkEventView {
        payload_sample: sql_payload(),
        ..benign_view(timestamp_ms, src_ip, src_port, dst_port)
    }
}

/// Ordinary traffic from the given source, at the port of number `choice`.
pub fn benign_event_from(timestamp_ms: i64, src_ip: u32, src_port: u16, choice: usize) -> (r:
    NetworkEvent)
    requires
        choice < 4,
    ensures
        r@ == benign_view(timestamp_ms, src_ip, src_port, benign_ports()[choice as int]),
{
    let dst_port: u16 = if choice == 0 {
        80
    } else if choice == 1 {
        443
    } else if choice == 2 {
        22
    } else {
        53
    };
    let payload: &str = "GET /index.html HTTP/1.1";
    proof {
        reveal_strlit("GET /index.html HTTP/1.1");
        is_ascii_spec_bytes(payload);
        assert(payload.spec_bytes() =~= benign_payload());
    }
    NetworkEvent {
        timestamp_ms,
        src_ip,
        dst_ip: TARGET_IP,
        src_port,
        dst_port,
        protocol: Protocol::Tcp,
        flags: 0b0011,
        payload_sample: payload.as_bytes_vec(),
    }
}

/// A connection attempt.
pub fn attempt_event(timestamp_ms: i64, src_ip: u32, src_port: u16, dst_port: u16) -> (r:
    NetworkEvent)
    ensures
        r@ == attempt_view(timestamp_ms, src_ip, src_port, dst_port),
{
    let r = NetworkEvent {
        timestamp_ms,
        src_ip,
        dst_ip: TARGET_IP,
        src_port,
        dst_port,
        protocol: Protocol::Tcp,
        flags: 0b0001,
        payload_sample: Vec::new(),
    };
    assert(r@.payload_sample =~= Seq::empty());
    r
}

/// An exploit attempt.
pub fn exploit_event(timestamp_ms: i64, src_ip: u32, src_port: u16, dst_port: u16) -> (r:
    NetworkEvent)
    ensures
        r@ == exploit_view(timestamp_ms, src_ip, src_port, dst_port),
{
    let payload: &str = "GET /../../etc/passwd HTTP/1.1";
    proof {
        reveal_strlit("GET /../../etc/passwd HTTP/1.1");
        is_ascii_spec_bytes(payload);
        assert(payload.spec_bytes() =~= exploit_payload());
    }
    NetworkEvent {
        timestamp_ms,
        src_ip,
        dst_ip: TARGET_IP,
        src_port,
        dst_port,
        protocol: Protocol::Tcp,
        flags: 0b0011,
        payload_sample: payload.as_bytes_vec(),
    }
}

/// An SQL injection.
pub fn sql_event(timestamp_ms: i64, src_ip: u32, src_port: u16, dst_port: u16) -> (r: NetworkEvent)
    ensures
        r@ == sql_view(timestamp_ms, src_ip, src_port, dst_port),
{
    let payload: &str = "GET /item?id=1 UNION SELECT 1 HTTP/1.1";
    proof {
        reveal_strlit("GET /item?id=1 UNION SELECT 1 HTTP/1.1");
        is_ascii_spec_bytes(payload);
        assert(payload.spec_bytes() =~= sql_payload());
    }
    NetworkEvent {
        timestamp_ms,
        src_ip,
        dst_ip: TARGET_IP,
        src_port,
        dst_port,
        protocol: Protocol::Tcp,
        flags: 0b0011,
        payload_sample: payload.as_bytes_vec(),
    }
}

/// The attacks that a tick brings.
#[derive(Debug, Clone, Copy, PartialEq, Eq, Structural)]
pub struct Injections {
    pub flood: bool,
    pub traversal: bool,
    pub sql: bool,
    pub sequence: bool,
    pub scan: bool,
}

/// The attacks of tick `tick`: a flood every 500 ticks, a known-bad payload every
/// 733, by turns a path traversal and an SQL injection, a probe and an exploit from
/// one source every 900, a port scan every 611.
pub open spec fn injections_at(tick: u64) -> Injections {
    Injections {
        flood: tick % 500 == 0,
        traversal: tick % 1466 == 733,
        sql: tick % 1466 == 0,
        sequence: tick % 900 == 0,
        scan: tick % 611 == 0,
    }
}

/// The attacks of tick `tick`.
pub fn injections(tick: u64) -> (r: Injections)
    ensures
        r == injections_at(tick),
{
    Injections {
        flood: tick % 500 == 0,
        traversal: tick % 1466 == 733,
        sql: tick % 1466 == 0,
        sequence: tick % 900 == 0,
        scan: tick % 611 == 0,
    }
}

/// A source port as it is drawn.
pub open spec fn is_ephemeral(port: u16) -> bool {
    1024 <= port < 65535
}

/// `e` is ordinary traffic.
pub open spec fn is_benign(e: crate::models::NetworkEventView) -> bool {
    &&& e == benign_view(e.timestamp_ms, e.src_ip, e.src_port, e.dst_port)
    &&& e.src_ip < u32::MAX
    &&& is_ephemeral(e.src_port)
    &&& benign_ports().contains(e.dst_port)
}

/// `e` is ordinary traffic but for the payload of a path traversal.
pub open spec fn is_traversal_injection(e: crate::models::NetworkEventView) -> bool {
    &&& e == exploit_view(e.timestamp_ms, e.src_ip, e.src_port, e.dst_port)
    &&& e.src_ip < u32::MAX
    &&& is_ephemeral(e.src_port)
    &&& benign_ports().contains(e.dst_port)
}

/// `e` is ordinary traffic but for the payload of an SQL injection.
pub open spec fn is_sql_injection(e: crate::models::NetworkEventView) -> bool {
    &&& e == sql_view(e.timestamp_ms, e.src_ip, e.src_port, e.dst_port)
    &&& e.src_ip < u32::MAX
    &&& is_ephemeral(e.src_port)
    &&& benign_ports().contains(e.dst_port)
}

/// `e` is a connection attempt of an attack on `dst_port`.
pub open spec fn is_attempt(
    e: crate::models::NetworkEventView,
    src_ip: u32,
    dst_port: u16,
) -> bool {
    e == attempt_view(e.timestamp_ms, src_ip, e.src_port, dst_port) && is_ephemeral(e.src_port)
}

/// `e` is the exploit attempt of an attack.
pub open spec fn is_exploit_from(e: crate::models::NetworkEventView, src_ip: u32) -> bool {
    e == exploit_view(e.timestamp_ms, src_ip, e.src_port, 80) && is_ephemeral(e.src_port)
}

/// The views of a list of events.
pub open spec fn event_views(
    events: Seq<NetworkEvent>,
) -> Seq<crate::models::NetworkEventView> {
    events.map_values(|e: NetworkEvent| e@)
}

/// The ordinary part of a batch.
pub open spec fn is_ordinary(events: Seq<crate::models::NetworkEventView>) -> bool {
    20 <= events.len() < 60 && forall|i: int|
        0 <= i < events.len() ==> is_benign(#[trigger] events[i])
}

/// A flood of connection attempts by `host`.
pub open spec fn is_flood(events: Seq<crate::models::NetworkEventView>, host: u32) -> bool {
    events.len() == FLOOD_SIZE && forall|i: int|
        0 <= i < events.len() ==> is_attempt(#[trigger] events[i], attack_source(host), 80)
}

/// A probe and then an exploit, both by `host`.
pub open spec fn is_sequence(events: Seq<crate::models::NetworkEventView>, host: u32) -> bool {
    &&& events.len() == 2
    &&& is_attempt(events[0], attack_source(host), 80)
    &&& is_exploit_from(events[1], attack_source(host))
}

/// The port that a scan touches in place `i`.
pub open spec fn scan_port(i: int) -> u16 {
    (1000 + (i + 1) * 7) as u16
}

/// A scan of many ports by `host`.
pub open spec fn is_scan(events: Seq<crate::models::NetworkEventView>, host: u32) -> bool {
    events.len() == SCAN_SIZE && forall|i: int|
        0 <= i < events.len() ==> is_attempt(#[trigger] events[i], attack_source(host), scan_port(i))
}

/// What a batch consists of, part by part.
pub struct BatchParts {
    pub ordinary: Seq<crate::models::NetworkEventView>,
    pub flood: Seq<crate::models::NetworkEventView>,
    pub signature: Seq<crate::models::NetworkEventView>,
    pub sequence: Seq<crate::models::NetworkEventView>,
    pub scan: Seq<crate::models::NetworkEventView>,
    /// The hosts that the flood, the sequence and the scan come from.
    pub flood_host: u32,
    pub sequence_host: u32,
    pub scan_host: u32,
}

impl BatchParts {
    /// The parts are those of a batch of tick `tick`.
    pub open spec fn wf(self, tick: u64) -> bool {
        let due = injections_at(tick);
        &&& is_ordinary(self.ordinary)
        &&& self.flood_host < 255 && self.sequence_host < 255 && self.scan_host < 255
        &&& if due.flood {
            is_flood(self.flood, self.flood_host)
        } else {
            self.flood.len() == 0
        }
        &&& if due.traversal {
            self.signature.len() == 1 && is_traversal_injection(self.signature[0])
        } else if due.sql {
            self.signature.len() == 1 && is_sql_injection(self.signature[0])
        } else {
            self.signature.len() == 0
        }
        &&& if due.sequence {
            is_sequence(self.sequence, self.sequence_host)
        } else {
            self.sequence.len() == 0
        }
        &&& if due.scan {
            is_scan(self.scan, self.scan_host)
        } else {
            self.scan.len() == 0
        }
    }

    /// The parts in their order.
    pub open spec fn joined(self) -> Seq<crate::models::NetworkEventView> {
        self.ordinary + self.flood + self.signature + self.sequence + self.scan
    }
}

/// `events` is a batch of tick `tick`.
pub open spec fn is_batch(tick: u64, events: Seq<crate::models::NetworkEventView>) -> bool {
    exists|parts: BatchParts| #[trigger] parts.wf(tick) && events == parts.joined()
}

/// The simulator: its generator, and the number of batches so far.
pub struct Simulator {
    rng: ThreadRng,
    tick: u64,
}

impl Simulator {
    /// The number of batches so far.
    pub closed spec fn tick(&self) -> u64 {
        self.tick
    }

    /// A simulator before its first batch.
    pub fn new() -> (r: Self)
        ensures
            r.tick() == 0,
    {
        Simulator { rng: thread_rng(), tick: 0 }
    }

    /// The number of batches so far.
    pub fn batches(&self) -> (r: u64)
        ensures
            r == self.tick(),
    {
        self.tick
    }

    /// Draws a source port.
    fn draw_port(&mut self) -> (r: u16)
        ensures
            is_ephemeral(r),
            final(self).tick == old(self).tick,
    {
        draw(&mut self.rng, 1024, 65535) as u16
    }

    /// Draws the host of an attack and returns its address.
    fn draw_attacker(&mut self) -> (r: (u32, Ghost<u32>))
        ensures
            r.1@ < 255,
            r.0 == attack_source(r.1@),
            final(self).tick == old(self).tick,
    {
        let host: u32 = draw(&mut self.rng, 0, 255);
        assert(host | 0x0A00_0000 == 0x0A00_0000 + host) by (bit_vector)
            requires
                host < 255,
        ;
        (host | ATTACK_NET, Ghost(host))
    }

    /// Draws an event of ordinary traffic.
    fn benign_event(&mut self) -> (r: NetworkEvent)
        ensures
            is_benign(r@),
            final(self).tick == old(self).tick,
    {
        let src_ip: u32 = draw(&mut self.rng, 0, u32::MAX);
        let src_port: u16 = self.draw_port();
        let choice: usize = draw(&mut self.rng, 0, 4) as usize;
        assert(benign_ports()[choice as int] == benign_ports()[choice as int]);
        benign_event_from(now_ms(), src_ip, src_port, choice)
    }

    /// Draws connection attempts of one source, on the ports from `first` on in
    /// steps of `stride`.
    fn attempts(&mut self, src_ip: u32, count: usize, first: u16, stride: u16) -> (r: Vec<
        NetworkEvent,
    >)
        requires
            first + count * stride <= u16::MAX,
        ensures
            r@.len() == count,
            forall|i: int|
                0 <= i < count ==> is_attempt(
                    (#[trigger] r@[i])@,
                    src_ip,
                    (first + i * stride) as u16,
                ),
            final(self).tick == old(self).tick,
    {
        let mut events: Vec<NetworkEvent> = Vec::new();
        let mut port: u16 = first;
        let mut i: usize = 0;
        while i < count
            invariant
                i <= count,
                first + count * stride <= u16::MAX,
                port == first + i * stride,
                events@.len() == i,
                forall|j: int|
                    0 <= j < i ==> is_attempt(
                        (#[trigger] events@[j])@,
                        src_ip,
                        (first + j * stride) as u16,
                    ),
                self.tick == old(self).tick,
            decreases count - i,
        {
            let timestamp_ms: i64 = now_ms();
            let src_port: u16 = self.draw_port();
            events.push(attempt_event(timestamp_ms, src_ip, src_port, port));
            assert((i + 1) * stride <= count * stride && (i + 1) * stride == i * stride + stride)
                by (nonlinear_arith)
                requires
                    i + 1 <= count,
            ;
            port = port + stride;
            i = i + 1;
        }
        events
    }

    /// Produces the next batch.
    pub fn next_batch(&mut self) -> (r: Vec<NetworkEvent>)
        requires
            old(self).tick() < u64::MAX,
        ensures
            final(self).tick() == old(self).tick() + 1,
            is_batch(final(self).tick(), event_views(r@)),
    {
        self.tick = self.tick + 1;
        let ghost tick = self.tick;
        let due: Injections = injections(self.tick);
        let mut events: Vec<NetworkEvent> = Vec::new();
        let count: u32 = draw(&mut self.rng, 20, 60);
        let mut i: u32 = 0;
        while i < count
            invariant
                i <= count,
                events@.len() == i,
                forall|j: int| 0 <= j < i ==> is_benign((#[trigger] events@[j])@),
                self.tick == tick,
            decreases count - i,
        {
            events.push(self.benign_event());
            i = i + 1;
        }
        let ghost ordinary = event_views(events@);
        let mut flood: Vec<NetworkEvent> = Vec::new();
        let ghost mut flood_host: u32 = 0;
        if due.flood {
            let (attacker_ip, Ghost(host)) = self.draw_attacker();
            flood = self.attempts(attacker_ip, FLOOD_SIZE, 80, 0);
            proof {
                flood_host = host;
                assert forall|i: int| 0 <= i < 80 implies is_attempt(
                    (#[trigger] event_views(flood@)[i]),
                    attack_source(host),
                    80,
                ) by {
                    assert(is_attempt(flood@[i]@, attacker_ip, (80 + i * 0) as u16));
                }
            }
        }
        let mut signature: Vec<NetworkEvent> = Vec::new();
        if due.traversal {
            let e = self.benign_event();
            signature.push(exploit_event(e.timestamp_ms, e.src_ip, e.src_port, e.dst_port));
        } else if due.sql {
            let e = self.benign_event();
            signature.push(sql_event(e.timestamp_ms, e.src_ip, e.src_port, e.dst_port));
        }
        let mut sequence: Vec<NetworkEvent> = Vec::new();
        let ghost mut sequence_host: u32 = 0;
        if due.sequence {
            let (prober_ip, Ghost(host)) = self.draw_attacker();
            let probe_time: i64 = now_ms();
            let probe_port: u16 = self.draw_port();
            sequence.push(attempt_event(probe_time, prober_ip, probe_port, 80));
            let exploit_time: i64 = now_ms();
            let exploit_port: u16 = self.draw_port();
            sequence.push(exploit_event(exploit_time, prober_ip, exploit_port, 80));
            proof {
                sequence_host = host;
            }
        }
        let mut scan: Vec<NetworkEvent> = Vec::new();
        let ghost mut scan_host: u32 = 0;
        if due.scan {
            let (scanner_ip, Ghost(host)) = self.draw_attacker();
            scan = self.attempts(scanner_ip, SCAN_SIZE, 1007, 7);
            proof {
                scan_host = host;
                assert forall|i: int| 0 <= i < 39 implies is_attempt(
                    (#[trigger] event_views(scan@)[i]),
                    attack_source(host),
                    scan_port(i),
                ) by {
                    assert(is_attempt(scan@[i]@, scanner_ip, (1007 + i * 7) as u16));
                }
            }
        }
        let ghost parts = BatchParts {
            ordinary,
            flood: event_views(flood@),
            signature: event_views(signature@),
            sequence: event_views(sequence@),
            scan: event_views(scan@),
            flood_host,
            sequence_host,
            scan_host,
        };
        events.append(&mut flood);
        events.append(&mut signature);
        events.append(&mut sequence);
        events.append(&mut scan);
        proof {
            assert(parts.wf(tick));
            assert(event_views(events@) =~= parts.joined());
        }
        events
    }
}

impl Default for Simulator {
    fn default() -> (r: Self)
        ensures
            r.tick() == 0,
    {
        Simulator::new()
    }
}

/// Ordinary traffic is quiet: it raises no signature alert, it is no connection
/// attempt, and it neither starts nor completes the default sequence.
pub proof fn law_ordinary_traffic_is_quiet(e: crate::models::NetworkEventView, id: u64)
    requires
        is_benign(e),
    ensures
        crate::detection::signature::signature_alerts(e, id).len() == 0,
        !crate::models::is_syn(e),
        !crate::detection::cep::is_exploit(e),
{
    let payload = benign_payload();
    reveal_strlit("GET /index.html HTTP/1.1");
    reveal_strlit("/etc/passwd");
    reveal_strlit("UNION SELECT");
    reveal_strlit("<script>alert(");
    reveal_strlit("cmd.exe");
    reveal_strlit("../../");
    let patterns = crate::detection::signature::default_patterns();
    assert forall|p: int| 0 <= p < patterns.len() implies !crate::text::occurs(
        payload,
        #[trigger] patterns[p],
    ) by {
        if crate::text::occurs(payload, patterns[p]) {
            let at = choose|at: int| crate::text::occurs_at(payload, patterns[p], at);
            let found = payload.subrange(at, at + patterns[p].len());
            assert(found[0] == payload[at] && found[1] == payload[at + 1]);
            assert(found[0] == patterns[p][0] && found[1] == patterns[p][1]);
        }
    }
    crate::detection::signature::law_alerts_where_a_pattern_stands(e, id, 0);
    assert(3u8 & crate::models::SYN != 0 && 3u8 & crate::models::ACK != 0) by (bit_vector);
    reveal_strlit("passwd");
    let marker = crate::detection::cep::payload_marker();
    if crate::text::occurs(payload, marker) {
        let at = choose|at: int| crate::text::occurs_at(payload, marker, at);
        let found = payload.subrange(at, at + marker.len());
        assert(found[0] == payload[at] && found[1] == payload[at + 1]);
        assert(found[0] == marker[0] && found[1] == marker[1]);
    }
}

/// An injected path traversal is found by the signatures: whoever sends its
/// payload, exactly two alerts are raised, that of the generic traversal and that
/// of the password file, although the two patterns overlap.
pub proof fn law_exploit_payload_is_found(e: crate::models::NetworkEventView, id: u64)
    requires
        e.payload_sample == exploit_payload(),
    ensures
        crate::detection::signature::signature_alerts(e, id) == seq![
            crate::detection::signature::signature_alert(e, id, 4),
            crate::detection::signature::signature_alert(e, crate::models::id_after(id, 1), 0),
        ],
        crate::detection::cep::is_exploit(e),
{
    let payload = exploit_payload();
    reveal_strlit("GET /../../etc/passwd HTTP/1.1");
    reveal_strlit("/etc/passwd");
    reveal_strlit("UNION SELECT");
    reveal_strlit("<script>alert(");
    reveal_strlit("cmd.exe");
    reveal_strlit("../../");
    reveal_strlit("passwd");
    let patterns = crate::detection::signature::default_patterns();
    let found: Seq<(usize, usize)> = seq![(4usize, 11usize), (0usize, 21usize)];
    assert(payload.subrange(5, 11) =~= patterns[4]);
    assert(payload.subrange(10, 21) =~= patterns[0]);
    assert forall|p: int, end: int|
        #[trigger] crate::detection::signature::ends_at(
            patterns,
            payload,
            p,
            end,
        ) implies exists|i: int|
        0 <= i < found.len() && #[trigger] found[i] == (p as usize, end as usize) by {
        let n = patterns[p].len() as int;
        let part = payload.subrange(end - n, end);
        assert(part[0] == payload[end - n] && part[1] == payload[end - n + 1]);
        assert(part[0] == patterns[p][0] && part[1] == patterns[p][1]);
        assert(part[2] == payload[end - n + 2] && part[2] == patterns[p][2]);
        assert(part[3] == payload[end - n + 3] && part[3] == patterns[p][3]);
        if p == 4 {
            assert(found[0] == (p as usize, end as usize));
        } else {
            assert(found[1] == (p as usize, end as usize));
        }
    }
    crate::detection::signature::lemma_search_is_hits(payload, payload.len(), found);
    assert(crate::models::id_after(id, 0) == id);
    assert(crate::detection::signature::signature_alerts(e, id) =~= seq![
        crate::detection::signature::signature_alert(e, id, 4),
        crate::detection::signature::signature_alert(e, crate::models::id_after(id, 1), 0),
    ]);
    let marker = crate::detection::cep::payload_marker();
    assert(payload.subrange(15, 21) =~= marker);
    assert(crate::text::occurs_at(payload, marker, 15));
}

/// An injected SQL injection is found by the signatures: whoever sends its
/// payload, exactly the alert of its rule is raised.
pub proof fn law_sql_payload_is_found(e: crate::models::NetworkEventView, id: u64)
    requires
        e.payload_sample == sql_payload(),
    ensures
        crate::detection::signature::signature_alerts(e, id) == seq![
            crate::detection::signature::signature_alert(e, id, 1),
        ],
{
    let payload = sql_payload();
    reveal_strlit("GET /item?id=1 UNION SELECT 1 HTTP/1.1");
    reveal_strlit("/etc/passwd");
    reveal_strlit("UNION SELECT");
    reveal_strlit("<script>alert(");
    reveal_strlit("cmd.exe");
    reveal_strlit("../../");
    let patterns = crate::detection::signature::default_patterns();
    let found: Seq<(usize, usize)> = seq![(1usize, 27usize)];
    assert(payload.subrange(15, 27) =~= patterns[1]);
    assert forall|p: int, end: int|
        #[trigger] crate::detection::signature::ends_at(
            patterns,
            payload,
            p,
            end,
        ) implies exists|i: int|
        0 <= i < found.len() && #[trigger] found[i] == (p as usize, end as usize) by {
        let n = patterns[p].len() as int;
        let part = payload.subrange(end - n, end);
        assert(part[0] == payload[end - n] && part[1] == payload[end - n + 1]);
        assert(part[0] == patterns[p][0] && part[1] == patterns[p][1]);
        assert(found[0] == (p as usize, end as usize));
    }
    crate::detection::signature::lemma_search_is_hits(payload, payload.len(), found);
    assert(crate::models::id_after(id, 0) == id);
    assert(crate::detection::signature::signature_alerts(e, id) =~= seq![
        crate::detection::signature::signature_alert(e, id, 1),
    ]);
}

/// Both kinds of known-bad payload come back periodically: every batch whose
/// number is an odd multiple of 733 holds an event in which the password file
/// stands, and every batch whose number is an even multiple holds one in which the
/// SQL pattern stands.
pub proof fn law_both_payloads_are_injected(
    tick: u64,
    events: Seq<crate::models::NetworkEventView>,
)
    requires
        is_batch(tick, events),
    ensures
        tick % 1466 == 733 ==> exists|i: int|
            0 <= i < events.len() && crate::text::occurs(
                (#[trigger] events[i]).payload_sample,
                crate::text::ascii("/etc/passwd"@),
            ),
        tick % 1466 == 0 ==> exists|i: int|
            0 <= i < events.len() && crate::text::occurs(
                (#[trigger] events[i]).payload_sample,
                crate::text::ascii("UNION SELECT"@),
            ),
{
    let parts = choose|parts: BatchParts| #[trigger] parts.wf(tick) && events == parts.joined();
    let at = (parts.ordinary.len() + parts.flood.len()) as int;
    reveal_strlit("GET /../../etc/passwd HTTP/1.1");
    reveal_strlit("GET /item?id=1 UNION SELECT 1 HTTP/1.1");
    reveal_strlit("/etc/passwd");
    reveal_strlit("UNION SELECT");
    if tick % 1466 == 733 {
        assert(events[at] == parts.signature[0]);
        let pattern = crate::text::ascii("/etc/passwd"@);
        assert(exploit_payload().subrange(10, 21) =~= pattern);
        assert(crate::text::occurs_at(exploit_payload(), pattern, 10));
    }
    if tick % 1466 == 0 {
        assert(events[at] == parts.signature[0]);
        let pattern = crate::text::ascii("UNION SELECT"@);
        assert(sql_payload().subrange(15, 27) =~= pattern);
        assert(crate::text::occurs_at(sql_payload(), pattern, 15));
    }
}

/// A connection attempt of an attack is one.
proof fn lemma_attempt_is_syn(e: crate::models::NetworkEventView)
    requires
        e.flags == 1,
    ensures
        crate::models::is_syn(e),
{
    assert(1u8 & crate::models::SYN != 0 && 1u8 & crate::models::ACK == 0) by (bit_vector);
}

/// The events of a run of observations.
pub open spec fn observed(
    run: Seq<crate::detection::anomaly::Observation>,
) -> Seq<crate::models::NetworkEventView> {
    run.map_values(|o: crate::detection::anomaly::Observation| o.event)
}

proof fn lemma_attempts_of_flood(
    before: Seq<crate::detection::anomaly::Observation>,
    flood: Seq<crate::detection::anomaly::Observation>,
    src: u32,
)
    requires
        forall|i: int|
            0 <= i < flood.len() ==> (#[trigger] flood[i]).event.src_ip == src
                && flood[i].event.flags == 1,
    ensures
        crate::detection::anomaly::attempts(before + flood, src) >= flood.len(),
    decreases flood.len(),
{
    if flood.len() > 0 {
        let run = before + flood;
        assert(run.drop_last() =~= before + flood.drop_last());
        assert(run.last() == flood[flood.len() - 1]);
        assert forall|i: int| 0 <= i < flood.drop_last().len() implies (
        #[trigger] flood.drop_last()[i]).event.src_ip == src && flood.drop_last()[i].event.flags
            == 1 by {
            assert(flood[i] == flood.drop_last()[i]);
        }
        lemma_attempts_of_flood(before, flood.drop_last(), src);
        lemma_attempt_is_syn(flood[flood.len() - 1].event);
    }
}

/// An injected flood is reported: where it falls into one window, whatever that
/// window held before, its source has raised exactly one flood alert by its end.
pub proof fn law_injected_flood_is_reported(
    start: crate::detection::anomaly::AnomalyView,
    before: Seq<crate::detection::anomaly::Observation>,
    flood: Seq<crate::detection::anomaly::Observation>,
    host: u32,
)
    requires
        start == crate::detection::anomaly::AnomalyView::fresh(
            start.window,
            start.window_start,
            start.next_id,
        ),
        crate::detection::anomaly::within_window(start, before + flood),
        is_flood(observed(flood), host),
    ensures
        crate::detection::anomaly::flood_alerts(start, before + flood, attack_source(host)) == 1,
{
    let src = attack_source(host);
    assert forall|i: int| 0 <= i < flood.len() implies (#[trigger] flood[i]).event.src_ip == src
        && flood[i].event.flags == 1 by {
        assert(is_attempt(observed(flood)[i], src, 80));
    }
    lemma_attempts_of_flood(before, flood, src);
    crate::detection::anomaly::law_flood_is_reported_once(start, before + flood, src);
}

/// An injected probe and exploit are reported: where the exploit follows the
/// probe within the window, it raises exactly the alert of the default rule,
/// whatever came before the two.
pub proof fn law_injected_sequence_is_reported(
    before: Seq<(crate::models::NetworkEventView, u128)>,
    events: Seq<crate::models::NetworkEventView>,
    host: u32,
    probe_time: u128,
    exploit_time: u128,
)
    requires
        is_sequence(events, host),
        probe_time <= exploit_time,
        exploit_time - probe_time <= crate::detection::cep::default_rule().window,
    ensures
        ({
            let m = crate::detection::cep::after_events(before.push((events[0], probe_time)));
            m.alerts(events[1], exploit_time, 1) == seq![
                crate::detection::cep::default_rule().alert(events[1], m.next_id),
            ]
        }),
{
    let probed = before.push((events[0], probe_time));
    let run = probed.push((events[1], exploit_time));
    assert(run.drop_last() =~= probed);
    lemma_attempt_is_syn(events[0]);
    law_exploit_payload_is_found(events[1], 0);
    crate::detection::cep::law_sequence_within_window_fires(run, run.len() - 2);
}

/// An injected scan touches different ports with each of its events, more of them
/// than make a scan.
pub proof fn law_injected_scan_touches_many_ports(
    events: Seq<crate::models::NetworkEventView>,
    host: u32,
)
    requires
        is_scan(events, host),
    ensures
        events.len() >= crate::detection::anomaly::PORT_SCAN_THRESHOLD,
        forall|i: int, j: int|
            0 <= i < j < events.len() ==> (#[trigger] events[i]).dst_port != (
            #[trigger] events[j]).dst_port,
{
    assert forall|i: int, j: int| 0 <= i < j < events.len() implies (
    #[trigger] events[i]).dst_port != (#[trigger] events[j]).dst_port by {
        assert(is_attempt(events[i], attack_source(host), scan_port(i)));
        assert(is_attempt(events[j], attack_source(host), scan_port(j)));
    }
}

} // verus!
