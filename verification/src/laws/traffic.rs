//! Simulated traffic: what a batch holds.

use vstd::prelude::*;
use vstd::string::*;

use crate::models::Protocol;

verus! {

/// `payload` is `text`, one byte for each character.
pub open spec fn spells(payload: Seq<u8>, text: Seq<char>) -> bool {
    payload.len() == text.len() && crate::laws::stands_at(payload, text, 0)
}

/// What all simulated events have in common: TCP to 192.168.1.1 from a port that
/// clients use.
pub open spec fn is_simulated(e: crate::models::NetworkEventView) -> bool {
    &&& e.dst_ip == 0xC0A8_0101u32
    &&& e.protocol == Protocol::Tcp
    &&& 1024 <= e.src_port < 65535
}

/// An event of an established connection with the given payload.
pub open spec fn is_established(e: crate::models::NetworkEventView, text: Seq<char>) -> bool {
    is_simulated(e) && e.flags == 3 && spells(e.payload_sample, text)
}

/// A connection attempt: SYN alone, without payload.
pub open spec fn is_probe(e: crate::models::NetworkEventView, src: u32, port: int) -> bool {
    &&& is_simulated(e)
    &&& e.src_ip == src && e.dst_port == port
    &&& e.flags == 1 && e.payload_sample.len() == 0
}

/// One of the ports of ordinary traffic.
pub open spec fn is_ordinary_port(port: u16) -> bool {
    port == 80 || port == 443 || port == 22 || port == 53
}

/// An address of the net from which attacks come: 10.0.0.0 to 10.0.0.254.
pub open spec fn is_attacker(src: u32) -> bool {
    0x0A00_0000 <= src < 0x0A00_00FF
}

/// One where `due`, else nothing.
pub open spec fn if_due(due: bool, n: int) -> int {
    if due {
        n
    } else {
        0
    }
}

/// What a batch holds: first twenty to fifty-nine events of ordinary traffic; then,
/// every 500th time, eighty connection attempts of one attacker to port 80; every
/// 733rd time, by turns, a path traversal or an SQL injection in ordinary traffic;
/// every 900th time a connection attempt and then a path traversal of one attacker;
/// every 611th time thirty-nine attempts of one attacker to different ports; and
/// nothing else.
pub proof fn law_batch(tick: u64, events: Seq<crate::models::NetworkEventView>)
    requires
        crate::ingestion::is_batch(tick, events),
    ensures
        exists|n: int| #[trigger] is_batch_after(tick, events, n),
{
    let parts = choose|parts: crate::ingestion::BatchParts| #[trigger]
        parts.wf(tick) && events == parts.joined();
    let n = parts.ordinary.len() as int;
    let f = if_due(tick % 500 == 0, 80);
    let s = if_due(tick % 733 == 0, 1);
    let q = if_due(tick % 900 == 0, 2);
    reveal_strlit("GET /index.html HTTP/1.1");
    reveal_strlit("GET /../../etc/passwd HTTP/1.1");
    reveal_strlit("GET /item?id=1 UNION SELECT 1 HTTP/1.1");
    assert(parts.flood.len() == f);
    assert(tick % 733 == 0 <==> tick % 1466 == 0 || tick % 1466 == 733);
    assert(parts.signature.len() == s);
    assert(parts.sequence.len() == q);
    assert forall|i: int| 0 <= i < n implies {
        let e = #[trigger] events[i];
        is_established(e, "GET /index.html HTTP/1.1"@) && is_ordinary_port(e.dst_port)
    } by {
        assert(events[i] == parts.ordinary[i]);
        assert(crate::ingestion::is_benign(parts.ordinary[i]));
        let k = choose|k: int|
            0 <= k < crate::ingestion::benign_ports().len() && crate::ingestion::benign_ports()[k]
                == events[i].dst_port;
        assert(k == 0 || k == 1 || k == 2 || k == 3);
    }
    if tick % 500 == 0 {
        let src = crate::ingestion::attack_source(parts.flood_host);
        assert forall|i: int| n <= i < n + 80 implies is_probe(#[trigger] events[i], src, 80) by {
            assert(events[i] == parts.flood[i - n]);
            assert(crate::ingestion::is_attempt(parts.flood[i - n], src, 80));
        }
        assert(is_probe(events[n], src, 80));
    }
    if tick % 733 == 0 {
        assert(events[n + f] == parts.signature[0]);
        let e = events[n + f];
        let k = choose|k: int|
            0 <= k < crate::ingestion::benign_ports().len() && crate::ingestion::benign_ports()[k]
                == e.dst_port;
        assert(k == 0 || k == 1 || k == 2 || k == 3);
    }
    if tick % 900 == 0 {
        assert(events[n + f + s] == parts.sequence[0]);
        assert(events[n + f + s + 1] == parts.sequence[1]);
    }
    if tick % 611 == 0 {
        let at = n + f + s + q;
        let src = crate::ingestion::attack_source(parts.scan_host);
        assert forall|i: int| at <= i < at + 39 implies is_probe(
            #[trigger] events[i],
            src,
            1007 + 7 * (i - at),
        ) by {
            assert(events[i] == parts.scan[i - at]);
            assert(crate::ingestion::is_attempt(
                parts.scan[i - at],
                src,
                crate::ingestion::scan_port(i - at),
            ));
        }
        assert(is_probe(events[at], src, 1007));
    }
    assert(is_batch_after(tick, events, n));
}

/// The batch begins with `n` events of ordinary traffic, after which come the
/// attacks of its tick.
pub open spec fn is_batch_after(
    tick: u64,
    events: Seq<crate::models::NetworkEventView>,
    n: int,
) -> bool {
    let f = if_due(tick % 500 == 0, 80);
    let s = if_due(tick % 733 == 0, 1);
    let q = if_due(tick % 900 == 0, 2);
    let at = n + f + s + q;
    &&& 20 <= n < 60
    &&& events.len() == at + if_due(tick % 611 == 0, 39)
    &&& forall|i: int|
        0 <= i < n ==> {
            let e = #[trigger] events[i];
            is_established(e, "GET /index.html HTTP/1.1"@) && is_ordinary_port(e.dst_port)
        }
    &&& tick % 500 == 0 ==> is_attacker(events[n].src_ip) && forall|i: int|
        n <= i < n + 80 ==> is_probe(#[trigger] events[i], events[n].src_ip, 80)
    &&& tick % 733 == 0 ==> is_ordinary_port(events[n + f].dst_port)
    &&& tick % 1466 == 733 ==> is_established(events[n + f], "GET /../../etc/passwd HTTP/1.1"@)
    &&& tick % 1466 == 0 ==> is_established(
        events[n + f],
        "GET /item?id=1 UNION SELECT 1 HTTP/1.1"@,
    )
    &&& tick % 900 == 0 ==> {
        let src = events[n + f + s].src_ip;
        &&& is_attacker(src)
        &&& is_probe(events[n + f + s], src, 80)
        &&& is_established(events[n + f + s + 1], "GET /../../etc/passwd HTTP/1.1"@)
        &&& events[n + f + s + 1].src_ip == src && events[n + f + s + 1].dst_port == 80
    }
    &&& tick % 611 == 0 ==> is_attacker(events[at].src_ip) && forall|i: int|
        at <= i < at + 39 ==> is_probe(
            #[trigger] events[i],
            events[at].src_ip,
            1007 + 7 * (i - at),
        )
}

/// Simulated events are made as asked: they carry the moment, the source and the
/// ports that they are given, and are ordinary traffic, a connection attempt, a
/// path traversal or an SQL injection. The ports of ordinary traffic are numbered
/// 80, 443, 22, 53.
pub proof fn law_events_are_made_as_asked(
    timestamp_ms: i64,
    src_ip: u32,
    src_port: u16,
    dst_port: u16,
)
    ensures
        ({
            let e = crate::ingestion::benign_view(timestamp_ms, src_ip, src_port, dst_port);
            &&& was_asked(e, timestamp_ms, src_ip, src_port, dst_port)
            &&& e.flags == 3 && spells(e.payload_sample, "GET /index.html HTTP/1.1"@)
        }),
        ({
            let e = crate::ingestion::attempt_view(timestamp_ms, src_ip, src_port, dst_port);
            &&& was_asked(e, timestamp_ms, src_ip, src_port, dst_port)
            &&& e.flags == 1 && e.payload_sample.len() == 0
        }),
        ({
            let e = crate::ingestion::exploit_view(timestamp_ms, src_ip, src_port, dst_port);
            &&& was_asked(e, timestamp_ms, src_ip, src_port, dst_port)
            &&& e.flags == 3 && spells(e.payload_sample, "GET /../../etc/passwd HTTP/1.1"@)
        }),
        ({
            let e = crate::ingestion::sql_view(timestamp_ms, src_ip, src_port, dst_port);
            &&& was_asked(e, timestamp_ms, src_ip, src_port, dst_port)
            &&& e.flags == 3 && spells(
                e.payload_sample,
                "GET /item?id=1 UNION SELECT 1 HTTP/1.1"@,
            )
        }),
        crate::ingestion::benign_ports().len() == 4,
        crate::ingestion::benign_ports()[0] == 80 && crate::ingestion::benign_ports()[1] == 443,
        crate::ingestion::benign_ports()[2] == 22 && crate::ingestion::benign_ports()[3] == 53,
{
    reveal_strlit("GET /index.html HTTP/1.1");
    reveal_strlit("GET /../../etc/passwd HTTP/1.1");
    reveal_strlit("GET /item?id=1 UNION SELECT 1 HTTP/1.1");
}

/// The event goes to 192.168.1.1 by TCP, with the given moment, source and ports.
pub open spec fn was_asked(
    e: crate::models::NetworkEventView,
    timestamp_ms: i64,
    src_ip: u32,
    src_port: u16,
    dst_port: u16,
) -> bool {
    &&& e.timestamp_ms == timestamp_ms && e.src_ip == src_ip && e.dst_ip == 0xC0A8_0101u32
    &&& e.src_port == src_port && e.dst_port == dst_port && e.protocol == Protocol::Tcp
}

/// Which attacks a tick brings: each kind comes back after its own number of
/// ticks, the two kinds of payload by turns.
pub proof fn law_attacks_of_a_tick(tick: u64)
    ensures
        ({
            let due = crate::ingestion::injections_at(tick);
            &&& due.flood <==> tick % 500 == 0
            &&& due.traversal || due.sql <==> tick % 733 == 0
            &&& due.traversal <==> tick % 733 == 0 && tick / 733 % 2 == 1
            &&& due.sql <==> tick % 733 == 0 && tick / 733 % 2 == 0
            &&& due.sequence <==> tick % 900 == 0
            &&& due.scan <==> tick % 611 == 0
        }),
{
}

} // verus!
