//! Numbers, addresses and keys: what their texts and bytes say.

use vstd::prelude::*;
use vstd::string::*;

verus! {

/// The number that a text of decimal digits stands for.
pub open spec fn value(text: Seq<char>) -> int
    decreases text.len(),
{
    if text.len() == 0 {
        0
    } else {
        value(text.drop_last()) * 10 + (text.last() as int - '0' as int)
    }
}

/// `text` is `n` in decimal digits, with no leading zero.
pub open spec fn is_numeral(text: Seq<char>, n: int) -> bool {
    &&& text.len() > 0
    &&& forall|i: int| 0 <= i < text.len() ==> '0' <= #[trigger] text[i] <= '9'
    &&& text.len() > 1 ==> text[0] != '0'
    &&& value(text) == n
}

/// A printed number reads as that number.
pub proof fn law_printed_number_reads_back(n: nat)
    ensures
        is_numeral(crate::text::decimal(n), n as int),
    decreases n,
{
    let text = crate::text::decimal(n);
    if n < 10 {
        assert(text.drop_last() =~= Seq::empty());
        assert(value(text.drop_last()) == 0);
    } else {
        law_printed_number_reads_back(n / 10);
        let before = crate::text::decimal(n / 10);
        assert(text.drop_last() =~= before);
        assert(text[0] == before[0]);
        assert forall|i: int| 0 <= i < text.len() implies '0' <= #[trigger] text[i] <= '9' by {
            if i < before.len() {
                assert(text[i] == before[i]);
            }
        }
        if before.len() == 1 && before[0] == '0' {
            assert(before.drop_last() =~= Seq::empty());
            assert(value(before.drop_last()) == 0);
            assert(value(before) == 0);
        }
    }
}

/// A printed address is four numbers with dots between them, the bytes of the
/// address from the first on.
pub proof fn law_printed_address_reads_back(ip: u32)
    ensures
        exists|a: Seq<char>, b: Seq<char>, c: Seq<char>, d: Seq<char>|
            {
                &&& #[trigger] is_numeral(a, (ip / 0x100_0000) as int)
                &&& #[trigger] is_numeral(b, (ip / 0x1_0000 % 0x100) as int)
                &&& #[trigger] is_numeral(c, (ip / 0x100 % 0x100) as int)
                &&& #[trigger] is_numeral(d, (ip % 0x100) as int)
                &&& crate::models::ip_text(ip) == a + "."@ + b + "."@ + c + "."@ + d
            },
{
    reveal_strlit(".");
    assert("."@ =~= seq!['.']);
    law_printed_number_reads_back((ip / 0x100_0000) as nat);
    law_printed_number_reads_back((ip / 0x1_0000 % 0x100) as nat);
    law_printed_number_reads_back((ip / 0x100 % 0x100) as nat);
    law_printed_number_reads_back((ip % 0x100) as nat);
    let o = crate::models::octets(ip);
    assert(o[0] == ip / 0x100_0000 && o[1] == ip / 0x1_0000 % 0x100);
    assert(o[2] == ip / 0x100 % 0x100 && o[3] == ip % 0x100);
}

/// The bytes of an address and of a port make it up, the most significant first.
pub proof fn law_bytes_make_up_the_number(ip: u32, port: u16)
    ensures
        crate::models::octets(ip).len() == 4,
        crate::models::octets(ip)[0] * 0x100_0000 + crate::models::octets(ip)[1] * 0x1_0000
            + crate::models::octets(ip)[2] * 0x100 + crate::models::octets(ip)[3] == ip,
        crate::models::port_octets(port).len() == 2,
        crate::models::port_octets(port)[0] * 0x100 + crate::models::port_octets(port)[1] == port,
{
}

/// The flow key is made from the 5-tuple and from nothing else: the bytes that are
/// hashed for two events are the same if and only if both addresses, both ports
/// and the protocol are.
pub proof fn law_flow_bytes_are_the_tuple(
    a: crate::models::NetworkEventView,
    b: crate::models::NetworkEventView,
)
    ensures
        crate::models::flow_bytes(a) == crate::models::flow_bytes(b) <==> a.src_ip == b.src_ip
            && a.dst_ip == b.dst_ip && a.src_port == b.src_port && a.dst_port == b.dst_port
            && a.protocol == b.protocol,
{
    let x = crate::models::flow_bytes(a);
    let y = crate::models::flow_bytes(b);
    law_bytes_make_up_the_number(a.src_ip, a.src_port);
    law_bytes_make_up_the_number(a.dst_ip, a.dst_port);
    law_bytes_make_up_the_number(b.src_ip, b.src_port);
    law_bytes_make_up_the_number(b.dst_ip, b.dst_port);
    if x == y {
        assert(x.subrange(0, 4) =~= crate::models::octets(a.src_ip));
        assert(y.subrange(0, 4) =~= crate::models::octets(b.src_ip));
        assert(x.subrange(4, 8) =~= crate::models::octets(a.dst_ip));
        assert(y.subrange(4, 8) =~= crate::models::octets(b.dst_ip));
        assert(x.subrange(8, 10) =~= crate::models::port_octets(a.src_port));
        assert(y.subrange(8, 10) =~= crate::models::port_octets(b.src_port));
        assert(x.subrange(10, 12) =~= crate::models::port_octets(a.dst_port));
        assert(y.subrange(10, 12) =~= crate::models::port_octets(b.dst_port));
        assert(x[12] == crate::models::protocol_number(a.protocol));
        assert(y[12] == crate::models::protocol_number(b.protocol));
    }
}

/// The hash of bytes is made step by step, from the first byte on, and hashes of
/// lists that differ in the last byte alone differ.
pub proof fn law_hash_step_by_step(bytes: Seq<u8>, a: u8, b: u8)
    ensures
        crate::models::fnv1a(Seq::empty()) == 1469598103934665603,
        crate::models::fnv1a(bytes.push(a)) == crate::laws::flow::hashed(
            crate::models::fnv1a(bytes) as int,
            a as int,
        ),
        a != b ==> crate::models::fnv1a(bytes.push(a)) != crate::models::fnv1a(bytes.push(b)),
{
    assert(bytes.push(a).drop_last() =~= bytes);
    if a != b {
        crate::models::lemma_last_byte_tells(bytes, a, b);
    }
}

/// The time between two readings is their difference, and nothing where the first
/// is the earlier one.
pub proof fn law_time_between(now: u128, then: u128)
    ensures
        now >= then ==> then + crate::time::elapsed(now, then) == now,
        now <= then ==> crate::time::elapsed(now, then) == 0,
{
}

/// A timestamp counts the milliseconds since the epoch, and those before it as
/// negative, wherever they fit.
pub proof fn law_timestamp(ms: u128)
    requires
        ms <= i64::MAX,
    ensures
        crate::ingestion::timestamp_of(Ok(ms)) == ms,
        crate::ingestion::timestamp_of(Err(ms)) == -ms,
{
}

/// A span is printed as the duration of its whole seconds and of the nanoseconds
/// beyond them.
pub proof fn law_printed_span(secs: u64, nanos: u32)
    requires
        nanos < 1_000_000_000,
    ensures
        crate::time::span_text((secs * 1_000_000_000 + nanos) as nat)
            == crate::time::duration_debug(secs, nanos),
{
}

/// Identifiers and counters count on by one, and round at 2^64.
pub proof fn law_counting_on(n: u64, by: nat)
    ensures
        n + by < 0x1_0000_0000_0000_0000 ==> crate::models::id_after(n, by) == n + by,
        crate::models::id_after(n, by + 1) == crate::models::id_after(
            crate::models::id_after(n, by),
            1,
        ),
        crate::models::id_after(u64::MAX, 1) == 0,
        crate::pipeline::counted(n) == crate::models::id_after(n, 1),
{
}

} // verus!
