//! Windows: which observations raise flood and scan alerts.

use vstd::arithmetic::power2::*;
use vstd::prelude::*;
use vstd::string::*;

use crate::models::{DetectorKind, Severity};

verus! {

/// The bytes of an address, the most significant first.
pub open spec fn address_bytes(ip: u32) -> Seq<u8> {
    seq![
        (ip / 0x100_0000) as u8,
        (ip / 0x1_0000 % 0x100) as u8,
        (ip / 0x100 % 0x100) as u8,
        (ip % 0x100) as u8,
    ]
}

/// How many of the first `n` observations of a run are connection attempts that
/// share the counter of source `src` in row `row`.
pub open spec fn attempts_on(
    run: Seq<crate::detection::anomaly::Observation>,
    n: int,
    row: int,
    src: u32,
) -> nat
    decreases n,
{
    if n <= 0 {
        0
    } else {
        let e = run[n - 1].event;
        attempts_on(run, n - 1, row, src) + if crate::laws::opens_connection(e)
            && crate::laws::counters::column_of(2048, row, address_bytes(e.src_ip))
            == crate::laws::counters::column_of(2048, row, address_bytes(src)) {
            1nat
        } else {
            0nat
        }
    }
}

/// Observation `i` is a connection attempt with which each of the four counters of
/// its source has met fifty attempts or more.
pub open spec fn reaches_flood(
    run: Seq<crate::detection::anomaly::Observation>,
    i: int,
) -> bool {
    let src = run[i].event.src_ip;
    &&& crate::laws::opens_connection(run[i].event)
    &&& attempts_on(run, i + 1, 0, src) >= 50 && attempts_on(run, i + 1, 1, src) >= 50
    &&& attempts_on(run, i + 1, 2, src) >= 50 && attempts_on(run, i + 1, 3, src) >= 50
}

/// Observation `i` is the first one of its source to reach a flood.
pub open spec fn first_flood(run: Seq<crate::detection::anomaly::Observation>, i: int) -> bool {
    reaches_flood(run, i) && !exists|j: int|
        0 <= j < i && run[j].event.src_ip == run[i].event.src_ip && #[trigger] reaches_flood(run, j)
}

/// Observation `i` is the first one of its source at which twenty-five ports or
/// more were estimated.
pub open spec fn first_scan(run: Seq<crate::detection::anomaly::Observation>, i: int) -> bool {
    run[i].estimate.whole >= 25 && !exists|j: int|
        0 <= j < i && (#[trigger] run[j]).event.src_ip == run[i].event.src_ip
            && run[j].estimate.whole >= 25
}

/// The smaller number.
pub open spec fn lower(a: nat, b: nat) -> nat {
    if a < b {
        a
    } else {
        b
    }
}

/// The least of the four counters of the source of observation `i`.
pub open spec fn least_count(run: Seq<crate::detection::anomaly::Observation>, i: int) -> nat {
    let src = run[i].event.src_ip;
    crate::laws::counters::held(
        lower(
            lower(attempts_on(run, i + 1, 0, src), attempts_on(run, i + 1, 1, src)),
            lower(attempts_on(run, i + 1, 2, src), attempts_on(run, i + 1, 3, src)),
        ),
    )
}

proof fn lemma_attempts_of_prefix(
    run: Seq<crate::detection::anomaly::Observation>,
    longer: Seq<crate::detection::anomaly::Observation>,
    n: int,
    row: int,
    src: u32,
)
    requires
        n <= run.len() <= longer.len(),
        forall|i: int| 0 <= i < run.len() ==> #[trigger] run[i] == longer[i],
    ensures
        attempts_on(run, n, row, src) == attempts_on(longer, n, row, src),
    decreases n,
{
    if n > 0 {
        lemma_attempts_of_prefix(run, longer, n - 1, row, src);
        assert(run[n - 1] == longer[n - 1]);
    }
}

proof fn lemma_reaches_of_prefix(
    run: Seq<crate::detection::anomaly::Observation>,
    longer: Seq<crate::detection::anomaly::Observation>,
    i: int,
)
    requires
        0 <= i < run.len() <= longer.len(),
        forall|i: int| 0 <= i < run.len() ==> #[trigger] run[i] == longer[i],
    ensures
        reaches_flood(run, i) == reaches_flood(longer, i),
        least_count(run, i) == least_count(longer, i),
{
    let src = run[i].event.src_ip;
    assert(longer[i].event.src_ip == src);
    lemma_attempts_of_prefix(run, longer, i + 1, 0, src);
    lemma_attempts_of_prefix(run, longer, i + 1, 1, src);
    lemma_attempts_of_prefix(run, longer, i + 1, 2, src);
    lemma_attempts_of_prefix(run, longer, i + 1, 3, src);
}

/// The keys of the attempts of a run that share a counter are its attempts that
/// do.
proof fn lemma_sharers_are_attempts(
    run: Seq<crate::detection::anomaly::Observation>,
    row: int,
    src: u32,
)
    ensures
        crate::laws::counters::sharers(
            2048,
            row,
            address_bytes(src),
            crate::detection::anomaly::attempt_keys(run),
        ) == attempts_on(run, run.len() as int, row, src),
    decreases run.len(),
{
    if run.len() > 0 {
        let before = run.drop_last();
        let keys = crate::detection::anomaly::attempt_keys(run);
        let e = run.last().event;
        lemma_sharers_are_attempts(before, row, src);
        lemma_attempts_of_prefix(before, run, before.len() as int, row, src);
        crate::laws::law_attempt_by_its_flags(e);
        assert(run[run.len() - 1] == run.last());
        if crate::laws::opens_connection(e) {
            assert(keys.drop_last() =~= crate::detection::anomaly::attempt_keys(before));
            assert(keys.last() =~= address_bytes(e.src_ip));
        }
    }
}

/// With the last observation of a run, the estimate of its source is its least
/// counter.
proof fn lemma_estimate_of_last(
    start: crate::detection::anomaly::AnomalyView,
    run: Seq<crate::detection::anomaly::Observation>,
)
    requires
        run.len() > 0,
        start == crate::detection::anomaly::AnomalyView::fresh(
            start.window,
            start.window_start,
            start.next_id,
        ),
        crate::detection::anomaly::within_window(start, run.drop_last()),
        crate::laws::opens_connection(run.last().event),
    ensures
        crate::detection::anomaly::after_observations(start, run.drop_last()).flood_estimate(
            run.last().event,
        ) == least_count(run, run.len() - 1),
{
    let before = run.drop_last();
    let e = run.last().event;
    let key = address_bytes(e.src_ip);
    let keys = crate::detection::anomaly::attempt_keys(run);
    assert(run[run.len() - 1] == run.last());
    crate::laws::law_attempt_by_its_flags(e);
    crate::detection::anomaly::lemma_window_state(start, before, 0);
    assert(keys.drop_last() =~= crate::detection::anomaly::attempt_keys(before));
    assert(keys.last() =~= key);
    assert(crate::detection::anomaly::AnomalyView::key(e.src_ip) =~= key);
    crate::laws::counters::law_estimate_is_least_shared_count(2048, 4, keys, key);
    lemma_sharers_are_attempts(run, 0, e.src_ip);
    lemma_sharers_are_attempts(run, 1, e.src_ip);
    lemma_sharers_are_attempts(run, 2, e.src_ip);
    lemma_sharers_are_attempts(run, 3, e.src_ip);
    let v = crate::detection::sketch::SketchView::after(2048, 4, keys);
    let est = v.estimate(key);
    assert(est <= crate::laws::counters::held(
        crate::laws::counters::sharers(2048, 0, key, keys),
    ));
    assert(est <= crate::laws::counters::held(
        crate::laws::counters::sharers(2048, 1, key, keys),
    ));
    assert(est <= crate::laws::counters::held(
        crate::laws::counters::sharers(2048, 2, key, keys),
    ));
    assert(est <= crate::laws::counters::held(
        crate::laws::counters::sharers(2048, 3, key, keys),
    ));
    let row = choose|row: int|
        0 <= row < 4 && est == crate::laws::counters::held(
            #[trigger] crate::laws::counters::sharers(2048, row, key, keys),
        );
    assert(row == 0 || row == 1 || row == 2 || row == 3);
}

/// Source `src` has reached a flood in the run.
spec fn has_flooded(run: Seq<crate::detection::anomaly::Observation>, src: u32) -> bool {
    exists|j: int|
        0 <= j < run.len() && run[j].event.src_ip == src && #[trigger] reaches_flood(run, j)
}

/// Source `src` was estimated to scan in the run.
spec fn has_scanned(run: Seq<crate::detection::anomaly::Observation>, src: u32) -> bool {
    exists|j: int|
        0 <= j < run.len() && (#[trigger] run[j]).event.src_ip == src && run[j].estimate.whole >= 25
}

proof fn lemma_flooded_after(run: Seq<crate::detection::anomaly::Observation>, src: u32)
    requires
        run.len() > 0,
    ensures
        has_flooded(run, src) <==> has_flooded(run.drop_last(), src) || run.last().event.src_ip
            == src && reaches_flood(run, run.len() - 1),
        has_scanned(run, src) <==> has_scanned(run.drop_last(), src) || run.last().event.src_ip
            == src && run.last().estimate.whole >= 25,
{
    let before = run.drop_last();
    let n = before.len() as int;
    assert(run[n] == run.last());
    if has_flooded(before, src) {
        let j = choose|j: int|
            0 <= j < before.len() && before[j].event.src_ip == src && #[trigger] reaches_flood(
                before,
                j,
            );
        lemma_reaches_of_prefix(before, run, j);
        assert(run[j] == before[j]);
        assert(reaches_flood(run, j));
    }
    if has_flooded(run, src) {
        let j = choose|j: int|
            0 <= j < run.len() && run[j].event.src_ip == src && #[trigger] reaches_flood(run, j);
        if j < n {
            lemma_reaches_of_prefix(before, run, j);
            assert(run[j] == before[j]);
            assert(reaches_flood(before, j));
        }
    }
    if has_scanned(before, src) {
        let j = choose|j: int|
            0 <= j < before.len() && (#[trigger] before[j]).event.src_ip == src
                && before[j].estimate.whole >= 25;
        assert(run[j] == before[j]);
    }
    if has_scanned(run, src) {
        let j = choose|j: int|
            0 <= j < run.len() && (#[trigger] run[j]).event.src_ip == src
                && run[j].estimate.whole >= 25;
        if j < n {
            assert(run[j] == before[j]);
        }
    }
}

/// The sources that a window remembers as alerted are those that have reached a
/// flood, and those that were estimated to scan.
proof fn lemma_alerted_sources(
    start: crate::detection::anomaly::AnomalyView,
    run: Seq<crate::detection::anomaly::Observation>,
    src: u32,
)
    requires
        start == crate::detection::anomaly::AnomalyView::fresh(
            start.window,
            start.window_start,
            start.next_id,
        ),
        crate::detection::anomaly::within_window(start, run),
    ensures
        ({
            let w = crate::detection::anomaly::after_observations(start, run);
            &&& w.flooders.contains(src) <==> has_flooded(run, src)
            &&& w.scanners.contains(src) <==> has_scanned(run, src)
        }),
    decreases run.len(),
{
    if run.len() > 0 {
        let before = run.drop_last();
        let n = before.len() as int;
        let e = run.last().event;
        assert(run[n] == run.last());
        assert(run.take(n) =~= before);
        crate::detection::anomaly::lemma_window_of_prefix(start, run, n);
        lemma_alerted_sources(start, before, src);
        lemma_alerted_sources(start, before, e.src_ip);
        lemma_flooded_after(run, src);
        crate::laws::law_attempt_by_its_flags(e);
        if crate::laws::opens_connection(e) {
            lemma_estimate_of_last(start, run);
        }
    }
}

/// All observations of a run fall into the window of `window` nanoseconds that
/// began at `begin`.
pub open spec fn falls_into(
    run: Seq<crate::detection::anomaly::Observation>,
    begin: u128,
    window: nat,
) -> bool {
    window > 0 && forall|i: int| 0 <= i < run.len() ==> (#[trigger] run[i]).now < begin + window
}

/// The flood alert that is due at observation `i`, but for its identifier.
pub open spec fn flood_alert_at(
    run: Seq<crate::detection::anomaly::Observation>,
    i: int,
    window: nat,
    id: u64,
) -> crate::models::AlertView {
    let e = run[i].event;
    crate::models::AlertView {
        id,
        timestamp_ms: e.timestamp_ms,
        rule_name: "syn-flood-anomaly"@,
        severity: Severity::Critical,
        src_ip: crate::models::ip_text(e.src_ip),
        dst_ip: crate::models::ip_text(e.dst_ip),
        detail: "source "@ + crate::models::ip_text(e.src_ip) + " sent an estimated "@
            + crate::text::decimal(least_count(run, i)) + "+ SYNs within "@
            + crate::time::span_text(window) + " window"@,
        detector: DetectorKind::Anomaly,
    }
}

/// The scan alert that is due at observation `i`, but for its identifier.
pub open spec fn scan_alert_at(
    run: Seq<crate::detection::anomaly::Observation>,
    i: int,
    window: nat,
    id: u64,
) -> crate::models::AlertView {
    let e = run[i].event;
    crate::models::AlertView {
        id,
        timestamp_ms: e.timestamp_ms,
        rule_name: "port-scan-anomaly"@,
        severity: Severity::High,
        src_ip: crate::models::ip_text(e.src_ip),
        dst_ip: crate::models::ip_text(e.dst_ip),
        detail: "source "@ + crate::models::ip_text(e.src_ip) + " touched an estimated "@
            + crate::text::decimal(run[i].estimate.rounded as nat)
            + " distinct destination ports within "@ + crate::time::span_text(window)
            + " window"@,
        detector: DetectorKind::Anomaly,
    }
}

/// Which observations raise alerts: within a window, an observation raises a flood
/// alert if and only if it is the first attempt of its source with which each of
/// the source's four counters has met fifty attempts, and a scan alert if and only
/// if it is the first one of its source at which twenty-five ports were estimated.
/// It raises nothing else, and the flood alert comes first.
pub proof fn law_alerts_within_a_window(
    begin: u128,
    window: nat,
    id: u64,
    run: Seq<crate::detection::anomaly::Observation>,
    i: int,
)
    requires
        falls_into(run, begin, window),
        0 <= i < run.len(),
    ensures
        ({
            let start = crate::detection::anomaly::AnomalyView::fresh(window, begin, id);
            let alerts = crate::detection::anomaly::after_observations(start, run.take(i)).alerts(
                run[i].event,
                run[i].now,
                run[i].estimate,
            );
            let flood = if first_flood(run, i) {
                1int
            } else {
                0int
            };
            let scan = if first_scan(run, i) {
                1int
            } else {
                0int
            };
            &&& alerts.len() == flood + scan
            &&& first_flood(run, i) ==> alerts[0] == flood_alert_at(run, i, window, alerts[0].id)
            &&& first_scan(run, i) ==> alerts[flood] == scan_alert_at(
                run,
                i,
                window,
                alerts[flood].id,
            )
        }),
{
    let start = crate::detection::anomaly::AnomalyView::fresh(window, begin, id);
    assert forall|j: int| 0 <= j < run.len() implies !start.is_over((#[trigger] run[j]).now) by {}
    let before = run.take(i);
    let src = run[i].event.src_ip;
    let w = crate::detection::anomaly::after_observations(start, before);
    crate::detection::anomaly::lemma_window_of_prefix(start, run, i);
    crate::detection::anomaly::lemma_window_state(start, before, src);
    lemma_alerted_sources(start, before, src);
    crate::laws::law_attempt_by_its_flags(run[i].event);
    let upto = run.take(i + 1);
    assert(upto.drop_last() =~= before);
    assert(upto.last() == run[i]);
    lemma_reaches_of_prefix(upto, run, i);
    if crate::laws::opens_connection(run[i].event) {
        lemma_estimate_of_last(start, upto);
    }
    lemma_before_in_run(run, i);
}

/// What happened before observation `i` is what happened in the run up to it.
proof fn lemma_before_in_run(run: Seq<crate::detection::anomaly::Observation>, i: int)
    requires
        0 <= i < run.len(),
    ensures
        has_flooded(run.take(i), run[i].event.src_ip) <==> exists|j: int|
            0 <= j < i && run[j].event.src_ip == run[i].event.src_ip && #[trigger] reaches_flood(
                run,
                j,
            ),
        has_scanned(run.take(i), run[i].event.src_ip) <==> exists|j: int|
            0 <= j < i && (#[trigger] run[j]).event.src_ip == run[i].event.src_ip
                && run[j].estimate.whole >= 25,
{
    let before = run.take(i);
    let src = run[i].event.src_ip;
    if has_flooded(before, src) {
        let j = choose|j: int|
            0 <= j < before.len() && before[j].event.src_ip == src && #[trigger] reaches_flood(
                before,
                j,
            );
        lemma_reaches_of_prefix(before, run, j);
        assert(reaches_flood(run, j) && run[j] == before[j]);
    }
    if exists|j: int| 0 <= j < i && run[j].event.src_ip == src && #[trigger] reaches_flood(run, j) {
        let j = choose|j: int|
            0 <= j < i && run[j].event.src_ip == src && #[trigger] reaches_flood(run, j);
        lemma_reaches_of_prefix(before, run, j);
        assert(reaches_flood(before, j) && run[j] == before[j]);
    }
    if has_scanned(before, src) {
        let j = choose|j: int|
            0 <= j < before.len() && (#[trigger] before[j]).event.src_ip == src
                && before[j].estimate.whole >= 25;
        assert(run[j] == before[j]);
    }
    if exists|j: int|
        0 <= j < i && (#[trigger] run[j]).event.src_ip == src && run[j].estimate.whole >= 25 {
        let j = choose|j: int|
            0 <= j < i && (#[trigger] run[j]).event.src_ip == src && run[j].estimate.whole >= 25;
        assert(run[j] == before[j]);
    }
}

/// How many of the first `n` observations of a run are connection attempts of
/// source `src`.
pub open spec fn own_attempts(
    run: Seq<crate::detection::anomaly::Observation>,
    n: int,
    src: u32,
) -> nat
    decreases n,
{
    if n <= 0 {
        0
    } else {
        own_attempts(run, n - 1, src) + if run[n - 1].event.src_ip == src
            && crate::laws::opens_connection(run[n - 1].event) {
            1nat
        } else {
            0nat
        }
    }
}

/// How many of the first `n` observations of a run are connection attempts.
pub open spec fn all_attempts(run: Seq<crate::detection::anomaly::Observation>, n: int) -> nat
    decreases n,
{
    if n <= 0 {
        0
    } else {
        all_attempts(run, n - 1) + if crate::laws::opens_connection(run[n - 1].event) {
            1nat
        } else {
            0nat
        }
    }
}

proof fn lemma_attempts_between(
    run: Seq<crate::detection::anomaly::Observation>,
    n: int,
    row: int,
    src: u32,
)
    requires
        n <= run.len(),
    ensures
        own_attempts(run, n, src) <= attempts_on(run, n, row, src) <= all_attempts(run, n),
    decreases n,
{
    if n > 0 {
        lemma_attempts_between(run, n - 1, row, src);
    }
}

/// The attempt with which source `src` reaches `count` attempts.
proof fn lemma_nth_attempt(
    run: Seq<crate::detection::anomaly::Observation>,
    n: int,
    src: u32,
    count: nat,
) -> (i: int)
    requires
        n <= run.len(),
        0 < count <= own_attempts(run, n, src),
    ensures
        0 <= i < n,
        run[i].event.src_ip == src,
        crate::laws::opens_connection(run[i].event),
        own_attempts(run, i + 1, src) == count,
    decreases n,
{
    if own_attempts(run, n - 1, src) >= count {
        lemma_nth_attempt(run, n - 1, src, count)
    } else {
        n - 1
    }
}

/// The first observation of source `src` that reaches a flood, up to `i`.
proof fn lemma_first_flood_up_to(
    run: Seq<crate::detection::anomaly::Observation>,
    i: int,
) -> (first: int)
    requires
        0 <= i < run.len(),
        reaches_flood(run, i),
    ensures
        0 <= first <= i,
        run[first].event.src_ip == run[i].event.src_ip,
        first_flood(run, first),
    decreases i,
{
    if exists|j: int|
        0 <= j < i && run[j].event.src_ip == run[i].event.src_ip && #[trigger] reaches_flood(
            run,
            j,
        ) {
        let j = choose|j: int|
            0 <= j < i && run[j].event.src_ip == run[i].event.src_ip && #[trigger] reaches_flood(
                run,
                j,
            );
        lemma_first_flood_up_to(run, j)
    } else {
        i
    }
}

/// Fifty attempts of a source within a window are reported once, at the latest
/// with the fiftieth; and where all sources together make fewer than fifty, no
/// source is reported.
pub proof fn law_floods_take_fifty_attempts(
    run: Seq<crate::detection::anomaly::Observation>,
    src: u32,
)
    ensures
        own_attempts(run, run.len() as int, src) >= 50 ==> exists|i: int|
            0 <= i < run.len() && run[i].event.src_ip == src && #[trigger] first_flood(run, i)
                && own_attempts(run, i + 1, src) <= 50,
        forall|i: int, j: int|
            0 <= i < run.len() && 0 <= j < run.len() && #[trigger] first_flood(run, i)
                && #[trigger] first_flood(run, j) && run[i].event.src_ip == run[j].event.src_ip
                ==> i == j,
        all_attempts(run, run.len() as int) < 50 ==> forall|i: int|
            0 <= i < run.len() ==> !#[trigger] first_flood(run, i),
{
    let n = run.len() as int;
    if own_attempts(run, n, src) >= 50 {
        let i = lemma_nth_attempt(run, n, src, 50);
        lemma_attempts_between(run, i + 1, 0, src);
        lemma_attempts_between(run, i + 1, 1, src);
        lemma_attempts_between(run, i + 1, 2, src);
        lemma_attempts_between(run, i + 1, 3, src);
        let first = lemma_first_flood_up_to(run, i);
        lemma_own_attempts_grow(run, first + 1, i + 1, src);
        assert(first_flood(run, first));
    }
    if all_attempts(run, n) < 50 {
        assert forall|i: int| 0 <= i < run.len() implies !#[trigger] first_flood(run, i) by {
            lemma_attempts_between(run, i + 1, 0, run[i].event.src_ip);
            lemma_all_attempts_grow(run, i + 1, n);
        }
    }
}

proof fn lemma_own_attempts_grow(
    run: Seq<crate::detection::anomaly::Observation>,
    a: int,
    b: int,
    src: u32,
)
    requires
        a <= b,
    ensures
        own_attempts(run, a, src) <= own_attempts(run, b, src),
    decreases b - a,
{
    if a < b {
        lemma_own_attempts_grow(run, a, b - 1, src);
    }
}

proof fn lemma_all_attempts_grow(
    run: Seq<crate::detection::anomaly::Observation>,
    a: int,
    b: int,
)
    requires
        a <= b,
    ensures
        all_attempts(run, a) <= all_attempts(run, b),
    decreases b - a,
{
    if a < b {
        lemma_all_attempts_grow(run, a, b - 1);
    }
}

/// The hash of a destination port: the digest of its two bytes, the most
/// significant first.
pub open spec fn port_hash(port: u16) -> u64 {
    crate::detection::hashing::fx_digest(
        usize::BITS,
        seq![(port / 0x100) as u8, (port % 0x100) as u8],
    )
}

/// The ports of the source of observation `i` up to it, as a list.
proof fn lemma_port_in_list(
    run: Seq<crate::detection::anomaly::Observation>,
    src: u32,
    k: int,
) -> (p: int)
    requires
        0 <= k < run.len(),
        run[k].event.src_ip == src,
    ensures
        0 <= p < crate::detection::anomaly::ports_of(run, src).len(),
        crate::detection::anomaly::ports_of(run, src)[p] == run[k].event.dst_port,
    decreases run.len(),
{
    if k == run.len() - 1 {
        crate::detection::anomaly::ports_of(run.drop_last(), src).len() as int
    } else {
        assert(run.drop_last()[k] == run[k]);
        lemma_port_in_list(run.drop_last(), src, k)
    }
}

proof fn lemma_list_in_run(
    run: Seq<crate::detection::anomaly::Observation>,
    src: u32,
    p: int,
) -> (k: int)
    requires
        0 <= p < crate::detection::anomaly::ports_of(run, src).len(),
    ensures
        0 <= k < run.len(),
        run[k].event.src_ip == src,
        crate::detection::anomaly::ports_of(run, src)[p] == run[k].event.dst_port,
    decreases run.len(),
{
    let before = run.drop_last();
    assert(run[run.len() - 1] == run.last());
    if p < crate::detection::anomaly::ports_of(before, src).len() {
        let k = lemma_list_in_run(before, src, p);
        assert(before[k] == run[k]);
        k
    } else {
        run.len() - 1
    }
}

/// From what ports are estimated: within a window, the table from which the ports
/// of the source of observation `i` are estimated has 1024 registers. Each of them
/// is at least the rank of every destination port that the source has touched so
/// far and whose hash falls on it, and one that is not zero is the rank of one of
/// these ports. What other sources touch does not count, nor does how often a port
/// was touched.
pub proof fn law_table_holds_the_ports(
    begin: u128,
    window: nat,
    id: u64,
    run: Seq<crate::detection::anomaly::Observation>,
    i: int,
    b: int,
)
    requires
        falls_into(run, begin, window),
        0 <= i < run.len(),
        0 <= b < 1024,
    ensures
        ({
            let start = crate::detection::anomaly::AnomalyView::fresh(window, begin, id);
            let registers = crate::detection::anomaly::estimated_table(start, run, i).registers;
            &&& registers.len() == 1024
            &&& forall|k: int, r: int|
                0 <= k <= i && run[k].event.src_ip == run[i].event.src_ip
                    && #[trigger] crate::laws::counters::falls_on(
                    10,
                    port_hash(run[k].event.dst_port),
                    b,
                    r,
                ) ==> r <= registers[b]
            &&& registers[b] > 0 ==> exists|k: int|
                0 <= k <= i && run[k].event.src_ip == run[i].event.src_ip
                    && #[trigger] crate::laws::counters::falls_on(
                    10,
                    port_hash(run[k].event.dst_port),
                    b,
                    registers[b] as int,
                )
        }),
{
    let start = crate::detection::anomaly::AnomalyView::fresh(window, begin, id);
    assert forall|j: int| 0 <= j < run.len() implies !start.is_over((#[trigger] run[j]).now) by {}
    let src = run[i].event.src_ip;
    let upto = run.take(i + 1);
    let before = run.take(i);
    crate::detection::anomaly::lemma_window_of_prefix(start, run, i);
    crate::detection::anomaly::lemma_table_of_source(start, before, src);
    let ports = crate::detection::anomaly::ports_of(before, src);
    let w = crate::detection::anomaly::after_observations(start, before);
    crate::detection::anomaly::lemma_table_with(w, ports, run[i].event);
    assert(upto.drop_last() =~= before);
    let all = crate::detection::anomaly::ports_of(upto, src);
    assert(all == ports.push(run[i].event.dst_port));
    let keys = crate::detection::anomaly::port_keys(all);
    let registers = crate::detection::anomaly::estimated_table(start, run, i).registers;
    lemma2_to64();
    crate::laws::counters::law_register_holds_highest_rank(10, keys, b);
    assert forall|p: int| 0 <= p < all.len() implies crate::detection::hashing::fx_digest(
        usize::BITS,
        #[trigger] keys[p],
    ) == port_hash(all[p]) by {
        assert(keys[p] =~= seq![(all[p] / 0x100) as u8, (all[p] % 0x100) as u8]);
    }
    assert forall|k: int, r: int|
        0 <= k <= i && run[k].event.src_ip == src && #[trigger] crate::laws::counters::falls_on(
            10,
            port_hash(run[k].event.dst_port),
            b,
            r,
        ) implies r <= registers[b] by {
        assert(upto[k] == run[k]);
        let p = lemma_port_in_list(upto, src, k);
        assert(crate::laws::counters::falls_on(
            10,
            crate::detection::hashing::fx_digest(usize::BITS, keys[p]),
            b,
            r,
        ));
    }
    if registers[b] > 0 {
        let p = choose|p: int|
            0 <= p < keys.len() && #[trigger] crate::laws::counters::falls_on(
                10,
                crate::detection::hashing::fx_digest(usize::BITS, keys[p]),
                b,
                registers[b] as int,
            );
        let k = lemma_list_in_run(upto, src, p);
        assert(upto[k] == run[k]);
        assert(crate::laws::counters::falls_on(
            10,
            port_hash(run[k].event.dst_port),
            b,
            registers[b] as int,
        ));
    }
}

/// Every touched port leaves its mark: in the table from which the ports of the
/// source of observation `i` are estimated, the register that the first ten bits
/// of a touched port's hash name is not zero.
pub proof fn law_touched_port_is_in_the_table(
    begin: u128,
    window: nat,
    id: u64,
    run: Seq<crate::detection::anomaly::Observation>,
    i: int,
    k: int,
)
    requires
        falls_into(run, begin, window),
        0 <= k <= i < run.len(),
        run[k].event.src_ip == run[i].event.src_ip,
    ensures
        ({
            let start = crate::detection::anomaly::AnomalyView::fresh(window, begin, id);
            let b = port_hash(run[k].event.dst_port) as int / 0x40_0000_0000_0000;
            &&& 0 <= b < 1024
            &&& crate::detection::anomaly::estimated_table(start, run, i).registers[b] > 0
        }),
{
    let start = crate::detection::anomaly::AnomalyView::fresh(window, begin, id);
    assert forall|j: int| 0 <= j < run.len() implies !start.is_over((#[trigger] run[j]).now) by {}
    let src = run[i].event.src_ip;
    let upto = run.take(i + 1);
    let before = run.take(i);
    crate::detection::anomaly::lemma_window_of_prefix(start, run, i);
    crate::detection::anomaly::lemma_table_of_source(start, before, src);
    let ports = crate::detection::anomaly::ports_of(before, src);
    let w = crate::detection::anomaly::after_observations(start, before);
    crate::detection::anomaly::lemma_table_with(w, ports, run[i].event);
    assert(upto.drop_last() =~= before);
    assert(upto[k] == run[k]);
    let p = lemma_port_in_list(upto, src, k);
    let all = crate::detection::anomaly::ports_of(upto, src);
    let keys = crate::detection::anomaly::port_keys(all);
    assert(keys[p] =~= seq![(all[p] / 0x100) as u8, (all[p] % 0x100) as u8]);
    lemma2_to64();
    lemma2_to64_rest();
    crate::laws::counters::law_added_key_touches_its_register(10, keys, p);
}

/// A window lasts as long as it should: from the first observation that lies its
/// length or more after its begin, a detector raises what a new one raises whose
/// clock is started then, but for the identifiers, which go on counting.
pub proof fn law_window_ends(
    v: crate::detection::anomaly::AnomalyView,
    run: Seq<crate::detection::anomaly::Observation>,
)
    requires
        run.len() > 0,
        v.window_start + v.window <= run[0].now,
        forall|i: int| 0 <= i < run.len() ==> run[0].now <= (#[trigger] run[i]).now,
    ensures
        ({
            let alerts = crate::detection::anomaly::alerts_of_run(v, run);
            let fresh = crate::detection::anomaly::alerts_of_run(
                crate::detection::anomaly::AnomalyView::fresh(v.window, 0, 1),
                crate::detection::anomaly::read_since(run, run[0].now),
            );
            &&& alerts.len() == fresh.len()
            &&& forall|i: int|
                0 <= i < alerts.len() ==> #[trigger] alerts[i] == (crate::models::AlertView {
                    id: ((v.next_id + i) % 0x1_0000_0000_0000_0000) as u64,
                    ..fresh[i]
                })
        }),
{
    crate::detection::anomaly::law_window_that_is_over_is_forgotten(v, run);
}

} // verus!
