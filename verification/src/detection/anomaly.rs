//! Anomaly detection over fixed windows: floods by the number of connection
//! attempts of a source, scans by the number of ports that it touches.
//!
//! An alert is raised once for each source, kind and window, at the first event
//! at which the estimate has reached the threshold. Estimates can jump past the
//! threshold, so nothing depends on a particular value being met.

use std::collections::{HashMap, HashSet};

use vstd::prelude::*;
use vstd::string::*;

use crate::detection::cardinality::HyperLogLog;
use crate::detection::sketch::CountMinSketch;
use crate::models::{ip_octets, port_bytes, Alert, DetectorKind, NetworkEvent, Severity};
use crate::text::push_decimal;
use crate::time::{nanos_between, Clock, Duration};

verus! {

broadcast use vstd::std_specs::hash::group_hash_axioms;

/// Connection attempts from one source in a window that make a flood.
pub const SYN_FLOOD_THRESHOLD: u32 = 50;

/// Distinct destination ports of one source in a window that make a scan.
pub const PORT_SCAN_THRESHOLD: u64 = 25;

/// Columns of the flood counters.
pub const SKETCH_WIDTH: usize = 2048;

/// Rows of the flood counters.
pub const SKETCH_DEPTH: usize = 4;

/// The port tables have 2^10 registers.
pub const PORT_TABLE_BITS: u32 = 10;

/// An estimated number of ports: its whole part, which is compared with the
/// threshold, and the nearest whole number, which is printed.
#[derive(Debug, Clone, Copy, PartialEq, Eq, Structural)]
pub struct PortEstimate {
    pub whole: u64,
    pub rounded: u64,
}

/// The detector of one worker.
pub struct WindowedAnomalyDetector {
    /// How long a window lasts.
    pub window: Duration,
    /// The clock reading at which this window began.
    pub window_start: u128,
    /// Connection attempts of each source in this window.
    pub syn_counts: CountMinSketch,
    /// Destination ports of each source in this window.
    pub port_cardinality: HashMap<u32, HyperLogLog>,
    /// Sources that were alerted for a flood in this window.
    pub alerted_flood_this_window: HashSet<u32>,
    /// Sources that were alerted for a scan in this window.
    pub alerted_scan_this_window: HashSet<u32>,
    /// The identifier of the next alert.
    pub next_id: u64,
    pub clock: Clock,
}

/// What the detector remembers.
#[verifier::ext_equal]
pub struct AnomalyView {
    /// In nanoseconds.
    pub window: nat,
    /// The clock reading at which the window began.
    pub window_start: u128,
    pub syn_counts: crate::detection::sketch::SketchView,
    pub ports: Map<u32, crate::detection::cardinality::RegistersView>,
    /// Sources that were alerted for a flood in this window.
    pub flooders: Set<u32>,
    /// Sources that were alerted for a scan in this window.
    pub scanners: Set<u32>,
    /// The identifier of the next alert.
    pub next_id: u64,
}

impl AnomalyView {
    /// The state at the beginning of a window: nothing is counted.
    pub open spec fn fresh(window: nat, window_start: u128, next_id: u64) -> Self {
        AnomalyView {
            window,
            window_start,
            syn_counts: crate::detection::sketch::SketchView::empty(
                SKETCH_WIDTH as nat,
                SKETCH_DEPTH as nat,
            ),
            ports: Map::empty(),
            flooders: Set::empty(),
            scanners: Set::empty(),
            next_id,
        }
    }

    /// The window is over at reading `now`.
    pub open spec fn is_over(self, now: u128) -> bool {
        crate::time::elapsed(now, self.window_start) >= self.window
    }

    /// The state with a new window begun where the old one is over.
    pub open spec fn rolled(self, now: u128) -> Self {
        if self.is_over(now) {
            Self::fresh(self.window, now, self.next_id)
        } else {
            self
        }
    }

    /// The key under which a source is counted.
    pub open spec fn key(src: u32) -> Seq<u8> {
        crate::models::octets(src)
    }

    /// `event`, taken into this window, raises a flood alert: it is a connection
    /// attempt, the estimate with it has reached the threshold, and the source
    /// was not alerted before.
    pub open spec fn floods(self, event: crate::models::NetworkEventView) -> bool {
        &&& crate::models::is_syn(event)
        &&& self.flood_estimate(event) >= SYN_FLOOD_THRESHOLD
        &&& !self.flooders.contains(event.src_ip)
    }

    /// The estimated number of connection attempts, that of `event` included.
    pub open spec fn flood_estimate(self, event: crate::models::NetworkEventView) -> u32 {
        self.syn_counts.incremented(Self::key(event.src_ip)).estimate(Self::key(event.src_ip))
    }

    /// The ports of the source of `event`, with that of `event`.
    pub open spec fn ports_with(
        self,
        event: crate::models::NetworkEventView,
    ) -> crate::detection::cardinality::RegistersView {
        let before = if self.ports.contains_key(event.src_ip) {
            self.ports[event.src_ip]
        } else {
            crate::detection::cardinality::RegistersView::empty(PORT_TABLE_BITS)
        };
        before.added(crate::models::port_octets(event.dst_port))
    }

    /// The state after `event` was counted in this window.
    pub open spec fn counted(self, event: crate::models::NetworkEventView) -> Self {
        AnomalyView {
            syn_counts: if crate::models::is_syn(event) {
                self.syn_counts.incremented(Self::key(event.src_ip))
            } else {
                self.syn_counts
            },
            ports: self.ports.insert(event.src_ip, self.ports_with(event)),
            flooders: if self.floods(event) {
                self.flooders.insert(event.src_ip)
            } else {
                self.flooders
            },
            next_id: if self.floods(event) {
                crate::models::id_after(self.next_id, 1)
            } else {
                self.next_id
            },
            ..self
        }
    }

    /// The detail text of a flood alert.
    pub open spec fn flood_detail(self, event: crate::models::NetworkEventView) -> Seq<char> {
        "source "@ + crate::models::ip_text(event.src_ip) + " sent an estimated "@
            + crate::text::decimal(self.flood_estimate(event) as nat) + "+ SYNs within "@
            + crate::time::span_text(self.window) + " window"@
    }

    /// The flood alert on `event`.
    pub open spec fn flood_alert(
        self,
        event: crate::models::NetworkEventView,
    ) -> crate::models::AlertView {
        crate::models::alert_on(
            event,
            self.next_id,
            "syn-flood-anomaly"@,
            Severity::Critical,
            self.flood_detail(event),
            DetectorKind::Anomaly,
        )
    }

    /// With `estimate` ports, `event` raises a scan alert: the threshold is
    /// reached, and the source was not alerted before.
    pub open spec fn scans(
        self,
        event: crate::models::NetworkEventView,
        estimate: PortEstimate,
    ) -> bool {
        estimate.whole >= PORT_SCAN_THRESHOLD && !self.scanners.contains(event.src_ip)
    }

    /// The state after the ports of the source of `event` were estimated.
    pub open spec fn judged(
        self,
        event: crate::models::NetworkEventView,
        estimate: PortEstimate,
    ) -> Self {
        if self.scans(event, estimate) {
            AnomalyView {
                scanners: self.scanners.insert(event.src_ip),
                next_id: crate::models::id_after(self.next_id, 1),
                ..self
            }
        } else {
            self
        }
    }

    /// The detail text of a scan alert.
    pub open spec fn scan_detail(
        self,
        event: crate::models::NetworkEventView,
        estimate: PortEstimate,
    ) -> Seq<char> {
        "source "@ + crate::models::ip_text(event.src_ip) + " touched an estimated "@
            + crate::text::decimal(estimate.rounded as nat)
            + " distinct destination ports within "@ + crate::time::span_text(self.window)
            + " window"@
    }

    /// The scan alert on `event`.
    pub open spec fn scan_alert(
        self,
        event: crate::models::NetworkEventView,
        estimate: PortEstimate,
    ) -> crate::models::AlertView {
        crate::models::alert_on(
            event,
            self.next_id,
            "port-scan-anomaly"@,
            Severity::High,
            self.scan_detail(event, estimate),
            DetectorKind::Anomaly,
        )
    }

    /// The state after `event`, read at `now`, whose source's ports, that of
    /// `event` included, were estimated as `estimate`.
    pub open spec fn after(
        self,
        event: crate::models::NetworkEventView,
        now: u128,
        estimate: PortEstimate,
    ) -> Self {
        self.rolled(now).counted(event).judged(event, estimate)
    }

    /// The alerts that `event` raises then: that of a flood before that of a
    /// scan.
    pub open spec fn alerts(
        self,
        event: crate::models::NetworkEventView,
        now: u128,
        estimate: PortEstimate,
    ) -> Seq<crate::models::AlertView> {
        let before = self.rolled(now);
        let counted = before.counted(event);
        let flood = if before.floods(event) {
            seq![before.flood_alert(event)]
        } else {
            Seq::empty()
        };
        if counted.scans(event, estimate) {
            flood.push(counted.scan_alert(event, estimate))
        } else {
            flood
        }
    }

    /// The tables have the sizes that the detector gives them.
    pub open spec fn wf(self) -> bool {
        &&& self.syn_counts.wf()
        &&& self.syn_counts.width == SKETCH_WIDTH
        &&& self.syn_counts.table.len() == SKETCH_DEPTH
        &&& forall|src: u32|
            self.ports.contains_key(src) ==> (#[trigger] self.ports[src]).wf()
                && self.ports[src].bits == PORT_TABLE_BITS
    }
}

impl View for WindowedAnomalyDetector {
    type V = AnomalyView;

    open spec fn view(&self) -> AnomalyView {
        AnomalyView {
            window: self.window@,
            window_start: self.window_start,
            syn_counts: self.syn_counts@,
            ports: self.port_cardinality@.map_values(|h: HyperLogLog| h@),
            flooders: self.alerted_flood_this_window@,
            scanners: self.alerted_scan_this_window@,
            next_id: self.next_id,
        }
    }
}

impl WindowedAnomalyDetector {
    /// The detector's tables are in order.
    pub open spec fn wf(&self) -> bool {
        self.syn_counts.wf() && self@.wf()
    }

    /// The latest reading of the detector's clock.
    pub open spec fn reading(&self) -> u128 {
        self.clock.latest()
    }

    /// A detector whose first window begins now.
    pub fn new(window: Duration) -> (r: Self)
        ensures
            r.wf(),
            r.reading() == 0,
            r@ == AnomalyView::fresh(window@, 0, 1),
    {
        let r = WindowedAnomalyDetector {
            window,
            window_start: 0,
            syn_counts: CountMinSketch::new(SKETCH_WIDTH, SKETCH_DEPTH),
            port_cardinality: HashMap::new(),
            alerted_flood_this_window: HashSet::new(),
            alerted_scan_this_window: HashSet::new(),
            next_id: 1,
            clock: Clock::start(),
        };
        assert(r@.ports =~= Map::empty());
        r
    }

    /// Begins a new window at `now` where the old one is over, and forgets all
    /// that was counted and alerted in it.
    pub fn maybe_roll_window(&mut self, now: u128)
        requires
            old(self).wf(),
        ensures
            final(self).wf(),
            final(self).reading() == old(self).reading(),
            final(self)@ == old(self)@.rolled(now),
    {
        if nanos_between(now, self.window_start) >= self.window.as_nanos() {
            self.syn_counts.clear();
            self.port_cardinality.clear();
            self.alerted_flood_this_window.clear();
            self.alerted_scan_this_window.clear();
            self.window_start = now;
            assert(self@.ports =~= Map::empty());
        }
    }

    /// The next identifier and the alert that carries it.
    fn alert(&mut self, event: &NetworkEvent, rule: &str, severity: Severity, detail: String) -> (r:
        Alert)
        requires
            old(self).wf(),
        ensures
            final(self).wf(),
            final(self).reading() == old(self).reading(),
            final(self)@ == (AnomalyView {
                next_id: crate::models::id_after(old(self)@.next_id, 1),
                ..old(self)@
            }),
            r@ == crate::models::alert_on(
                event@,
                old(self)@.next_id,
                rule@,
                severity,
                detail@,
                DetectorKind::Anomaly,
            ),
    {
        let id: u64 = self.next_id;
        self.next_id = id.wrapping_add(1);
        Alert {
            id,
            timestamp_ms: event.timestamp_ms,
            rule_name: rule.to_owned(),
            severity,
            src_ip: event.src_ip_str(),
            dst_ip: event.dst_ip_str(),
            detail,
            detector: DetectorKind::Anomaly,
        }
    }

    /// Counts a connection attempt in this window, and raises the flood alert
    /// where it is due.
    fn count_syn(&mut self, event: &NetworkEvent) -> (r: Option<Alert>)
        requires
            old(self).wf(),
            crate::models::is_syn(event@),
        ensures
            final(self).wf(),
            final(self).reading() == old(self).reading(),
            final(self)@ == (AnomalyView {
                ports: old(self)@.ports,
                ..old(self)@.counted(event@)
            }),
            r is Some <==> old(self)@.floods(event@),
            r matches Some(a) ==> a@ == old(self)@.flood_alert(event@),
    {
        let key = ip_octets(event.src_ip);
        let ghost before = self@;
        self.syn_counts.increment(key.as_slice());
        let est: u32 = self.syn_counts.estimate(key.as_slice());
        proof {
            assert(est == before.flood_estimate(event@));
            assert(self@.ports == before.ports);
            assert(self@.wf());
        }
        if est >= SYN_FLOOD_THRESHOLD && !self.alerted_flood_this_window.contains(&event.src_ip) {
            self.alerted_flood_this_window.insert(event.src_ip);
            let mut detail = "source ".to_owned();
            let src = event.src_ip_str();
            detail.append(src.as_str());
            detail.append(" sent an estimated ");
            push_decimal(&mut detail, est as u64);
            detail.append("+ SYNs within ");
            let window = self.window.to_text();
            detail.append(window.as_str());
            detail.append(" window");
            Some(self.alert(event, "syn-flood-anomaly", Severity::Critical, detail))
        } else {
            None
        }
    }

    /// Counts `event`, read at `now`: begins a new window where the old one is
    /// over, counts a connection attempt, and adds the destination port to those
    /// of the source. Returns the flood alert where it is due.
    pub fn count(&mut self, event: &NetworkEvent, now: u128) -> (r: Option<Alert>)
        requires
            old(self).wf(),
        ensures
            final(self).wf(),
            final(self).reading() == old(self).reading(),
            final(self)@ == old(self)@.rolled(now).counted(event@),
            r is Some <==> old(self)@.rolled(now).floods(event@),
            r matches Some(a) ==> a@ == old(self)@.rolled(now).flood_alert(event@),
    {
        self.maybe_roll_window(now);
        let ghost rolled = self@;
        let flood: Option<Alert> = if event.is_syn() {
            self.count_syn(event)
        } else {
            None
        };
        let ghost before = self@;
        let port = port_bytes(event.dst_port);
        proof {
            if self.port_cardinality@.contains_key(event.src_ip) {
                assert(self@.ports[event.src_ip] == self.port_cardinality@[event.src_ip]@);
            }
        }
        let hll: &mut HyperLogLog = self.port_cardinality.entry(event.src_ip).or_insert(
            HyperLogLog::new(PORT_TABLE_BITS),
        );
        hll.add(port.as_slice());
        assert(self@.ports =~= before.ports.insert(event.src_ip, rolled.ports_with(event@)));
        assert(self@ =~= rolled.counted(event@));
        flood
    }

    /// Takes an estimate of the ports of the source of `event`. Returns the scan
    /// alert where it is due.
    pub fn judge_ports(&mut self, event: &NetworkEvent, estimate: PortEstimate) -> (r: Option<
        Alert,
    >)
        requires
            old(self).wf(),
        ensures
            final(self).wf(),
            final(self).reading() == old(self).reading(),
            final(self)@ == old(self)@.judged(event@, estimate),
            r is Some <==> old(self)@.scans(event@, estimate),
            r matches Some(a) ==> a@ == old(self)@.scan_alert(event@, estimate),
    {
        if estimate.whole >= PORT_SCAN_THRESHOLD && !self.alerted_scan_this_window.contains(
            &event.src_ip,
        ) {
            self.alerted_scan_this_window.insert(event.src_ip);
            let mut detail = "source ".to_owned();
            let src = event.src_ip_str();
            detail.append(src.as_str());
            detail.append(" touched an estimated ");
            push_decimal(&mut detail, estimate.rounded);
            detail.append(" distinct destination ports within ");
            let window = self.window.to_text();
            detail.append(window.as_str());
            detail.append(" window");
            Some(self.alert(event, "port-scan-anomaly", Severity::High, detail))
        } else {
            None
        }
    }

    /// Takes `event`, read at `now`, and returns the alerts that it raises. The
    /// ports of its source are estimated from their registers by `estimate`.
    pub fn observe_at<F: Fn(&HyperLogLog) -> PortEstimate>(
        &mut self,
        event: &NetworkEvent,
        now: u128,
        estimate: F,
    ) -> (r: Vec<Alert>)
        requires
            old(self).wf(),
            forall|h: HyperLogLog| (#[trigger] h@).wf() ==> call_requires(estimate, (&h,)),
        ensures
            final(self).wf(),
            final(self).reading() == old(self).reading(),
            exists|h: HyperLogLog, e: PortEstimate|
                {
                    &&& #[trigger] call_ensures(estimate, (&h,), e)
                    &&& h@ == old(self)@.rolled(now).ports_with(event@)
                    &&& final(self)@ == old(self)@.after(event@, now, e)
                    &&& crate::models::alert_views(r@) == old(self)@.alerts(event@, now, e)
                },
    {
        let mut alerts: Vec<Alert> = Vec::new();
        let ghost before = self@;
        if let Some(flood) = self.count(event, now) {
            alerts.push(flood);
        }
        let ghost flood = crate::models::alert_views(alerts@);
        proof {
            assert(flood =~= if before.rolled(now).floods(event@) {
                seq![before.rolled(now).flood_alert(event@)]
            } else {
                Seq::empty()
            });
            assert(self@.ports.contains_key(event.src_ip));
        }
        let e: PortEstimate = match self.port_cardinality.get(&event.src_ip) {
            Some(hll) => {
                assert(hll@ == self@.ports[event.src_ip]);
                estimate(hll)
            },
            None => {
                assert(false);
                PortEstimate { whole: 0, rounded: 0 }
            },
        };
        if let Some(scan) = self.judge_ports(event, e) {
            alerts.push(scan);
            assert(crate::models::alert_views(alerts@) =~= flood.push(scan@));
        }
        assert(crate::models::alert_views(alerts@) =~= before.alerts(event@, now, e));
        alerts
    }

    /// Takes `event` at the present moment, at a reading of the clock that is no
    /// earlier than the one before, and returns the alerts that it raises as
    /// [`WindowedAnomalyDetector::observe_at`] does.
    pub fn observe<F: Fn(&HyperLogLog) -> PortEstimate>(
        &mut self,
        event: &NetworkEvent,
        estimate: F,
    ) -> (r: Vec<Alert>)
        requires
            old(self).wf(),
            forall|h: HyperLogLog| (#[trigger] h@).wf() ==> call_requires(estimate, (&h,)),
        ensures
            final(self).wf(),
            final(self).reading() >= old(self).reading(),
            exists|h: HyperLogLog, e: PortEstimate|
                {
                    let now = final(self).reading();
                    &&& #[trigger] call_ensures(estimate, (&h,), e)
                    &&& h@ == old(self)@.rolled(now).ports_with(event@)
                    &&& final(self)@ == old(self)@.after(event@, now, e)
                    &&& crate::models::alert_views(r@) == old(self)@.alerts(event@, now, e)
                },
    {
        let now: u128 = self.clock.now();
        self.observe_at(event, now, estimate)
    }
}

/// One event as the detector took it: when it came, and how many ports its source
/// was estimated to have touched.
pub struct Observation {
    pub event: crate::models::NetworkEventView,
    pub now: u128,
    pub estimate: PortEstimate,
}

/// What a detector remembers after a run of observations.
pub open spec fn after_observations(start: AnomalyView, run: Seq<Observation>) -> AnomalyView
    decreases run.len(),
{
    if run.len() == 0 {
        start
    } else {
        let o = run.last();
        after_observations(start, run.drop_last()).after(o.event, o.now, o.estimate)
    }
}

/// All observations fall into the window in which `start` stands.
pub open spec fn within_window(start: AnomalyView, run: Seq<Observation>) -> bool {
    forall|i: int| 0 <= i < run.len() ==> !start.is_over((#[trigger] run[i]).now)
}

/// How many flood alerts the run raises for source `src`.
pub open spec fn flood_alerts(start: AnomalyView, run: Seq<Observation>, src: u32) -> nat
    decreases run.len(),
{
    if run.len() == 0 {
        0
    } else {
        let o = run.last();
        flood_alerts(start, run.drop_last(), src) + if o.event.src_ip == src && after_observations(
            start,
            run.drop_last(),
        ).rolled(o.now).floods(o.event) {
            1nat
        } else {
            0nat
        }
    }
}

/// How many scan alerts the run raises for source `src`.
pub open spec fn scan_alerts(start: AnomalyView, run: Seq<Observation>, src: u32) -> nat
    decreases run.len(),
{
    if run.len() == 0 {
        0
    } else {
        let o = run.last();
        scan_alerts(start, run.drop_last(), src) + if o.event.src_ip == src && after_observations(
            start,
            run.drop_last(),
        ).rolled(o.now).counted(o.event).scans(o.event, o.estimate) {
            1nat
        } else {
            0nat
        }
    }
}

/// How many connection attempts source `src` makes in the run.
pub open spec fn attempts(run: Seq<Observation>, src: u32) -> nat
    decreases run.len(),
{
    if run.len() == 0 {
        0
    } else {
        attempts(run.drop_last(), src) + if run.last().event.src_ip == src && crate::models::is_syn(
            run.last().event,
        ) {
            1nat
        } else {
            0nat
        }
    }
}

/// The keys of the connection attempts of the run.
pub open spec fn attempt_keys(run: Seq<Observation>) -> Seq<Seq<u8>>
    decreases run.len(),
{
    if run.len() == 0 {
        Seq::empty()
    } else if crate::models::is_syn(run.last().event) {
        attempt_keys(run.drop_last()).push(AnomalyView::key(run.last().event.src_ip))
    } else {
        attempt_keys(run.drop_last())
    }
}

pub proof fn lemma_window_state(start: AnomalyView, run: Seq<Observation>, src: u32)
    requires
        start == AnomalyView::fresh(start.window, start.window_start, start.next_id),
        within_window(start, run),
    ensures
        ({
            let w = after_observations(start, run);
            &&& w.window == start.window && w.window_start == start.window_start
            &&& w.syn_counts == crate::detection::sketch::SketchView::after(
                SKETCH_WIDTH as nat,
                SKETCH_DEPTH as nat,
                attempt_keys(run),
            )
            &&& crate::detection::sketch::occurrences(AnomalyView::key(src), attempt_keys(run))
                >= attempts(run, src)
            &&& flood_alerts(start, run, src) == (if w.flooders.contains(src) {
                1nat
            } else {
                0nat
            })
            &&& attempts(run, src) >= SYN_FLOOD_THRESHOLD ==> w.flooders.contains(src)
            &&& scan_alerts(start, run, src) == (if w.scanners.contains(src) {
                1nat
            } else {
                0nat
            })
        }),
    decreases run.len(),
{
    if run.len() > 0 {
        let before = run.drop_last();
        let o = run.last();
        assert(run[run.len() - 1] == o);
        assert forall|i: int| 0 <= i < before.len() implies !start.is_over(
            (#[trigger] before[i]).now,
        ) by {
            assert(run[i] == before[i]);
        }
        lemma_window_state(start, before, src);
        let w = after_observations(start, before);
        assert(!w.is_over(o.now));
        assert(w.rolled(o.now) == w);
        if crate::models::is_syn(o.event) {
            let key = AnomalyView::key(o.event.src_ip);
            let keys = attempt_keys(run);
            assert(keys.drop_last() =~= attempt_keys(before));
            assert(keys.last() == key);
            crate::detection::sketch::law_never_undercounts(
                SKETCH_WIDTH as nat,
                SKETCH_DEPTH as nat,
                keys,
                key,
            );
            assert(w.flood_estimate(o.event) >= crate::detection::sketch::saturated(
                crate::detection::sketch::occurrences(key, keys),
            ));
        }
    }
}

/// A flood is reported exactly once in a window: within one window a source
/// raises at most one flood alert, and it has raised one as soon as its
/// connection attempts have reached the threshold, however the counters of other
/// sources interfere.
pub proof fn law_flood_is_reported_once(start: AnomalyView, run: Seq<Observation>, src: u32)
    requires
        start == AnomalyView::fresh(start.window, start.window_start, start.next_id),
        within_window(start, run),
    ensures
        flood_alerts(start, run, src) <= 1,
        attempts(run, src) >= SYN_FLOOD_THRESHOLD ==> flood_alerts(start, run, src) == 1,
{
    lemma_window_state(start, run, src);
}

/// A scan is reported exactly once in a window: within one window a source raises
/// at most one scan alert, and it has raised one as soon as its ports were
/// estimated to have reached the threshold.
pub proof fn law_scan_is_reported_once(
    start: AnomalyView,
    run: Seq<Observation>,
    src: u32,
    i: int,
)
    requires
        start == AnomalyView::fresh(start.window, start.window_start, start.next_id),
        within_window(start, run),
        0 <= i < run.len(),
    ensures
        scan_alerts(start, run, src) <= 1,
        run[i].event.src_ip == src && run[i].estimate.whole >= PORT_SCAN_THRESHOLD ==> scan_alerts(
            start,
            run,
            src,
        ) == 1,
    decreases run.len(),
{
    lemma_window_state(start, run, src);
    let before = run.drop_last();
    assert forall|j: int| 0 <= j < before.len() implies !start.is_over(
        (#[trigger] before[j]).now,
    ) by {
        assert(run[j] == before[j]);
    }
    lemma_window_state(start, before, src);
    let w = after_observations(start, before);
    assert(!w.is_over(run[run.len() - 1].now));
    if i < before.len() {
        assert(run[i] == before[i]);
        law_scan_is_reported_once(start, before, src, i);
    }
}

/// Without a high estimate there is no scan: a source whose estimates all stay
/// below the threshold raises no scan alert, however many events it sends and
/// whatever other sources do.
pub proof fn law_low_estimates_make_no_scan(start: AnomalyView, run: Seq<Observation>, src: u32)
    requires
        forall|i: int|
            0 <= i < run.len() && (#[trigger] run[i]).event.src_ip == src ==> run[i].estimate.whole
                < PORT_SCAN_THRESHOLD,
    ensures
        scan_alerts(start, run, src) == 0,
    decreases run.len(),
{
    if run.len() > 0 {
        let before = run.drop_last();
        assert(run[run.len() - 1] == run.last());
        assert forall|i: int|
            0 <= i < before.len() && (#[trigger] before[i]).event.src_ip
                == src implies before[i].estimate.whole < PORT_SCAN_THRESHOLD by {
            assert(run[i] == before[i]);
        }
        law_low_estimates_make_no_scan(start, before, src);
    }
}

/// The destination ports of source `src` in a run, one for each of its events.
pub open spec fn ports_of(run: Seq<Observation>, src: u32) -> Seq<u16>
    decreases run.len(),
{
    if run.len() == 0 {
        Seq::empty()
    } else if run.last().event.src_ip == src {
        ports_of(run.drop_last(), src).push(run.last().event.dst_port)
    } else {
        ports_of(run.drop_last(), src)
    }
}

/// The keys under which ports are counted.
pub open spec fn port_keys(ports: Seq<u16>) -> Seq<Seq<u8>> {
    ports.map_values(|p: u16| crate::models::port_octets(p))
}

/// The table of ports from which the estimate of observation `i` is made.
pub open spec fn estimated_table(
    start: AnomalyView,
    run: Seq<Observation>,
    i: int,
) -> crate::detection::cardinality::RegistersView {
    after_observations(start, run.take(i)).rolled(run[i].now).ports_with(run[i].event)
}

proof fn lemma_keys_no_more_than_ports(ports: Seq<u16>)
    ensures
        port_keys(ports).to_set().len() <= ports.to_set().len(),
    decreases ports.len(),
{
    broadcast use vstd::seq_lib::seq_to_set_is_finite;

    if ports.len() == 0 {
        assert(port_keys(ports).to_set() =~= Set::empty());
    } else {
        let before = ports.drop_last();
        let p = ports.last();
        lemma_keys_no_more_than_ports(before);
        assert(ports =~= before.push(p));
        assert(port_keys(ports) =~= port_keys(before).push(crate::models::port_octets(p)));
        before.lemma_push_to_set_commute(p);
        port_keys(before).lemma_push_to_set_commute(crate::models::port_octets(p));
        if before.to_set().contains(p) {
            let k = choose|k: int| 0 <= k < before.len() && before[k] == p;
            assert(port_keys(before)[k] == crate::models::port_octets(p));
            assert(port_keys(before).to_set().contains(crate::models::port_octets(p)));
            assert(port_keys(ports).to_set() =~= port_keys(before).to_set());
            assert(ports.to_set() =~= before.to_set());
        }
    }
}

proof fn lemma_ports_of_prefix(run: Seq<Observation>, src: u32, n: int)
    requires
        0 <= n <= run.len(),
    ensures
        ports_of(run.take(n), src).to_set().len() <= ports_of(run, src).to_set().len(),
    decreases run.len(),
{
    broadcast use vstd::seq_lib::seq_to_set_is_finite;

    if n == run.len() {
        assert(run.take(n) =~= run);
    } else {
        lemma_ports_of_prefix(run.drop_last(), src, n);
        assert(run.drop_last().take(n) =~= run.take(n));
        ports_of(run.drop_last(), src).lemma_push_to_set_commute(run.last().event.dst_port);
    }
}

/// Within a window, the table of a source holds the ports of its events.
pub proof fn lemma_table_of_source(start: AnomalyView, run: Seq<Observation>, src: u32)
    requires
        start == AnomalyView::fresh(start.window, start.window_start, start.next_id),
        within_window(start, run),
    ensures
        ({
            let w = after_observations(start, run);
            let ports = ports_of(run, src);
            &&& w.ports.contains_key(src) <==> ports.len() > 0
            &&& ports.len() > 0 ==> w.ports[src]
                == crate::detection::cardinality::RegistersView::after(
                PORT_TABLE_BITS,
                port_keys(ports),
            )
        }),
    decreases run.len(),
{
    if run.len() > 0 {
        let before = run.drop_last();
        lemma_window_of_prefix(start, run, run.len() - 1);
        assert(run.take(run.len() - 1) =~= before);
        assert(run[run.len() - 1] == run.last());
        lemma_table_of_source(start, before, src);
        let w = after_observations(start, before);
        if run.last().event.src_ip == src {
            lemma_table_with(w, ports_of(before, src), run.last().event);
        }
    }
}

/// The beginning of a run stays within the window, and so does what follows it.
pub proof fn lemma_window_of_prefix(start: AnomalyView, run: Seq<Observation>, n: int)
    requires
        start == AnomalyView::fresh(start.window, start.window_start, start.next_id),
        within_window(start, run),
        0 <= n < run.len(),
    ensures
        within_window(start, run.take(n)),
        after_observations(start, run.take(n)).rolled(run[n].now) == after_observations(
            start,
            run.take(n),
        ),
{
    assert forall|i: int| 0 <= i < n implies !start.is_over((#[trigger] run.take(n)[i]).now) by {
        assert(run[i] == run.take(n)[i]);
    }
    lemma_window_state(start, run.take(n), 0);
}

/// The port of `event` joins those of its source.
pub proof fn lemma_table_with(
    w: AnomalyView,
    ports: Seq<u16>,
    event: crate::models::NetworkEventView,
)
    requires
        w.ports.contains_key(event.src_ip) <==> ports.len() > 0,
        ports.len() > 0 ==> w.ports[event.src_ip]
            == crate::detection::cardinality::RegistersView::after(
            PORT_TABLE_BITS,
            port_keys(ports),
        ),
    ensures
        w.ports_with(event) == crate::detection::cardinality::RegistersView::after(
            PORT_TABLE_BITS,
            port_keys(ports.push(event.dst_port)),
        ),
{
    let key = crate::models::port_octets(event.dst_port);
    let keys = port_keys(ports.push(event.dst_port));
    assert(keys.drop_last() =~= port_keys(ports));
    assert(keys.last() == key);
    if ports.len() == 0 {
        assert(crate::detection::cardinality::RegistersView::after(
            PORT_TABLE_BITS,
            port_keys(ports),
        ) == crate::detection::cardinality::RegistersView::empty(PORT_TABLE_BITS));
    }
    assert(crate::detection::cardinality::RegistersView::after(PORT_TABLE_BITS, keys)
        == crate::detection::cardinality::RegistersView::after(
        PORT_TABLE_BITS,
        port_keys(ports),
    ).added(key));
}

/// Few distinct ports touch few registers: within a window, the table from which
/// the ports of a source are estimated has no more touched registers than the
/// source has touched distinct ports, however many events and other sources there
/// are.
pub proof fn law_distinct_ports_touch_registers(
    start: AnomalyView,
    run: Seq<Observation>,
    i: int,
)
    requires
        start == AnomalyView::fresh(start.window, start.window_start, start.next_id),
        within_window(start, run),
        0 <= i < run.len(),
    ensures
        ({
            let table = estimated_table(start, run, i);
            &&& table.wf() && table.bits == PORT_TABLE_BITS
            &&& table.registers.len() <= table.untouched() + ports_of(
                run,
                run[i].event.src_ip,
            ).to_set().len()
        }),
{
    let src = run[i].event.src_ip;
    lemma_window_of_prefix(start, run, i);
    lemma_table_of_source(start, run.take(i), src);
    let ports = ports_of(run.take(i), src);
    lemma_table_with(after_observations(start, run.take(i)), ports, run[i].event);
    assert(run.take(i + 1).drop_last() =~= run.take(i));
    assert(ports_of(run.take(i + 1), src) == ports.push(run[i].event.dst_port));
    lemma_ports_of_prefix(run, src, i + 1);
    lemma_keys_no_more_than_ports(ports.push(run[i].event.dst_port));
    assert(PORT_TABLE_BITS < usize::BITS - 1);
    crate::detection::cardinality::law_distinct_keys_touch_registers(
        PORT_TABLE_BITS,
        port_keys(ports.push(run[i].event.dst_port)),
    );
}

/// The estimates of source `src` are such as `gives` allows of its tables.
pub open spec fn estimates_given(
    start: AnomalyView,
    run: Seq<Observation>,
    src: u32,
    gives: spec_fn(crate::detection::cardinality::RegistersView, PortEstimate) -> bool,
) -> bool {
    forall|i: int|
        0 <= i < run.len() && (#[trigger] run[i]).event.src_ip == src ==> gives(
            estimated_table(start, run, i),
            run[i].estimate,
        )
}

/// `gives` allows an estimate that reaches the threshold only of tables that have
/// as many touched registers.
pub open spec fn needs_touched_registers(
    gives: spec_fn(crate::detection::cardinality::RegistersView, PortEstimate) -> bool,
) -> bool {
    forall|table: crate::detection::cardinality::RegistersView, e: PortEstimate|
        #[trigger] gives(table, e) && table.wf() && table.bits == PORT_TABLE_BITS && e.whole
            >= PORT_SCAN_THRESHOLD ==> table.untouched() + PORT_SCAN_THRESHOLD
            <= table.registers.len()
}

/// Few distinct ports are no scan: where the estimates that reach the threshold
/// take as many touched registers, a source that touches fewer distinct ports
/// than the threshold within a window raises no scan alert, however many events
/// and other sources there are.
pub proof fn law_few_ports_are_no_scan(
    start: AnomalyView,
    run: Seq<Observation>,
    src: u32,
    gives: spec_fn(crate::detection::cardinality::RegistersView, PortEstimate) -> bool,
)
    requires
        start == AnomalyView::fresh(start.window, start.window_start, start.next_id),
        within_window(start, run),
        estimates_given(start, run, src, gives),
        needs_touched_registers(gives),
        ports_of(run, src).to_set().len() < PORT_SCAN_THRESHOLD,
    ensures
        scan_alerts(start, run, src) == 0,
{
    assert forall|i: int|
        0 <= i < run.len() && (#[trigger] run[i]).event.src_ip
            == src implies run[i].estimate.whole < PORT_SCAN_THRESHOLD by {
        law_distinct_ports_touch_registers(start, run, i);
        assert(gives(estimated_table(start, run, i), run[i].estimate));
    }
    law_low_estimates_make_no_scan(start, run, src);
}

/// A window that is over leaves nothing behind but its length and the next
/// identifier: what a later event does is what it does in a fresh window.
pub proof fn law_windows_do_not_mix(
    v: AnomalyView,
    event: crate::models::NetworkEventView,
    now: u128,
    estimate: PortEstimate,
)
    requires
        v.is_over(now),
    ensures
        ({
            let fresh = AnomalyView::fresh(v.window, now, v.next_id);
            &&& v.after(event, now, estimate) == fresh.after(event, now, estimate)
            &&& v.alerts(event, now, estimate) == fresh.alerts(event, now, estimate)
        }),
{
    let fresh = AnomalyView::fresh(v.window, now, v.next_id);
    assert(fresh.rolled(now) == fresh);
}

/// The alerts that a run of observations raises, in their order.
pub open spec fn alerts_of_run(
    start: AnomalyView,
    run: Seq<Observation>,
) -> Seq<crate::models::AlertView>
    decreases run.len(),
{
    if run.len() == 0 {
        Seq::empty()
    } else {
        let o = run.last();
        alerts_of_run(start, run.drop_last()) + after_observations(start, run.drop_last()).alerts(
            o.event,
            o.now,
            o.estimate,
        )
    }
}

/// The run as a clock reads it that was started when the first one read `origin`.
pub open spec fn read_since(run: Seq<Observation>, origin: u128) -> Seq<Observation> {
    run.map_values(|o: Observation| Observation { now: (o.now - origin) as u128, ..o })
}

/// `a` remembers at a clock that was started `origin` before that of `b` what `b`
/// remembers, but for the identifiers.
spec fn alike(a: AnomalyView, b: AnomalyView, origin: u128) -> bool {
    &&& a == (AnomalyView { window_start: a.window_start, next_id: a.next_id, ..b })
    &&& a.window_start == b.window_start + origin
}

proof fn lemma_alike_kept(a: AnomalyView, b: AnomalyView, origin: u128, o: Observation)
    requires
        alike(a, b, origin),
        origin <= o.now,
    ensures
        ({
            let then = (o.now - origin) as u128;
            &&& alike(
                a.after(o.event, o.now, o.estimate),
                b.after(o.event, then, o.estimate),
                origin,
            )
            &&& crate::models::same_but_for_ids(
                a.alerts(o.event, o.now, o.estimate),
                b.alerts(o.event, then, o.estimate),
            )
        }),
{
    let then = (o.now - origin) as u128;
    assert(a.is_over(o.now) == b.is_over(then));
    assert(alike(a.rolled(o.now), b.rolled(then), origin));
}

proof fn lemma_alike_runs(a: AnomalyView, b: AnomalyView, origin: u128, run: Seq<Observation>)
    requires
        alike(a, b, origin),
        forall|i: int| 0 <= i < run.len() ==> origin <= (#[trigger] run[i]).now,
    ensures
        alike(
            after_observations(a, run),
            after_observations(b, read_since(run, origin)),
            origin,
        ),
        crate::models::same_but_for_ids(
            alerts_of_run(a, run),
            alerts_of_run(b, read_since(run, origin)),
        ),
    decreases run.len(),
{
    if run.len() > 0 {
        let before = run.drop_last();
        assert(run[run.len() - 1] == run.last());
        assert forall|i: int| 0 <= i < before.len() implies origin <= (#[trigger] before[i]).now by {
            assert(run[i] == before[i]);
        }
        lemma_alike_runs(a, b, origin, before);
        assert(read_since(run, origin).drop_last() =~= read_since(before, origin));
        lemma_alike_kept(
            after_observations(a, before),
            after_observations(b, read_since(before, origin)),
            origin,
            run.last(),
        );
    }
}

/// Detectors that agree after the first observation of a run agree after the run.
proof fn lemma_agreement_lasts(a: AnomalyView, b: AnomalyView, run: Seq<Observation>)
    requires
        run.len() > 0,
        after_observations(a, run.take(1)) == after_observations(b, run.take(1)),
        alerts_of_run(a, run.take(1)) == alerts_of_run(b, run.take(1)),
    ensures
        after_observations(a, run) == after_observations(b, run),
        alerts_of_run(a, run) == alerts_of_run(b, run),
    decreases run.len(),
{
    if run.len() == 1 {
        assert(run.take(1) =~= run);
    } else {
        assert(run.drop_last().take(1) =~= run.take(1));
        lemma_agreement_lasts(a, b, run.drop_last());
    }
}

proof fn lemma_first_observation_rolls(v: AnomalyView, run: Seq<Observation>)
    requires
        run.len() > 0,
        v.is_over(run[0].now),
    ensures
        ({
            let fresh = AnomalyView::fresh(v.window, run[0].now, v.next_id);
            &&& after_observations(v, run) == after_observations(fresh, run)
            &&& alerts_of_run(v, run) == alerts_of_run(fresh, run)
        }),
{
    let fresh = AnomalyView::fresh(v.window, run[0].now, v.next_id);
    let o = run[0];
    law_windows_do_not_mix(v, o.event, o.now, o.estimate);
    lemma_run_of_one(v, run.take(1));
    lemma_run_of_one(fresh, run.take(1));
    lemma_agreement_lasts(v, fresh, run);
}

proof fn lemma_run_of_one(v: AnomalyView, run: Seq<Observation>)
    requires
        run.len() == 1,
    ensures
        after_observations(v, run) == v.after(run[0].event, run[0].now, run[0].estimate),
        alerts_of_run(v, run) == v.alerts(run[0].event, run[0].now, run[0].estimate),
{
    assert(after_observations(v, run.drop_last()) == v);
    assert(alerts_of_run(v, run.drop_last()) =~= Seq::empty());
    assert(alerts_of_run(v, run) =~= v.alerts(run[0].event, run[0].now, run[0].estimate));
}

/// The alerts of one observation carry consecutive identifiers.
proof fn lemma_ids_of_observation(v: AnomalyView, o: Observation)
    ensures
        ({
            let alerts = v.alerts(o.event, o.now, o.estimate);
            &&& v.after(o.event, o.now, o.estimate).next_id == crate::models::id_after(
                v.next_id,
                alerts.len(),
            )
            &&& forall|i: int|
                0 <= i < alerts.len() ==> (#[trigger] alerts[i]).id == crate::models::id_after(
                    v.next_id,
                    i as nat,
                )
        }),
{
}

proof fn lemma_ids_add_up(id: u64, a: nat, b: nat)
    ensures
        crate::models::id_after(crate::models::id_after(id, a), b) == crate::models::id_after(
            id,
            a + b,
        ),
{
}

/// Identifiers go on counting: the alerts of a run carry consecutive identifiers
/// from the next one on, however many windows the run spans.
pub proof fn law_ids_go_on_counting(start: AnomalyView, run: Seq<Observation>)
    ensures
        after_observations(start, run).next_id == crate::models::id_after(
            start.next_id,
            alerts_of_run(start, run).len(),
        ),
        forall|i: int|
            0 <= i < alerts_of_run(start, run).len() ==> (#[trigger] alerts_of_run(
                start,
                run,
            )[i]).id == crate::models::id_after(start.next_id, i as nat),
    decreases run.len(),
{
    if run.len() > 0 {
        law_ids_go_on_counting(start, run.drop_last());
        let o = run.last();
        let v = after_observations(start, run.drop_last());
        let before = alerts_of_run(start, run.drop_last());
        let next = v.alerts(o.event, o.now, o.estimate);
        lemma_ids_of_observation(v, o);
        lemma_ids_add_up(start.next_id, before.len(), next.len());
        assert forall|i: int| 0 <= i < alerts_of_run(start, run).len() implies (
        #[trigger] alerts_of_run(start, run)[i]).id == crate::models::id_after(
            start.next_id,
            i as nat,
        ) by {
            if i < before.len() {
                assert(alerts_of_run(start, run)[i] == before[i]);
            } else {
                assert(alerts_of_run(start, run)[i] == next[i - before.len()]);
                lemma_ids_add_up(start.next_id, before.len(), (i - before.len()) as nat);
            }
        }
    }
}

/// A window that is over is forgotten: whatever a detector remembers, from the
/// first observation after the end of its window on it raises, over any run, the
/// alerts that a new detector with that window raises whose clock was started
/// then, except that the identifiers go on counting.
pub proof fn law_window_that_is_over_is_forgotten(v: AnomalyView, run: Seq<Observation>)
    requires
        run.len() > 0,
        v.is_over(run[0].now),
        forall|i: int| 0 <= i < run.len() ==> run[0].now <= (#[trigger] run[i]).now,
    ensures
        crate::models::same_but_for_ids(
            alerts_of_run(v, run),
            alerts_of_run(AnomalyView::fresh(v.window, 0, 1), read_since(run, run[0].now)),
        ),
        forall|i: int|
            0 <= i < alerts_of_run(v, run).len() ==> (#[trigger] alerts_of_run(v, run)[i]).id
                == crate::models::id_after(v.next_id, i as nat),
{
    lemma_first_observation_rolls(v, run);
    lemma_alike_runs(
        AnomalyView::fresh(v.window, run[0].now, v.next_id),
        AnomalyView::fresh(v.window, 0, 1),
        run[0].now,
        run,
    );
    law_ids_go_on_counting(v, run);
}

} // verus!
