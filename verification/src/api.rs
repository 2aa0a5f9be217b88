//! What the API answers: who is admitted, and what each endpoint returns.
//!
//! The health check is open, as a monitoring probe needs no credential, and so is
//! the login. Every other endpoint wants `Authorization: Bearer <token>` with the
//! one shared token.

use std::collections::VecDeque;

use vstd::prelude::*;
use vstd::string::*;

use crate::models::Alert;
use crate::pipeline::{Stats, ALERT_HISTORY_CAP};

verus! {

/// Status of a request that is served.
pub const OK: u16 = 200;

/// Status of a request that is refused for want of the token.
pub const UNAUTHORIZED: u16 = 401;

/// How many alerts are returned where the request does not say.
pub const DEFAULT_ALERT_LIMIT: usize = 200;

/// The endpoints of the API.
#[derive(Debug, Clone, Copy, PartialEq, Eq, Structural)]
pub enum Endpoint {
    Health,
    Login,
    Stats,
    Alerts,
    Rules,
}

/// The path of an endpoint.
pub open spec fn path_of(endpoint: Endpoint) -> Seq<char> {
    match endpoint {
        Endpoint::Health => "/health"@,
        Endpoint::Login => "/login"@,
        Endpoint::Stats => "/stats"@,
        Endpoint::Alerts => "/alerts"@,
        Endpoint::Rules => "/rules"@,
    }
}

/// The endpoint is served without a token.
pub open spec fn is_public(endpoint: Endpoint) -> bool {
    endpoint is Health || endpoint is Login
}

/// All endpoints.
pub fn endpoints() -> (r: Vec<Endpoint>)
    ensures
        r@.no_duplicates(),
        forall|e: Endpoint| #[trigger] r@.contains(e),
{
    let r: Vec<Endpoint> = vec![
        Endpoint::Health,
        Endpoint::Login,
        Endpoint::Stats,
        Endpoint::Alerts,
        Endpoint::Rules,
    ];
    proof {
        assert forall|e: Endpoint| #[trigger] r@.contains(e) by {
            assert(r@[0] is Health && r@[1] is Login && r@[2] is Stats && r@[3] is Alerts
                && r@[4] is Rules);
            let i: int = match e {
                Endpoint::Health => 0,
                Endpoint::Login => 1,
                Endpoint::Stats => 2,
                Endpoint::Alerts => 3,
                Endpoint::Rules => 4,
            };
            assert(r@[i] == e);
        }
    }
    r
}

impl Endpoint {
    /// The path at which the endpoint is served.
    pub fn path(&self) -> (r: &'static str)
        ensures
            r@ == path_of(*self),
    {
        match self {
            Endpoint::Health => "/health",
            Endpoint::Login => "/login",
            Endpoint::Stats => "/stats",
            Endpoint::Alerts => "/alerts",
            Endpoint::Rules => "/rules",
        }
    }

    /// Tells whether the endpoint is served to holders of the token only.
    pub fn requires_token(&self) -> (r: bool)
        ensures
            r == !is_public(*self),
    {
        match self {
            Endpoint::Health => false,
            Endpoint::Login => false,
            _ => true,
        }
    }
}

/// The token that requests must carry: the configured one, or else the one for
/// development.
pub open spec fn token_of(configured: Option<String>) -> Seq<char> {
    match configured {
        Some(token) => token@,
        None => "dev-token-change-me"@,
    }
}

/// The token that requests must carry, where `configured` is the one that was
/// set, if any.
pub fn expected_token(configured: Option<String>) -> (r: String)
    ensures
        r@ == token_of(configured),
{
    match configured {
        Some(token) => token,
        None => "dev-token-change-me".to_owned(),
    }
}

/// The header with which the holder of `token` is admitted.
pub open spec fn bearer(token: Seq<char>) -> Seq<char> {
    "Bearer "@ + token
}

/// The answer to a request that is not served.
#[derive(Debug, Clone, Copy, PartialEq, Eq)]
pub struct Refusal {
    pub status: u16,
    pub message: &'static str,
}

/// The `Authorization` header `header`, if any, holds `token`.
pub open spec fn carries(header: Option<String>, token: Seq<char>) -> bool {
    header matches Some(h) && h@ == bearer(token)
}

/// Admits a request whose `Authorization` header is `header`, if it has a readable
/// one, where that header holds `token`, and refuses any other.
pub fn require_auth(header: Option<String>, token: &String) -> (r: Result<(), Refusal>)
    ensures
        r is Ok <==> carries(header, token@),
        r matches Err(refusal) ==> refusal.status == UNAUTHORIZED && refusal.message@
            == "missing or invalid bearer token"@,
{
    let mut expected = "Bearer ".to_owned();
    expected.append(token.as_str());
    match header {
        Some(h) => {
            if h == expected {
                return Ok(());
            }
        },
        None => {},
    }
    Err(Refusal { status: UNAUTHORIZED, message: "missing or invalid bearer token" })
}

/// Decides on a request to `endpoint`: the public ones are open, the others want
/// the token.
pub fn guard(endpoint: Endpoint, header: Option<String>, token: &String) -> (r: Result<
    (),
    Refusal,
>)
    ensures
        r is Ok <==> is_public(endpoint) || carries(header, token@),
        r matches Err(refusal) ==> refusal.status == UNAUTHORIZED && refusal.message@
            == "missing or invalid bearer token"@,
{
    if endpoint.requires_token() {
        require_auth(header, token)
    } else {
        Ok(())
    }
}

/// The body of a login request.
pub struct LoginRequest {
    pub token: String,
}

/// The body of the answer to a login request.
#[derive(Debug, Clone, Copy, PartialEq, Eq, Structural)]
pub struct LoginResponse {
    pub ok: bool,
}

/// Tells whether the token of a login request is the right one, by status and
/// body.
pub fn login(body: &LoginRequest, token: &String) -> (r: (u16, LoginResponse))
    ensures
        r.1.ok <==> body.token@ == token@,
        r.0 == (if r.1.ok {
            OK
        } else {
            UNAUTHORIZED
        }),
{
    if body.token == *token {
        (OK, LoginResponse { ok: true })
    } else {
        (UNAUTHORIZED, LoginResponse { ok: false })
    }
}

/// The body of the answer to a health check.
#[derive(Debug, Clone, Copy, PartialEq, Eq)]
pub struct HealthResponse {
    pub status: &'static str,
    pub events_processed: u64,
    pub events_dropped: u64,
}

/// The engine is alive, and how far it has come.
pub fn health(stats: &Stats) -> (r: HealthResponse)
    ensures
        r.status@ == "ok"@,
        r.events_processed == stats.events_processed,
        r.events_dropped == stats.events_dropped,
{
    HealthResponse {
        status: "ok",
        events_processed: stats.events_processed,
        events_dropped: stats.events_dropped,
    }
}

/// The body of the answer to a request for the counters.
#[derive(Debug, Clone, Copy, PartialEq, Eq, Structural)]
pub struct StatsResponse {
    pub events_processed: u64,
    pub events_dropped: u64,
    pub alerts_fired: u64,
    /// Each drop is an event that met a full queue.
    pub queue_backpressure_events: u64,
}

/// The counters.
pub fn stats(counters: &Stats) -> (r: StatsResponse)
    ensures
        r == (StatsResponse {
            events_processed: counters.events_processed,
            events_dropped: counters.events_dropped,
            alerts_fired: counters.alerts_fired,
            queue_backpressure_events: counters.events_dropped,
        }),
{
    StatsResponse {
        events_processed: counters.events_processed,
        events_dropped: counters.events_dropped,
        alerts_fired: counters.alerts_fired,
        queue_backpressure_events: counters.events_dropped,
    }
}

/// The parameters of a request for alerts.
#[derive(Debug, Clone, Copy, PartialEq, Eq, Structural)]
pub struct AlertsQuery {
    pub limit: Option<usize>,
}

/// How many alerts are returned at most.
pub open spec fn alert_limit(query: AlertsQuery) -> usize {
    let limit = match query.limit {
        Some(limit) => limit,
        None => DEFAULT_ALERT_LIMIT,
    };
    if limit > ALERT_HISTORY_CAP {
        ALERT_HISTORY_CAP
    } else {
        limit
    }
}

/// The first `limit` items of `history` from its end backwards.
pub open spec fn latest<A>(history: Seq<A>, limit: nat) -> Seq<A> {
    let n = if limit < history.len() {
        limit
    } else {
        history.len()
    };
    history.reverse().take(n as int)
}

/// The latest alerts, the newest first.
pub fn alerts(history: &VecDeque<Alert>, query: AlertsQuery) -> (r: Vec<Alert>)
    ensures
        r@ == latest(history@, alert_limit(query) as nat),
{
    let limit: usize = match query.limit {
        Some(limit) => limit,
        None => DEFAULT_ALERT_LIMIT,
    };
    let limit: usize = if limit > ALERT_HISTORY_CAP {
        ALERT_HISTORY_CAP
    } else {
        limit
    };
    let mut out: Vec<Alert> = Vec::new();
    let mut left: usize = history.len();
    while left > 0 && out.len() < limit
        invariant
            left <= history@.len(),
            out@.len() == history@.len() - left,
            out@.len() <= limit,
            forall|i: int| 0 <= i < out@.len() ==> #[trigger] out@[i] == history@.reverse()[i],
        decreases left,
    {
        left = left - 1;
        out.push(history[left].clone());
    }
    assert(out@ =~= latest(history@, limit as nat));
    out
}

/// What the API tells of a detection rule.
#[derive(Debug, Clone, Copy, PartialEq, Eq)]
pub struct RuleSummary {
    pub name: &'static str,
    pub detector: &'static str,
    pub description: &'static str,
}

/// What a summary says.
#[verifier::ext_equal]
pub struct RuleSummaryView {
    pub name: Seq<char>,
    pub detector: Seq<char>,
    pub description: Seq<char>,
}

impl View for RuleSummary {
    type V = RuleSummaryView;

    open spec fn view(&self) -> RuleSummaryView {
        RuleSummaryView {
            name: self.name@,
            detector: self.detector@,
            description: self.description@,
        }
    }
}

/// The rules that the API lists.
pub open spec fn listed_rules() -> Seq<RuleSummaryView> {
    seq![
        RuleSummaryView {
            name: "path-traversal-passwd"@,
            detector: "signature"@,
            description: "Aho-Corasick match on '/etc/passwd' in payload sample"@,
        },
        RuleSummaryView {
            name: "sql-injection-union"@,
            detector: "signature"@,
            description: "Aho-Corasick match on 'UNION SELECT' in payload sample"@,
        },
        RuleSummaryView {
            name: "syn-flood-anomaly"@,
            detector: "anomaly"@,
            description: "Count-Min Sketch estimated SYN count per source exceeds threshold within window"@,
        },
        RuleSummaryView {
            name: "port-scan-anomaly"@,
            detector: "anomaly"@,
            description: "HyperLogLog estimated distinct destination ports per source exceeds threshold within window"@,
        },
        RuleSummaryView {
            name: "probe-then-exploit-attempt"@,
            detector: "cep"@,
            description: "NFA sequence: SYN probe followed by known-bad payload from same source within 5s window"@,
        },
    ]
}

/// The rules that the API lists.
pub fn rules() -> (r: Vec<RuleSummary>)
    ensures
        r@.map_values(|s: RuleSummary| s@) == listed_rules(),
{
    let r: Vec<RuleSummary> = vec![
        RuleSummary {
            name: "path-traversal-passwd",
            detector: "signature",
            description: "Aho-Corasick match on '/etc/passwd' in payload sample",
        },
        RuleSummary {
            name: "sql-injection-union",
            detector: "signature",
            description: "Aho-Corasick match on 'UNION SELECT' in payload sample",
        },
        RuleSummary {
            name: "syn-flood-anomaly",
            detector: "anomaly",
            description: "Count-Min Sketch estimated SYN count per source exceeds threshold within window",
        },
        RuleSummary {
            name: "port-scan-anomaly",
            detector: "anomaly",
            description: "HyperLogLog estimated distinct destination ports per source exceeds threshold within window",
        },
        RuleSummary {
            name: "probe-then-exploit-attempt",
            detector: "cep",
            description: "NFA sequence: SYN probe followed by known-bad payload from same source within 5s window",
        },
    ];
    assert(r@.map_values(|s: RuleSummary| s@) =~= listed_rules());
    r
}

/// The login agrees with the guard: a token logs in if and only if a request that
/// carries it is admitted.
pub proof fn law_login_agrees_with_the_guard(header: String, given: Seq<char>, token: Seq<char>)
    requires
        header@ == bearer(given),
    ensures
        carries(Some(header), token) <==> given == token,
{
    if bearer(given) == bearer(token) {
        let skip = "Bearer "@.len() as int;
        assert(bearer(given).skip(skip) =~= given);
        assert(bearer(token).skip(skip) =~= token);
    }
}

/// A request for alerts returns the newest ones: the first is the latest of the
/// history, each is followed by the one before it, and none are left out but the
/// oldest beyond the limit.
pub proof fn law_newest_alerts_come_first<A>(history: Seq<A>, limit: nat)
    ensures
        ({
            let r = latest(history, limit);
            &&& r.len() == if limit < history.len() {
                limit
            } else {
                history.len()
            }
            &&& forall|i: int|
                0 <= i < r.len() ==> #[trigger] r[i] == history[history.len() - 1 - i]
        }),
{
}

} // verus!
