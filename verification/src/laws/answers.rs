//! Answers of the API.

use vstd::prelude::*;
use vstd::string::*;

use crate::api::{AlertsQuery, Endpoint};

verus! {

/// A request carries the token if and only if it has the header, which is `Bearer`,
/// a space and then the token, and nothing else.
pub proof fn law_header_carries_the_token(header: String, token: Seq<char>)
    ensures
        !crate::api::carries(None, token),
        crate::api::carries(Some(header), token) <==> {
            &&& header@.len() == 7 + token.len()
            &&& header@.take(7) == seq!['B', 'e', 'a', 'r', 'e', 'r', ' ']
            &&& header@.skip(7) == token
        },
{
    reveal_strlit("Bearer ");
    let h = header@;
    assert("Bearer "@ =~= seq!['B', 'e', 'a', 'r', 'e', 'r', ' ']);
    if h.len() >= 7 {
        assert(h =~= h.take(7) + h.skip(7));
    }
    if h == "Bearer "@ + token {
        assert(h.take(7) =~= "Bearer "@);
        assert(h.skip(7) =~= token);
    }
}

/// Each endpoint has its own path, and only those of the health check and of the
/// login are served without a token.
pub proof fn law_only_health_and_login_are_open(e: Endpoint, f: Endpoint)
    ensures
        crate::api::is_public(e) <==> crate::api::path_of(e) == "/health"@ || crate::api::path_of(e)
            == "/login"@,
        crate::api::path_of(e) == crate::api::path_of(f) <==> e == f,
        crate::api::path_of(Endpoint::Health) == "/health"@,
        crate::api::path_of(Endpoint::Login) == "/login"@,
        crate::api::path_of(Endpoint::Stats) == "/stats"@,
        crate::api::path_of(Endpoint::Alerts) == "/alerts"@,
        crate::api::path_of(Endpoint::Rules) == "/rules"@,
{
    reveal_strlit("/health");
    reveal_strlit("/login");
    reveal_strlit("/stats");
    reveal_strlit("/alerts");
    reveal_strlit("/rules");
    assert("/health"@[1] == 'h' && "/login"@[1] == 'l' && "/stats"@[1] == 's');
    assert("/alerts"@[1] == 'a' && "/rules"@[1] == 'r');
}

/// The token is the configured one, whatever it is, and only without one that for
/// development.
pub proof fn law_token(configured: String)
    ensures
        crate::api::token_of(Some(configured)) == configured@,
        crate::api::token_of(None) == "dev-token-change-me"@,
{
}

/// A request for alerts gets the newest ones, the newest first: as many as it asks
/// for, or two hundred where it does not say, but no more than five thousand and
/// no more than there are.
pub proof fn law_alerts_answer<A>(history: Seq<A>, query: AlertsQuery)
    ensures
        ({
            let answer = crate::api::latest(history, crate::api::alert_limit(query) as nat);
            let asked = match query.limit {
                Some(limit) => limit as int,
                None => 200,
            };
            &&& answer.len() <= asked && answer.len() <= 5000 && answer.len() <= history.len()
            &&& answer.len() == asked || answer.len() == 5000 || answer.len() == history.len()
            &&& forall|i: int|
                0 <= i < answer.len() ==> #[trigger] answer[i] == history[history.len() - 1 - i]
        }),
{
}

/// The rules that are listed are the first two signatures, the two anomalies and
/// the sequence, under the names that their alerts carry, and described as what
/// they are.
pub proof fn law_listed_rules()
    ensures
        ({
            let r = crate::api::listed_rules();
            &&& r.len() == 5
            &&& r[0].name == crate::laws::signatures::rule_name(0) && r[0].detector == "signature"@
            &&& r[0].description == "Aho-Corasick match on '"@
                + crate::laws::signatures::rule_text(0) + "' in payload sample"@
            &&& r[1].name == crate::laws::signatures::rule_name(1) && r[1].detector == "signature"@
            &&& r[1].description == "Aho-Corasick match on '"@
                + crate::laws::signatures::rule_text(1) + "' in payload sample"@
            &&& r[2].name == "syn-flood-anomaly"@ && r[2].detector == "anomaly"@
            &&& r[2].description
                == "Count-Min Sketch estimated SYN count per source exceeds threshold within window"@
            &&& r[3].name == "port-scan-anomaly"@ && r[3].detector == "anomaly"@
            &&& r[3].description
                == "HyperLogLog estimated distinct destination ports per source exceeds threshold within window"@
            &&& r[4].name == "probe-then-exploit-attempt"@ && r[4].detector == "cep"@
            &&& r[4].description
                == "NFA sequence: SYN probe followed by known-bad payload from same source within 5s window"@
        }),
{
    reveal_strlit("Aho-Corasick match on '");
    reveal_strlit("' in payload sample");
    reveal_strlit("/etc/passwd");
    reveal_strlit("UNION SELECT");
    reveal_strlit("Aho-Corasick match on '/etc/passwd' in payload sample");
    reveal_strlit("Aho-Corasick match on 'UNION SELECT' in payload sample");
    assert("Aho-Corasick match on '"@ + "/etc/passwd"@ + "' in payload sample"@
        =~= "Aho-Corasick match on '/etc/passwd' in payload sample"@);
    assert("Aho-Corasick match on '"@ + "UNION SELECT"@ + "' in payload sample"@
        =~= "Aho-Corasick match on 'UNION SELECT' in payload sample"@);
}

} // verus!
