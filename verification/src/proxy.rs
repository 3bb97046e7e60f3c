//! The forwarder's decision core and the retry policy.
//!
//! A request is handled in two verified steps around the one upstream
//! call: `plan_forward` applies the circuit-breaker gate, fixes the
//! per-route timeout, stamps the identity headers and builds the upstream
//! URL; `complete_forward` classifies the outcome, updates the stability
//! registry and shapes the response. The upstream call itself, and the
//! retry loop's sleeping, are left to the unverified shell, which is told
//! what to do through `retry_decision`.

use vstd::prelude::*;
use vstd::string::StringExecFns;

use crate::http_utils::build_response_headers;
use crate::http_utils::build_upstream_headers;
use crate::http_utils::new_request_id;
use crate::http_utils::spec_is_hop_by_hop;
use crate::http_utils::spec_last_header_value;
use crate::http_utils::spec_name_eq_ci;
use crate::http_utils::spec_prune_hop;
use crate::http_utils::spec_strip_connection;
use crate::stability_patterns::pow2;
use crate::stability_patterns::ExponentialBackoff;
use crate::stability_patterns::StabilityPatterns;
use crate::stability_patterns::DEFAULT_MAX_TRIPS;
use crate::stability_patterns::FALLBACK_TIMEOUT_MS;
use crate::stability_patterns::INITIAL_TIMEOUT_MS;
use crate::text::spec_u64_string;
use crate::text::u64_to_string;

verus! {

/// How many times the retry driver will call the forwarder at most.
pub const MAX_FORWARD_ATTEMPTS: u32 = 3;

/// Base of the retry driver's delay schedule, in milliseconds.
pub const RETRY_BASE_DELAY_MS: u64 = 10;

/// What the one upstream call came back with, as plain values.
pub enum UpstreamOutcome {
    /// The backend answered: its status, headers and fully buffered body.
    Success { status: u16, headers: Vec<(String, String)>, body: Vec<u8> },
    /// The call exceeded the per-route timeout.
    Timeout,
    /// The call failed before an answer arrived; the message describes how.
    Transport { message: String },
}

/// The body of a response handed back to the client.
pub enum GasketBody {
    /// The backend's body, passed through untouched.
    Bytes(Vec<u8>),
    /// A message of the forwarder's own.
    Message(String),
}

/// The response handed back to the client.
pub struct GasketResponse {
    pub status: u16,
    pub headers: Vec<(String, String)>,
    pub body: GasketBody,
}

/// What to do with an inbound request.
pub enum ForwardPlan {
    /// The circuit is open: answer without touching the upstream.
    Reject { response: GasketResponse },
    /// Call the upstream: where, with what deadline, and with which headers.
    Proceed { url: String, timeout_ms: u64, request_id: String, headers: Vec<(String, String)> },
}

/// Relies on url::Url (parse, set_path, set_query, as_str): the backend
/// origin with the request's path and query attached, percent-encoded as
/// the URL syntax demands. The result depends on the arguments alone.
pub uninterp spec fn upstream_url_of(port: u16, path: Seq<char>, query: Option<Seq<char>>) -> Seq<
    char,
>;

/// Relies on url::Url::parse, set_path, set_query and as_str; see
/// `upstream_url_of`. Parsing the origin cannot fail: the host is fixed
/// and the port is a valid number.
#[verifier::external_body]
fn build_upstream_url(port: u16, path: &str, query: Option<&str>) -> (r: String)
    ensures
        r@ == upstream_url_of(
            port,
            path@,
            (match query {
                Some(q) => Some(q@),
                None => None,
            }),
        ),
{
    let mut u = url::Url::parse(&format!("http://127.0.0.1:{}", port)).unwrap();
    u.set_path(path);
    u.set_query(query);
    u.as_str().to_owned()
}

/// The timeout that advancing `route`'s backoff entry yields: the entry's
/// next schedule value, or the fixed fallback for a route with no entry.
pub open spec fn spec_next_backoff_value(reg: StabilityPatterns, route: Seq<char>) -> u64 {
    match reg.spec_backoff(route) {
        Some(eb) => eb.spec_next().current_timeout,
        None => FALLBACK_TIMEOUT_MS,
    }
}

/// Decide how to handle an inbound request, before any upstream traffic.
///
/// If `route`'s circuit is open, the request is rejected with a 500 naming
/// the route, and the upstream is not touched. Otherwise the plan carries
/// the upstream URL, the per-route timeout (creating the backoff entry on
/// first reference), a fresh request identifier, and the inbound headers
/// rewritten: hop-by-hop names dropped, forwarding and identity stamps
/// appended.
pub fn plan_forward(
    reg: &mut StabilityPatterns,
    route: &String,
    query: &Option<String>,
    backend_port: u16,
    inbound_headers: &Vec<(String, String)>,
    peer_ip: &Option<String>,
    mtls_enabled: bool,
) -> (plan: ForwardPlan)
    requires
        old(reg).wf(),
    ensures
        final(reg).wf(),
        (if !old(reg).spec_cb_closed(route@) {
            (match plan {
                ForwardPlan::Reject { response } => {
                    &&& response.status == 500
                    &&& (response.body matches GasketBody::Message(m) && m@ == "Circuitbreaker for "@
                        + route@ + " is open"@)
                    &&& response.headers@.len() == 0
                    &&& forall|k: Seq<char>| final(reg).spec_cb(k) == old(reg).spec_cb(k)
                    &&& final(reg).backoffs@ == old(reg).backoffs@
                    &&& final(reg).throttlers@ == old(reg).throttlers@
                },
                ForwardPlan::Proceed { .. } => false,
            })
        } else {
            (match plan {
                ForwardPlan::Reject { .. } => false,
                ForwardPlan::Proceed { url, timeout_ms, request_id, headers } => {
                    &&& url@ == upstream_url_of(
                        backend_port,
                        route@,
                        (match query {
                            Some(q) => Some(q@),
                            None => None,
                        }),
                    )
                    &&& timeout_ms == (match old(reg).spec_backoff(route@) {
                        Some(eb) => eb.current_timeout,
                        None => INITIAL_TIMEOUT_MS,
                    })
                    &&& request_id@.len() == 36
                    &&& headers@.subrange(0, spec_prune_hop(inbound_headers@).len() as int)
                        == spec_prune_hop(inbound_headers@)
                    &&& headers@.len() == spec_prune_hop(inbound_headers@).len() + (
                    if peer_ip is Some {
                        3int
                    } else {
                        2int
                    })
                    &&& (match peer_ip {
                        Some(ip) => {
                            &&& headers@[spec_prune_hop(inbound_headers@).len() as int].0@
                                == "x-forwarded-for"@
                            &&& headers@[spec_prune_hop(inbound_headers@).len() as int].1@ == ip@
                        },
                        None => true,
                    })
                    &&& headers@[headers@.len() - 1].0@ == "x-gasket-mtls-active"@
                    &&& headers@[headers@.len() - 1].1@ == (if mtls_enabled {
                        "true"@
                    } else {
                        "false"@
                    })
                    &&& forall|j: int|
                        0 <= j < headers@.len() ==> !spec_is_hop_by_hop(
                            (#[trigger] headers@[j]).0@,
                        )
                    &&& spec_last_header_value(headers@, "x-gasket-request-id"@) == Some(
                        request_id@,
                    )
                    &&& final(reg).spec_backoff(route@) == (match old(reg).spec_backoff(route@) {
                        Some(eb) => Some(eb),
                        None => Some(ExponentialBackoff::spec_new()),
                    })
                    &&& final(reg).spec_cb(route@) is Some
                    &&& forall|k: Seq<char>|
                        k != route@ ==> final(reg).spec_backoff(k) == old(reg).spec_backoff(k)
                    &&& forall|k: Seq<char>|
                        k != route@ ==> final(reg).spec_cb(k) == old(reg).spec_cb(k)
                    &&& final(reg).throttlers@ == old(reg).throttlers@
                },
            })
        }),
{
    let closed = reg.check_cb_status(route.clone());
    if !closed {
        let mut m = "Circuitbreaker for ".to_owned();
        m.append(route.as_str());
        m.append(" is open");
        proof {
            assert(m@ =~= "Circuitbreaker for "@ + route@ + " is open"@);
        }
        ForwardPlan::Reject {
            response: GasketResponse {
                status: 500,
                headers: Vec::new(),
                body: GasketBody::Message(m),
            },
        }
    } else {
        reg.exponential_backoff(route.clone());
        let timeout_ms = reg.current_timeout(route.clone());
        let request_id = new_request_id();
        let headers = build_upstream_headers(inbound_headers, peer_ip, &request_id, mtls_enabled);
        let url = build_upstream_url(
            backend_port,
            route.as_str(),
            (match query {
                Some(q) => Some(q.as_str()),
                None => None,
            }),
        );
        ForwardPlan::Proceed { url, timeout_ms, request_id, headers }
    }
}

/// Classify the outcome of the one upstream call, update the stability
/// registry, and shape the response handed back to the client.
///
/// An answer is passed through: its status, its headers without
/// `connection` plus the request identifier, its body untouched. A timeout
/// advances `route`'s backoff and answers 408, without touching the
/// breaker. A transport error trips the breaker, advances the backoff,
/// and answers 500 with the error's message.
pub fn complete_forward(
    reg: &mut StabilityPatterns,
    route: &String,
    request_id: &String,
    outcome: UpstreamOutcome,
) -> (resp: GasketResponse)
    requires
        old(reg).wf(),
    ensures
        final(reg).wf(),
        (match outcome {
            UpstreamOutcome::Success { status, headers, body } => {
                &&& resp.status == status
                &&& (resp.body matches GasketBody::Bytes(b) && b@ == body@)
                &&& resp.headers@.len() == spec_strip_connection(headers@).len() + 1
                &&& resp.headers@.subrange(0, spec_strip_connection(headers@).len() as int)
                    == spec_strip_connection(headers@)
                &&& forall|j: int|
                    0 <= j < resp.headers@.len() ==> !spec_name_eq_ci(
                        (#[trigger] resp.headers@[j]).0@,
                        "connection"@,
                    )
                &&& spec_last_header_value(resp.headers@, "x-gasket-request-id"@) == Some(
                    request_id@,
                )
                &&& final(reg).circuitbreakers@ == old(reg).circuitbreakers@
                &&& final(reg).backoffs@ == old(reg).backoffs@
                &&& final(reg).throttlers@ == old(reg).throttlers@
            },
            UpstreamOutcome::Timeout => {
                &&& resp.status == 408
                &&& resp.headers@.len() == 0
                &&& (resp.body matches GasketBody::Message(m) && m@ == "Backend Timeout: "@
                    + spec_u64_string(spec_next_backoff_value(*old(reg), route@) as int) + "ms"@)
                &&& final(reg).spec_backoff(route@) == (match old(reg).spec_backoff(route@) {
                    Some(eb) => Some(eb.spec_next()),
                    None => Option::<ExponentialBackoff>::None,
                })
                &&& forall|k: Seq<char>|
                    k != route@ ==> final(reg).spec_backoff(k) == old(reg).spec_backoff(k)
                &&& final(reg).circuitbreakers@ == old(reg).circuitbreakers@
                &&& final(reg).throttlers@ == old(reg).throttlers@
            },
            UpstreamOutcome::Transport { message } => {
                &&& resp.status == 500
                &&& resp.headers@.len() == 0
                &&& (resp.body matches GasketBody::Message(m) && m@ == message@)
                &&& final(reg).spec_cb(route@) is Some
                &&& ({
                    let prior_count: int = match old(reg).spec_cb(route@) {
                        Some(cb) => cb.error_count as int,
                        None => 0,
                    };
                    final(reg).spec_cb(route@)->Some_0.error_count == (if prior_count < u16::MAX {
                        prior_count + 1
                    } else {
                        u16::MAX as int
                    })
                })
                &&& final(reg).spec_cb(route@)->Some_0.max_trips == (match old(reg).spec_cb(
                    route@,
                ) {
                    Some(cb) => cb.max_trips,
                    None => DEFAULT_MAX_TRIPS,
                })
                &&& final(reg).spec_backoff(route@) == (match old(reg).spec_backoff(route@) {
                    Some(eb) => Some(eb.spec_next()),
                    None => Option::<ExponentialBackoff>::None,
                })
                &&& forall|k: Seq<char>|
                    k != route@ ==> final(reg).spec_cb(k) == old(reg).spec_cb(k)
                &&& forall|k: Seq<char>|
                    k != route@ ==> final(reg).spec_backoff(k) == old(reg).spec_backoff(k)
                &&& final(reg).throttlers@ == old(reg).throttlers@
            },
        }),
{
    match outcome {
        UpstreamOutcome::Success { status, headers, body } => {
            let resp_headers = build_response_headers(&headers, request_id);
            GasketResponse { status, headers: resp_headers, body: GasketBody::Bytes(body) }
        },
        UpstreamOutcome::Timeout => {
            let d = reg.next_backoff(route.clone());
            let ds = u64_to_string(d);
            let mut m = "Backend Timeout: ".to_owned();
            m.append(ds.as_str());
            m.append("ms");
            proof {
                assert(m@ =~= "Backend Timeout: "@ + spec_u64_string(d as int) + "ms"@);
            }
            GasketResponse { status: 408, headers: Vec::new(), body: GasketBody::Message(m) }
        },
        UpstreamOutcome::Transport { message } => {
            let _still_closed = reg.trip(route.clone());
            let _d = reg.next_backoff(route.clone());
            GasketResponse { status: 500, headers: Vec::new(), body: GasketBody::Message(message) }
        },
    }
}

/// Whether the retry driver retries this outcome: transport errors only.
/// Answers (of any status) and timeouts are returned to the client as-is.
pub open spec fn spec_retryable(outcome: UpstreamOutcome) -> bool {
    outcome is Transport
}

/// Decide whether to call the forwarder again after `attempts_made`
/// attempts ended with `outcome`, and after what base delay; the driver
/// jitters the delay. The schedule is 10 ms doubling per attempt, and at
/// most three attempts in all.
pub fn retry_decision(outcome: &UpstreamOutcome, attempts_made: u32) -> (r: Option<u64>)
    requires
        1 <= attempts_made,
    ensures
        (match r {
            Some(delay) => spec_retryable(*outcome) && attempts_made < MAX_FORWARD_ATTEMPTS
                && delay == RETRY_BASE_DELAY_MS * pow2(attempts_made - 1),
            None => !spec_retryable(*outcome) || attempts_made >= MAX_FORWARD_ATTEMPTS,
        }),
{
    let retryable = match outcome {
        UpstreamOutcome::Transport { .. } => true,
        _ => false,
    };
    if retryable && attempts_made < MAX_FORWARD_ATTEMPTS {
        let delay: u64 = if attempts_made == 1 {
            10
        } else {
            20
        };
        proof {
            assert(pow2(0) == 1) by {
                reveal_with_fuel(pow2, 1);
            }
            assert(pow2(1) == 2) by {
                reveal_with_fuel(pow2, 2);
            }
        }
        Some(delay)
    } else {
        None
    }
}

} // verus!
