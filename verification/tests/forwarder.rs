//! The forwarder's decision core: gate, timeout, classification, retry.

use gasket::proxy::complete_forward;
use gasket::proxy::plan_forward;
use gasket::proxy::retry_decision;
use gasket::proxy::ForwardPlan;
use gasket::proxy::GasketBody;
use gasket::proxy::UpstreamOutcome;
use gasket::stability_patterns::StabilityPatterns;

fn h(name: &str, value: &str) -> (String, String) {
    (name.to_string(), value.to_string())
}

fn assert_valid_request_id(id: &str) {
    assert_eq!(id.len(), 36);
    for (i, c) in id.chars().enumerate() {
        if i == 8 || i == 13 || i == 18 || i == 23 {
            assert_eq!(c, '-');
        } else {
            assert!(c.is_ascii_hexdigit() && !c.is_ascii_uppercase(), "bad char {c} at {i}");
        }
    }
    // version 4: random
    assert_eq!(id.as_bytes()[14], b'4');
}

#[test]
fn plain_forward_plan() {
    let mut reg = StabilityPatterns::new();
    let plan = plan_forward(
        &mut reg,
        &"/hello".to_string(),
        &None,
        3001,
        &Vec::new(),
        &None,
        false,
    );
    match plan {
        ForwardPlan::Proceed { url, timeout_ms, request_id, headers } => {
            assert_eq!(url, "http://127.0.0.1:3001/hello");
            assert_eq!(timeout_ms, 100);
            assert_valid_request_id(&request_id);
            assert_eq!(headers[0], h("x-gasket-request-id", request_id.as_str()));
            assert_eq!(headers[1], h("x-gasket-mtls-active", "false"));
        },
        ForwardPlan::Reject { .. } => panic!("fresh route must proceed"),
    }
}

#[test]
fn plan_keeps_query_and_custom_headers() {
    let mut reg = StabilityPatterns::new();
    let inbound = vec![h("Connection", "keep-alive"), h("X-Custom", "v")];
    let plan = plan_forward(
        &mut reg,
        &"/search".to_string(),
        &Some("q=1&lang=en".to_string()),
        4001,
        &inbound,
        &Some("198.51.100.4".to_string()),
        true,
    );
    match plan {
        ForwardPlan::Proceed { url, headers, .. } => {
            assert_eq!(url, "http://127.0.0.1:4001/search?q=1&lang=en");
            assert_eq!(headers[0], h("X-Custom", "v"));
            assert_eq!(headers[1], h("x-forwarded-for", "198.51.100.4"));
            assert_eq!(headers.last().unwrap(), &h("x-gasket-mtls-active", "true"));
            assert!(!headers.iter().any(|p| p.0.eq_ignore_ascii_case("connection")));
        },
        ForwardPlan::Reject { .. } => panic!("closed circuit must proceed"),
    }
}

#[test]
fn request_ids_differ_between_requests() {
    let mut reg = StabilityPatterns::new();
    let mut ids = Vec::new();
    for _ in 0..2 {
        match plan_forward(&mut reg, &"/a".to_string(), &None, 3001, &Vec::new(), &None, false) {
            ForwardPlan::Proceed { request_id, .. } => ids.push(request_id),
            ForwardPlan::Reject { .. } => panic!("must proceed"),
        }
    }
    assert_ne!(ids[0], ids[1]);
}

#[test]
fn transport_errors_advance_backoff_and_trip() {
    let mut reg = StabilityPatterns::new();
    let route = "/refused".to_string();
    let mut seen = Vec::new();
    for _ in 0..3 {
        match plan_forward(&mut reg, &route, &None, 3001, &Vec::new(), &None, false) {
            ForwardPlan::Proceed { request_id, .. } => {
                let resp = complete_forward(
                    &mut reg,
                    &route,
                    &request_id,
                    UpstreamOutcome::Transport { message: "Connection refused".to_string() },
                );
                assert_eq!(resp.status, 500);
                match resp.body {
                    GasketBody::Message(m) => assert_eq!(m, "Connection refused"),
                    GasketBody::Bytes(_) => panic!("transport error answers with a message"),
                }
            },
            ForwardPlan::Reject { .. } => panic!("breaker still closed"),
        }
        seen.push(reg.current_timeout(route.clone()));
    }
    assert_eq!(seen, vec![100, 120, 160]);
    assert_eq!(reg.cb_error_count(&route), Some(3));
}

#[test]
fn twelfth_request_hits_an_open_circuit() {
    let mut reg = StabilityPatterns::new();
    let route = "/down".to_string();
    for _ in 0..11 {
        match plan_forward(&mut reg, &route, &None, 3001, &Vec::new(), &None, false) {
            ForwardPlan::Proceed { request_id, .. } => {
                complete_forward(
                    &mut reg,
                    &route,
                    &request_id,
                    UpstreamOutcome::Transport { message: "refused".to_string() },
                );
            },
            ForwardPlan::Reject { .. } => panic!("breaker opens only after the budget"),
        }
    }
    match plan_forward(&mut reg, &route, &None, 3001, &Vec::new(), &None, false) {
        ForwardPlan::Reject { response } => {
            assert_eq!(response.status, 500);
            match response.body {
                GasketBody::Message(m) => assert_eq!(m, "Circuitbreaker for /down is open"),
                GasketBody::Bytes(_) => panic!("rejection carries a message"),
            }
        },
        ForwardPlan::Proceed { .. } => panic!("open circuit must reject"),
    }
}

#[test]
fn timeout_answers_408_and_spares_the_breaker() {
    let mut reg = StabilityPatterns::new();
    let route = "/slow".to_string();
    let request_id = match plan_forward(&mut reg, &route, &None, 3001, &Vec::new(), &None, false) {
        ForwardPlan::Proceed { request_id, .. } => request_id,
        ForwardPlan::Reject { .. } => panic!("must proceed"),
    };
    let resp = complete_forward(&mut reg, &route, &request_id, UpstreamOutcome::Timeout);
    assert_eq!(resp.status, 408);
    match resp.body {
        GasketBody::Message(m) => {
            assert!(m.starts_with("Backend Timeout:"), "body was {m}");
            assert_eq!(m, "Backend Timeout: 100ms");
        },
        GasketBody::Bytes(_) => panic!("timeout answers with a message"),
    }
    // the breaker was not touched; the backoff advanced
    assert_eq!(reg.cb_error_count(&route), Some(0));
    assert_eq!(reg.backoff_requests(&route), Some(1));
}

#[test]
fn success_passes_through_and_stamps_the_id() {
    let mut reg = StabilityPatterns::new();
    let route = "/hello".to_string();
    let request_id = match plan_forward(&mut reg, &route, &None, 3001, &Vec::new(), &None, false) {
        ForwardPlan::Proceed { request_id, .. } => request_id,
        ForwardPlan::Reject { .. } => panic!("must proceed"),
    };
    let upstream_headers = vec![h("Content-Type", "text/plain"), h("Connection", "close")];
    let resp = complete_forward(
        &mut reg,
        &route,
        &request_id,
        UpstreamOutcome::Success { status: 200, headers: upstream_headers, body: b"ok".to_vec() },
    );
    assert_eq!(resp.status, 200);
    match resp.body {
        GasketBody::Bytes(b) => assert_eq!(b, b"ok".to_vec()),
        GasketBody::Message(_) => panic!("success passes the body through"),
    }
    assert_eq!(resp.headers[0], h("Content-Type", "text/plain"));
    assert_eq!(resp.headers[1], h("x-gasket-request-id", request_id.as_str()));
    assert_eq!(resp.headers.len(), 2);
    // registry untouched on success
    assert_eq!(reg.cb_error_count(&route), Some(0));
    assert_eq!(reg.backoff_requests(&route), Some(0));
}

#[test]
fn retry_only_on_transport_and_at_most_three_attempts() {
    let transport = UpstreamOutcome::Transport { message: "refused".to_string() };
    assert_eq!(retry_decision(&transport, 1), Some(10));
    assert_eq!(retry_decision(&transport, 2), Some(20));
    assert_eq!(retry_decision(&transport, 3), None);
    assert_eq!(retry_decision(&UpstreamOutcome::Timeout, 1), None);
    let ok = UpstreamOutcome::Success { status: 200, headers: Vec::new(), body: Vec::new() };
    assert_eq!(retry_decision(&ok, 1), None);
}
