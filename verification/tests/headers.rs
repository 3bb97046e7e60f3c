//! The header rewrite policy.

use gasket::http_utils::build_response_headers;
use gasket::http_utils::build_upstream_headers;
use gasket::http_utils::header_name_eq_ci;
use gasket::http_utils::is_hop_by_hop_name;
use gasket::http_utils::last_header_value;

fn h(name: &str, value: &str) -> (String, String) {
    (name.to_string(), value.to_string())
}

fn has_name_ci(headers: &Vec<(String, String)>, name: &str) -> bool {
    headers.iter().any(|p| p.0.eq_ignore_ascii_case(name))
}

#[test]
fn name_comparison_ignores_ascii_case() {
    assert!(header_name_eq_ci("Connection", "connection"));
    assert!(header_name_eq_ci("TRANSFER-ENCODING", "transfer-encoding"));
    assert!(!header_name_eq_ci("connection", "connectio"));
    assert!(!header_name_eq_ci("te", "ta"));
    assert!(header_name_eq_ci("", ""));
}

#[test]
fn hop_by_hop_set_membership() {
    for name in [
        "connection",
        "Proxy-Connection",
        "KEEP-ALIVE",
        "proxy-authenticate",
        "Proxy-Authorization",
        "TE",
        "Trailer",
        "Transfer-Encoding",
        "upgrade",
    ] {
        assert!(is_hop_by_hop_name(name), "{name} should be hop-by-hop");
    }
    assert!(!is_hop_by_hop_name("content-type"));
    assert!(!is_hop_by_hop_name("x-gasket-request-id"));
    assert!(!is_hop_by_hop_name("host"));
}

#[test]
fn upstream_rewrite_prunes_and_stamps() {
    let inbound = vec![
        h("Connection", "keep-alive"),
        h("Transfer-Encoding", "chunked"),
        h("X-Custom", "v"),
    ];
    let peer = Some("203.0.113.7".to_string());
    let id = "11111111-2222-3333-4444-555555555555".to_string();
    let out = build_upstream_headers(&inbound, &peer, &id, false);

    assert!(!has_name_ci(&out, "connection"));
    assert!(!has_name_ci(&out, "transfer-encoding"));
    assert_eq!(out[0], h("X-Custom", "v"));
    assert_eq!(out[1], h("x-forwarded-for", "203.0.113.7"));
    assert_eq!(out[2], h("x-gasket-request-id", "11111111-2222-3333-4444-555555555555"));
    assert_eq!(out[3], h("x-gasket-mtls-active", "false"));
    assert_eq!(out.len(), 4);
}

#[test]
fn upstream_rewrite_prunes_case_insensitively() {
    let inbound = vec![
        h("UPGRADE", "h2c"),
        h("Keep-Alive", "timeout=5"),
        h("te", "trailers"),
        h("Host", "example"),
    ];
    let id = "id".to_string();
    let out = build_upstream_headers(&inbound, &None, &id, false);
    assert!(!has_name_ci(&out, "upgrade"));
    assert!(!has_name_ci(&out, "keep-alive"));
    assert!(!has_name_ci(&out, "te"));
    assert!(has_name_ci(&out, "host"));
}

#[test]
fn upstream_rewrite_without_peer_omits_forwarded_for() {
    let inbound = vec![h("Accept", "*/*")];
    let id = "id".to_string();
    let out = build_upstream_headers(&inbound, &None, &id, false);
    assert!(!has_name_ci(&out, "x-forwarded-for"));
    assert_eq!(out.len(), 3);
}

#[test]
fn mtls_stamp_reflects_the_flag() {
    let id = "id".to_string();
    let on = build_upstream_headers(&Vec::new(), &None, &id, true);
    assert_eq!(on.last().unwrap(), &h("x-gasket-mtls-active", "true"));
    let off = build_upstream_headers(&Vec::new(), &None, &id, false);
    assert_eq!(off.last().unwrap(), &h("x-gasket-mtls-active", "false"));
}

#[test]
fn response_rewrite_drops_connection_and_stamps_id() {
    let upstream = vec![
        h("Connection", "close"),
        h("Content-Type", "text/plain"),
        h("Content-Length", "2"),
    ];
    let id = "the-id".to_string();
    let out = build_response_headers(&upstream, &id);
    assert!(!has_name_ci(&out, "connection"));
    assert_eq!(out[0], h("Content-Type", "text/plain"));
    assert_eq!(out[1], h("Content-Length", "2"));
    assert_eq!(out[2], h("x-gasket-request-id", "the-id"));
    assert_eq!(out.len(), 3);
}

#[test]
fn request_id_round_trips_between_upstream_and_response() {
    let id = "33333333-0000-0000-0000-000000000000".to_string();
    let upstream = build_upstream_headers(&vec![h("X-A", "1")], &None, &id, false);
    let sent = last_header_value(&upstream, "x-gasket-request-id");
    let response = build_response_headers(&vec![h("Content-Type", "text/plain")], &id);
    let got = last_header_value(&response, "X-Gasket-Request-Id");
    assert_eq!(sent, got);
    assert_eq!(sent, Some(id));
}

#[test]
fn last_header_value_takes_the_last_occurrence() {
    let headers = vec![h("X-Gasket-Request-Id", "inbound-forgery"), h("x-gasket-request-id", "ours")];
    assert_eq!(last_header_value(&headers, "x-gasket-request-id"), Some("ours".to_string()));
    assert_eq!(last_header_value(&headers, "x-other"), None);
}
