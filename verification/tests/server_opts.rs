//! Server-frontend policy: variant selection, ports, certificate paths.

use gasket::server::backend_port;
use gasket::server::listen_addr;
use gasket::server::parse_port;
use gasket::server::select_server;
use gasket::server::ServerKind;
use gasket::tls_utils::CertificateManager;
use gasket::GasketOptions;

fn options() -> GasketOptions {
    GasketOptions {
        command: String::new(),
        private_key_path: None,
        certificate_chain_path: None,
        client_ca_path: None,
        tls_enabled: false,
        mtls_enabled: false,
        backoff_enabled: false,
        throttling_enabled: false,
        circuitbreaker_enabled: false,
    }
}

#[test]
fn mtls_supersedes_tls() {
    let mut go = options();
    assert_eq!(select_server(&go), ServerKind::Plain);
    go.tls_enabled = true;
    assert_eq!(select_server(&go), ServerKind::Tls);
    go.mtls_enabled = true;
    assert_eq!(select_server(&go), ServerKind::Mtls);
    go.tls_enabled = false;
    assert_eq!(select_server(&go), ServerKind::Mtls);
}

#[test]
fn port_parsing_follows_the_environment() {
    assert_eq!(parse_port(&Some("3000".to_string())), 3000);
    assert_eq!(parse_port(&Some("8080".to_string())), 8080);
    assert_eq!(parse_port(&Some("+80".to_string())), 80);
    assert_eq!(parse_port(&Some("0".to_string())), 0);
    assert_eq!(parse_port(&Some("65535".to_string())), 65535);
    assert_eq!(parse_port(&None), 3000);
}

#[test]
fn bad_ports_fall_back_to_the_default() {
    assert_eq!(parse_port(&Some("".to_string())), 3000);
    assert_eq!(parse_port(&Some("abc".to_string())), 3000);
    assert_eq!(parse_port(&Some("80a".to_string())), 3000);
    assert_eq!(parse_port(&Some("65536".to_string())), 3000);
    assert_eq!(parse_port(&Some("999999999999".to_string())), 3000);
    assert_eq!(parse_port(&Some("-1".to_string())), 3000);
    assert_eq!(parse_port(&Some("+".to_string())), 3000);
    assert_eq!(parse_port(&Some(" 80".to_string())), 3000);
}

#[test]
fn parse_port_matches_std_parse() {
    for s in ["3000", "0", "65535", "65536", "+80", "abc", "", "007"] {
        let expected = s.parse::<u16>().unwrap_or(3000);
        assert_eq!(parse_port(&Some(s.to_string())), expected, "parsing {s:?}");
    }
}

#[test]
fn backend_listens_one_port_up() {
    assert_eq!(backend_port(3000), 3001);
    assert_eq!(backend_port(1), 2);
}

#[test]
fn bind_address_is_loopback() {
    assert_eq!(listen_addr(3000), "127.0.0.1:3000");
    assert_eq!(listen_addr(65535), "127.0.0.1:65535");
}

#[test]
fn tls_paths_use_the_fixed_defaults() {
    let go = options();
    let (key, chain) = CertificateManager::tls_paths(&go);
    assert_eq!(key, "private_key.pem");
    assert_eq!(chain, "certificate_chain.crt");
    let (key, chain, ca) = CertificateManager::mtls_paths(&go);
    assert_eq!(key, "private_key.pem");
    assert_eq!(chain, "certificate_chain.pem");
    assert_eq!(ca, "client_cert_path.pem");
}

#[test]
fn tls_paths_honor_the_options() {
    let mut go = options();
    go.private_key_path = Some("k.pem".to_string());
    go.certificate_chain_path = Some("c.pem".to_string());
    go.client_ca_path = Some("ca.pem".to_string());
    let (key, chain) = CertificateManager::tls_paths(&go);
    assert_eq!(key, "k.pem");
    assert_eq!(chain, "c.pem");
    let (key, chain, ca) = CertificateManager::mtls_paths(&go);
    assert_eq!(key, "k.pem");
    assert_eq!(chain, "c.pem");
    assert_eq!(ca, "ca.pem");
}
