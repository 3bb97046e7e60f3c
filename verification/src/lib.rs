//! Gasket: a localhost sidecar that terminates inbound HTTP/TLS/mTLS,
//! forwards each request to a co-located backend on the next port, and
//! supervises that backend as a child process.
//!
//! This crate holds the verified core: the per-route stability patterns
//! (circuit breaker, exponential backoff, throttler), the header rewrite
//! policy, the forwarder and retry decision logic, and the supervisor
//! state machine. The unverified shell (the HTTP server, the TLS
//! acceptors, the process and signal plumbing) lives outside and drives
//! this core with plain values.

use vstd::prelude::*;

pub mod http_utils;
pub mod process_manager;
pub mod proxy;
pub mod server;
pub mod stability_patterns;
pub mod text;
pub mod tls_utils;

verus! {

/// Options fixed at startup; immutable afterwards.
#[derive(Clone, Debug)]
pub struct GasketOptions {
    /// Command line of the backend child; empty means no child is spawned.
    pub command: String,
    /// Path to the PEM private key; a default is used when absent.
    pub private_key_path: Option<String>,
    /// Path to the PEM certificate chain; a default is used when absent.
    pub certificate_chain_path: Option<String>,
    /// Path to the client CA bundle for mTLS; a default is used when absent.
    pub client_ca_path: Option<String>,
    /// Terminate TLS on the inbound port.
    pub tls_enabled: bool,
    /// Terminate mTLS on the inbound port; supersedes `tls_enabled`.
    pub mtls_enabled: bool,
    /// Wrap the forwarder in the bounded retry driver.
    pub backoff_enabled: bool,
    /// Reserved: per-route throttling.
    pub throttling_enabled: bool,
    /// Reserved: explicit circuit-breaker flag.
    pub circuitbreaker_enabled: bool,
}

} // verus!
