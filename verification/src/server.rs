//! Server-frontend policy: which variant to run, which port to bind, and
//! where the backend listens. The listening sockets themselves live in
//! the unverified shell.

use vstd::prelude::*;
use vstd::string::StringExecFns;

use crate::text::parse_u16;
use crate::text::spec_parse_u16;
use crate::text::spec_u64_string;
use crate::text::u64_to_string;
use crate::GasketOptions;

verus! {

/// The inbound port when the environment names none.
pub const DEFAULT_PORT: u16 = 3000;

/// The three shapes of the server frontend.
#[derive(PartialEq, Eq, Structural, Clone, Copy, Debug)]
pub enum ServerKind {
    Plain,
    Tls,
    Mtls,
}

/// Which frontend the options select: mTLS supersedes TLS; with neither
/// flag the server speaks plain HTTP.
pub fn select_server(go: &GasketOptions) -> (kind: ServerKind)
    ensures
        kind == (if go.mtls_enabled {
            ServerKind::Mtls
        } else if go.tls_enabled {
            ServerKind::Tls
        } else {
            ServerKind::Plain
        }),
{
    if go.mtls_enabled {
        ServerKind::Mtls
    } else if go.tls_enabled {
        ServerKind::Tls
    } else {
        ServerKind::Plain
    }
}

/// The inbound port: the PORT variable's value where it parses as a
/// `u16`, the default otherwise.
pub fn parse_port(env_port: &Option<String>) -> (port: u16)
    ensures
        port == (match env_port {
            Some(s) => (match spec_parse_u16(s@) {
                Some(v) => v as u16,
                None => DEFAULT_PORT,
            }),
            None => DEFAULT_PORT,
        }),
{
    match env_port {
        Some(s) => {
            match parse_u16(s.as_str()) {
                Some(p) => p,
                None => DEFAULT_PORT,
            }
        },
        None => DEFAULT_PORT,
    }
}

/// The port the backend child listens on: the next one up.
pub fn backend_port(port: u16) -> (r: u16)
    requires
        port < u16::MAX,
    ensures
        r == port + 1,
{
    port + 1
}

/// The inbound bind address: always loopback, at the given port.
pub fn listen_addr(port: u16) -> (addr: String)
    ensures
        addr@ == "127.0.0.1:"@ + spec_u64_string(port as int),
{
    let mut addr = "127.0.0.1:".to_owned();
    let digits = u64_to_string(port as u64);
    addr.append(digits.as_str());
    addr
}

} // verus!
