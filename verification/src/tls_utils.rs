//! Certificate-path policy for the TLS and mTLS acceptors. Reading the
//! PEM files and configuring the acceptors is the unverified shell's
//! work; which paths it reads is decided here.

use vstd::prelude::*;

use crate::GasketOptions;

verus! {

/// Decides which certificate files the acceptors are built from.
pub struct CertificateManager {}

impl CertificateManager {
    /// The private-key and certificate-chain paths for plain TLS, with
    /// the fixed defaults where the options name none.
    pub fn tls_paths(go: &GasketOptions) -> (r: (String, String))
        ensures
            r.0@ == (match go.private_key_path {
                Some(p) => p@,
                None => "private_key.pem"@,
            }),
            r.1@ == (match go.certificate_chain_path {
                Some(p) => p@,
                None => "certificate_chain.crt"@,
            }),
    {
        let key = match &go.private_key_path {
            Some(p) => p.clone(),
            None => "private_key.pem".to_owned(),
        };
        let chain = match &go.certificate_chain_path {
            Some(p) => p.clone(),
            None => "certificate_chain.crt".to_owned(),
        };
        (key, chain)
    }

    /// The private-key, certificate-chain and client-CA paths for mTLS,
    /// with the fixed defaults where the options name none. The chain's
    /// default differs from the TLS one.
    pub fn mtls_paths(go: &GasketOptions) -> (r: (String, String, String))
        ensures
            r.0@ == (match go.private_key_path {
                Some(p) => p@,
                None => "private_key.pem"@,
            }),
            r.1@ == (match go.certificate_chain_path {
                Some(p) => p@,
                None => "certificate_chain.pem"@,
            }),
            r.2@ == (match go.client_ca_path {
                Some(p) => p@,
                None => "client_cert_path.pem"@,
            }),
    {
        let key = match &go.private_key_path {
            Some(p) => p.clone(),
            None => "private_key.pem".to_owned(),
        };
        let chain = match &go.certificate_chain_path {
            Some(p) => p.clone(),
            None => "certificate_chain.pem".to_owned(),
        };
        let ca = match &go.client_ca_path {
            Some(p) => p.clone(),
            None => "client_cert_path.pem".to_owned(),
        };
        (key, chain, ca)
    }
}

} // verus!
