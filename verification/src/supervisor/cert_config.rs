//! Certificate and HTTPS settings of the node.

use vstd::prelude::*;
use vstd::string::*;

use crate::addr::{addr_of, IpAddr, Ipv4Addr, SocketAddr};
use crate::h3_frontend::H3_REQUEST_BODY_LIMIT;

verus! {

broadcast use vstd::string::group_string_axioms;

/// Certificate and HTTPS settings of the node.
#[derive(Debug)]
pub struct CertConfig {
    pub cert_dir: String,
    pub default_cert: Option<String>,
    pub default_key: Option<String>,
    /// Port of the plaintext companion listener; 80 where it is not set.
    pub redirect_port: Option<u16>,
    pub https_listen: SocketAddr,
    pub https_http3: bool,
    pub https_alt_svc: bool,
    /// Largest HTTP/3 request body, in bytes.
    pub https_request_body_limit: usize,
}

impl Default for CertConfig {
    /// No directory and no default certificate; port 443 on every address, with
    /// HTTP/3 served and advertised.
    fn default() -> (r: Self)
        ensures
            r.cert_dir@ == Seq::<char>::empty(),
            r.default_cert is None,
            r.default_key is None,
            r.redirect_port is None,
            r.https_listen == addr_of(IpAddr::V4(Ipv4Addr { a: 0, b: 0, c: 0, d: 0 }), 443),
            r.https_http3,
            r.https_alt_svc,
            r.https_request_body_limit == 16 * 1024 * 1024,
    {
        CertConfig {
            cert_dir: String::new(),
            default_cert: None,
            default_key: None,
            redirect_port: None,
            https_listen: SocketAddr::new(IpAddr::V4(Ipv4Addr::new(0, 0, 0, 0)), 443),
            https_http3: true,
            https_alt_svc: true,
            https_request_body_limit: H3_REQUEST_BODY_LIMIT,
        }
    }
}

/// The default certificate with its key: only the two together count.
pub open spec fn default_pair(cert: Option<String>, key: Option<String>) -> Option<(String, String)> {
    match (cert, key) {
        (Some(c), Some(k)) => Some((c, k)),
        _ => None,
    }
}

/// The port of the companion listener.
pub open spec fn redirect_port_of(configured: Option<u16>) -> u16 {
    match configured {
        Some(p) => p,
        None => 80u16,
    }
}

/// HTTP/3 is advertised.
pub open spec fn advertises(http3: bool, alt_svc: bool) -> bool {
    http3 && alt_svc
}

impl CertConfig {
    /// The settings as the server section gives them.
    pub fn from_server_section(
        cert_dir: String,
        default_cert: Option<String>,
        default_key: Option<String>,
        http_redirect_port: Option<u16>,
        https_listen: SocketAddr,
        https_http3: bool,
        https_alt_svc: bool,
        https_request_body_limit: usize,
    ) -> (r: Self)
        ensures
            r == (CertConfig {
                cert_dir,
                default_cert,
                default_key,
                redirect_port: http_redirect_port,
                https_listen,
                https_http3,
                https_alt_svc,
                https_request_body_limit,
            }),
    {
        CertConfig {
            cert_dir,
            default_cert,
            default_key,
            redirect_port: http_redirect_port,
            https_listen,
            https_http3,
            https_alt_svc,
            https_request_body_limit,
        }
    }

    /// The default certificate with its key, where both are configured.
    pub fn server_default(&self) -> (r: Option<(String, String)>)
        ensures
            r == default_pair(self.default_cert, self.default_key),
    {
        match (&self.default_cert, &self.default_key) {
            (Some(c), Some(k)) => Some((c.clone(), k.clone())),
            _ => None,
        }
    }

    /// The port of the companion listener.
    pub fn companion_port(&self) -> (r: u16)
        ensures
            r == redirect_port_of(self.redirect_port),
    {
        match self.redirect_port {
            Some(p) => p,
            None => 80,
        }
    }

    /// Whether HTTP/3 is advertised: it is served, and advertising is on.
    pub fn emit_alt_svc(&self) -> (r: bool)
        ensures
            r == advertises(self.https_http3, self.https_alt_svc),
    {
        self.https_http3 && self.https_alt_svc
    }
}

/// Law: a default certificate counts only with its key, and a key only with its
/// certificate.
pub proof fn law_default_needs_both_halves(cert: String, key: String)
    ensures
        default_pair(Some(cert), Some(key)) == Some((cert, key)),
        default_pair(Some(cert), None) is None,
        default_pair(None, Some(key)) is None,
        default_pair(None, None) is None,
{
}

/// Law: plaintext is served on the configured port, and on port 80 where none is
/// configured; HTTP/3 is advertised only where it is served, and not where
/// advertising is off.
pub proof fn law_plaintext_port_and_advertising(port: u16)
    ensures
        redirect_port_of(Some(port)) == port,
        redirect_port_of(None) == 80,
        advertises(true, true),
        !advertises(true, false),
        !advertises(false, true),
        !advertises(false, false),
{
}

} // verus!
