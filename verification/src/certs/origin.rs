//! Data types of the certificate store.

use vstd::prelude::*;
use vstd::string::*;

use crate::path::{debug_text, path_debug_text, quoted, quoted_path};
use crate::rule::{HttpRoute, RouteView};
use crate::text::opt_view;

verus! {

broadcast use vstd::string::group_string_axioms;

/// Why a certificate could not be loaded or made.
#[derive(Debug)]
pub enum CertError {
    CertRead { rule: String, route: String, path: String, source: String },
    KeyRead { rule: String, route: String, path: String, source: String },
    CertEmpty { rule: String, route: String, path: String },
    KeyEmpty { rule: String, route: String, path: String },
    Pem { rule: String, route: String, kind: &'static str, path: String, detail: String },
    SigningKey { rule: String, route: String, detail: String },
    Ephemeral { rule: String, route: String, detail: String },
    NoSource { rule: String, route: String },
}

/// The model of a [`CertError`].
pub enum CertErrorView {
    CertRead { rule: Seq<char>, route: Seq<char>, path: Seq<char>, source: Seq<char> },
    KeyRead { rule: Seq<char>, route: Seq<char>, path: Seq<char>, source: Seq<char> },
    CertEmpty { rule: Seq<char>, route: Seq<char>, path: Seq<char> },
    KeyEmpty { rule: Seq<char>, route: Seq<char>, path: Seq<char> },
    Pem {
        rule: Seq<char>,
        route: Seq<char>,
        kind: Seq<char>,
        path: Seq<char>,
        detail: Seq<char>,
    },
    SigningKey { rule: Seq<char>, route: Seq<char>, detail: Seq<char> },
    Ephemeral { rule: Seq<char>, route: Seq<char>, detail: Seq<char> },
    NoSource { rule: Seq<char>, route: Seq<char> },
}

impl View for CertError {
    type V = CertErrorView;

    open spec fn view(&self) -> CertErrorView {
        match self {
            CertError::CertRead { rule, route, path, source } => CertErrorView::CertRead {
                rule: rule@,
                route: route@,
                path: path@,
                source: source@,
            },
            CertError::KeyRead { rule, route, path, source } => CertErrorView::KeyRead {
                rule: rule@,
                route: route@,
                path: path@,
                source: source@,
            },
            CertError::CertEmpty { rule, route, path } => CertErrorView::CertEmpty {
                rule: rule@,
                route: route@,
                path: path@,
            },
            CertError::KeyEmpty { rule, route, path } => CertErrorView::KeyEmpty {
                rule: rule@,
                route: route@,
                path: path@,
            },
            CertError::Pem { rule, route, kind, path, detail } => CertErrorView::Pem {
                rule: rule@,
                route: route@,
                kind: kind@,
                path: path@,
                detail: detail@,
            },
            CertError::SigningKey { rule, route, detail } => CertErrorView::SigningKey {
                rule: rule@,
                route: route@,
                detail: detail@,
            },
            CertError::Ephemeral { rule, route, detail } => CertErrorView::Ephemeral {
                rule: rule@,
                route: route@,
                detail: detail@,
            },
            CertError::NoSource { rule, route } => CertErrorView::NoSource {
                rule: rule@,
                route: route@,
            },
        }
    }
}

/// The opening of every message: the rule and the route.
pub open spec fn error_prefix(rule: Seq<char>, route: Seq<char>) -> Seq<char> {
    "rule "@ + debug_text(rule) + ": route "@ + debug_text(route) + ": "@
}

/// The message of an error.
pub open spec fn cert_error_text(e: CertErrorView) -> Seq<char> {
    match e {
        CertErrorView::CertRead { rule, route, path, source } => error_prefix(rule, route)
            + "cert file "@ + path + ": "@ + source,
        CertErrorView::KeyRead { rule, route, path, source } => error_prefix(rule, route)
            + "key file "@ + path + ": "@ + source,
        CertErrorView::CertEmpty { rule, route, path } => error_prefix(rule, route) + "cert "@
            + path_debug_text(path) + " has no parseable certificates"@,
        CertErrorView::KeyEmpty { rule, route, path } => error_prefix(rule, route) + "key "@
            + path_debug_text(path) + " has no parseable private key"@,
        CertErrorView::Pem { rule, route, kind, path, detail } => error_prefix(rule, route)
            + "malformed PEM ("@ + kind + ") at "@ + path + ": "@ + detail,
        CertErrorView::SigningKey { rule, route, detail } => error_prefix(rule, route)
            + "failed to load signing key: "@ + detail,
        CertErrorView::Ephemeral { rule, route, detail } => error_prefix(rule, route)
            + "failed to generate ephemeral cert: "@ + detail,
        CertErrorView::NoSource { rule, route } => error_prefix(rule, route)
            + "no cert source matched the resolution chain (no explicit cert, no ephemeral, no convention-dir match, no server.default_cert)"@,
    }
}

/// The opening of a message.
fn prefix_of(rule: &str, route: &str) -> (r: String)
    ensures
        r@ == error_prefix(rule@, route@),
{
    let mut s = "rule ".to_owned();
    s.append(quoted(rule).as_str());
    s.append(": route ");
    s.append(quoted(route).as_str());
    s.append(": ");
    s
}

impl CertError {
    /// The message of the error.
    pub fn message(&self) -> (r: String)
        ensures
            r@ == cert_error_text(self@),
    {
        match self {
            CertError::CertRead { rule, route, path, source } => {
                let mut s = prefix_of(rule.as_str(), route.as_str());
                s.append("cert file ");
                s.append(path.as_str());
                s.append(": ");
                s.append(source.as_str());
                s
            },
            CertError::KeyRead { rule, route, path, source } => {
                let mut s = prefix_of(rule.as_str(), route.as_str());
                s.append("key file ");
                s.append(path.as_str());
                s.append(": ");
                s.append(source.as_str());
                s
            },
            CertError::CertEmpty { rule, route, path } => {
                let mut s = prefix_of(rule.as_str(), route.as_str());
                s.append("cert ");
                s.append(quoted_path(path.as_str()).as_str());
                s.append(" has no parseable certificates");
                s
            },
            CertError::KeyEmpty { rule, route, path } => {
                let mut s = prefix_of(rule.as_str(), route.as_str());
                s.append("key ");
                s.append(quoted_path(path.as_str()).as_str());
                s.append(" has no parseable private key");
                s
            },
            CertError::Pem { rule, route, kind, path, detail } => {
                let mut s = prefix_of(rule.as_str(), route.as_str());
                s.append("malformed PEM (");
                s.append(kind);
                s.append(") at ");
                s.append(path.as_str());
                s.append(": ");
                s.append(detail.as_str());
                s
            },
            CertError::SigningKey { rule, route, detail } => {
                let mut s = prefix_of(rule.as_str(), route.as_str());
                s.append("failed to load signing key: ");
                s.append(detail.as_str());
                s
            },
            CertError::Ephemeral { rule, route, detail } => {
                let mut s = prefix_of(rule.as_str(), route.as_str());
                s.append("failed to generate ephemeral cert: ");
                s.append(detail.as_str());
                s
            },
            CertError::NoSource { rule, route } => {
                let mut s = prefix_of(rule.as_str(), route.as_str());
                s.append(
                    "no cert source matched the resolution chain (no explicit cert, no ephemeral, no convention-dir match, no server.default_cert)",
                );
                s
            },
        }
    }
}

/// Where a loaded certificate came from.
#[derive(Debug)]
pub enum CertOrigin {
    /// PEM files named by the route itself.
    Path { cert: String, key: String },
    /// A self-signed leaf made in memory. Never written to disk.
    Ephemeral,
    /// The convention directory (`<cert_dir>/<host>/fullchain.pem`).
    Convention { cert: String, key: String },
    /// The server-wide default certificate.
    Default { cert: String, key: String },
    /// Issued and renewed by the ACME manager, at the convention path.
    Acme { cert: String, key: String },
    /// Being issued: an in-memory leaf is served until the files exist.
    AcmePending { cert: String, key: String },
}

/// The model of a [`CertOrigin`].
pub enum OriginView {
    Path { cert: Seq<char>, key: Seq<char> },
    Ephemeral,
    Convention { cert: Seq<char>, key: Seq<char> },
    Default { cert: Seq<char>, key: Seq<char> },
    Acme { cert: Seq<char>, key: Seq<char> },
    AcmePending { cert: Seq<char>, key: Seq<char> },
}

impl View for CertOrigin {
    type V = OriginView;

    open spec fn view(&self) -> OriginView {
        match self {
            CertOrigin::Path { cert, key } => OriginView::Path { cert: cert@, key: key@ },
            CertOrigin::Ephemeral => OriginView::Ephemeral,
            CertOrigin::Convention { cert, key } => OriginView::Convention {
                cert: cert@,
                key: key@,
            },
            CertOrigin::Default { cert, key } => OriginView::Default { cert: cert@, key: key@ },
            CertOrigin::Acme { cert, key } => OriginView::Acme { cert: cert@, key: key@ },
            CertOrigin::AcmePending { cert, key } => OriginView::AcmePending {
                cert: cert@,
                key: key@,
            },
        }
    }
}

/// The label of an origin.
pub open spec fn origin_label(o: OriginView) -> Seq<char> {
    match o {
        OriginView::Path { cert, .. } => "path:"@ + cert,
        OriginView::Ephemeral => "ephemeral"@,
        OriginView::Convention { cert, .. } => "convention:"@ + cert,
        OriginView::Default { cert, .. } => "default:"@ + cert,
        OriginView::Acme { cert, .. } => "acme:"@ + cert,
        OriginView::AcmePending { cert, .. } => "acme-pending:"@ + cert,
    }
}

/// The files whose change calls for a reload.
pub open spec fn origin_paths(o: OriginView) -> Seq<Seq<char>> {
    match o {
        OriginView::Path { cert, key } | OriginView::Convention { cert, key }
        | OriginView::Default { cert, key } | OriginView::Acme { cert, key } => seq![cert, key],
        OriginView::Ephemeral | OriginView::AcmePending { .. } => Seq::empty(),
    }
}

impl Clone for CertOrigin {
    fn clone(&self) -> (r: Self)
        ensures
            r == *self,
    {
        match self {
            CertOrigin::Path { cert, key } => CertOrigin::Path {
                cert: cert.clone(),
                key: key.clone(),
            },
            CertOrigin::Ephemeral => CertOrigin::Ephemeral,
            CertOrigin::Convention { cert, key } => CertOrigin::Convention {
                cert: cert.clone(),
                key: key.clone(),
            },
            CertOrigin::Default { cert, key } => CertOrigin::Default {
                cert: cert.clone(),
                key: key.clone(),
            },
            CertOrigin::Acme { cert, key } => CertOrigin::Acme {
                cert: cert.clone(),
                key: key.clone(),
            },
            CertOrigin::AcmePending { cert, key } => CertOrigin::AcmePending {
                cert: cert.clone(),
                key: key.clone(),
            },
        }
    }
}

impl CertOrigin {
    /// Short label for tabular output.
    pub fn as_label(&self) -> (r: String)
        ensures
            r@ == origin_label(self@),
    {
        match self {
            CertOrigin::Path { cert, .. } => crate::text::join2("path:", cert.as_str()),
            CertOrigin::Ephemeral => "ephemeral".to_owned(),
            CertOrigin::Convention { cert, .. } => {
                crate::text::join2("convention:", cert.as_str())
            },
            CertOrigin::Default { cert, .. } => crate::text::join2("default:", cert.as_str()),
            CertOrigin::Acme { cert, .. } => crate::text::join2("acme:", cert.as_str()),
            CertOrigin::AcmePending { cert, .. } => {
                crate::text::join2("acme-pending:", cert.as_str())
            },
        }
    }

    /// The files whose change calls for a reload. In-memory and pending
    /// certificates have none.
    pub fn watched_paths(&self) -> (r: Vec<String>)
        ensures
            crate::text::texts(r@) == origin_paths(self@),
    {
        let mut out: Vec<String> = Vec::new();
        match self {
            CertOrigin::Path { cert, key } | CertOrigin::Convention { cert, key }
            | CertOrigin::Default { cert, key } | CertOrigin::Acme { cert, key } => {
                out.push(cert.clone());
                out.push(key.clone());
            },
            CertOrigin::Ephemeral | CertOrigin::AcmePending { .. } => {},
        }
        assert(crate::text::texts(out@) =~= origin_paths(self@));
        out
    }
}

/// Encoding of a private key.
#[derive(Clone, Copy, Debug, PartialEq, Eq, Structural)]
pub enum KeyFormat {
    Pkcs1,
    Sec1,
    Pkcs8,
}

/// A certificate chain, leaf first, with the private key of the leaf, all as
/// DER.
#[derive(Debug)]
pub struct CertifiedKey {
    pub chain: Vec<Vec<u8>>,
    pub format: KeyFormat,
    pub key: Vec<u8>,
}

/// The model of a [`CertifiedKey`].
pub struct KeyView {
    pub chain: Seq<Seq<u8>>,
    pub format: KeyFormat,
    pub key: Seq<u8>,
}

impl View for CertifiedKey {
    type V = KeyView;

    open spec fn view(&self) -> KeyView {
        KeyView {
            chain: crate::headers::bytes_views(self.chain@),
            format: self.format,
            key: self.key@,
        }
    }
}

/// A loaded certificate.
#[derive(Debug)]
pub struct CertEntry {
    pub key: CertifiedKey,
    pub origin: CertOrigin,
    /// Unix time in milliseconds of the last successful load.
    pub loaded_at_unix_ms: u64,
}

/// The model of a [`CertEntry`].
pub struct CertEntryView {
    pub key: KeyView,
    pub origin: OriginView,
    pub loaded_at_unix_ms: u64,
}

impl View for CertEntry {
    type V = CertEntryView;

    open spec fn view(&self) -> CertEntryView {
        CertEntryView {
            key: self.key@,
            origin: self.origin@,
            loaded_at_unix_ms: self.loaded_at_unix_ms,
        }
    }
}

/// Which resolution chain a host was loaded through.
#[derive(Debug)]
pub enum Chain {
    /// The node-wide chain.
    Node,
    /// The chain of one rule, with its own certificate directory, if any.
    Rule { cert_dir: Option<String> },
}

/// The model of a [`Chain`].
pub enum ChainView {
    Node,
    Rule { cert_dir: Option<Seq<char>> },
}

impl View for Chain {
    type V = ChainView;

    open spec fn view(&self) -> ChainView {
        match self {
            Chain::Node => ChainView::Node,
            Chain::Rule { cert_dir } => ChainView::Rule { cert_dir: opt_view(*cert_dir) },
        }
    }
}

/// Everything that is needed to load one host's certificate again.
#[derive(Debug)]
pub struct ReloadSpec {
    pub rule_name: String,
    pub route: HttpRoute,
    pub chain: Chain,
    pub server_cert_dir: String,
    pub server_default: Option<(String, String)>,
}

/// The model of a [`ReloadSpec`].
pub struct SpecView {
    pub rule_name: Seq<char>,
    pub route: RouteView,
    pub chain: ChainView,
    pub server_cert_dir: Seq<char>,
    pub server_default: Option<(Seq<char>, Seq<char>)>,
}

/// View of an optional pair of paths.
pub open spec fn pair_view(p: Option<(String, String)>) -> Option<(Seq<char>, Seq<char>)> {
    match p {
        Some(q) => Some((q.0@, q.1@)),
        None => None,
    }
}

impl View for ReloadSpec {
    type V = SpecView;

    open spec fn view(&self) -> SpecView {
        SpecView {
            rule_name: self.rule_name@,
            route: self.route@,
            chain: self.chain@,
            server_cert_dir: self.server_cert_dir@,
            server_default: pair_view(self.server_default),
        }
    }
}

/// A copy of an optional text.
pub fn clone_opt(s: &Option<String>) -> (r: Option<String>)
    ensures
        r == *s,
{
    match s {
        Some(t) => Some(t.clone()),
        None => None,
    }
}

/// A copy of an optional pair of texts.
pub fn clone_pair(s: &Option<(String, String)>) -> (r: Option<(String, String)>)
    ensures
        r == *s,
{
    match s {
        Some((a, b)) => Some((a.clone(), b.clone())),
        None => None,
    }
}

impl Clone for ReloadSpec {
    fn clone(&self) -> (r: Self)
        ensures
            r@ == self@,
    {
        let chain = match &self.chain {
            Chain::Node => Chain::Node,
            Chain::Rule { cert_dir } => Chain::Rule { cert_dir: clone_opt(cert_dir) },
        };
        ReloadSpec {
            rule_name: self.rule_name.clone(),
            route: self.route.clone(),
            chain,
            server_cert_dir: self.server_cert_dir.clone(),
            server_default: clone_pair(&self.server_default),
        }
    }
}

/// Law: a certificate that was read from files is watched through both of them;
/// one that is only in memory, or whose files are still to come, through none.
pub proof fn law_files_are_watched(cert: Seq<char>, key: Seq<char>)
    ensures
        origin_paths(OriginView::Path { cert, key }) == seq![cert, key],
        origin_paths(OriginView::Convention { cert, key }) == seq![cert, key],
        origin_paths(OriginView::Default { cert, key }) == seq![cert, key],
        origin_paths(OriginView::Acme { cert, key }) == seq![cert, key],
        origin_paths(OriginView::AcmePending { cert, key }).len() == 0,
        origin_paths(OriginView::Ephemeral).len() == 0,
{
}

/// Law: the label of an origin names its kind and its certificate file, never
/// its key file.
pub proof fn law_label_names_the_certificate(cert: Seq<char>, key: Seq<char>)
    ensures
        origin_label(OriginView::Path { cert, key }) == "path:"@ + cert,
        origin_label(OriginView::Convention { cert, key }) == "convention:"@ + cert,
        origin_label(OriginView::Default { cert, key }) == "default:"@ + cert,
        origin_label(OriginView::Acme { cert, key }) == "acme:"@ + cert,
        origin_label(OriginView::AcmePending { cert, key }) == "acme-pending:"@ + cert,
        origin_label(OriginView::Ephemeral) == "ephemeral"@,
{
}

/// Law: the message of an error opens with the rule and the route that it is
/// about, and holds the file and the cause.
pub proof fn law_message_names_rule_route_and_cause(
    rule: Seq<char>,
    route: Seq<char>,
    path: Seq<char>,
    cause: Seq<char>,
)
    ensures
        ({
            let open = "rule "@ + debug_text(rule) + ": route "@ + debug_text(route) + ": "@;
            &&& cert_error_text(CertErrorView::CertRead { rule, route, path, source: cause })
                == open + "cert file "@ + path + ": "@ + cause
            &&& cert_error_text(CertErrorView::KeyRead { rule, route, path, source: cause })
                == open + "key file "@ + path + ": "@ + cause
            &&& cert_error_text(CertErrorView::CertEmpty { rule, route, path }) == open + "cert "@
                + path_debug_text(path) + " has no parseable certificates"@
            &&& cert_error_text(CertErrorView::KeyEmpty { rule, route, path }) == open + "key "@
                + path_debug_text(path) + " has no parseable private key"@
            &&& cert_error_text(CertErrorView::SigningKey { rule, route, detail: cause }) == open
                + "failed to load signing key: "@ + cause
            &&& cert_error_text(CertErrorView::Ephemeral { rule, route, detail: cause }) == open
                + "failed to generate ephemeral cert: "@ + cause
        }),
{
}

} // verus!
