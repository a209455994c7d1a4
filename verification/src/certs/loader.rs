//! Certificate resolution.
//!
//! The node-wide chain has three rungs: the convention directory
//! (`<cert_dir>/<host>/{fullchain,privkey}.pem`), the server-wide default
//! certificate where its names cover the host, and no certificate at all. The
//! chain of a single HTTPS rule has five: an explicit path, an ephemeral
//! certificate, the convention directory, the server-wide default, and an
//! error.

use rcgen::{
    date_time_ymd, CertificateParams, DistinguishedName, DnType, ExtendedKeyUsagePurpose,
    Ia5String, KeyPair, KeyUsagePurpose, SanType,
};
use vstd::prelude::*;
use vstd::string::*;

use crate::addr::{IpAddr, Ipv4Addr, Ipv6Addr};
use crate::certs::files::{file_read, has_file, FileModel, FileSet};
use crate::certs::origin::{
    pair_view, CertEntry, CertEntryView, CertError, CertErrorView, CertOrigin, CertifiedKey,
    KeyFormat, KeyView, OriginView,
};
use crate::certs::pem::{
    check_signing_key, leaf_dns_names, leaf_names, pair_or_error, parse_pem_pair, pem_chain,
    pem_key, signing_error,
};
use crate::path::{join_path, path_join};
use crate::rule::{CertSource, CertSourceView, HttpRoute, RouteView};
use crate::text::{
    ascii, chars_of, cut, find, find_char, join2, lemma_find, lemma_find_unique, lower, opt_view,
    same, string_of, texts, to_lower,
};

verus! {

broadcast use vstd::string::group_string_axioms;

/// Unix time in milliseconds, by `SystemTime::now`; none before 1970. Nothing
/// is promised of the count: it is whatever the clock says.
#[verifier::external_body]
fn clock_unix_ms() -> Option<u64> {
    let since = std::time::SystemTime::now().duration_since(std::time::UNIX_EPOCH);
    since.ok().map(|d| d.as_millis() as u64)
}

/// The stamp for a reading of the clock: zero before 1970.
pub fn stamp_of(reading: Option<u64>) -> (r: u64)
    ensures
        r == (match reading {
            Some(ms) => ms,
            None => 0,
        }),
{
    match reading {
        Some(ms) => ms,
        None => 0,
    }
}

/// The stamp for the current time. Nothing is promised of it: it is whatever
/// the clock says.
pub(crate) fn now_unix_ms() -> u64 {
    stamp_of(clock_unix_ms())
}

/// What a route does not carry itself of the node-wide chain.
#[derive(Debug)]
pub struct CertContext {
    pub rule_name: String,
    pub server_cert_dir: String,
    /// Server-wide default certificate and key.
    pub server_default: Option<(String, String)>,
    /// Lowercase DNS names of the default certificate. Without them the
    /// default certificate is passed over.
    pub server_default_sans: Option<Vec<String>>,
}

/// A name of a certificate covers a host: it is the host, or it is a wildcard
/// for the host's parent. The wildcard is the whole leftmost label and stands
/// for exactly one label.
pub open spec fn san_matches(san: Seq<char>, host: Seq<char>) -> bool {
    san == host || {
        let dot = find(host, '.');
        san.len() >= 2 && san[0] == '*' && san[1] == '.' && !san.subrange(
            2,
            san.len() as int,
        ).contains('*') && 0 < dot < host.len() && host.subrange(dot + 1, host.len() as int)
            == san.subrange(2, san.len() as int)
    }
}

/// Law: a wildcard covers exactly the hosts that put one non-empty label before
/// its parent; neither the parent itself nor a host two labels below it.
pub proof fn law_wildcard_covers_one_label(parent: Seq<char>, label: Seq<char>)
    requires
        !parent.contains('*'),
        label.len() > 0,
    ensures
        !label.contains('.') ==> san_matches("*."@ + parent, label + "."@ + parent),
        !san_matches("*."@ + parent, parent),
        label.contains('.') ==> !san_matches("*."@ + parent, label + "."@ + parent),
{
    reveal_strlit("*.");
    reveal_strlit(".");
    let san = "*."@ + parent;
    let host = label + "."@ + parent;
    assert(san.subrange(2, san.len() as int) =~= parent);
    assert(san.len() == parent.len() + 2);
    lemma_find(label, '.');
    lemma_find(host, '.');
    lemma_find(parent, '.');
    assert(host[label.len() as int] == '.');
    if !label.contains('.') {
        assert forall|j: int| 0 <= j < label.len() implies host[j] != '.' by {
            assert(host[j] == label[j]);
        }
        lemma_find_unique(host, '.', label.len() as int);
        assert(host.subrange(label.len() as int + 1, host.len() as int) =~= parent);
    } else {
        let d = find(label, '.');
        assert forall|j: int| 0 <= j < d implies host[j] != '.' by {
            assert(host[j] == label[j]);
        }
        assert(host[d] == label[d]);
        lemma_find_unique(host, '.', d);
        assert(host.subrange(d + 1, host.len() as int).len() > parent.len());
        assert(host.len() == label.len() + 1 + parent.len());
        if san == host {
            assert(label.len() == 1 && label[0] == '.');
            assert(host[0] == label[0] && san[0] == '*');
        }
    }
    if san_matches(san, parent) {
        assert(san != parent);
        assert(parent.subrange(find(parent, '.') + 1, parent.len() as int).len() < parent.len());
    }
}

/// Whether a name of a certificate covers a host, both in lowercase.
pub fn san_covers(san: &str, host: &str) -> (r: bool)
    ensures
        r == san_matches(san@, host@),
{
    if same(san, host) {
        return true;
    }
    let s = chars_of(san);
    let h = chars_of(host);
    if s.len() < 2 || s[0] != '*' || s[1] != '.' {
        return false;
    }
    let rest = cut(s.as_slice(), 2, s.len());
    let star: usize = find_char(rest.as_slice(), '*');
    proof {
        lemma_find(rest@, '*');
        lemma_find(h@, '.');
    }
    if star < rest.len() {
        return false;
    }
    let dot: usize = find_char(h.as_slice(), '.');
    if dot == 0 || dot >= h.len() {
        return false;
    }
    let tail = cut(h.as_slice(), dot + 1, h.len());
    let a = string_of(tail.as_slice());
    let b = string_of(rest.as_slice());
    same(a.as_str(), b.as_str())
}

/// Some name covers the host. The case of both is ignored.
pub open spec fn any_san_matches(sans: Seq<Seq<char>>, host: Seq<char>) -> bool {
    exists|i: int| 0 <= i < sans.len() && san_matches(lower(#[trigger] sans[i]), lower(host))
}

/// Whether some name of a certificate covers a host.
pub fn any_san_covers(sans: &[String], hostname: &str) -> (r: bool)
    ensures
        r == any_san_matches(texts(sans@), hostname@),
{
    let host = to_lower(hostname);
    for i in 0..sans.len()
        invariant
            host@ == lower(hostname@),
            forall|j: int| 0 <= j < i ==> !san_matches(lower(#[trigger] texts(sans@)[j]), host@),
    {
        let san = to_lower(sans[i].as_str());
        if san_covers(san.as_str(), host.as_str()) {
            assert(san_matches(lower(texts(sans@)[i as int]), lower(hostname@)));
            return true;
        }
    }
    false
}

/// The certificate file of a host in the convention directory.
pub open spec fn conv_cert(dir: Seq<char>, host: Seq<char>) -> Seq<char> {
    path_join(path_join(dir, host), "fullchain.pem"@)
}

/// The key file of a host in the convention directory.
pub open spec fn conv_key(dir: Seq<char>, host: Seq<char>) -> Seq<char> {
    path_join(path_join(dir, host), "privkey.pem"@)
}

/// The two files of a host in the convention directory.
fn convention_paths(dir: &str, host: &str) -> (r: (String, String))
    ensures
        r.0@ == conv_cert(dir@, host@),
        r.1@ == conv_key(dir@, host@),
{
    let base = join_path(dir, host);
    (join_path(base.as_str(), "fullchain.pem"), join_path(base.as_str(), "privkey.pem"))
}

/// The chain and key of a pair of PEM files, or the first thing wrong.
pub open spec fn loaded_pair(
    rule: Seq<char>,
    route: Seq<char>,
    cert_path: Seq<char>,
    key_path: Seq<char>,
    files: FileModel,
) -> Result<KeyView, CertErrorView> {
    match file_read(files, cert_path) {
        Err(source) => Err(CertErrorView::CertRead { rule, route, path: cert_path, source }),
        Ok(cert_pem) => match file_read(files, key_path) {
            Err(source) => Err(CertErrorView::KeyRead { rule, route, path: key_path, source }),
            Ok(key_pem) => pair_or_error(rule, route, cert_path, cert_pem, key_path, key_pem),
        },
    }
}

/// Loads and checks a pair of PEM files.
fn load_pem_pair(rule: &str, route: &str, cert_path: &str, key_path: &str, files: &FileSet) -> (r:
    Result<CertifiedKey, CertError>)
    requires
        files.wf(),
    ensures
        match loaded_pair(rule@, route@, cert_path@, key_path@, files@) {
            Ok(k) => r is Ok && r->Ok_0@ == k,
            Err(e) => r is Err && r->Err_0@ == e,
        },
{
    let cert_pem = match files.read(cert_path) {
        Ok(b) => b,
        Err(source) => {
            return Err(
                CertError::CertRead {
                    rule: rule.to_owned(),
                    route: route.to_owned(),
                    path: cert_path.to_owned(),
                    source,
                },
            );
        },
    };
    let key_pem = match files.read(key_path) {
        Ok(b) => b,
        Err(source) => {
            return Err(
                CertError::KeyRead {
                    rule: rule.to_owned(),
                    route: route.to_owned(),
                    path: key_path.to_owned(),
                    source,
                },
            );
        },
    };
    parse_pem_pair(rule, route, cert_path, cert_pem.as_slice(), key_path, key_pem.as_slice())
}

/// An entry with the given key, or the error in its place.
pub open spec fn entry_with(
    key: Result<KeyView, CertErrorView>,
    origin: OriginView,
    now: u64,
) -> Result<CertEntryView, CertErrorView> {
    match key {
        Ok(key) => Ok(CertEntryView { key, origin, loaded_at_unix_ms: now }),
        Err(e) => Err(e),
    }
}

/// The model of a [`CertContext`].
pub struct ContextView {
    pub rule_name: Seq<char>,
    pub server_cert_dir: Seq<char>,
    pub server_default: Option<(Seq<char>, Seq<char>)>,
    pub server_default_sans: Option<Seq<Seq<char>>>,
}

impl View for CertContext {
    type V = ContextView;

    open spec fn view(&self) -> ContextView {
        ContextView {
            rule_name: self.rule_name@,
            server_cert_dir: self.server_cert_dir@,
            server_default: pair_view(self.server_default),
            server_default_sans: match self.server_default_sans {
                Some(v) => Some(texts(v@)),
                None => None,
            },
        }
    }
}

/// The default certificate covers the host.
pub open spec fn default_covers(ctx: ContextView, host: Seq<char>) -> bool {
    ctx.server_default is Some && ctx.server_default_sans is Some && any_san_matches(
        ctx.server_default_sans->0,
        host,
    )
}

/// What the node-wide chain gives for a host: an entry, none for a host
/// without certificate, or an error.
pub open spec fn node_cert(host: Seq<char>, ctx: ContextView, files: FileModel, now: u64) -> Result<
    Option<CertEntryView>,
    CertErrorView,
> {
    let cc = conv_cert(ctx.server_cert_dir, host);
    let ck = conv_key(ctx.server_cert_dir, host);
    let found = if has_file(files, cc) && has_file(files, ck) {
        Some(
            entry_with(
                loaded_pair(ctx.rule_name, host, cc, ck, files),
                OriginView::Convention { cert: cc, key: ck },
                now,
            ),
        )
    } else if default_covers(ctx, host) {
        let (dc, dk) = ctx.server_default->0;
        Some(
            entry_with(
                loaded_pair(ctx.rule_name, host, dc, dk, files),
                OriginView::Default { cert: dc, key: dk },
                now,
            ),
        )
    } else {
        None
    };
    match found {
        None => Ok(None),
        Some(Ok(e)) => Ok(Some(e)),
        Some(Err(e)) => Err(e),
    }
}

/// Whether a load through the node-wide chain gave what it should.
pub open spec fn node_load_is(
    r: Result<Option<CertEntry>, CertError>,
    host: Seq<char>,
    ctx: ContextView,
    files: FileModel,
    now: u64,
) -> bool {
    match node_cert(host, ctx, files, now) {
        Ok(Some(e)) => r is Ok && r->Ok_0 is Some && r->Ok_0->0@ == e,
        Ok(None) => r is Ok && r->Ok_0 is None,
        Err(e) => r is Err && r->Err_0@ == e,
    }
}

/// Resolves a route's certificate through the node-wide chain, and stamps it
/// with the clock.
pub fn load_route_cert(route: &HttpRoute, ctx: &CertContext, files: &FileSet) -> (r: Result<
    Option<CertEntry>,
    CertError,
>)
    requires
        files.wf(),
    ensures
        exists|now: u64| node_load_is(r, route.hostname@, ctx@, files@, now),
{
    let now: u64 = now_unix_ms();
    load_route_cert_at(route, ctx, files, now)
}

/// Resolves a route's certificate through the node-wide chain at a given time.
pub fn load_route_cert_at(route: &HttpRoute, ctx: &CertContext, files: &FileSet, now: u64) -> (r:
    Result<Option<CertEntry>, CertError>)
    requires
        files.wf(),
    ensures
        node_load_is(r, route.hostname@, ctx@, files@, now),
{
    let host = route.hostname.as_str();
    let rule = ctx.rule_name.as_str();
    let (cc, ck) = convention_paths(ctx.server_cert_dir.as_str(), host);
    if files.is_file(cc.as_str()) && files.is_file(ck.as_str()) {
        return match load_pem_pair(rule, host, cc.as_str(), ck.as_str(), files) {
            Ok(key) => Ok(
                Some(
                    CertEntry {
                        key,
                        origin: CertOrigin::Convention { cert: cc, key: ck },
                        loaded_at_unix_ms: now,
                    },
                ),
            ),
            Err(e) => Err(e),
        };
    }
    if let Some((dc, dk)) = &ctx.server_default {
        let covers = match &ctx.server_default_sans {
            Some(sans) => any_san_covers(sans.as_slice(), host),
            None => false,
        };
        if covers {
            return match load_pem_pair(rule, host, dc.as_str(), dk.as_str(), files) {
                Ok(key) => Ok(
                    Some(
                        CertEntry {
                            key,
                            origin: CertOrigin::Default { cert: dc.clone(), key: dk.clone() },
                            loaded_at_unix_ms: now,
                        },
                    ),
                ),
                Err(e) => Err(e),
            };
        }
    }
    Ok(None)
}

/// The names of the default certificate, or the first thing wrong with it.
pub open spec fn default_names(path: Seq<char>, files: FileModel) -> Result<
    Seq<Seq<char>>,
    CertErrorView,
> {
    match file_read(files, path) {
        Err(source) => Err(
            CertErrorView::CertRead { rule: "<default>"@, route: "<default>"@, path, source },
        ),
        Ok(pem) => leaf_names(path, pem),
    }
}

/// The lowercase DNS names of the certificate at a path. A certificate that
/// cannot be read or parsed is an error, not one without names.
pub fn read_default_cert_sans(cert_path: &str, files: &FileSet) -> (r: Result<
    Vec<String>,
    CertError,
>)
    requires
        files.wf(),
    ensures
        match default_names(cert_path@, files@) {
            Ok(n) => r is Ok && texts(r->Ok_0@) == n,
            Err(e) => r is Err && r->Err_0@ == e,
        },
{
    match files.read(cert_path) {
        Err(source) => Err(
            CertError::CertRead {
                rule: "<default>".to_owned(),
                route: "<default>".to_owned(),
                path: cert_path.to_owned(),
                source,
            },
        ),
        Ok(pem) => leaf_dns_names(cert_path, pem.as_slice()),
    }
}

/// A use that a certificate's key is meant for.
#[derive(Clone, Copy, Debug, PartialEq, Eq, Structural)]
pub enum KeyUse {
    DigitalSignature,
    KeyEncipherment,
}

/// A purpose that a certificate's key is meant for.
#[derive(Clone, Copy, Debug, PartialEq, Eq, Structural)]
pub enum KeyPurpose {
    ServerAuth,
}

/// What a self-signed server certificate is made of.
#[derive(Debug)]
pub struct LeafSpec {
    pub common_name: String,
    pub dns: String,
    /// Addresses that the leaf names besides its host.
    pub ips: Vec<IpAddr>,
    /// First and last day of validity, as year, month and day.
    pub not_before: (i32, u8, u8),
    pub not_after: (i32, u8, u8),
    pub uses: Vec<KeyUse>,
    pub purposes: Vec<KeyPurpose>,
}

/// The model of a [`LeafSpec`].
pub struct LeafView {
    pub common_name: Seq<char>,
    pub dns: Seq<char>,
    pub ips: Seq<IpAddr>,
    pub not_before: (i32, u8, u8),
    pub not_after: (i32, u8, u8),
    pub uses: Seq<KeyUse>,
    pub purposes: Seq<KeyPurpose>,
}

impl View for LeafSpec {
    type V = LeafView;

    open spec fn view(&self) -> LeafView {
        LeafView {
            common_name: self.common_name@,
            dns: self.dns@,
            ips: self.ips@,
            not_before: self.not_before,
            not_after: self.not_after,
            uses: self.uses@,
            purposes: self.purposes@,
        }
    }
}

/// A day that every month has.
pub open spec fn plain_day(d: (i32, u8, u8)) -> bool {
    1900 <= d.0 <= 9999 && 1 <= d.1 <= 12 && 1 <= d.2 <= 28
}

/// The addresses that an ephemeral certificate names besides its host: the
/// loopback ones for `localhost`, in any case, none otherwise.
pub open spec fn ephemeral_ips(host: Seq<char>) -> Seq<IpAddr> {
    if lower(host) == "localhost"@ {
        seq![
            IpAddr::V4(Ipv4Addr { a: 127, b: 0, c: 0, d: 1 }),
            IpAddr::V6(
                Ipv6Addr { s0: 0, s1: 0, s2: 0, s3: 0, s4: 0, s5: 0, s6: 0, s7: 1 },
            ),
        ]
    } else {
        Seq::empty()
    }
}

/// What the ephemeral certificate of a host is made of: the host, loopback
/// addresses for `localhost`, a validity that outlasts any process, and server
/// authentication as the one purpose.
pub open spec fn ephemeral_model(host: Seq<char>) -> LeafView {
    LeafView {
        common_name: host,
        dns: host,
        ips: ephemeral_ips(host),
        not_before: (2024i32, 1u8, 1u8),
        not_after: (2099i32, 1u8, 1u8),
        uses: seq![KeyUse::DigitalSignature, KeyUse::KeyEncipherment],
        purposes: seq![KeyPurpose::ServerAuth],
    }
}

/// Computes [`ephemeral_model`].
pub fn ephemeral_leaf(hostname: &str) -> (r: LeafSpec)
    ensures
        r@ == ephemeral_model(hostname@),
{
    let mut ips: Vec<IpAddr> = Vec::new();
    let l = to_lower(hostname);
    if same(l.as_str(), "localhost") {
        ips.push(IpAddr::V4(Ipv4Addr::new(127, 0, 0, 1)));
        ips.push(IpAddr::V6(Ipv6Addr::new(0, 0, 0, 0, 0, 0, 0, 1)));
    }
    assert(ips@ =~= ephemeral_ips(hostname@));
    let uses: Vec<KeyUse> = vec![KeyUse::DigitalSignature, KeyUse::KeyEncipherment];
    assert(uses@ =~= seq![KeyUse::DigitalSignature, KeyUse::KeyEncipherment]);
    let purposes: Vec<KeyPurpose> = vec![KeyPurpose::ServerAuth];
    assert(purposes@ =~= seq![KeyPurpose::ServerAuth]);
    LeafSpec {
        common_name: hostname.to_owned(),
        dns: hostname.to_owned(),
        ips,
        not_before: (2024, 1, 1),
        not_after: (2099, 1, 1),
        uses,
        purposes,
    }
}

/// The parameters of a certificate of `rcgen`.
#[verifier::external_type_specification]
#[verifier::external_body]
pub struct ExCertificateParams(CertificateParams);

/// What parameters of `rcgen` say of a server certificate.
pub uninterp spec fn params_leaf(p: CertificateParams) -> LeafView;

/// The message with which `rcgen` refuses a host that is not ASCII.
pub open spec fn not_ia5(host: Seq<char>) -> Seq<char> {
    "Invalid IA5String: '"@ + host + "'"@
}

/// `rcgen::CertificateParams` with a common name, and a host and addresses as
/// alternative names; all else is as `rcgen` has it. Only a host that is not
/// ASCII is refused, by `rcgen::Ia5String::try_from`, whose message quotes the
/// host.
#[verifier::external_body]
fn named_params(dns: &str, ips: &Vec<IpAddr>, common_name: &str) -> (r: Result<
    CertificateParams,
    String,
>)
    ensures
        r is Ok <==> ascii(dns@),
        r is Ok ==> params_leaf(r->Ok_0).dns == dns@,
        r is Ok ==> params_leaf(r->Ok_0).ips == ips@,
        r is Ok ==> params_leaf(r->Ok_0).common_name == common_name@,
        r is Err ==> r->Err_0@ == not_ia5(dns@),
{
    let name = Ia5String::try_from(dns).map_err(|e| e.to_string())?;
    let mut out = CertificateParams::default();
    out.subject_alt_names = vec![SanType::DnsName(name)];
    out.subject_alt_names.extend(ips.iter().map(|ip| SanType::IpAddress(match ip {
        IpAddr::V4(v) => [v.a, v.b, v.c, v.d].into(),
        IpAddr::V6(v) => [v.s0, v.s1, v.s2, v.s3, v.s4, v.s5, v.s6, v.s7].into(),
    })));
    out.distinguished_name = DistinguishedName::new();
    out.distinguished_name.push(DnType::CommonName, common_name);
    Ok(out)
}

/// Sets the validity, the key uses and the extended key uses of
/// `rcgen::CertificateParams`.
#[verifier::external_body]
fn server_params(
    params: CertificateParams,
    from: (i32, u8, u8),
    to: (i32, u8, u8),
    uses: &Vec<KeyUse>,
    purposes: &Vec<KeyPurpose>,
) -> (r: CertificateParams)
    requires
        plain_day(from),
        plain_day(to),
    ensures
        params_leaf(r) == (LeafView {
            not_before: from,
            not_after: to,
            uses: uses@,
            purposes: purposes@,
            ..params_leaf(params)
        }),
{
    let mut out = params;
    out.not_before = date_time_ymd(from.0, from.1, from.2);
    out.not_after = date_time_ymd(to.0, to.1, to.2);
    out.key_usages = uses.iter().map(|u| match u {
        KeyUse::DigitalSignature => KeyUsagePurpose::DigitalSignature,
        KeyUse::KeyEncipherment => KeyUsagePurpose::KeyEncipherment,
    }).collect();
    out.extended_key_usages = purposes.iter().map(|p| match p {
        KeyPurpose::ServerAuth => ExtendedKeyUsagePurpose::ServerAuth,
    }).collect();
    out
}

/// The parameters of a leaf; or the message of the error with which a host
/// that is not ASCII is refused.
fn leaf_params(p: &LeafSpec) -> (r: Result<CertificateParams, String>)
    requires
        plain_day(p.not_before),
        plain_day(p.not_after),
    ensures
        r is Ok <==> ascii(p.dns@),
        r is Ok ==> params_leaf(r->Ok_0) == p@,
        r is Err ==> r->Err_0@ == not_ia5(p.dns@),
{
    match named_params(p.dns.as_str(), &p.ips, p.common_name.as_str()) {
        Ok(params) => Ok(
            server_params(params, p.not_before, p.not_after, &p.uses, &p.purposes),
        ),
        Err(e) => Err(e),
    }
}

/// A certificate and its private key, both as DER, or the message of the error
/// that there is in their place.
pub type MadeLeaf = Result<(Seq<u8>, Seq<u8>), Seq<char>>;

/// The model of what became of signing a leaf.
pub open spec fn made_view(r: Result<(Vec<u8>, Vec<u8>), String>) -> MadeLeaf {
    match r {
        Ok((cert, key)) => Ok((cert@, key@)),
        Err(e) => Err(e@),
    }
}

/// What became of signing a leaf is such as `rcgen` gives for it: a certificate
/// signed with a key that comes out of its generator, or its error.
pub uninterp spec fn leaf_made(leaf: LeafView, made: MadeLeaf) -> bool;

/// `rcgen::KeyPair::generate` and `CertificateParams::self_signed`: the
/// certificate and its key, both as DER. The key is random: of the bytes, and
/// of whether there are any, nothing more is stated than what they were made
/// for.
#[verifier::external_body]
fn self_sign(params: CertificateParams) -> (r: Result<(Vec<u8>, Vec<u8>), String>)
    ensures
        leaf_made(params_leaf(params), made_view(r)),
{
    let key = KeyPair::generate().map_err(|e| e.to_string())?;
    let cert = params.self_signed(&key).map_err(|e| e.to_string())?;
    Ok((cert.der().to_vec(), key.serialize_der()))
}

/// The model of a pair, or of the message of an error.
pub open spec fn certified_view(r: Result<CertifiedKey, String>) -> Result<KeyView, Seq<char>> {
    match r {
        Ok(k) => Ok(k@),
        Err(e) => Err(e@),
    }
}

/// The pair that follows from what became of signing a leaf: an error stays
/// one, and a key that cannot sign is one.
pub open spec fn ephemeral_outcome(made: MadeLeaf) -> Result<KeyView, Seq<char>> {
    match made {
        Err(e) => Err(e),
        Ok((cert, key)) => match signing_error(KeyFormat::Pkcs8, key) {
            Some((_, shown)) => Err("PEM error: rustls signing-key load: "@ + shown),
            None => Ok(KeyView { chain: seq![cert], format: KeyFormat::Pkcs8, key }),
        },
    }
}

/// The pair that an ephemeral certificate is made of, checked for signing.
pub fn ephemeral_key(made: Result<(Vec<u8>, Vec<u8>), String>) -> (r: Result<CertifiedKey, String>)
    ensures
        certified_view(r) == ephemeral_outcome(made_view(made)),
{
    match made {
        Err(e) => Err(e),
        Ok((cert, key)) => match check_signing_key(KeyFormat::Pkcs8, key.as_slice()) {
            Some((_, shown)) => Err(
                join2("PEM error: rustls signing-key load: ", shown.as_str()),
            ),
            None => {
                let ghost c = cert@;
                let chain: Vec<Vec<u8>> = vec![cert];
                assert(crate::headers::bytes_views(chain@) =~= seq![c]);
                Ok(CertifiedKey { chain, format: KeyFormat::Pkcs8, key })
            },
        },
    }
}

/// A pair is an ephemeral one for a host: one certificate, made for the host
/// with a key that can sign.
pub open spec fn ephemeral_pair(host: Seq<char>, k: KeyView) -> bool {
    &&& k.chain.len() == 1
    &&& k.format == KeyFormat::Pkcs8
    &&& leaf_made(ephemeral_model(host), Ok((k.chain[0], k.key)))
    &&& signing_error(k.format, k.key) is None
}

/// `detail` is why no ephemeral certificate came out for a host: the host is
/// not ASCII, or the leaf of that host was signed to no avail.
pub open spec fn ephemeral_refused(host: Seq<char>, detail: Seq<char>) -> bool {
    if ascii(host) {
        exists|made: MadeLeaf| #[trigger]
            leaf_made(ephemeral_model(host), made) && ephemeral_outcome(made) == Err::<
                KeyView,
                Seq<char>,
            >(detail)
    } else {
        detail == not_ia5(host)
    }
}

/// Makes an ephemeral self-signed certificate for a host. It lives in memory
/// only. The chain is that one certificate, and its key can sign. A host that
/// is not ASCII is refused. For any other host the result is what follows from
/// signing the leaf of that host: there is no other error than those of the
/// signing and of the key. Whether the signing succeeds is not stated: its key
/// is random.
pub fn generate_ephemeral(hostname: &str) -> (r: Result<CertifiedKey, String>)
    ensures
        !ascii(hostname@) ==> certified_view(r) == Err::<KeyView, Seq<char>>(not_ia5(hostname@)),
        ascii(hostname@) ==> exists|made: MadeLeaf| #[trigger]
            leaf_made(ephemeral_model(hostname@), made) && certified_view(r) == ephemeral_outcome(
                made,
            ),
        r is Ok ==> ephemeral_pair(hostname@, r->Ok_0@),
{
    let leaf = ephemeral_leaf(hostname);
    match leaf_params(&leaf) {
        Err(e) => Err(e),
        Ok(params) => ephemeral_key(self_sign(params)),
    }
}

/// Where the certificate of a route of a single rule comes from.
#[derive(Debug)]
pub enum RuleSource {
    Path { cert: String, key: String },
    Ephemeral,
    Convention { cert: String, key: String },
    Default { cert: String, key: String },
    Missing,
}

impl View for RuleSource {
    type V = Option<OriginView>;

    open spec fn view(&self) -> Option<OriginView> {
        match self {
            RuleSource::Path { cert, key } => Some(OriginView::Path { cert: cert@, key: key@ }),
            RuleSource::Ephemeral => Some(OriginView::Ephemeral),
            RuleSource::Convention { cert, key } => Some(
                OriginView::Convention { cert: cert@, key: key@ },
            ),
            RuleSource::Default { cert, key } => Some(
                OriginView::Default { cert: cert@, key: key@ },
            ),
            RuleSource::Missing => None,
        }
    }
}

/// What a route does not carry itself of a rule's chain.
#[derive(Debug)]
pub struct RuleContext {
    pub rule_name: String,
    /// The rule's own certificate directory; without it the server's is used.
    pub rule_cert_dir: Option<String>,
    pub server_cert_dir: String,
    pub server_default: Option<(String, String)>,
}

/// The certificate directory of a rule.
pub open spec fn effective_dir(rule_dir: Option<Seq<char>>, server_dir: Seq<char>) -> Seq<char> {
    match rule_dir {
        Some(d) => d,
        None => server_dir,
    }
}

/// An explicit certificate path comes with a key path.
pub open spec fn route_has_key(route: RouteView) -> bool {
    route.cert is Some && route.cert->0 is Path ==> route.key is Some
}

/// The first source of a rule's chain that applies to a route.
pub open spec fn rule_source_of(
    route: RouteView,
    rule_dir: Option<Seq<char>>,
    server_dir: Seq<char>,
    server_default: Option<(Seq<char>, Seq<char>)>,
    files: FileModel,
) -> Option<OriginView> {
    let dir = effective_dir(rule_dir, server_dir);
    let cc = conv_cert(dir, route.hostname);
    let ck = conv_key(dir, route.hostname);
    match route.cert {
        Some(CertSourceView::Path(p)) => Some(OriginView::Path { cert: p, key: route.key->0 }),
        Some(CertSourceView::Ephemeral) => Some(OriginView::Ephemeral),
        None => if has_file(files, cc) && has_file(files, ck) {
            Some(OriginView::Convention { cert: cc, key: ck })
        } else {
            match server_default {
                Some((c, k)) => Some(OriginView::Default { cert: c, key: k }),
                None => None,
            }
        },
    }
}

/// Finds the first source of a rule's chain that applies to a route.
pub fn rule_source(route: &HttpRoute, ctx: &RuleContext, files: &FileSet) -> (r: RuleSource)
    requires
        files.wf(),
        route_has_key(route@),
    ensures
        r@ == rule_source_of(
            route@,
            opt_view(ctx.rule_cert_dir),
            ctx.server_cert_dir@,
            pair_view(ctx.server_default),
            files@,
        ),
{
    match &route.cert {
        Some(CertSource::Path(cert)) => {
            return match &route.key {
                Some(key) => RuleSource::Path { cert: cert.clone(), key: key.clone() },
                None => RuleSource::Missing,
            };
        },
        Some(CertSource::Ephemeral) => {
            return RuleSource::Ephemeral;
        },
        None => {},
    }
    let dir = match &ctx.rule_cert_dir {
        Some(d) => d.as_str(),
        None => ctx.server_cert_dir.as_str(),
    };
    let (cc, ck) = convention_paths(dir, route.hostname.as_str());
    if files.is_file(cc.as_str()) && files.is_file(ck.as_str()) {
        return RuleSource::Convention { cert: cc, key: ck };
    }
    match &ctx.server_default {
        Some((c, k)) => RuleSource::Default { cert: c.clone(), key: k.clone() },
        None => RuleSource::Missing,
    }
}

/// What a rule's chain gives for a source other than an ephemeral one.
pub open spec fn rule_cert(
    source: Option<OriginView>,
    rule: Seq<char>,
    host: Seq<char>,
    files: FileModel,
    now: u64,
) -> Result<CertEntryView, CertErrorView> {
    match source {
        None => Err(CertErrorView::NoSource { rule, route: host }),
        Some(o) => match o {
            OriginView::Path { cert, key } | OriginView::Convention { cert, key }
            | OriginView::Default { cert, key } => entry_with(
                loaded_pair(rule, host, cert, key, files),
                o,
                now,
            ),
            _ => Err(CertErrorView::NoSource { rule, route: host }),
        },
    }
}

/// The entry of an ephemeral certificate, or the error.
pub fn ephemeral_entry(
    rule: &str,
    host: &str,
    made: Result<CertifiedKey, String>,
    now: u64,
) -> (r: Result<CertEntry, CertError>)
    ensures
        match made {
            Ok(key) => r is Ok && r->Ok_0@ == (CertEntryView {
                key: key@,
                origin: OriginView::Ephemeral,
                loaded_at_unix_ms: now,
            }),
            Err(detail) => r is Err && r->Err_0@ == (CertErrorView::Ephemeral {
                rule: rule@,
                route: host@,
                detail: detail@,
            }),
        },
{
    match made {
        Ok(key) => Ok(
            CertEntry { key, origin: CertOrigin::Ephemeral, loaded_at_unix_ms: now },
        ),
        Err(detail) => Err(
            CertError::Ephemeral { rule: rule.to_owned(), route: host.to_owned(), detail },
        ),
    }
}

/// Whether a load gave what it should: exactly the model for a source on disk
/// or none at all; for an ephemeral source the entry of a certificate made for
/// the host, or the error of a host for which none came out.
pub open spec fn rule_load_is(
    r: Result<CertEntry, CertError>,
    source: Option<OriginView>,
    rule: Seq<char>,
    host: Seq<char>,
    files: FileModel,
    now: u64,
) -> bool {
    if source is Some && source->0 is Ephemeral {
        match r {
            Ok(e) => ascii(host) && e@.origin is Ephemeral && e@.loaded_at_unix_ms == now
                && ephemeral_pair(host, e@.key),
            Err(e) => e@ is Ephemeral && e@->Ephemeral_rule == rule && e@->Ephemeral_route == host
                && ephemeral_refused(host, e@->Ephemeral_detail),
        }
    } else {
        match rule_cert(source, rule, host, files, now) {
            Ok(e) => r is Ok && r->Ok_0@ == e,
            Err(e) => r is Err && r->Err_0@ == e,
        }
    }
}

/// Resolves the certificate of a route of a single rule at a given time.
pub fn load_rule_route_cert_at(
    route: &HttpRoute,
    ctx: &RuleContext,
    files: &FileSet,
    now: u64,
) -> (r: Result<CertEntry, CertError>)
    requires
        files.wf(),
        route_has_key(route@),
    ensures
        rule_load_is(
            r,
            rule_source_of(
                route@,
                opt_view(ctx.rule_cert_dir),
                ctx.server_cert_dir@,
                pair_view(ctx.server_default),
                files@,
            ),
            ctx.rule_name@,
            route.hostname@,
            files@,
            now,
        ),
{
    let rule = ctx.rule_name.as_str();
    let host = route.hostname.as_str();
    match rule_source(route, ctx, files) {
        RuleSource::Ephemeral => ephemeral_entry(rule, host, generate_ephemeral(host), now),
        RuleSource::Missing => Err(
            CertError::NoSource { rule: rule.to_owned(), route: host.to_owned() },
        ),
        RuleSource::Path { cert, key } => {
            match load_pem_pair(rule, host, cert.as_str(), key.as_str(), files) {
                Ok(k) => Ok(
                    CertEntry {
                        key: k,
                        origin: CertOrigin::Path { cert, key },
                        loaded_at_unix_ms: now,
                    },
                ),
                Err(e) => Err(e),
            }
        },
        RuleSource::Convention { cert, key } => {
            match load_pem_pair(rule, host, cert.as_str(), key.as_str(), files) {
                Ok(k) => Ok(
                    CertEntry {
                        key: k,
                        origin: CertOrigin::Convention { cert, key },
                        loaded_at_unix_ms: now,
                    },
                ),
                Err(e) => Err(e),
            }
        },
        RuleSource::Default { cert, key } => {
            match load_pem_pair(rule, host, cert.as_str(), key.as_str(), files) {
                Ok(k) => Ok(
                    CertEntry {
                        key: k,
                        origin: CertOrigin::Default { cert, key },
                        loaded_at_unix_ms: now,
                    },
                ),
                Err(e) => Err(e),
            }
        },
    }
}

/// Law: a name that is not the host itself covers it only as a wildcard for
/// what is left of the host behind its first label.
pub proof fn law_only_the_host_or_its_wildcard_covers(san: Seq<char>, host: Seq<char>)
    requires
        san_matches(san, host),
        san != host,
    ensures
        exists|label: Seq<char>, parent: Seq<char>|
            label.len() > 0 && !label.contains('.') && !parent.contains('*') && san == "*."@
                + parent && host == #[trigger] (label + "."@ + parent),
{
    reveal_strlit("*.");
    reveal_strlit(".");
    lemma_find(host, '.');
    let dot = find(host, '.');
    let label = host.subrange(0, dot);
    let parent = san.subrange(2, san.len() as int);
    assert(san =~= "*."@ + parent);
    assert(host =~= (label + "."@) + parent) by {
        assert(host.subrange(dot + 1, host.len() as int) == parent);
        assert forall|i: int| dot < i < host.len() implies host[i] == parent[i - dot - 1] by {
            assert(host.subrange(dot + 1, host.len() as int)[i - dot - 1] == host[i]);
        }
    }
    if label.contains('.') {
        let k = choose|k: int| 0 <= k < label.len() && label[k] == '.';
        assert(host[k] == '.');
    }
}

/// Law: the names of a certificate are compared with a host without regard to
/// case, and any one of them is enough.
pub proof fn law_any_name_is_enough(sans: Seq<Seq<char>>, i: int, host: Seq<char>)
    requires
        0 <= i < sans.len(),
        lower(sans[i]) == lower(host),
    ensures
        any_san_matches(sans, host),
{
    assert(san_matches(lower(sans[i]), lower(host)));
}

/// Law: the certificate of a host lies in the directory that has the host's
/// name, as `fullchain.pem`, and its key beside it as `privkey.pem`.
pub proof fn law_convention_files(dir: Seq<char>, host: Seq<char>)
    requires
        dir.len() > 0,
        dir.last() != '/',
        host.len() > 0,
        host[0] != '/',
        host.last() != '/',
    ensures
        conv_cert(dir, host) == dir + "/"@ + host + "/fullchain.pem"@,
        conv_key(dir, host) == dir + "/"@ + host + "/privkey.pem"@,
{
    reveal_strlit("/");
    reveal_strlit("fullchain.pem");
    reveal_strlit("/fullchain.pem");
    reveal_strlit("privkey.pem");
    reveal_strlit("/privkey.pem");
    let base = path_join(dir, host);
    assert(base =~= dir + "/"@ + host);
    assert(base.last() == host.last());
    assert(conv_cert(dir, host) =~= dir + "/"@ + host + "/fullchain.pem"@);
    assert(conv_key(dir, host) =~= dir + "/"@ + host + "/privkey.pem"@);
}

/// Law: a pair of files is the certificate of the one and the key of the other.
/// One that cannot be read is an error that names it, the certificate first.
pub proof fn law_pair_is_read_from_its_files(
    rule: Seq<char>,
    route: Seq<char>,
    cert_path: Seq<char>,
    key_path: Seq<char>,
    files: FileModel,
)
    ensures
        ({
            let r = loaded_pair(rule, route, cert_path, key_path, files);
            let cert = files[cert_path].read;
            let key = files[key_path].read;
            files.contains_key(cert_path) && files.contains_key(key_path) ==> {
                &&& cert is Err ==> r == Err::<KeyView, CertErrorView>(
                    CertErrorView::CertRead { rule, route, path: cert_path, source: cert->Err_0 },
                )
                &&& cert is Ok && key is Err ==> r == Err::<KeyView, CertErrorView>(
                    CertErrorView::KeyRead { rule, route, path: key_path, source: key->Err_0 },
                )
                &&& cert is Ok && key is Ok ==> r == pair_or_error(
                    rule,
                    route,
                    cert_path,
                    cert->Ok_0,
                    key_path,
                    key->Ok_0,
                )
                &&& r is Ok ==> cert is Ok && key is Ok && pem_chain(cert->Ok_0) == Ok::<
                    Seq<Seq<u8>>,
                    Seq<char>,
                >(r->Ok_0.chain) && pem_key(key->Ok_0) == Ok::<
                    Option<(KeyFormat, Seq<u8>)>,
                    Seq<char>,
                >(Some((r->Ok_0.format, r->Ok_0.key)))
            }
        }),
{
}

/// Law: a host's own files in the convention directory come first. Without
/// both of them it is served with the default certificate where a name of that
/// covers it, and not at all otherwise. What is found is stamped with the time
/// of the load, and says where it came from.
pub proof fn law_own_files_come_before_the_default(
    host: Seq<char>,
    rule_name: Seq<char>,
    dir: Seq<char>,
    default: (Seq<char>, Seq<char>),
    names: Seq<Seq<char>>,
    files: FileModel,
    now: u64,
)
    ensures
        ({
            let ctx = ContextView {
                rule_name,
                server_cert_dir: dir,
                server_default: Some(default),
                server_default_sans: Some(names),
            };
            let cc = conv_cert(dir, host);
            let ck = conv_key(dir, host);
            let own = has_file(files, cc) && has_file(files, ck);
            let covered = any_san_matches(names, host);
            let r = node_cert(host, ctx, files, now);
            &&& r is Ok && r->Ok_0 is None <==> !own && !covered
            &&& own ==> {
                let p = loaded_pair(rule_name, host, cc, ck, files);
                &&& p is Ok ==> r is Ok && r->Ok_0->0 == (CertEntryView {
                    key: p->Ok_0,
                    origin: OriginView::Convention { cert: cc, key: ck },
                    loaded_at_unix_ms: now,
                })
                &&& p is Err ==> r is Err && r->Err_0 == p->Err_0
            }
            &&& !own && covered ==> {
                let p = loaded_pair(rule_name, host, default.0, default.1, files);
                &&& p is Ok ==> r is Ok && r->Ok_0->0 == (CertEntryView {
                    key: p->Ok_0,
                    origin: OriginView::Default { cert: default.0, key: default.1 },
                    loaded_at_unix_ms: now,
                })
                &&& p is Err ==> r is Err && r->Err_0 == p->Err_0
            }
            &&& !own ==> node_cert(
                host,
                ContextView { server_default: None, ..ctx },
                files,
                now,
            ) == Ok::<Option<CertEntryView>, CertErrorView>(None)
            &&& !own ==> node_cert(
                host,
                ContextView { server_default_sans: None, ..ctx },
                files,
                now,
            ) == Ok::<Option<CertEntryView>, CertErrorView>(None)
        }),
{
}

/// Law: in a rule's chain what the route says of its certificate comes first,
/// then the host's own files in the rule's directory, or else the server's,
/// then the default certificate, whatever its names are; without any of them
/// there is none.
pub proof fn law_rule_chain_order(
    host: Seq<char>,
    route: RouteView,
    rule_dir: Option<Seq<char>>,
    server_dir: Seq<char>,
    default: (Seq<char>, Seq<char>),
    path: Seq<char>,
    key: Seq<char>,
    files: FileModel,
)
    requires
        route.hostname == host,
    ensures
        ({
            let dir = if rule_dir is Some {
                rule_dir->0
            } else {
                server_dir
            };
            let cc = conv_cert(dir, host);
            let ck = conv_key(dir, host);
            let own = has_file(files, cc) && has_file(files, ck);
            &&& route.cert == Some(CertSourceView::Path(path)) && route.key == Some(key)
                ==> rule_source_of(route, rule_dir, server_dir, Some(default), files) == Some(
                OriginView::Path { cert: path, key },
            )
            &&& route.cert == Some(CertSourceView::Ephemeral) ==> rule_source_of(
                route,
                rule_dir,
                server_dir,
                Some(default),
                files,
            ) == Some(OriginView::Ephemeral)
            &&& route.cert is None && own ==> rule_source_of(
                route,
                rule_dir,
                server_dir,
                Some(default),
                files,
            ) == Some(OriginView::Convention { cert: cc, key: ck }) && rule_source_of(
                route,
                rule_dir,
                server_dir,
                None,
                files,
            ) == Some(OriginView::Convention { cert: cc, key: ck })
            &&& route.cert is None && !own ==> rule_source_of(
                route,
                rule_dir,
                server_dir,
                Some(default),
                files,
            ) == Some(OriginView::Default { cert: default.0, key: default.1 }) && rule_source_of(
                route,
                rule_dir,
                server_dir,
                None,
                files,
            ) is None
        }),
{
}

/// Law: what a rule's chain gives says where it came from and when, and holds
/// what those files hold; a route without a source is an error of that route.
pub proof fn law_rule_entry_is_read_from_its_source(
    rule: Seq<char>,
    host: Seq<char>,
    cert: Seq<char>,
    key: Seq<char>,
    files: FileModel,
    now: u64,
)
    ensures
        rule_cert(None, rule, host, files, now) == Err::<CertEntryView, CertErrorView>(
            CertErrorView::NoSource { rule, route: host },
        ),
        forall|o: OriginView|
            o == (OriginView::Path { cert, key }) || o == (OriginView::Convention { cert, key })
                || o == (OriginView::Default { cert, key }) ==> {
                let p = loaded_pair(rule, host, cert, key, files);
                let r = #[trigger] rule_cert(Some(o), rule, host, files, now);
                &&& p is Ok ==> r == Ok::<CertEntryView, CertErrorView>(
                    CertEntryView { key: p->Ok_0, origin: o, loaded_at_unix_ms: now },
                )
                &&& p is Err ==> r == Err::<CertEntryView, CertErrorView>(p->Err_0)
            },
{
}

/// Law: an ephemeral certificate is for its host, by that name and no other; it
/// names the two loopback addresses where the host is `localhost` in whatever
/// case, and no address otherwise.
pub proof fn law_ephemeral_leaf_is_for_its_host(host: Seq<char>)
    ensures
        ({
            let leaf = ephemeral_model(host);
            &&& leaf.common_name == host && leaf.dns == host
            &&& lower(host) == "localhost"@ ==> leaf.ips.len() == 2 && leaf.ips[0] == IpAddr::V4(
                Ipv4Addr { a: 127, b: 0, c: 0, d: 1 },
            ) && leaf.ips[1] == IpAddr::V6(
                Ipv6Addr { s0: 0, s1: 0, s2: 0, s3: 0, s4: 0, s5: 0, s6: 0, s7: 1 },
            )
            &&& lower(host) != "localhost"@ ==> leaf.ips.len() == 0
            &&& leaf.not_before == (2024i32, 1u8, 1u8) && leaf.not_after == (2099i32, 1u8, 1u8)
            &&& leaf.uses.contains(KeyUse::DigitalSignature) && leaf.uses.contains(
                KeyUse::KeyEncipherment,
            ) && leaf.uses.len() == 2
            &&& leaf.purposes.len() == 1 && leaf.purposes[0] == KeyPurpose::ServerAuth
        }),
{
    let leaf = ephemeral_model(host);
    assert(leaf.uses[0] == KeyUse::DigitalSignature);
    assert(leaf.uses[1] == KeyUse::KeyEncipherment);
}

/// Law: a leaf that was signed is served alone, with its own key; it is refused
/// only where that key cannot sign.
pub proof fn law_signed_leaf_is_served(cert: Seq<u8>, key: Seq<u8>, error: Seq<char>)
    ensures
        signing_error(KeyFormat::Pkcs8, key) is None ==> ephemeral_outcome(Ok((cert, key))) == Ok::<
            KeyView,
            Seq<char>,
        >(KeyView { chain: seq![cert], format: KeyFormat::Pkcs8, key }),
        signing_error(KeyFormat::Pkcs8, key) is Some ==> ephemeral_outcome(Ok((cert, key)))
            == Err::<KeyView, Seq<char>>(
            "PEM error: rustls signing-key load: "@ + (signing_error(
                KeyFormat::Pkcs8,
                key,
            )->0).1,
        ),
        ephemeral_outcome(Err(error)) == Err::<KeyView, Seq<char>>(error),
{
}

/// Law: a load through the node-wide chain hands on what the chain gives: the
/// entry, that there is none, or the error.
pub proof fn law_node_load_hands_on_the_chain(
    r: Result<Option<CertEntry>, CertError>,
    host: Seq<char>,
    ctx: ContextView,
    files: FileModel,
    now: u64,
)
    requires
        node_load_is(r, host, ctx, files, now),
    ensures
        ({
            let c = node_cert(host, ctx, files, now);
            &&& r is Ok <==> c is Ok
            &&& r is Ok ==> (r->Ok_0 is Some <==> c->Ok_0 is Some)
            &&& r is Ok && r->Ok_0 is Some ==> r->Ok_0->0@ == c->Ok_0->0
            &&& r is Err ==> r->Err_0@ == c->Err_0
        }),
{
}

/// Law: a load through a rule's chain hands on what the chain gives. For an
/// ephemeral source that is an entry, stamped and marked as such, with a
/// certificate made for the host alone and a key that can sign; or an error of
/// the route.
pub proof fn law_rule_load_hands_on_the_chain(
    r: Result<CertEntry, CertError>,
    source: Option<OriginView>,
    rule: Seq<char>,
    host: Seq<char>,
    files: FileModel,
    now: u64,
)
    requires
        rule_load_is(r, source, rule, host, files, now),
    ensures
        source == Some(OriginView::Ephemeral) && r is Ok ==> {
            let e = r->Ok_0@;
            &&& e.origin == OriginView::Ephemeral
            &&& e.loaded_at_unix_ms == now
            &&& e.key.chain.len() == 1
            &&& leaf_made(ephemeral_model(host), Ok((e.key.chain[0], e.key.key)))
            &&& signing_error(KeyFormat::Pkcs8, e.key.key) is None
            &&& ascii(host)
        },
        source == Some(OriginView::Ephemeral) && r is Err ==> r->Err_0@ is Ephemeral
            && r->Err_0@->Ephemeral_rule == rule && r->Err_0@->Ephemeral_route == host,
        source == Some(OriginView::Ephemeral) && !ascii(host) ==> r is Err
            && r->Err_0@->Ephemeral_detail == "Invalid IA5String: '"@ + host + "'"@,
        source != Some(OriginView::Ephemeral) ==> {
            let c = rule_cert(source, rule, host, files, now);
            &&& r is Ok <==> c is Ok
            &&& r is Ok ==> r->Ok_0@ == c->Ok_0
            &&& r is Err ==> r->Err_0@ == c->Err_0
        },
{
}

/// Law: only an explicit certificate path asks for a key path.
pub proof fn law_only_an_explicit_path_needs_a_key(route: RouteView, path: Seq<char>, key: Seq<char>)
    ensures
        route.cert is None ==> route_has_key(route),
        route.cert == Some(CertSourceView::Ephemeral) ==> route_has_key(route),
        route.cert == Some(CertSourceView::Path(path)) && route.key == Some(key) ==> route_has_key(
            route,
        ),
        route.cert == Some(CertSourceView::Path(path)) && route.key is None ==> !route_has_key(
            route,
        ),
{
}

} // verus!
