//! Header rewriting shared by the frontends, so that backends see the same
//! forwarding headers whichever protocol the client used.

use http::header::{HeaderMap, HeaderValue};
use vstd::prelude::*;
use vstd::string::*;
use vstd::utf8::*;

use crate::addr::{ip_text, IpAddr};
use crate::headers::{
    bytes_views, header_insert, header_map, header_names, header_present, header_remove,
    header_values, is_header_name, is_header_value, lemma_lower_fixed, lemma_lower_name, name_ok,
    token_char, value_is_text, value_ok, value_text, value_to_text, values_of, HeaderModel,
    HEADER_NAMES_MAX,
};
use crate::rule::HstsConfig;
use crate::text::{
    chars_of, chars_views, dec, dec_string, join2, lower, same, split, split_chars, string_of,
    to_lower, trim, trim_chars,
};

verus! {

broadcast use vstd::string::group_string_axioms;

/// A lowercase header name made of letters and dashes.
pub open spec fn plain_name(s: Seq<char>) -> bool {
    0 < s.len() < 100 && forall|i: int|
        0 <= i < s.len() ==> ('a' <= #[trigger] s[i] && s[i] <= 'z') || s[i] == '-'
}

/// A plain name is a header name and its own lowercase.
pub proof fn lemma_plain_name(s: Seq<char>)
    requires
        plain_name(s),
    ensures
        name_ok(s),
        lower(s) == s,
{
    assert forall|i: int| 0 <= i < s.len() implies token_char(#[trigger] s[i]) by {}
    lemma_lower_fixed(s);
}

/// The headers by which a client could claim to be someone else.
pub open spec fn untrusted_names() -> Set<Seq<char>> {
    set![
        "x-forwarded-for"@,
        "x-forwarded-proto"@,
        "x-forwarded-protocol"@,
        "x-forwarded-host"@,
        "x-forwarded-port"@,
        "x-real-ip"@,
        "forwarded"@,
    ]
}

/// The hop-by-hop headers, and the proxy-specific ones that never propagate.
pub open spec fn hop_names() -> Set<Seq<char>> {
    set![
        "connection"@,
        "proxy-authenticate"@,
        "proxy-authorization"@,
        "te"@,
        "trailer"@,
        "transfer-encoding"@,
        "upgrade"@,
    ]
}

/// `value`, as one of the values of `Connection`, nominates the header `name`:
/// one of its comma-separated tokens is that name, and neither `close` nor
/// `keep-alive`.
pub open spec fn nominates(value: Seq<u8>, name: Seq<char>) -> bool {
    value_is_text(value) && exists|j: int|
        0 <= j < split(value_text(value), ',').len() && nominated_by(
            #[trigger] split(value_text(value), ',')[j],
            name,
        )
}

/// The token names the header `name`.
pub open spec fn nominated_by(token: Seq<char>, name: Seq<char>) -> bool {
    let t = trim(token);
    name_ok(t) && lower(t) != "close"@ && lower(t) != "keep-alive"@ && lower(t) == name
}

/// The headers that the `Connection` values nominate.
pub open spec fn nominated(m: HeaderModel) -> Set<Seq<char>> {
    Set::new(
        |name: Seq<char>|
            exists|i: int|
                0 <= i < values_of(m, "connection"@).len() && nominates(
                    #[trigger] values_of(m, "connection"@)[i],
                    name,
                ),
    )
}

/// The headers after the hop-by-hop ones are gone.
pub open spec fn without_hop_by_hop(m: HeaderModel) -> HeaderModel {
    m.remove_keys(nominated(m).union(hop_names()))
}

/// The headers that negotiate an upgrade.
pub open spec fn upgrade_names() -> Set<Seq<char>> {
    set!["connection"@, "upgrade"@]
}

/// Which headers stay though `Connection` nominates them.
#[derive(Clone, Copy, Debug, PartialEq, Eq, Structural)]
pub enum Spared {
    /// None: the headers of a response.
    Nothing,
    /// `Host`: the headers of a request, which the backend cannot do without.
    Host,
    /// `Host` and what negotiates an upgrade: the headers of a handshake.
    Handshake,
}

/// The headers that stay though `Connection` nominates them.
pub open spec fn spared_names(spared: Spared) -> Set<Seq<char>> {
    match spared {
        Spared::Nothing => Set::empty(),
        Spared::Host => set!["host"@],
        Spared::Handshake => upgrade_names().insert("host"@),
    }
}

/// Says whether a header stays though `Connection` nominates it.
fn is_spared(name: &str, spared: Spared) -> (r: bool)
    ensures
        r == spared_names(spared).contains(name@),
{
    match spared {
        Spared::Nothing => false,
        Spared::Host => same(name, "host"),
        Spared::Handshake => same(name, "host") || same(name, "connection") || same(
            name,
            "upgrade",
        ),
    }
}

/// Takes a header with a plain name out.
fn drop_header(headers: &mut HeaderMap<HeaderValue>, name: &str)
    requires
        plain_name(name@),
    ensures
        header_map(*final(headers)) == header_map(*old(headers)).remove(name@),
        header_names(*final(headers)) <= header_names(*old(headers)),
{
    proof {
        lemma_plain_name(name@);
    }
    header_remove(headers, name);
}

/// Strips the client's own forwarding claims.
pub fn strip_untrusted_forwarding(headers: &mut HeaderMap<HeaderValue>)
    ensures
        header_map(*final(headers)) == header_map(*old(headers)).remove_keys(untrusted_names()),
        header_names(*final(headers)) <= header_names(*old(headers)),
{
    proof {
        reveal_strlit("x-forwarded-for");
        reveal_strlit("x-forwarded-proto");
        reveal_strlit("x-forwarded-protocol");
        reveal_strlit("x-forwarded-host");
        reveal_strlit("x-forwarded-port");
        reveal_strlit("x-real-ip");
        reveal_strlit("forwarded");
    }
    drop_header(headers, "x-forwarded-for");
    drop_header(headers, "x-forwarded-proto");
    drop_header(headers, "x-forwarded-protocol");
    drop_header(headers, "x-forwarded-host");
    drop_header(headers, "x-forwarded-port");
    drop_header(headers, "x-real-ip");
    drop_header(headers, "forwarded");
    assert(header_map(*headers) =~= header_map(*old(headers)).remove_keys(untrusted_names()));
}

/// Strips the fixed hop-by-hop headers.
pub(crate) fn strip_hop_names(headers: &mut HeaderMap<HeaderValue>)
    ensures
        header_map(*final(headers)) == header_map(*old(headers)).remove_keys(hop_names()),
        header_names(*final(headers)) <= header_names(*old(headers)),
{
    proof {
        reveal_strlit("connection");
        reveal_strlit("proxy-authenticate");
        reveal_strlit("proxy-authorization");
        reveal_strlit("te");
        reveal_strlit("trailer");
        reveal_strlit("transfer-encoding");
        reveal_strlit("upgrade");
    }
    drop_header(headers, "connection");
    drop_header(headers, "proxy-authenticate");
    drop_header(headers, "proxy-authorization");
    drop_header(headers, "te");
    drop_header(headers, "trailer");
    drop_header(headers, "transfer-encoding");
    drop_header(headers, "upgrade");
    assert(header_map(*headers) =~= header_map(*old(headers)).remove_keys(hop_names()));
}

/// `name` is among the texts of `v`.
pub open spec fn listed(v: Seq<String>, name: Seq<char>) -> bool {
    exists|k: int| 0 <= k < v.len() && (#[trigger] v[k])@ == name
}

/// Appends the names that one token list nominates.
fn collect_tokens(out: &mut Vec<String>, value: &str)
    requires
        forall|k: int| 0 <= k < old(out)@.len() ==> name_ok(#[trigger] old(out)@[k]@) && lower(
            old(out)@[k]@,
        ) == old(out)@[k]@,
    ensures
        forall|k: int| 0 <= k < final(out)@.len() ==> name_ok(#[trigger] final(out)@[k]@) && lower(
            final(out)@[k]@,
        ) == final(out)@[k]@,
        forall|name: Seq<char>| #[trigger]
            listed(final(out)@, name) <==> listed(old(out)@, name) || exists|j: int|
                0 <= j < split(value@, ',').len() && nominated_by(
                    #[trigger] split(value@, ',')[j],
                    name,
                ),
{
    let v = chars_of(value);
    let toks = split_chars(v.as_slice(), ',');
    let ghost all = split(value@, ',');
    let ghost before = out@;
    assert(all == chars_views(toks@));
    let n: usize = toks.len();
    for i in 0..n
        invariant
            n == toks@.len(),
            all == chars_views(toks@),
            forall|k: int| 0 <= k < out@.len() ==> name_ok(#[trigger] out@[k]@) && lower(
                out@[k]@,
            ) == out@[k]@,
            forall|name: Seq<char>| #[trigger]
                listed(out@, name) <==> listed(before, name) || exists|j: int|
                    0 <= j < i && nominated_by(#[trigger] all[j], name),
    {
        let t = trim_chars(toks[i].as_slice());
        assert(all[i as int] == toks@[i as int]@);
        let ghost prev = out@;
        let ok = is_header_name(t.as_slice());
        let text = string_of(t.as_slice());
        let low = to_lower(text.as_str());
        let skip = same(low.as_str(), "close") || same(low.as_str(), "keep-alive");
        if ok && !skip {
            proof {
                lemma_lower_name(t@);
            }
            let ghost name0 = low@;
            out.push(low);
            proof {
                assert forall|name: Seq<char>| #[trigger] listed(out@, name) <==> listed(prev, name)
                    || name == name0 by {
                    if listed(prev, name) {
                        let k = choose|k: int| 0 <= k < prev.len() && (#[trigger] prev[k])@ == name;
                        assert(out@[k]@ == name);
                    }
                    if name == name0 {
                        assert(out@[prev.len() as int]@ == name);
                    }
                    if listed(out@, name) {
                        let k = choose|k: int| 0 <= k < out@.len() && (#[trigger] out@[k])@ == name;
                        if k < prev.len() {
                            assert(prev[k]@ == name);
                        }
                    }
                }
                assert forall|name: Seq<char>| #[trigger] listed(out@, name) <==> listed(
                    before,
                    name,
                ) || exists|j: int| 0 <= j < i + 1 && nominated_by(#[trigger] all[j], name) by {
                    assert(listed(out@, name) <==> listed(prev, name) || name == name0);
                    assert(nominated_by(all[i as int], name) <==> name == name0);
                    if exists|j: int| 0 <= j < i + 1 && nominated_by(#[trigger] all[j], name) {
                        let j = choose|j: int|
                            0 <= j < i + 1 && nominated_by(#[trigger] all[j], name);
                        if j < i {
                            assert(listed(prev, name));
                        }
                    }
                }
            }
        } else {
            proof {
                assert forall|name: Seq<char>| #[trigger] listed(out@, name) <==> listed(
                    before,
                    name,
                ) || exists|j: int| 0 <= j < i + 1 && nominated_by(#[trigger] all[j], name) by {
                    assert(!nominated_by(all[i as int], name));
                    if exists|j: int| 0 <= j < i + 1 && nominated_by(#[trigger] all[j], name) {
                        let j = choose|j: int|
                            0 <= j < i + 1 && nominated_by(#[trigger] all[j], name);
                        assert(j < i);
                    }
                }
            }
        }
    }
}

/// The names that the `Connection` values nominate.
fn nominated_names(headers: &HeaderMap<HeaderValue>) -> (r: Vec<String>)
    ensures
        forall|k: int| 0 <= k < r@.len() ==> name_ok(#[trigger] r@[k]@) && lower(r@[k]@)
            == r@[k]@,
        forall|name: Seq<char>| #[trigger]
            listed(r@, name) <==> nominated(header_map(*headers)).contains(name),
{
    proof {
        reveal_strlit("connection");
        lemma_plain_name("connection"@);
    }
    let mut out: Vec<String> = Vec::new();
    let vs = header_values(headers, "connection");
    let ghost m = header_map(*headers);
    let ghost all = values_of(m, "connection"@);
    assert(all == bytes_views(vs@));
    let n: usize = vs.len();
    for i in 0..n
        invariant
            n == vs@.len(),
            all == bytes_views(vs@),
            forall|k: int| 0 <= k < out@.len() ==> name_ok(#[trigger] out@[k]@) && lower(
                out@[k]@,
            ) == out@[k]@,
            forall|name: Seq<char>| #[trigger]
                listed(out@, name) <==> exists|j: int|
                    0 <= j < i && nominates(#[trigger] all[j], name),
    {
        let ghost prev = out@;
        assert(all[i as int] == vs@[i as int]@);
        match value_to_text(vs[i].as_slice()) {
            Some(t) => {
                collect_tokens(&mut out, t.as_str());
            },
            None => {},
        }
        proof {
            assert forall|name: Seq<char>| #[trigger] listed(out@, name) <==> exists|j: int|
                0 <= j < i + 1 && nominates(#[trigger] all[j], name) by {
                assert(listed(out@, name) <==> listed(prev, name) || nominates(
                    all[i as int],
                    name,
                ));
                if exists|j: int| 0 <= j < i + 1 && nominates(#[trigger] all[j], name) {
                    let j = choose|j: int| 0 <= j < i + 1 && nominates(#[trigger] all[j], name);
                    if j < i {
                        assert(listed(prev, name));
                    }
                }
            }
        }
    }
    out
}

/// A name among the first `n` goes.
pub open spec fn goes(names: Seq<String>, n: int, spared: Spared, k: Seq<char>) -> bool {
    listed(names.subrange(0, n), k) && !spared_names(spared).contains(k)
}

/// Strips the headers that `Connection` nominates, but for the spared ones.
pub(crate) fn strip_nominated(headers: &mut HeaderMap<HeaderValue>, spared: Spared)
    ensures
        header_map(*final(headers)) == header_map(*old(headers)).remove_keys(
            nominated(header_map(*old(headers))).difference(spared_names(spared)),
        ),
        header_names(*final(headers)) <= header_names(*old(headers)),
{
    let names = nominated_names(headers);
    let ghost m = header_map(*headers);
    let ghost count = header_names(*headers);
    let n: usize = names.len();
    assert(m =~= Map::new(
        |k: Seq<char>| m.contains_key(k) && !goes(names@, 0, spared, k),
        |k: Seq<char>| m[k],
    ));
    for i in 0..n
        invariant
            n == names@.len(),
            header_names(*headers) <= count,
            forall|k: int| 0 <= k < names@.len() ==> name_ok(#[trigger] names@[k]@) && lower(
                names@[k]@,
            ) == names@[k]@,
            header_map(*headers) == Map::new(
                |k: Seq<char>| m.contains_key(k) && !goes(names@, i as int, spared, k),
                |k: Seq<char>| m[k],
            ),
    {
        let name = names[i].as_str();
        if !is_spared(name, spared) {
            header_remove(headers, name);
        }
        proof {
            let a = names@.subrange(0, i as int);
            let b = names@.subrange(0, i + 1);
            assert forall|k: Seq<char>| #[trigger] listed(b, k) <==> listed(a, k) || k
                == names@[i as int]@ by {
                if listed(a, k) {
                    let q = choose|q: int| 0 <= q < a.len() && (#[trigger] a[q])@ == k;
                    assert(b[q]@ == k);
                }
                if k == names@[i as int]@ {
                    assert(b[i as int]@ == k);
                }
                if listed(b, k) {
                    let q = choose|q: int| 0 <= q < b.len() && (#[trigger] b[q])@ == k;
                    if q < i {
                        assert(a[q]@ == k);
                    }
                }
            }
            assert(header_map(*headers) =~= Map::new(
                |k: Seq<char>| m.contains_key(k) && !goes(names@, i + 1, spared, k),
                |k: Seq<char>| m[k],
            ));
        }
    }
    assert(names@.subrange(0, n as int) =~= names@);
    assert(header_map(*headers) =~= m.remove_keys(nominated(m).difference(spared_names(spared))));
}

/// Strips the hop-by-hop headers, those that `Connection` nominates among them.
pub fn strip_hop_by_hop(headers: &mut HeaderMap<HeaderValue>)
    ensures
        header_map(*final(headers)) == without_hop_by_hop(header_map(*old(headers))),
        header_names(*final(headers)) <= header_names(*old(headers)),
{
    let ghost m = header_map(*headers);
    strip_nominated(headers, Spared::Nothing);
    strip_hop_names(headers);
    assert(header_map(*headers) =~= without_hop_by_hop(m));
}

/// The headers with `text` as the only value of `name`, where `text` can be a
/// header value; otherwise unchanged.
pub open spec fn with_text(m: HeaderModel, name: Seq<char>, text: Seq<char>) -> HeaderModel {
    if value_ok(encode_utf8(text)) {
        m.insert(name, seq![encode_utf8(text)])
    } else {
        m
    }
}

/// The headers with the forwarding headers for a client at `ip`.
pub open spec fn forwarded_model(
    m: HeaderModel,
    ip: IpAddr,
    host: Option<Seq<char>>,
    scheme: Seq<char>,
) -> HeaderModel {
    let m = with_text(m, "x-forwarded-for"@, ip_text(ip));
    let m = with_text(m, "x-real-ip"@, ip_text(ip));
    let m = with_text(m, "x-forwarded-proto"@, scheme);
    let m = with_text(m, "x-forwarded-protocol"@, scheme);
    match host {
        Some(h) => with_text(m, "x-forwarded-host"@, h),
        None => m,
    }
}

/// Sets a header with a plain name, where `text` can be a header value.
fn set_header(headers: &mut HeaderMap<HeaderValue>, name: &str, text: &str)
    requires
        plain_name(name@),
        header_names(*old(headers)) <= HEADER_NAMES_MAX,
    ensures
        header_map(*final(headers)) == with_text(header_map(*old(headers)), name@, text@),
        header_names(*final(headers)) <= header_names(*old(headers)) + 1,
{
    proof {
        lemma_plain_name(name@);
    }
    let v = text.as_bytes();
    if is_header_value(v) {
        header_insert(headers, name, v);
    }
}

/// View of an optional text.
pub open spec fn opt_text(s: Option<&str>) -> Option<Seq<char>> {
    match s {
        Some(t) => Some(t@),
        None => None,
    }
}

/// Sets `X-Forwarded-For`, `X-Real-IP`, `X-Forwarded-Proto`,
/// `X-Forwarded-Protocol` and `X-Forwarded-Host` for a client at `client_ip`
/// that used `scheme` towards the proxy.
pub fn inject_forwarded(
    headers: &mut HeaderMap<HeaderValue>,
    client_ip: IpAddr,
    host: Option<&str>,
    scheme: &str,
)
    requires
        header_names(*old(headers)) + 4 <= HEADER_NAMES_MAX,
    ensures
        header_map(*final(headers)) == forwarded_model(
            header_map(*old(headers)),
            client_ip,
            opt_text(host),
            scheme@,
        ),
        header_names(*final(headers)) <= header_names(*old(headers)) + 5,
{
    proof {
        reveal_strlit("x-forwarded-for");
        reveal_strlit("x-real-ip");
        reveal_strlit("x-forwarded-proto");
        reveal_strlit("x-forwarded-protocol");
        reveal_strlit("x-forwarded-host");
    }
    let ip = client_ip.to_text();
    set_header(headers, "x-forwarded-for", ip.as_str());
    set_header(headers, "x-real-ip", ip.as_str());
    set_header(headers, "x-forwarded-proto", scheme);
    set_header(headers, "x-forwarded-protocol", scheme);
    match host {
        Some(h) => {
            set_header(headers, "x-forwarded-host", h);
        },
        None => {},
    }
}

/// The value of `Strict-Transport-Security` for a policy.
pub open spec fn hsts_value(cfg: HstsConfig) -> Seq<char> {
    "max-age="@ + dec(cfg.max_age as nat) + (if cfg.include_subdomains {
        "; includeSubDomains"@
    } else {
        Seq::empty()
    }) + (if cfg.preload {
        "; preload"@
    } else {
        Seq::empty()
    })
}

/// The response headers after the policy was applied: a header that the
/// backend set itself is kept.
pub open spec fn hsts_model(m: HeaderModel, hsts: Option<HstsConfig>) -> HeaderModel {
    match hsts {
        None => m,
        Some(cfg) => if m.contains_key("strict-transport-security"@) {
            m
        } else {
            with_text(m, "strict-transport-security"@, hsts_value(cfg))
        },
    }
}

/// View of an optional reference.
pub open spec fn opt_val<T>(o: Option<&T>) -> Option<T> {
    match o {
        Some(t) => Some(*t),
        None => None,
    }
}

/// Sets `Strict-Transport-Security` by the route's policy, if it has one.
pub fn maybe_inject_hsts(headers: &mut HeaderMap<HeaderValue>, hsts: Option<&HstsConfig>)
    requires
        header_names(*old(headers)) <= HEADER_NAMES_MAX,
    ensures
        header_map(*final(headers)) == hsts_model(header_map(*old(headers)), opt_val(hsts)),
        header_names(*final(headers)) <= header_names(*old(headers)) + 1,
{
    let cfg = match hsts {
        None => {
            return ;
        },
        Some(c) => c,
    };
    proof {
        reveal_strlit("strict-transport-security");
        lemma_plain_name("strict-transport-security"@);
    }
    if header_present(headers, "strict-transport-security") {
        return ;
    }
    let age = dec_string(cfg.max_age);
    let mut value = join2("max-age=", age.as_str());
    if cfg.include_subdomains {
        value.append("; includeSubDomains");
    }
    if cfg.preload {
        value.append("; preload");
    }
    assert(value@ =~= hsts_value(*cfg));
    set_header(headers, "strict-transport-security", value.as_str());
}

/// The response headers after one static header was set, where name and value
/// are valid.
pub open spec fn with_static(m: HeaderModel, name: Seq<char>, value: Seq<char>) -> HeaderModel {
    if name_ok(name) {
        with_text(m, lower(name), value)
    } else {
        m
    }
}

/// The response headers after the first `n` static headers were set, in order.
pub open spec fn static_model(
    m: HeaderModel,
    list: Seq<(String, String)>,
    n: int,
) -> HeaderModel
    decreases n,
{
    if n <= 0 {
        m
    } else {
        with_static(static_model(m, list, n - 1), list[n - 1].0@, list[n - 1].1@)
    }
}

/// Sets a route's static response headers. They have the final word over what
/// the backend sent.
pub fn apply_static_response_headers(
    headers: &mut HeaderMap<HeaderValue>,
    list: &Vec<(String, String)>,
)
    requires
        header_names(*old(headers)) + list@.len() <= HEADER_NAMES_MAX,
    ensures
        header_map(*final(headers)) == static_model(
            header_map(*old(headers)),
            list@,
            list@.len() as int,
        ),
        header_names(*final(headers)) <= header_names(*old(headers)) + list@.len(),
{
    let ghost m = header_map(*headers);
    let ghost count = header_names(*headers);
    for i in 0..list.len()
        invariant
            header_map(*headers) == static_model(m, list@, i as int),
            header_names(*headers) <= count + i,
            count + list@.len() <= HEADER_NAMES_MAX,
    {
        let name = chars_of(list[i].0.as_str());
        let value = list[i].1.as_str().as_bytes();
        if is_header_name(name.as_slice()) && is_header_value(value) {
            header_insert(headers, list[i].0.as_str(), value);
        }
    }
}

/// What `Url::parse` makes of a text: the normalised URL, its host, and its
/// port or the default port of its scheme.
pub uninterp spec fn url_parts(s: Seq<char>) -> Option<
    (Seq<char>, Option<Seq<char>>, Option<u16>),
>;

/// `Url::parse`, with `as_str`, `host_str` and `port_or_known_default` of the
/// result.
#[verifier::external_body]
fn url_parse(s: &str) -> (r: Option<(String, Option<String>, Option<u16>)>)
    ensures
        r is Some <==> url_parts(s@) is Some,
        r is Some ==> (r->0).0@ == (url_parts(s@)->0).0,
        r is Some ==> crate::text::opt_view((r->0).1) == (url_parts(s@)->0).1,
        r is Some ==> (r->0).2 == (url_parts(s@)->0).2,
{
    let u = url::Url::parse(s).ok()?;
    Some((u.as_str().to_owned(), u.host_str().map(|h| h.to_owned()), u.port_or_known_default()))
}

/// Whether `http` accepts a text as a URI authority.
pub uninterp spec fn authority_ok(s: Seq<char>) -> bool;

/// `http::uri::Authority::try_from`, and whether it accepts the bytes.
#[verifier::external_body]
fn check_authority(s: &str) -> (r: bool)
    ensures
        r == authority_ok(s@),
{
    http::uri::Authority::try_from(s.as_bytes()).is_ok()
}

/// The text of the `http` URI that `http`'s builder makes of an authority and
/// a path with query, if it makes one.
pub uninterp spec fn uri_built(authority: Seq<char>, path_and_query: Seq<char>) -> Option<Seq<char>>;

/// `http::Uri::builder` with scheme `http`. The text of a URI whose path begins
/// with a slash and holds no fragment is the scheme, the authority and the path
/// with query, one after the other.
#[verifier::external_body]
fn build_uri(authority: &str, path_and_query: &str) -> (r: Option<String>)
    ensures
        crate::text::opt_view(r) == uri_built(authority@, path_and_query@),
        r is Some && path_and_query@.len() > 0 && path_and_query@[0] == '/'
            && !path_and_query@.contains('#') ==> r->0@ == "http://"@ + authority@
            + path_and_query@,
{
    let b = http::Uri::builder().scheme(http::uri::Scheme::HTTP).authority(authority);
    b.path_and_query(path_and_query).build().ok().map(|u| u.to_string())
}

/// Where a route's requests go: a parsed URL.
#[derive(Debug)]
pub struct Target {
    /// The normalised URL.
    pub url: String,
    /// Its host, if it has one.
    pub host: Option<String>,
    /// Its port, or the default port of its scheme.
    pub port: Option<u16>,
}

impl Clone for Target {
    fn clone(&self) -> (r: Self)
        ensures
            r == *self,
    {
        let host = match &self.host {
            Some(h) => Some(h.clone()),
            None => None,
        };
        Target { url: self.url.clone(), host, port: self.port }
    }
}

impl Target {
    /// The target holds what parsing `s` gives.
    pub open spec fn parsed_from(&self, s: Seq<char>) -> bool {
        url_parts(s) == Some((self.url@, crate::text::opt_view(self.host), self.port))
    }

    /// Parses a URL.
    pub fn parse(s: &str) -> (r: Option<Target>)
        ensures
            r is Some <==> url_parts(s@) is Some,
            r is Some ==> r->0.parsed_from(s@),
    {
        match url_parse(s) {
            Some((url, host, port)) => Some(Target { url, host, port }),
            None => None,
        }
    }

    /// Whether two targets are the same: URL, host and port.
    pub fn same_as(&self, other: &Target) -> (r: bool)
        ensures
            r == (self.url@ == other.url@ && crate::text::opt_view(self.host)
                == crate::text::opt_view(other.host) && self.port == other.port),
    {
        let hosts = match (&self.host, &other.host) {
            (Some(a), Some(b)) => same(a.as_str(), b.as_str()),
            (None, None) => true,
            _ => false,
        };
        same(self.url.as_str(), other.url.as_str()) && hosts && self.port == other.port
    }
}

/// Why no upstream URI could be made.
#[derive(Clone, Copy, Debug, PartialEq, Eq, Structural)]
pub enum UriError {
    /// The target URL has no host.
    NoHost,
    /// Host and port make no valid authority.
    Authority,
    /// The parts make no valid URI.
    Build,
}

/// The authority of a target: its host, with the port where there is one.
pub open spec fn target_authority(host: Seq<char>, port: Option<u16>) -> Seq<char> {
    match port {
        Some(p) => host + seq![':'] + dec(p as nat),
        None => host,
    }
}

/// The path and query of a request, `/` where there is none.
pub open spec fn path_or_root(path_and_query: Option<Seq<char>>) -> Seq<char> {
    match path_and_query {
        Some(p) => p,
        None => "/"@,
    }
}

/// The upstream URI for a request path and a target.
pub open spec fn upstream_uri(
    path_and_query: Option<Seq<char>>,
    host: Option<Seq<char>>,
    port: Option<u16>,
) -> Result<Seq<char>, UriError> {
    match host {
        None => Err(UriError::NoHost),
        Some(h) => {
            let a = target_authority(h, port);
            if !authority_ok(a) {
                Err(UriError::Authority)
            } else {
                match uri_built(a, path_or_root(path_and_query)) {
                    Some(u) => Ok(u),
                    None => Err(UriError::Build),
                }
            }
        },
    }
}

/// The authority of a target.
pub fn upstream_authority(upstream: &Target) -> (r: Result<String, UriError>)
    ensures
        match upstream.host {
            None => r is Err && r->Err_0 == UriError::NoHost,
            Some(h) => r is Ok && r->Ok_0@ == target_authority(h@, upstream.port),
        },
{
    match &upstream.host {
        None => Err(UriError::NoHost),
        Some(h) => match upstream.port {
            None => Ok(h.clone()),
            Some(p) => {
                let d = dec_string(p as u64);
                let mut a = join2(h.as_str(), ":");
                a.append(d.as_str());
                proof {
                    reveal_strlit(":");
                    assert(":"@ =~= seq![':']);
                    assert(a@ =~= target_authority(h@, upstream.port));
                }
                Ok(a)
            },
        },
    }
}

/// Rewrites the URI of a client's request to the selected upstream: the
/// target's host and port, the request's own path and query.
pub fn build_upstream_uri(path_and_query: Option<&str>, upstream: &Target) -> (r: Result<
    String,
    UriError,
>)
    ensures
        match upstream_uri(
            opt_text(path_and_query),
            crate::text::opt_view(upstream.host),
            upstream.port,
        ) {
            Ok(u) => r is Ok && r->Ok_0@ == u,
            Err(e) => r is Err && r->Err_0 == e,
        },
        r is Ok && path_or_root(opt_text(path_and_query)).len() > 0 && path_or_root(
            opt_text(path_and_query),
        )[0] == '/' && !path_or_root(opt_text(path_and_query)).contains('#') ==> r->Ok_0@
            == "http://"@ + target_authority(upstream.host->0@, upstream.port) + path_or_root(
            opt_text(path_and_query),
        ),
{
    let pq = match path_and_query {
        Some(p) => p,
        None => "/",
    };
    match upstream_authority(upstream) {
        Err(e) => Err(e),
        Ok(a) => {
            if !check_authority(a.as_str()) {
                return Err(UriError::Authority);
            }
            match build_uri(a.as_str(), pq) {
                Some(u) => Ok(u),
                None => Err(UriError::Build),
            }
        },
    }
}

/// The one value that a text makes; none where the text can be no header value.
pub open spec fn sole_value(text: Seq<char>) -> Seq<Seq<u8>> {
    if value_ok(encode_utf8(text)) {
        seq![encode_utf8(text)]
    } else {
        Seq::empty()
    }
}

/// Law: after sanitising and injecting, no forwarding claim of the client is
/// left: each forwarding header that the proxy sets holds its own value alone,
/// and the others are gone.
pub proof fn law_forwarding_headers_are_ours(
    m: HeaderModel,
    ip: IpAddr,
    host: Option<Seq<char>>,
    scheme: Seq<char>,
)
    ensures
        ({
            let out = forwarded_model(m.remove_keys(untrusted_names()), ip, host, scheme);
            &&& values_of(out, "x-forwarded-for"@) == sole_value(ip_text(ip))
            &&& values_of(out, "x-real-ip"@) == sole_value(ip_text(ip))
            &&& values_of(out, "x-forwarded-proto"@) == sole_value(scheme)
            &&& values_of(out, "x-forwarded-protocol"@) == sole_value(scheme)
            &&& values_of(out, "x-forwarded-host"@) == match host {
                Some(h) => sole_value(h),
                None => Seq::empty(),
            }
            &&& values_of(out, "x-forwarded-port"@) == Seq::<Seq<u8>>::empty()
            &&& values_of(out, "forwarded"@) == Seq::<Seq<u8>>::empty()
        }),
{
    reveal_strlit("x-forwarded-for");
    reveal_strlit("x-real-ip");
    reveal_strlit("x-forwarded-proto");
    reveal_strlit("x-forwarded-protocol");
    reveal_strlit("x-forwarded-host");
    reveal_strlit("x-forwarded-port");
    reveal_strlit("forwarded");
    assert("x-forwarded-for"@.len() == 15);
    assert("x-real-ip"@.len() == 9);
    assert("x-forwarded-proto"@.len() == 17);
    assert("x-forwarded-protocol"@.len() == 20);
    assert("x-forwarded-host"@.len() == 16);
    assert("x-forwarded-port"@.len() == 16);
    assert("forwarded"@.len() == 9);
    assert("x-forwarded-host"@[12] != "x-forwarded-port"@[12]);
    assert("x-real-ip"@[0] != "forwarded"@[0]);
    assert(untrusted_names().contains("x-forwarded-for"@));
    assert(untrusted_names().contains("x-real-ip"@));
    assert(untrusted_names().contains("x-forwarded-proto"@));
    assert(untrusted_names().contains("x-forwarded-protocol"@));
    assert(untrusted_names().contains("x-forwarded-host"@));
    assert(untrusted_names().contains("x-forwarded-port"@));
    assert(untrusted_names().contains("forwarded"@));
}

/// Law: a transport security header that the backend set wins over the route's
/// policy, and applying the policy twice is applying it once.
pub proof fn law_upstream_hsts_wins(m: HeaderModel, hsts: Option<HstsConfig>)
    ensures
        m.contains_key("strict-transport-security"@) ==> hsts_model(m, hsts) == m,
        hsts_model(hsts_model(m, hsts), hsts) == hsts_model(m, hsts),
{
}

/// Law: a static header has the final word over what the backend sent and over
/// the policy: where name and value are valid, and no later static header has
/// the same name, the response holds exactly that value under it.
pub proof fn law_static_headers_have_the_final_word(
    m: HeaderModel,
    list: Seq<(String, String)>,
    i: int,
    n: int,
)
    requires
        0 <= i < n <= list.len(),
        name_ok(list[i].0@),
        value_ok(encode_utf8(list[i].1@)),
        forall|j: int| i < j < n ==> lower(#[trigger] list[j].0@) != lower(list[i].0@),
    ensures
        values_of(static_model(m, list, n), lower(list[i].0@)) == seq![
            encode_utf8(list[i].1@),
        ],
    decreases n,
{
    if i < n - 1 {
        assert(lower(list[n - 1].0@) != lower(list[i].0@));
        law_static_headers_have_the_final_word(m, list, i, n - 1);
    }
}

/// Law: `X-Forwarded-Proto` and `X-Forwarded-Protocol` always agree.
pub proof fn law_proto_and_protocol_agree(
    m: HeaderModel,
    ip: IpAddr,
    host: Option<Seq<char>>,
    scheme: Seq<char>,
)
    ensures
        ({
            let out = forwarded_model(m.remove_keys(untrusted_names()), ip, host, scheme);
            values_of(out, "x-forwarded-proto"@) == values_of(out, "x-forwarded-protocol"@)
        }),
{
    reveal_strlit("x-forwarded-proto");
    reveal_strlit("x-forwarded-protocol");
    reveal_strlit("x-forwarded-host");
    reveal_strlit("x-forwarded-for");
    reveal_strlit("x-real-ip");
    assert(untrusted_names().contains("x-forwarded-proto"@));
    assert(untrusted_names().contains("x-forwarded-protocol"@));
    assert("x-forwarded-for"@.len() == 15);
    assert("x-real-ip"@.len() == 9);
    assert("x-forwarded-proto"@.len() != "x-forwarded-protocol"@.len());
    assert("x-forwarded-host"@.len() != "x-forwarded-proto"@.len());
    assert("x-forwarded-host"@.len() != "x-forwarded-protocol"@.len());
}

/// Law: stripping hop-by-hop headers leaves none of the fixed ones, and doing
/// it twice is doing it once.
pub proof fn law_strip_hop_by_hop_is_idempotent(m: HeaderModel)
    ensures
        without_hop_by_hop(without_hop_by_hop(m)) == without_hop_by_hop(m),
        forall|name: Seq<char>|
            hop_names().contains(name) ==> !without_hop_by_hop(m).contains_key(name),
{
    let a = without_hop_by_hop(m);
    let b = without_hop_by_hop(a);
    assert(hop_names().contains("connection"@));
    assert(!a.contains_key("connection"@));
    assert(nominated(a) =~= Set::empty());
    assert(b =~= a);
}

/// Law: a request goes to the target's host, at the target's port where it has
/// one, under the request's own path and query; without a path it goes to the
/// root.
pub proof fn law_request_goes_to_target_and_path(
    host: Seq<char>,
    port: u16,
    path_and_query: Seq<char>,
)
    ensures
        ({
            let at = host + seq![':'] + dec(port as nat);
            let to = |a: Seq<char>, p: Seq<char>|
                if !authority_ok(a) {
                    Err::<Seq<char>, UriError>(UriError::Authority)
                } else if uri_built(a, p) is Some {
                    Ok(uri_built(a, p)->0)
                } else {
                    Err(UriError::Build)
                };
            &&& upstream_uri(Some(path_and_query), Some(host), Some(port)) == to(at, path_and_query)
            &&& upstream_uri(Some(path_and_query), Some(host), None) == to(host, path_and_query)
            &&& upstream_uri(None, Some(host), Some(port)) == to(at, seq!['/'])
            &&& upstream_uri(None, Some(host), None) == to(host, seq!['/'])
            &&& upstream_uri(Some(path_and_query), None, Some(port)) == Err::<
                Seq<char>,
                UriError,
            >(UriError::NoHost)
        }),
{
    reveal_strlit("/");
    assert("/"@ =~= seq!['/']);
}

/// Law: a header that `Connection` nominates is gone, in whatever case and
/// however blanks surround its name, unless the token is `close` or
/// `keep-alive`; a header that no token names stays as it was.
pub proof fn law_nominated_headers_go(m: HeaderModel, i: int, j: int, other: Seq<char>)
    ensures
        ({
            let values = values_of(m, "connection"@);
            let token = trim(split(value_text(values[i]), ',')[j]);
            0 <= i < values.len() && value_is_text(values[i]) && 0 <= j < split(
                value_text(values[i]),
                ',',
            ).len() && name_ok(token) && lower(token) != "close"@ && lower(token) != "keep-alive"@
                ==> !without_hop_by_hop(m).contains_key(lower(token))
        }),
        m.contains_key(other) && !hop_names().contains(other) && (forall|a: int, b: int|
            0 <= a < values_of(m, "connection"@).len() && 0 <= b < split(
                value_text(values_of(m, "connection"@)[a]),
                ',',
            ).len() ==> lower(
                trim(#[trigger] split(value_text(values_of(m, "connection"@)[a]), ',')[b]),
            ) != other) ==> without_hop_by_hop(m).contains_key(other) && without_hop_by_hop(m)[other]
            == m[other],
{
    let values = values_of(m, "connection"@);
    let token = trim(split(value_text(values[i]), ',')[j]);
    if 0 <= i < values.len() && value_is_text(values[i]) && 0 <= j < split(
        value_text(values[i]),
        ',',
    ).len() && name_ok(token) && lower(token) != "close"@ && lower(token) != "keep-alive"@ {
        assert(nominated_by(split(value_text(values[i]), ',')[j], lower(token)));
        assert(nominates(values[i], lower(token)));
        assert(nominated(m).contains(lower(token)));
    }
    if nominated(m).contains(other) {
        let a = choose|a: int| 0 <= a < values.len() && nominates(#[trigger] values[a], other);
        let b = choose|b: int|
            0 <= b < split(value_text(values[a]), ',').len() && nominated_by(
                #[trigger] split(value_text(values[a]), ',')[b],
                other,
            );
        assert(lower(trim(split(value_text(values[a]), ',')[b])) == other);
    }
}

/// Law: none of the headers that belong to one connection is passed on.
pub proof fn law_connection_headers_go(m: HeaderModel)
    ensures
        !without_hop_by_hop(m).contains_key("connection"@),
        !without_hop_by_hop(m).contains_key("proxy-authenticate"@),
        !without_hop_by_hop(m).contains_key("proxy-authorization"@),
        !without_hop_by_hop(m).contains_key("te"@),
        !without_hop_by_hop(m).contains_key("trailer"@),
        !without_hop_by_hop(m).contains_key("transfer-encoding"@),
        !without_hop_by_hop(m).contains_key("upgrade"@),
{
    assert(hop_names().contains("connection"@));
    assert(hop_names().contains("proxy-authenticate"@));
    assert(hop_names().contains("proxy-authorization"@));
    assert(hop_names().contains("te"@));
    assert(hop_names().contains("trailer"@));
    assert(hop_names().contains("transfer-encoding"@));
    assert(hop_names().contains("upgrade"@));
}

/// Law: a route's policy is announced where the backend announces none, in full:
/// the age, then each of the two options that is set. Without a policy nothing
/// is, and no other header changes.
pub proof fn law_policy_is_announced(m: HeaderModel, cfg: HstsConfig, other: Seq<char>)
    ensures
        hsts_model(m, None) == m,
        !m.contains_key("strict-transport-security"@) ==> values_of(
            hsts_model(m, Some(cfg)),
            "strict-transport-security"@,
        ) == sole_value(
            "max-age="@ + dec(cfg.max_age as nat) + (if cfg.include_subdomains {
                "; includeSubDomains"@
            } else {
                Seq::empty()
            }) + (if cfg.preload {
                "; preload"@
            } else {
                Seq::empty()
            }),
        ),
        other != "strict-transport-security"@ ==> values_of(hsts_model(m, Some(cfg)), other)
            == values_of(m, other),
{
}

} // verus!
