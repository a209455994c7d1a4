//! Per-request decisions: host extraction, route choice, header surgery and
//! the choice between plain forwarding and a WebSocket bridge.

use http::header::{HeaderMap, HeaderValue};
use vstd::prelude::*;
use vstd::string::*;
use vstd::utf8::*;

use crate::addr::{addr_ip, addr_port, SocketAddr};
use crate::forward::{
    apply_static_response_headers, build_upstream_uri, forwarded_model, hop_names, hsts_model,
    inject_forwarded, lemma_plain_name, maybe_inject_hsts, nominated, opt_text, plain_name,
    static_model, strip_hop_by_hop, strip_hop_names, strip_nominated, strip_untrusted_forwarding,
    untrusted_names, upgrade_names, upstream_uri, with_text, without_hop_by_hop, Spared, Target,
    UriError,
};
use crate::headers::{
    first_text, header_insert, header_map, header_names, header_present, header_remove, has_room,
    header_text, is_header_value, value_is_text, value_text, values_of, HeaderModel,
    HEADER_NAMES_MAX,
};
use crate::http_frontend::route::{host_key, EntryView, RouteModel, RouteTable};
use crate::rule::{clone_pairs, pair_views, HstsConfig, Protocol};
use crate::text::{
    before_last_colon, chars_of, contains_text, cut_last_colon, dec, dec_string, join2, lower,
    occurs_in, opt_view, same, string_of, to_lower,
};

verus! {

broadcast use vstd::string::group_string_axioms;

/// The listener that a connection came in on.
#[derive(Clone, Copy, Debug, PartialEq, Eq, Structural)]
pub struct ListenerRule {
    pub protocol: Protocol,
    pub listen: SocketAddr,
}

/// What is known of the connection that a request came in on.
#[derive(Debug)]
pub struct ConnContext {
    /// Owning rule; none on the plaintext companion listener.
    pub rule: Option<ListenerRule>,
    pub rule_name: String,
    pub client_addr: SocketAddr,
    /// Whether the connection is TLS-terminated.
    pub tls: bool,
    /// Whether HTTP/3 is served and may be advertised.
    pub emit_alt_svc: bool,
}

/// The client-facing scheme.
pub open spec fn scheme_of(tls: bool) -> Seq<char> {
    if tls {
        "https"@
    } else {
        "http"@
    }
}

impl ConnContext {
    /// The client-facing scheme.
    pub fn forwarded_scheme(&self) -> (r: &'static str)
        ensures
            r@ == scheme_of(self.tls),
    {
        if self.tls {
            "https"
        } else {
            "http"
        }
    }
}

/// The parts of a request line that the decisions read.
#[derive(Debug)]
pub struct RequestHead {
    /// Authority of the request URI (`:authority`).
    pub authority: Option<String>,
    pub path_and_query: Option<String>,
    /// Whether the request is HTTP/1.1.
    pub http11: bool,
}

/// Content type of what the proxy answers itself.
pub const TEXT_PLAIN: &'static str = "text/plain; charset=utf-8";

/// A response made by the proxy itself.
#[derive(Clone, Copy, Debug)]
pub struct ShortResponse {
    pub status: u16,
    pub content_type: &'static str,
    pub body: &'static str,
}

/// A plain-text response with the given status and body.
pub fn short_response(status: u16, body: &'static str) -> (r: ShortResponse)
    ensures
        r.status == status,
        r.content_type@ == TEXT_PLAIN@,
        r.body@ == body@,
{
    ShortResponse { status, content_type: TEXT_PLAIN, body }
}

/// The class label of a status code.
pub open spec fn class_of(status: u16) -> Seq<char> {
    if 100 <= status <= 199 {
        "1xx"@
    } else if 200 <= status <= 299 {
        "2xx"@
    } else if 300 <= status <= 399 {
        "3xx"@
    } else if 400 <= status <= 499 {
        "4xx"@
    } else {
        "5xx"@
    }
}

/// The class label of a status code.
pub fn status_class(status: u16) -> (r: &'static str)
    ensures
        r@ == class_of(status),
{
    if 100 <= status && status <= 199 {
        "1xx"
    } else if 200 <= status && status <= 299 {
        "2xx"
    } else if 300 <= status && status <= 399 {
        "3xx"
    } else if 400 <= status && status <= 499 {
        "4xx"
    } else {
        "5xx"
    }
}

/// The host that a request is for: its authority, or else its `Host` header.
pub open spec fn request_host(authority: Option<Seq<char>>, m: HeaderModel) -> Option<Seq<char>> {
    match authority {
        Some(a) => Some(a),
        None => first_text(m, "host"@),
    }
}

/// The host that a request is for.
pub fn extract_host(authority: Option<&str>, headers: &HeaderMap<HeaderValue>) -> (r: Option<
    String,
>)
    ensures
        opt_view(r) == request_host(opt_text(authority), header_map(*headers)),
{
    match authority {
        Some(a) => Some(a.to_owned()),
        None => {
            proof {
                reveal_strlit("host");
                lemma_plain_name("host"@);
            }
            header_text(headers, "host")
        },
    }
}

/// The first value under `name` contains `word`, case ignored.
pub open spec fn value_mentions(m: HeaderModel, name: Seq<char>, word: Seq<char>) -> bool {
    match first_text(m, name) {
        Some(t) => occurs_in(lower(t), word),
        None => false,
    }
}

/// The headers ask for a WebSocket upgrade.
pub open spec fn wants_websocket(m: HeaderModel) -> bool {
    first_text(m, "upgrade"@) is Some && lower(first_text(m, "upgrade"@)->0) == "websocket"@
        && value_mentions(m, "connection"@, "upgrade"@)
}

/// Whether `Connection` mentions `upgrade`.
fn connection_upgrades(headers: &HeaderMap<HeaderValue>) -> (r: bool)
    ensures
        r == value_mentions(header_map(*headers), "connection"@, "upgrade"@),
{
    proof {
        reveal_strlit("connection");
        lemma_plain_name("connection"@);
    }
    match header_text(headers, "connection") {
        Some(t) => {
            let l = to_lower(t.as_str());
            contains_text(l.as_str(), "upgrade")
        },
        None => false,
    }
}

/// Whether the headers ask for a WebSocket upgrade: `Upgrade: websocket`
/// together with a `Connection` that mentions `upgrade`.
pub fn is_websocket_upgrade(headers: &HeaderMap<HeaderValue>) -> (r: bool)
    ensures
        r == wants_websocket(header_map(*headers)),
{
    proof {
        reveal_strlit("upgrade");
        lemma_plain_name("upgrade"@);
    }
    match header_text(headers, "upgrade") {
        Some(t) => {
            let l = to_lower(t.as_str());
            same(l.as_str(), "websocket") && connection_upgrades(headers)
        },
        None => false,
    }
}

/// The headers that end at this hop of a request: the fixed ones and those that
/// `Connection` nominates. `Host` is never one, whatever `Connection` says.
pub open spec fn request_hop_names(m: HeaderModel) -> Set<Seq<char>> {
    nominated(m).remove("host"@).union(hop_names())
}

/// The headers of a request without what must not reach the backend.
pub open spec fn sanitised_request(m: HeaderModel) -> HeaderModel {
    m.remove_keys(request_hop_names(m)).remove_keys(untrusted_names())
}

/// Strips hop-by-hop headers and the client's forwarding claims. `Host` stays.
pub fn sanitise_request_headers(headers: &mut HeaderMap<HeaderValue>)
    ensures
        header_map(*final(headers)) == sanitised_request(header_map(*old(headers))),
        header_names(*final(headers)) <= header_names(*old(headers)),
{
    let ghost m = header_map(*headers);
    strip_nominated(headers, Spared::Host);
    strip_hop_names(headers);
    assert(header_map(*headers) =~= m.remove_keys(request_hop_names(m)));
    strip_untrusted_forwarding(headers);
}

/// The headers of a WebSocket handshake as the backend gets them: those of any
/// request, and besides them `Upgrade`, and `Connection` where it mentions
/// `upgrade`.
pub open spec fn sanitised_handshake(m: HeaderModel) -> HeaderModel {
    let a = m.remove_keys(request_hop_names(m).difference(upgrade_names()));
    let b = if value_mentions(a, "connection"@, "upgrade"@) {
        a
    } else {
        a.remove("connection"@)
    };
    b.remove_keys(untrusted_names())
}

/// Takes a header with a plain name out.
fn drop_plain(headers: &mut HeaderMap<HeaderValue>, name: &str)
    requires
        plain_name(name@),
    ensures
        header_map(*final(headers)) == header_map(*old(headers)).remove(name@),
        header_names(*final(headers)) <= header_names(*old(headers)),
{
    proof {
        lemma_plain_name(name@);
    }
    header_remove(headers, name);
}

/// Strips what must not reach the backend, but keeps the WebSocket handshake
/// intact.
pub fn sanitise_request_headers_for_websocket(headers: &mut HeaderMap<HeaderValue>)
    ensures
        header_map(*final(headers)) == sanitised_handshake(header_map(*old(headers))),
        header_names(*final(headers)) <= header_names(*old(headers)),
{
    proof {
        reveal_strlit("proxy-authenticate");
        reveal_strlit("proxy-authorization");
        reveal_strlit("te");
        reveal_strlit("trailer");
        reveal_strlit("transfer-encoding");
        reveal_strlit("connection");
        reveal_strlit("upgrade");
        assert("trailer"@[0] == 't' && "upgrade"@[0] == 'u');
        assert("proxy-authenticate"@.len() == 18 && "proxy-authorization"@.len() == 19);
        assert("te"@.len() == 2 && "trailer"@.len() == 7 && "transfer-encoding"@.len() == 17);
        assert("connection"@.len() == 10 && "upgrade"@.len() == 7);
    }
    strip_nominated(headers, Spared::Handshake);
    drop_plain(headers, "proxy-authenticate");
    drop_plain(headers, "proxy-authorization");
    drop_plain(headers, "te");
    drop_plain(headers, "trailer");
    drop_plain(headers, "transfer-encoding");
    assert(header_map(*headers) =~= header_map(*old(headers)).remove_keys(
        request_hop_names(header_map(*old(headers))).difference(upgrade_names()),
    ));
    if !connection_upgrades(headers) {
        drop_plain(headers, "connection");
    }
    strip_untrusted_forwarding(headers);
}

/// Strips hop-by-hop headers from a backend's response.
pub fn sanitise_response_headers(headers: &mut HeaderMap<HeaderValue>)
    ensures
        header_map(*final(headers)) == without_hop_by_hop(header_map(*old(headers))),
        header_names(*final(headers)) <= header_names(*old(headers)),
{
    strip_hop_by_hop(headers);
}

/// The `Alt-Svc` value that advertises HTTP/3 on `port`.
pub open spec fn alt_svc_value(port: u16) -> Seq<char> {
    "h3=\":"@ + dec(port as nat) + "\"; ma=86400"@
}

/// HTTP/3 is advertised on responses of this connection.
pub open spec fn advertises_h3(ctx: ConnContext) -> bool {
    ctx.tls && ctx.emit_alt_svc && ctx.rule is Some && ctx.rule->0.protocol == Protocol::Https
}

/// The response headers after advertising; an existing value stays.
pub open spec fn alt_svc_model(m: HeaderModel, ctx: ConnContext) -> HeaderModel {
    if advertises_h3(ctx) && !m.contains_key("alt-svc"@) {
        with_text(m, "alt-svc"@, alt_svc_value(addr_port(ctx.rule->0.listen)))
    } else {
        m
    }
}

/// Advertises HTTP/3 on a TLS response, where it is served and the response
/// does not already name an alternative.
pub fn maybe_inject_alt_svc(headers: &mut HeaderMap<HeaderValue>, ctx: &ConnContext)
    requires
        header_names(*old(headers)) <= HEADER_NAMES_MAX,
    ensures
        header_map(*final(headers)) == alt_svc_model(header_map(*old(headers)), *ctx),
        header_names(*final(headers)) <= header_names(*old(headers)) + 1,
{
    if !ctx.tls || !ctx.emit_alt_svc {
        return ;
    }
    let rule = match &ctx.rule {
        Some(r) => r,
        None => {
            return ;
        },
    };
    if rule.protocol != Protocol::Https {
        return ;
    }
    proof {
        reveal_strlit("alt-svc");
        lemma_plain_name("alt-svc"@);
    }
    if header_present(headers, "alt-svc") {
        return ;
    }
    let port = dec_string(rule.listen.port() as u64);
    let mut value = join2("h3=\":", port.as_str());
    value.append("\"; ma=86400");
    let bytes = value.as_str().as_bytes();
    if is_header_value(bytes) {
        header_insert(headers, "alt-svc", bytes);
    }
}

/// A request that goes to a backend.
#[derive(Debug)]
pub struct ForwardPlan {
    /// Host that the client asked for.
    pub host: String,
    /// Metrics label of the route.
    pub label: String,
    pub target: Target,
    pub hsts: Option<HstsConfig>,
    pub headers: Vec<(String, String)>,
    /// Bridge a WebSocket rather than forward one request.
    pub websocket: bool,
}

/// What to do with a request.
#[derive(Debug)]
pub enum RequestPlan {
    /// Answer it here. With a label, the answer is counted under it.
    Reply { response: ShortResponse, label: Option<&'static str> },
    /// Send it to a backend.
    Forward(ForwardPlan),
}

/// The model of a [`RequestPlan`].
pub enum PlanView {
    Reply { status: u16, body: Seq<char>, counted: Option<Seq<char>> },
    Forward { host: Seq<char>, label: Seq<char>, entry: EntryView, websocket: bool },
}

/// What to do with a request: 400 without a host, 404 without a route, else
/// forward. Only an HTTP/1.1 request can open a WebSocket.
pub open spec fn plan_of(
    authority: Option<Seq<char>>,
    http11: bool,
    m: HeaderModel,
    routes: RouteModel,
) -> PlanView {
    match request_host(authority, m) {
        None => PlanView::Reply { status: 400, body: ""@, counted: None },
        Some(host) => if !routes.contains_key(host_key(host)) {
            PlanView::Reply { status: 404, body: "no route\n"@, counted: Some("_unknown"@) }
        } else {
            PlanView::Forward {
                host,
                label: lower(before_last_colon(host)),
                entry: routes[host_key(host)],
                websocket: http11 && wants_websocket(m),
            }
        },
    }
}

/// The plan is the one of the model. The rule name of a route plays no part.
pub open spec fn plan_is(p: RequestPlan, v: PlanView) -> bool {
    match (p, v) {
        (
            RequestPlan::Reply { response, label },
            PlanView::Reply { status, body, counted: l },
        ) => response.status == status && response.content_type@ == TEXT_PLAIN@ && response.body@
            == body && opt_text(label) == l,
        (
            RequestPlan::Forward(f),
            PlanView::Forward { host, label, entry, websocket },
        ) => f.host@ == host && f.label@ == label && f.target.url@ == entry.url && opt_view(
            f.target.host,
        ) == entry.host && f.target.port == entry.port && f.hsts == entry.hsts && pair_views(
            f.headers@,
        ) == entry.headers && f.websocket == websocket,
        _ => false,
    }
}

/// The metrics label of a host: without its port, in lowercase.
fn label_of(host: &str) -> (r: String)
    ensures
        r@ == lower(before_last_colon(host@)),
{
    let v = chars_of(host);
    let h = cut_last_colon(v.as_slice());
    let s = string_of(h.as_slice());
    to_lower(s.as_str())
}

/// Decides what to do with a request.
pub fn plan_request(
    head: &RequestHead,
    headers: &HeaderMap<HeaderValue>,
    routes: &RouteTable,
) -> (r: RequestPlan)
    requires
        routes.wf(),
    ensures
        plan_is(r, plan_of(opt_view(head.authority), head.http11, header_map(*headers), routes@)),
{
    let authority = match &head.authority {
        Some(a) => Some(a.as_str()),
        None => None,
    };
    let host = match extract_host(authority, headers) {
        Some(h) => h,
        None => {
            return RequestPlan::Reply { response: short_response(400, ""), label: None };
        },
    };
    match routes.lookup(host.as_str()) {
        None => RequestPlan::Reply {
            response: short_response(404, "no route\n"),
            label: Some("_unknown"),
        },
        Some(entry) => {
            let websocket = head.http11 && is_websocket_upgrade(headers);
            let label = label_of(host.as_str());
            RequestPlan::Forward(
                ForwardPlan {
                    host,
                    label,
                    target: entry.target.clone(),
                    hsts: entry.hsts,
                    headers: clone_pairs(&entry.headers),
                    websocket,
                },
            )
        },
    }
}

/// The request headers as the backend gets them.
pub open spec fn upstream_headers(
    m: HeaderModel,
    client: SocketAddr,
    host: Seq<char>,
    tls: bool,
    websocket: bool,
) -> HeaderModel {
    let clean = if websocket {
        sanitised_handshake(m)
    } else {
        sanitised_request(m)
    };
    forwarded_model(clean, addr_ip(client), Some(host), scheme_of(tls))
}

/// Prepares a request for its backend: rewrites the headers and gives the
/// backend URI. An error is answered as a failed forward.
pub fn prepare_forward(
    headers: &mut HeaderMap<HeaderValue>,
    ctx: &ConnContext,
    path_and_query: Option<&str>,
    plan: &ForwardPlan,
) -> (r: Result<String, UriError>)
    requires
        header_names(*old(headers)) + 4 <= HEADER_NAMES_MAX,
    ensures
        header_map(*final(headers)) == upstream_headers(
            header_map(*old(headers)),
            ctx.client_addr,
            plan.host@,
            ctx.tls,
            plan.websocket,
        ),
        match upstream_uri(opt_text(path_and_query), opt_view(plan.target.host), plan.target.port) {
            Ok(u) => r is Ok && r->Ok_0@ == u,
            Err(e) => r is Err && r->Err_0 == e,
        },
{
    if plan.websocket {
        sanitise_request_headers_for_websocket(headers);
    } else {
        sanitise_request_headers(headers);
    }
    inject_forwarded(
        headers,
        ctx.client_addr.ip(),
        Some(plan.host.as_str()),
        ctx.forwarded_scheme(),
    );
    build_upstream_uri(path_and_query, &plan.target)
}

/// Prepares a request for its backend, where its headers leave room for the
/// forwarding ones; leaves it alone otherwise.
pub fn try_prepare_forward(
    headers: &mut HeaderMap<HeaderValue>,
    ctx: &ConnContext,
    path_and_query: Option<&str>,
    plan: &ForwardPlan,
) -> (r: Option<Result<String, UriError>>)
    ensures
        r is Some <==> header_names(*old(headers)) + 4 <= HEADER_NAMES_MAX,
        r is None ==> *final(headers) == *old(headers),
        r is Some ==> header_map(*final(headers)) == upstream_headers(
            header_map(*old(headers)),
            ctx.client_addr,
            plan.host@,
            ctx.tls,
            plan.websocket,
        ),
        r is Some ==> match upstream_uri(
            opt_text(path_and_query),
            opt_view(plan.target.host),
            plan.target.port,
        ) {
            Ok(u) => r->0 is Ok && (r->0)->Ok_0@ == u,
            Err(e) => r->0 is Err && (r->0)->Err_0 == e,
        },
{
    if has_room(headers, 4) {
        Some(prepare_forward(headers, ctx, path_and_query, plan))
    } else {
        None
    }
}

/// What to do with a backend's answer to a WebSocket handshake.
#[derive(Clone, Copy, Debug, PartialEq, Eq, Structural)]
pub enum HandshakeStep {
    /// Both sides agreed: bridge the two connections.
    Bridge,
    /// The backend declined: pass its response on.
    PassThrough,
}

/// What to do with a backend's answer to a WebSocket handshake.
pub open spec fn handshake_step(status: u16) -> HandshakeStep {
    if status == 101 {
        HandshakeStep::Bridge
    } else {
        HandshakeStep::PassThrough
    }
}

/// Decides what to do with a backend's answer to a WebSocket handshake.
pub fn after_handshake(status: u16) -> (r: HandshakeStep)
    ensures
        r == handshake_step(status),
{
    if status == 101 {
        HandshakeStep::Bridge
    } else {
        HandshakeStep::PassThrough
    }
}

/// The response headers that the client gets for a forwarded request.
pub open spec fn finished_headers(
    m: HeaderModel,
    hsts: Option<HstsConfig>,
    list: Seq<(String, String)>,
    ctx: ConnContext,
) -> HeaderModel {
    alt_svc_model(static_model(hsts_model(m, hsts), list, list.len() as int), ctx)
}

/// Finishes the headers of a response: transport security, then the route's
/// static headers, then the HTTP/3 advertisement.
pub fn finish_response(
    headers: &mut HeaderMap<HeaderValue>,
    ctx: &ConnContext,
    plan: &ForwardPlan,
)
    requires
        header_names(*old(headers)) + plan.headers@.len() + 1 <= HEADER_NAMES_MAX,
    ensures
        header_map(*final(headers)) == finished_headers(
            header_map(*old(headers)),
            plan.hsts,
            plan.headers@,
            *ctx,
        ),
{
    let hsts = match &plan.hsts {
        Some(h) => Some(h),
        None => None,
    };
    maybe_inject_hsts(headers, hsts);
    apply_static_response_headers(headers, &plan.headers);
    maybe_inject_alt_svc(headers, ctx);
}

/// Finishes the headers of a response, where they leave room for what may be
/// added; leaves them alone otherwise. Says which.
pub fn try_finish_response(
    headers: &mut HeaderMap<HeaderValue>,
    ctx: &ConnContext,
    plan: &ForwardPlan,
) -> (r: bool)
    ensures
        r == (header_names(*old(headers)) + plan.headers@.len() + 1 <= HEADER_NAMES_MAX),
        !r ==> *final(headers) == *old(headers),
        r ==> header_map(*final(headers)) == finished_headers(
            header_map(*old(headers)),
            plan.hsts,
            plan.headers@,
            *ctx,
        ),
{
    let n: usize = plan.headers.len();
    if n < HEADER_NAMES_MAX && has_room(headers, n + 1) {
        finish_response(headers, ctx, plan);
        true
    } else {
        false
    }
}

/// Law: a plaintext connection never advertises HTTP/3.
pub proof fn law_plaintext_never_advertises(m: HeaderModel, ctx: ConnContext)
    requires
        !ctx.tls,
    ensures
        alt_svc_model(m, ctx) == m,
{
}

/// Law: advertising twice is advertising once, and a value that is already
/// there wins.
pub proof fn law_advertising_is_idempotent(m: HeaderModel, ctx: ConnContext)
    ensures
        alt_svc_model(alt_svc_model(m, ctx), ctx) == alt_svc_model(m, ctx),
        m.contains_key("alt-svc"@) ==> alt_svc_model(m, ctx) == m,
{
}

/// Law: a handshake is sanitised like any other request, but that `Upgrade`
/// stays, and `Connection` where it mentions `upgrade`: both as the client sent
/// them.
pub proof fn law_handshake_keeps_only_the_upgrade(m: HeaderModel)
    ensures
        forall|k: Seq<char>|
            #![trigger sanitised_handshake(m).contains_key(k)]
            !upgrade_names().contains(k) ==> {
                &&& sanitised_handshake(m).contains_key(k) <==> sanitised_request(m).contains_key(k)
                &&& sanitised_handshake(m).contains_key(k) ==> sanitised_handshake(m)[k]
                    == sanitised_request(m)[k]
            },
        sanitised_handshake(m).contains_key("upgrade"@) <==> m.contains_key("upgrade"@),
        m.contains_key("upgrade"@) ==> sanitised_handshake(m)["upgrade"@] == m["upgrade"@],
        value_mentions(m, "connection"@, "upgrade"@) ==> (sanitised_handshake(m).contains_key(
            "connection"@,
        ) <==> m.contains_key("connection"@)),
        value_mentions(m, "connection"@, "upgrade"@) && m.contains_key("connection"@)
            ==> sanitised_handshake(m)["connection"@] == m["connection"@],
        !value_mentions(m, "connection"@, "upgrade"@) ==> !sanitised_handshake(m).contains_key(
            "connection"@,
        ),
{
    lemma_upgrade_names();
    let a = m.remove_keys(request_hop_names(m).difference(upgrade_names()));
    assert(values_of(a, "connection"@) == values_of(m, "connection"@));
    assert(value_mentions(a, "connection"@, "upgrade"@) == value_mentions(
        m,
        "connection"@,
        "upgrade"@,
    ));
}

/// The headers of an upgrade are two, and no forwarding claims.
proof fn lemma_upgrade_names()
    ensures
        "upgrade"@ != "connection"@,
        !untrusted_names().contains("upgrade"@),
        !untrusted_names().contains("connection"@),
{
    reveal_strlit("x-forwarded-for");
    reveal_strlit("x-forwarded-proto");
    reveal_strlit("x-forwarded-protocol");
    reveal_strlit("x-forwarded-host");
    reveal_strlit("x-forwarded-port");
    reveal_strlit("x-real-ip");
    reveal_strlit("forwarded");
    reveal_strlit("connection");
    reveal_strlit("upgrade");
    assert("upgrade"@.len() == 7 && "connection"@.len() == 10);
    assert("x-forwarded-for"@.len() == 15 && "x-forwarded-proto"@.len() == 17);
    assert("x-forwarded-protocol"@.len() == 20 && "x-forwarded-host"@.len() == 16);
    assert("x-forwarded-port"@.len() == 16 && "x-real-ip"@.len() == 9);
    assert("forwarded"@.len() == 9);
}

/// Law: the `Host` header reaches the backend as the client sent it.
pub proof fn law_host_is_preserved(
    m: HeaderModel,
    client: SocketAddr,
    host: Seq<char>,
    tls: bool,
    websocket: bool,
)
    ensures
        ({
            let out = upstream_headers(m, client, host, tls, websocket);
            &&& out.contains_key("host"@) <==> m.contains_key("host"@)
            &&& m.contains_key("host"@) ==> out["host"@] == m["host"@]
        }),
{
    lemma_host_is_no_special_name();
}

/// Law: a header that neither ends at this hop nor is a forwarding claim reaches
/// the backend as the client sent it.
pub proof fn law_other_headers_pass(
    m: HeaderModel,
    client: SocketAddr,
    host: Seq<char>,
    tls: bool,
    websocket: bool,
    name: Seq<char>,
)
    requires
        !request_hop_names(m).contains(name),
        !untrusted_names().contains(name),
    ensures
        ({
            let out = upstream_headers(m, client, host, tls, websocket);
            &&& out.contains_key(name) <==> m.contains_key(name)
            &&& m.contains_key(name) ==> out[name] == m[name]
        }),
{
}

/// `host` is neither a hop-by-hop header nor a forwarding claim.
proof fn lemma_host_is_no_special_name()
    ensures
        !untrusted_names().contains("host"@),
        !hop_names().contains("host"@),
        "host"@ != "connection"@,
        "host"@ != "x-forwarded-for"@,
        "host"@ != "x-real-ip"@,
        "host"@ != "x-forwarded-proto"@,
        "host"@ != "x-forwarded-protocol"@,
        "host"@ != "x-forwarded-host"@,
{
    reveal_strlit("host");
    reveal_strlit("x-forwarded-for");
    reveal_strlit("x-forwarded-proto");
    reveal_strlit("x-forwarded-protocol");
    reveal_strlit("x-forwarded-host");
    reveal_strlit("x-forwarded-port");
    reveal_strlit("x-real-ip");
    reveal_strlit("forwarded");
    reveal_strlit("connection");
    reveal_strlit("proxy-authenticate");
    reveal_strlit("proxy-authorization");
    reveal_strlit("te");
    reveal_strlit("trailer");
    reveal_strlit("transfer-encoding");
    reveal_strlit("upgrade");
    assert("host"@.len() == 4);
    assert("x-forwarded-for"@.len() == 15);
    assert("x-forwarded-proto"@.len() == 17);
    assert("x-forwarded-protocol"@.len() == 20);
    assert("x-forwarded-host"@.len() == 16);
    assert("x-forwarded-port"@.len() == 16);
    assert("x-real-ip"@.len() == 9);
    assert("forwarded"@.len() == 9);
    assert("connection"@.len() == 10);
    assert("proxy-authenticate"@.len() == 18);
    assert("proxy-authorization"@.len() == 19);
    assert("te"@.len() == 2);
    assert("trailer"@.len() == 7);
    assert("transfer-encoding"@.len() == 17);
    assert("upgrade"@.len() == 7);
}

/// Law: a request for a routed host is forwarded to that route, and its host is
/// the authority, or the first `Host` value without one. A request without host
/// is answered 400 and counted nowhere; one for any other host 404.
pub proof fn law_request_goes_to_its_route(
    authority: Option<Seq<char>>,
    http11: bool,
    m: HeaderModel,
    routes: RouteModel,
)
    ensures
        ({
            let plan = plan_of(authority, http11, m, routes);
            let named = m.contains_key("host"@) && m["host"@].len() > 0 && value_is_text(
                m["host"@][0],
            );
            let host = if authority is Some {
                authority->0
            } else {
                value_text(m["host"@][0])
            };
            &&& authority is None && !named ==> plan == (PlanView::Reply {
                status: 400,
                body: ""@,
                counted: None,
            })
            &&& (authority is Some || named) && !routes.contains_key(host_key(host)) ==> plan == (
            PlanView::Reply { status: 404, body: "no route\n"@, counted: Some("_unknown"@) })
            &&& (authority is Some || named) && routes.contains_key(host_key(host)) ==> plan
                is Forward && plan->host == host && plan->entry == routes[host_key(host)]
                && plan->label == lower(before_last_colon(host))
        }),
{
}

/// Law: a routed request is planned as a WebSocket exactly where it is HTTP/1.1,
/// its first `Upgrade` value is `websocket` in any case, and its first
/// `Connection` value mentions `upgrade` in any case. Then both headers reach the
/// backend as they came; otherwise neither reaches it.
pub proof fn law_websocket_is_planned(
    authority: Option<Seq<char>>,
    http11: bool,
    m: HeaderModel,
    routes: RouteModel,
    client: SocketAddr,
    tls: bool,
)
    requires
        plan_of(authority, http11, m, routes) is Forward,
    ensures
        ({
            let plan = plan_of(authority, http11, m, routes);
            let out = upstream_headers(m, client, plan->host, tls, plan->websocket);
            let upgrade = m.contains_key("upgrade"@) && m["upgrade"@].len() > 0 && value_is_text(
                m["upgrade"@][0],
            ) && lower(value_text(m["upgrade"@][0])) == "websocket"@;
            let mentioned = m.contains_key("connection"@) && m["connection"@].len() > 0
                && value_is_text(m["connection"@][0]) && exists|i: int|
                0 <= i <= m["connection"@][0].len() - 7 && #[trigger] lower(
                    value_text(m["connection"@][0]),
                ).subrange(i, i + 7) == "upgrade"@;
            &&& plan->websocket <==> http11 && upgrade && mentioned
            &&& plan->websocket ==> out.contains_key("upgrade"@) && out["upgrade"@]
                == m["upgrade"@] && out.contains_key("connection"@) && out["connection"@]
                == m["connection"@]
            &&& !plan->websocket ==> !out.contains_key("upgrade"@) && !out.contains_key(
                "connection"@,
            )
        }),
{
    let plan = plan_of(authority, http11, m, routes);
    reveal_strlit("upgrade");
    assert("upgrade"@.len() == 7);
    let t = lower(value_text(m["connection"@][0]));
    if exists|i: int| 0 <= i <= m["connection"@][0].len() - 7 && #[trigger] t.subrange(i, i + 7)
        == "upgrade"@ {
        let i = choose|i: int|
            0 <= i <= m["connection"@][0].len() - 7 && #[trigger] t.subrange(i, i + 7)
                == "upgrade"@;
        assert(crate::text::occurs_at(t, "upgrade"@, i));
    }
    if occurs_in(t, "upgrade"@) {
        let i = choose|i: int| crate::text::occurs_at(t, "upgrade"@, i);
        assert(t.subrange(i, i + 7) == "upgrade"@);
    }
    law_handshake_keeps_only_the_upgrade(m);
    lemma_upgrade_names();
    lemma_forwarding_names();
    assert(hop_names().contains("upgrade"@));
    assert(hop_names().contains("connection"@));
}

/// The forwarding headers are none that negotiate an upgrade.
proof fn lemma_forwarding_names()
    ensures
        "upgrade"@ != "x-forwarded-for"@,
        "upgrade"@ != "x-real-ip"@,
        "upgrade"@ != "x-forwarded-proto"@,
        "upgrade"@ != "x-forwarded-protocol"@,
        "upgrade"@ != "x-forwarded-host"@,
        "connection"@ != "x-forwarded-for"@,
        "connection"@ != "x-real-ip"@,
        "connection"@ != "x-forwarded-proto"@,
        "connection"@ != "x-forwarded-protocol"@,
        "connection"@ != "x-forwarded-host"@,
{
    reveal_strlit("x-forwarded-for");
    reveal_strlit("x-forwarded-proto");
    reveal_strlit("x-forwarded-protocol");
    reveal_strlit("x-forwarded-host");
    reveal_strlit("x-real-ip");
    reveal_strlit("connection");
    reveal_strlit("upgrade");
    assert("upgrade"@.len() == 7 && "connection"@.len() == 10);
    assert("x-forwarded-for"@.len() == 15 && "x-forwarded-proto"@.len() == 17);
    assert("x-forwarded-protocol"@.len() == 20 && "x-forwarded-host"@.len() == 16);
    assert("x-real-ip"@.len() == 9);
}

/// Law: the backend hears of the client from the proxy alone: the forwarding
/// headers hold the client's address, the scheme that it used and the host that
/// it asked for, whatever the client claimed, for a plain request and for a
/// handshake alike.
pub proof fn law_backend_hears_of_the_client_from_us(
    m: HeaderModel,
    client: SocketAddr,
    host: Seq<char>,
    tls: bool,
    websocket: bool,
)
    ensures
        ({
            let out = upstream_headers(m, client, host, tls, websocket);
            let scheme = if tls {
                "https"@
            } else {
                "http"@
            };
            let ip = crate::addr::ip_text(addr_ip(client));
            &&& values_of(out, "x-forwarded-for"@) == crate::forward::sole_value(ip)
            &&& values_of(out, "x-real-ip"@) == crate::forward::sole_value(ip)
            &&& values_of(out, "x-forwarded-proto"@) == crate::forward::sole_value(scheme)
            &&& values_of(out, "x-forwarded-protocol"@) == crate::forward::sole_value(scheme)
            &&& values_of(out, "x-forwarded-host"@) == crate::forward::sole_value(host)
            &&& values_of(out, "x-forwarded-port"@) == Seq::<Seq<u8>>::empty()
            &&& values_of(out, "forwarded"@) == Seq::<Seq<u8>>::empty()
        }),
{
    let clean = if websocket {
        sanitised_handshake(m)
    } else {
        sanitised_request(m)
    };
    assert(clean.remove_keys(untrusted_names()) =~= clean);
    crate::forward::law_forwarding_headers_are_ours(
        clean,
        addr_ip(client),
        Some(host),
        scheme_of(tls),
    );
}

/// Law: what belongs to one connection, and what `Connection` nominates, does not
/// reach the backend; `Upgrade` and `Connection` do in a handshake.
pub proof fn law_connection_headers_stay_here(
    m: HeaderModel,
    client: SocketAddr,
    host: Seq<char>,
    tls: bool,
    websocket: bool,
)
    ensures
        ({
            let out = upstream_headers(m, client, host, tls, websocket);
            &&& !out.contains_key("proxy-authenticate"@)
            &&& !out.contains_key("proxy-authorization"@)
            &&& !out.contains_key("te"@)
            &&& !out.contains_key("trailer"@)
            &&& !out.contains_key("transfer-encoding"@)
            &&& !websocket ==> !out.contains_key("connection"@) && !out.contains_key("upgrade"@)
        }),
{
    lemma_forwarding_names();
    lemma_upgrade_names();
    reveal_strlit("proxy-authenticate");
    reveal_strlit("proxy-authorization");
    reveal_strlit("te");
    reveal_strlit("trailer");
    reveal_strlit("transfer-encoding");
    reveal_strlit("connection");
    reveal_strlit("upgrade");
    reveal_strlit("x-forwarded-for");
    reveal_strlit("x-forwarded-proto");
    reveal_strlit("x-forwarded-protocol");
    reveal_strlit("x-forwarded-host");
    reveal_strlit("x-real-ip");
    assert("trailer"@[0] == 't' && "upgrade"@[0] == 'u');
    assert("transfer-encoding"@[0] == 't' && "x-forwarded-proto"@[0] == 'x');
    assert("proxy-authenticate"@.len() == 18 && "proxy-authorization"@.len() == 19);
    assert("te"@.len() == 2 && "trailer"@.len() == 7 && "transfer-encoding"@.len() == 17);
    assert("connection"@.len() == 10 && "upgrade"@.len() == 7);
    assert("x-forwarded-for"@.len() == 15 && "x-forwarded-proto"@.len() == 17);
    assert("x-forwarded-protocol"@.len() == 20 && "x-forwarded-host"@.len() == 16);
    assert("x-real-ip"@.len() == 9);
    assert(hop_names().contains("proxy-authenticate"@));
    assert(hop_names().contains("proxy-authorization"@));
    assert(hop_names().contains("te"@));
    assert(hop_names().contains("trailer"@));
    assert(hop_names().contains("transfer-encoding"@));
    assert(hop_names().contains("connection"@));
    assert(hop_names().contains("upgrade"@));
}

/// Law: HTTP/3 is advertised, on the listener's own port and for a day, exactly
/// where the connection is TLS, the listener is an HTTPS one, HTTP/3 is served,
/// and the response names no alternative itself.
pub proof fn law_http3_is_advertised(m: HeaderModel, ctx: ConnContext, other: Seq<char>)
    ensures
        ({
            let out = alt_svc_model(m, ctx);
            let fit = ctx.tls && ctx.emit_alt_svc && ctx.rule is Some && ctx.rule->0.protocol
                == Protocol::Https;
            &&& fit && !m.contains_key("alt-svc"@) ==> values_of(out, "alt-svc"@)
                == crate::forward::sole_value(
                "h3=\":"@ + dec(addr_port(ctx.rule->0.listen) as nat) + "\"; ma=86400"@,
            )
            &&& !fit ==> out == m
            &&& other != "alt-svc"@ ==> values_of(out, other) == values_of(m, other)
        }),
{
}

/// Law: a response goes out with the route's policy, its static headers and the
/// advertisement, each of which leaves alone what is none of its own.
pub proof fn law_response_is_finished_in_order(
    m: HeaderModel,
    hsts: Option<HstsConfig>,
    list: Seq<(String, String)>,
    ctx: ConnContext,
)
    ensures
        list.len() == 0 && !ctx.tls ==> finished_headers(m, hsts, list, ctx) == hsts_model(m, hsts),
        hsts is None && list.len() == 0 ==> finished_headers(m, hsts, list, ctx) == alt_svc_model(
            m,
            ctx,
        ),
        hsts is None && !ctx.tls ==> finished_headers(m, hsts, list, ctx) == static_model(
            m,
            list,
            list.len() as int,
        ),
        static_model(hsts_model(m, hsts), list, list.len() as int).contains_key("alt-svc"@)
            ==> finished_headers(m, hsts, list, ctx) == static_model(
            hsts_model(m, hsts),
            list,
            list.len() as int,
        ),
{
}

/// Law: the class of a status is its first digit, and anything out of range counts
/// as a server error.
pub proof fn law_status_class_is_its_first_digit(status: u16)
    ensures
        100 <= status < 500 ==> class_of(status) == seq![
            crate::text::digit_char((status / 100) as nat),
            'x',
            'x',
        ],
        status < 100 || status >= 500 ==> class_of(status) == seq!['5', 'x', 'x'],
{
    reveal_strlit("1xx");
    reveal_strlit("2xx");
    reveal_strlit("3xx");
    reveal_strlit("4xx");
    reveal_strlit("5xx");
    assert("1xx"@ =~= seq!['1', 'x', 'x']);
    assert("2xx"@ =~= seq!['2', 'x', 'x']);
    assert("3xx"@ =~= seq!['3', 'x', 'x']);
    assert("4xx"@ =~= seq!['4', 'x', 'x']);
    assert("5xx"@ =~= seq!['5', 'x', 'x']);
}

/// Law: two connections are bridged where the backend switches protocols, and
/// no other answer of its does that.
pub proof fn law_only_switching_protocols_bridges(status: u16)
    ensures
        handshake_step(101) == HandshakeStep::Bridge,
        status != 101 ==> handshake_step(status) == HandshakeStep::PassThrough,
{
}

/// Law: a plan that forwards a request holds the route's own target, policy and
/// headers, so that the request goes to the route's URI, and the host that was
/// asked for. It bridges a WebSocket exactly where the request opens one.
pub proof fn law_forwarded_request_has_its_route(
    f: ForwardPlan,
    authority: Seq<char>,
    http11: bool,
    m: HeaderModel,
    routes: RouteModel,
    path_and_query: Option<Seq<char>>,
)
    requires
        plan_is(RequestPlan::Forward(f), plan_of(Some(authority), http11, m, routes)),
    ensures
        ({
            let route = routes[host_key(authority)];
            &&& routes.contains_key(host_key(authority))
            &&& f.host@ == authority
            &&& f.label@ == lower(before_last_colon(authority))
            &&& f.target.url@ == route.url
            &&& upstream_uri(path_and_query, opt_view(f.target.host), f.target.port)
                == upstream_uri(path_and_query, route.host, route.port)
            &&& f.hsts == route.hsts
            &&& pair_views(f.headers@) == route.headers
            &&& f.websocket ==> http11 && m.contains_key("upgrade"@) && m.contains_key(
                "connection"@,
            )
        }),
{
}

/// Law: a request that is answered here is answered as plain text, with the
/// planned status and body, and counted where planned.
pub proof fn law_own_answers_are_plain_text(
    response: ShortResponse,
    label: Option<&'static str>,
    authority: Option<Seq<char>>,
    http11: bool,
    m: HeaderModel,
    routes: RouteModel,
)
    requires
        plan_is(RequestPlan::Reply { response, label }, plan_of(authority, http11, m, routes)),
    ensures
        response.content_type@ == "text/plain; charset=utf-8"@,
        request_host(authority, m) is None ==> response.status == 400 && response.body@ == ""@
            && label is None,
        request_host(authority, m) is Some ==> !routes.contains_key(
            host_key(request_host(authority, m)->0),
        ) && response.status == 404 && response.body@ == "no route\n"@ && label is Some
            && label->0@ == "_unknown"@,
{
}

} // verus!
