//! Per-stream decisions of the HTTP/3 frontend.

use http::header::{HeaderMap, HeaderValue};
use vstd::prelude::*;
use vstd::string::*;

use crate::addr::{addr_ip, SocketAddr};
use crate::certs::store::{CertStore, StoreView};
use crate::forward::{
    build_upstream_uri, forwarded_model, hsts_model, inject_forwarded, maybe_inject_hsts,
    upstream_uri, without_hop_by_hop, UriError,
};
use crate::headers::{
    has_room, header_map, header_names, values_of, HeaderModel, HEADER_NAMES_MAX,
};
use crate::http_frontend::request::{
    extract_host, request_host, sanitise_request_headers, sanitise_response_headers,
    sanitised_request, upstream_headers, RequestHead,
};
use crate::http_frontend::route::{extended, host_key, RouteModel, RouteTable};
use crate::path::{debug_text, quoted};
use crate::rule::{HstsConfig, HttpRoute, RouteView};
use crate::text::{lower, opt_view};

verus! {

broadcast use vstd::string::group_string_axioms;

/// Largest request body that is buffered, in bytes.
pub const H3_REQUEST_BODY_LIMIT: usize = 16777216;

/// Largest piece of a response body that is sent at once, in bytes.
pub const H3_RESPONSE_CHUNK_BYTES: usize = 8192;

/// Body of the answer to a `CONNECT`.
pub const WS_H3_501_BODY: &'static str =
    "websocket-over-h3 (RFC 9220 extended CONNECT) not supported; fall back to HTTP/2\n";

/// What to do with a stream.
#[derive(Debug)]
pub enum H3Plan {
    /// Answer here, as plain text.
    Reply { status: u16, body: &'static str },
    /// Answer here, as plain text, and name the WebSocket version that HTTP/2
    /// supports.
    RefuseWebsocket { status: u16, body: &'static str, version: &'static str },
    /// Send the request to this URI.
    Forward { host: String, uri: String, hsts: Option<HstsConfig> },
}

/// The model of an [`H3Plan`].
pub enum H3PlanView {
    Reply { status: u16, body: Seq<char> },
    RefuseWebsocket { status: u16, body: Seq<char>, version: Seq<char> },
    Forward { host: Seq<char>, uri: Seq<char>, hsts: Option<HstsConfig> },
}

impl View for H3Plan {
    type V = H3PlanView;

    open spec fn view(&self) -> H3PlanView {
        match self {
            H3Plan::Reply { status, body } => H3PlanView::Reply { status: *status, body: body@ },
            H3Plan::RefuseWebsocket { status, body, version } => H3PlanView::RefuseWebsocket {
                status: *status,
                body: body@,
                version: version@,
            },
            H3Plan::Forward { host, uri, hsts } => H3PlanView::Forward {
                host: host@,
                uri: uri@,
                hsts: *hsts,
            },
        }
    }
}

/// What to do with a stream: 400 without a host, 404 without a route, 501 for
/// any `CONNECT`, 502 where the route's target makes no URI, else forward.
pub open spec fn h3_plan(
    authority: Option<Seq<char>>,
    path_and_query: Option<Seq<char>>,
    is_connect: bool,
    m: HeaderModel,
    routes: RouteModel,
) -> H3PlanView {
    match request_host(authority, m) {
        None => H3PlanView::Reply { status: 400, body: "missing :authority/Host\n"@ },
        Some(host) => if !routes.contains_key(host_key(host)) {
            H3PlanView::Reply { status: 404, body: "no route\n"@ }
        } else if is_connect {
            H3PlanView::RefuseWebsocket { status: 501, body: WS_H3_501_BODY@, version: "13"@ }
        } else {
            let entry = routes[host_key(host)];
            match upstream_uri(path_and_query, entry.host, entry.port) {
                Err(_) => H3PlanView::Reply { status: 502, body: "bad upstream\n"@ },
                Ok(uri) => H3PlanView::Forward { host, uri, hsts: entry.hsts },
            }
        },
    }
}

/// Decides what to do with a stream.
pub fn plan_stream(
    head: &RequestHead,
    is_connect: bool,
    headers: &HeaderMap<HeaderValue>,
    routes: &RouteTable,
) -> (r: H3Plan)
    requires
        routes.wf(),
    ensures
        r@ == h3_plan(
            opt_view(head.authority),
            opt_view(head.path_and_query),
            is_connect,
            header_map(*headers),
            routes@,
        ),
{
    let authority = match &head.authority {
        Some(a) => Some(a.as_str()),
        None => None,
    };
    let path_and_query = match &head.path_and_query {
        Some(p) => Some(p.as_str()),
        None => None,
    };
    let host = match extract_host(authority, headers) {
        Some(h) => h,
        None => {
            return H3Plan::Reply { status: 400, body: "missing :authority/Host\n" };
        },
    };
    let entry = match routes.lookup(host.as_str()) {
        Some(e) => e,
        None => {
            return H3Plan::Reply { status: 404, body: "no route\n" };
        },
    };
    if is_connect {
        return H3Plan::RefuseWebsocket { status: 501, body: WS_H3_501_BODY, version: "13" };
    }
    match build_upstream_uri(path_and_query, &entry.target) {
        Err(_) => H3Plan::Reply { status: 502, body: "bad upstream\n" },
        Ok(uri) => H3Plan::Forward { host, uri, hsts: entry.hsts },
    }
}

/// The headers of a request as its backend gets them. HTTP/3 is always `https`
/// towards the client.
pub open spec fn stream_headers(m: HeaderModel, client: SocketAddr, host: Seq<char>) -> HeaderModel {
    forwarded_model(sanitised_request(m), addr_ip(client), Some(host), "https"@)
}

/// The headers of a backend's response as the client gets them.
pub open spec fn stream_response(m: HeaderModel, hsts: Option<HstsConfig>) -> HeaderModel {
    hsts_model(without_hop_by_hop(m), hsts)
}

/// Rewrites the headers of a request for its backend. HTTP/3 is always `https`
/// towards the client.
pub fn prepare_stream(headers: &mut HeaderMap<HeaderValue>, client: SocketAddr, host: &str)
    requires
        header_names(*old(headers)) + 4 <= HEADER_NAMES_MAX,
    ensures
        header_map(*final(headers)) == stream_headers(header_map(*old(headers)), client, host@),
{
    sanitise_request_headers(headers);
    inject_forwarded(headers, client.ip(), Some(host), "https");
}

/// Finishes the headers of a backend's response.
pub fn finish_stream(headers: &mut HeaderMap<HeaderValue>, hsts: Option<&HstsConfig>)
    requires
        header_names(*old(headers)) <= HEADER_NAMES_MAX,
    ensures
        header_map(*final(headers)) == stream_response(
            header_map(*old(headers)),
            crate::forward::opt_val(hsts),
        ),
{
    sanitise_response_headers(headers);
    maybe_inject_hsts(headers, hsts);
}

/// Rewrites the headers of a request for its backend, where they leave room
/// for the forwarding ones; leaves them alone otherwise. Says which.
pub fn try_prepare_stream(
    headers: &mut HeaderMap<HeaderValue>,
    client: SocketAddr,
    host: &str,
) -> (r: bool)
    ensures
        r == (header_names(*old(headers)) + 4 <= HEADER_NAMES_MAX),
        !r ==> *final(headers) == *old(headers),
        r ==> header_map(*final(headers)) == stream_headers(
            header_map(*old(headers)),
            client,
            host@,
        ),
{
    if has_room(headers, 4) {
        prepare_stream(headers, client, host);
        true
    } else {
        false
    }
}

/// Finishes the headers of a backend's response, where they leave room for one
/// more; leaves them alone otherwise. Says which.
pub fn try_finish_stream(headers: &mut HeaderMap<HeaderValue>, hsts: Option<&HstsConfig>) -> (r:
    bool)
    ensures
        r == (header_names(*old(headers)) <= HEADER_NAMES_MAX),
        !r ==> *final(headers) == *old(headers),
        r ==> header_map(*final(headers)) == stream_response(
            header_map(*old(headers)),
            crate::forward::opt_val(hsts),
        ),
{
    if has_room(headers, 0) {
        finish_stream(headers, hsts);
        true
    } else {
        false
    }
}

/// The answers that do not depend on the request: a body that is too large, and
/// a backend that cannot be reached.
pub open spec fn fixed_answer(too_large: bool) -> H3PlanView {
    if too_large {
        H3PlanView::Reply { status: 413, body: "request body exceeds h3 buffer cap\n"@ }
    } else {
        H3PlanView::Reply { status: 502, body: "backend unreachable\n"@ }
    }
}

/// The body so far and whether a chunk was accepted.
pub open spec fn body_pushed(bytes: Seq<u8>, cap: usize, chunk: Seq<u8>) -> (Seq<u8>, bool) {
    if bytes.len() + chunk.len() <= cap {
        (bytes + chunk, true)
    } else {
        (bytes, false)
    }
}

/// The routes that are served, or the message where there are none.
pub open spec fn tls_selection(
    name: Seq<char>,
    routes: Seq<RouteView>,
    store: StoreView,
) -> Result<Seq<RouteView>, Seq<char>> {
    let chosen = tls_routes(routes, store, routes.len() as int);
    if chosen.len() == 0 {
        Err(nothing_to_serve(name))
    } else {
        Ok(chosen)
    }
}

/// The answer where a body is too large.
pub fn too_large() -> (r: H3Plan)
    ensures
        r@ == fixed_answer(true),
        r@ == (H3PlanView::Reply { status: 413, body: "request body exceeds h3 buffer cap\n"@ }),
{
    H3Plan::Reply { status: 413, body: "request body exceeds h3 buffer cap\n" }
}

/// The answer where the backend cannot be reached.
pub fn backend_unreachable() -> (r: H3Plan)
    ensures
        r@ == fixed_answer(false),
        r@ == (H3PlanView::Reply { status: 502, body: "backend unreachable\n"@ }),
{
    H3Plan::Reply { status: 502, body: "backend unreachable\n" }
}

/// A request body as it comes in, up to a cap.
pub struct BodyBuffer {
    pub bytes: Vec<u8>,
    pub cap: usize,
}

impl BodyBuffer {
    /// The body is within the cap.
    pub open spec fn wf(&self) -> bool {
        self.bytes@.len() <= self.cap
    }

    /// An empty body.
    pub fn new(cap: usize) -> (r: Self)
        ensures
            r.wf(),
            r.bytes@ == Seq::<u8>::empty(),
            r.cap == cap,
    {
        let bytes: Vec<u8> = Vec::new();
        assert(bytes@ =~= Seq::<u8>::empty());
        BodyBuffer { bytes, cap }
    }

    /// Adds a chunk; refused, with nothing added, where the body would exceed
    /// the cap.
    pub fn push(&mut self, chunk: &[u8]) -> (accepted: bool)
        requires
            old(self).wf(),
        ensures
            final(self).wf(),
            final(self).cap == old(self).cap,
            (final(self).bytes@, accepted) == body_pushed(old(self).bytes@, old(self).cap, chunk@),
            accepted == (old(self).bytes@.len() + chunk@.len() <= old(self).cap),
            accepted ==> final(self).bytes@ == old(self).bytes@ + chunk@,
            !accepted ==> final(self).bytes@ == old(self).bytes@,
    {
        let n: usize = chunk.len();
        if n > self.cap - self.bytes.len() {
            return false;
        }
        let ghost before = self.bytes@;
        let ghost cap0 = self.cap;
        for i in 0..n
            invariant
                n == chunk@.len(),
                self.cap == cap0,
                self.bytes@ == before + chunk@.subrange(0, i as int),
        {
            self.bytes.push(chunk[i]);
            assert(self.bytes@ =~= before + chunk@.subrange(0, i + 1));
        }
        assert(chunk@.subrange(0, n as int) =~= chunk@);
        true
    }
}

/// How much of a response body is sent next.
pub fn next_chunk(remaining: usize) -> (r: usize)
    ensures
        r == (if remaining < H3_RESPONSE_CHUNK_BYTES {
            remaining
        } else {
            H3_RESPONSE_CHUNK_BYTES
        }),
        r <= remaining,
        r <= 8192,
        remaining > 0 ==> r > 0,
        r < 8192 ==> r == remaining,
{
    if remaining < H3_RESPONSE_CHUNK_BYTES {
        remaining
    } else {
        H3_RESPONSE_CHUNK_BYTES
    }
}

/// The first `n` routes that have a certificate, in order.
pub open spec fn tls_routes(routes: Seq<RouteView>, store: StoreView, n: int) -> Seq<RouteView>
    decreases n,
{
    if n <= 0 {
        Seq::empty()
    } else {
        let before = tls_routes(routes, store, n - 1);
        if store.entries.contains_key(lower(routes[n - 1].hostname)) {
            before.push(routes[n - 1])
        } else {
            before
        }
    }
}

/// The message where no route has a certificate.
pub open spec fn nothing_to_serve(name: Seq<char>) -> Seq<char> {
    "HTTPS frontend "@ + debug_text(name)
        + ": every route is cert-less; nothing to serve on HTTP/3"@
}

/// The routes that have a certificate; an error where none has.
pub fn select_tls_routes(name: &str, routes: &[HttpRoute], store: &CertStore) -> (r: Result<
    Vec<HttpRoute>,
    String,
>)
    requires
        store.wf(),
    ensures
        match tls_selection(name@, crate::rule::route_views(routes@), store@) {
            Ok(chosen) => r is Ok && crate::rule::route_views(r->Ok_0@) == chosen,
            Err(m) => r is Err && r->Err_0@ == m,
        },
        ({
            let all = crate::rule::route_views(routes@);
            let chosen = tls_routes(all, store@, all.len() as int);
            if chosen.len() == 0 {
                r is Err && r->Err_0@ == nothing_to_serve(name@)
            } else {
                r is Ok && crate::rule::route_views(r->Ok_0@) == chosen
            }
        }),
{
    let mut out: Vec<HttpRoute> = Vec::new();
    let ghost all = crate::rule::route_views(routes@);
    assert(crate::rule::route_views(out@) =~= Seq::<RouteView>::empty());
    for i in 0..routes.len()
        invariant
            store.wf(),
            all == crate::rule::route_views(routes@),
            crate::rule::route_views(out@) == tls_routes(all, store@, i as int),
    {
        assert(all[i as int] == routes@[i as int]@);
        if store.contains(routes[i].hostname.as_str()) {
            let ghost done = out@;
            out.push(routes[i].clone());
            assert(crate::rule::route_views(out@) =~= crate::rule::route_views(done).push(
                all[i as int],
            ));
        }
    }
    assert(crate::rule::route_views(out@).len() == out@.len());
    if out.len() == 0 {
        let mut s = "HTTPS frontend ".to_owned();
        s.append(quoted(name).as_str());
        s.append(": every route is cert-less; nothing to serve on HTTP/3");
        Err(s)
    } else {
        Ok(out)
    }
}

/// Law: a backend cannot tell a request over HTTP/3 from the same request over
/// HTTPS on TCP: it gets the same headers, at the same URI.
pub proof fn law_both_transports_look_alike(
    authority: Option<Seq<char>>,
    path_and_query: Option<Seq<char>>,
    m: HeaderModel,
    routes: RouteModel,
    client: SocketAddr,
)
    requires
        h3_plan(authority, path_and_query, false, m, routes) is Forward,
    ensures
        ({
            let plan = h3_plan(authority, path_and_query, false, m, routes);
            let host = request_host(authority, m)->0;
            let entry = routes[host_key(host)];
            &&& routes.contains_key(host_key(host))
            &&& plan->host == host
            &&& plan->hsts == entry.hsts
            &&& upstream_uri(path_and_query, entry.host, entry.port) == Ok::<Seq<char>, UriError>(
                plan->uri,
            )
            &&& stream_headers(m, client, plan->host) == upstream_headers(
                m,
                client,
                host,
                true,
                false,
            )
        }),
{
}

/// Law: every route that is served over TLS has a certificate.
pub proof fn law_served_routes_have_certificates(
    routes: Seq<RouteView>,
    store: StoreView,
    n: int,
)
    requires
        0 <= n <= routes.len(),
    ensures
        forall|i: int|
            0 <= i < tls_routes(routes, store, n).len() ==> store.entries.contains_key(
                lower((#[trigger] tls_routes(routes, store, n)[i]).hostname),
            ),
        forall|i: int|
            0 <= i < n && store.entries.contains_key(lower((#[trigger] routes[i]).hostname))
                ==> tls_routes(routes, store, n).contains(routes[i]),
    decreases n,
{
    if n > 0 {
        law_served_routes_have_certificates(routes, store, n - 1);
        let a = tls_routes(routes, store, n - 1);
        let b = tls_routes(routes, store, n);
        assert forall|i: int|
            0 <= i < n && store.entries.contains_key(
                lower((#[trigger] routes[i]).hostname),
            ) implies b.contains(routes[i]) by {
            if i < n - 1 {
                assert(a.contains(routes[i]));
                let k = choose|k: int| 0 <= k < a.len() && a[k] == routes[i];
                assert(b[k] == routes[i]);
            } else {
                assert(b[b.len() - 1] == routes[i]);
            }
        }
    }
}

/// Law: a backend hears over HTTP/3 who the client is, by which host it was
/// asked, and that the client speaks HTTPS, from us and from nobody else.
pub proof fn law_backend_hears_of_the_client_over_http3(
    m: HeaderModel,
    client: SocketAddr,
    host: Seq<char>,
)
    ensures
        ({
            let out = stream_headers(m, client, host);
            let ip = crate::addr::ip_text(addr_ip(client));
            &&& values_of(out, "x-forwarded-for"@) == crate::forward::sole_value(ip)
            &&& values_of(out, "x-real-ip"@) == crate::forward::sole_value(ip)
            &&& values_of(out, "x-forwarded-proto"@) == crate::forward::sole_value("https"@)
            &&& values_of(out, "x-forwarded-protocol"@) == crate::forward::sole_value("https"@)
            &&& values_of(out, "x-forwarded-host"@) == crate::forward::sole_value(host)
            &&& values_of(out, "x-forwarded-port"@) == Seq::<Seq<u8>>::empty()
            &&& values_of(out, "forwarded"@) == Seq::<Seq<u8>>::empty()
        }),
{
    assert(stream_headers(m, client, host) == upstream_headers(m, client, host, true, false));
    crate::http_frontend::request::law_backend_hears_of_the_client_from_us(
        m,
        client,
        host,
        true,
        false,
    );
}

/// Law: what belongs to the backend's connection does not reach the client over
/// HTTP/3, and the route's policy is announced where the backend announces
/// none; without a policy nothing is added.
pub proof fn law_response_over_http3(m: HeaderModel, cfg: HstsConfig)
    ensures
        !stream_response(m, None).contains_key("connection"@),
        !stream_response(m, None).contains_key("transfer-encoding"@),
        !stream_response(m, None).contains_key("upgrade"@),
        stream_response(m, None) == without_hop_by_hop(m),
        !without_hop_by_hop(m).contains_key("strict-transport-security"@) ==> values_of(
            stream_response(m, Some(cfg)),
            "strict-transport-security"@,
        ) == crate::forward::sole_value(
            "max-age="@ + crate::text::dec(cfg.max_age as nat) + (if cfg.include_subdomains {
                "; includeSubDomains"@
            } else {
                Seq::empty()
            }) + (if cfg.preload {
                "; preload"@
            } else {
                Seq::empty()
            }),
        ),
        values_of(stream_response(m, Some(cfg)), "connection"@).len() == 0,
{
    crate::forward::law_connection_headers_go(m);
    crate::forward::law_policy_is_announced(without_hop_by_hop(m), cfg, "connection"@);
    reveal_strlit("connection");
    reveal_strlit("strict-transport-security");
    assert("connection"@.len() != "strict-transport-security"@.len());
}

/// Law: a stream without a host is answered 400, one for a host that is not
/// served 404, and a `CONNECT` for one that is served 501, with the WebSocket
/// version that HTTP/2 supports. Any other stream goes to the host's route, or
/// is answered 502 where the route's target makes no URI.
pub proof fn law_stream_is_answered(
    authority: Option<Seq<char>>,
    path_and_query: Option<Seq<char>>,
    is_connect: bool,
    m: HeaderModel,
    routes: RouteModel,
)
    ensures
        ({
            let plan = h3_plan(authority, path_and_query, is_connect, m, routes);
            let host = request_host(authority, m);
            let served = host is Some && routes.contains_key(host_key(host->0));
            let entry = routes[host_key(host->0)];
            let uri = upstream_uri(path_and_query, entry.host, entry.port);
            &&& host is None ==> plan is Reply && plan->Reply_status == 400 && plan->Reply_body
                == "missing :authority/Host\n"@
            &&& host is Some && !served ==> plan is Reply && plan->Reply_status == 404
                && plan->Reply_body == "no route\n"@
            &&& served && is_connect ==> plan is RefuseWebsocket && plan->RefuseWebsocket_status
                == 501 && plan->version == "13"@
            &&& served && !is_connect && uri is Ok ==> plan is Forward && plan->uri == uri->Ok_0
                && plan->host == host->0 && plan->hsts == entry.hsts
            &&& served && !is_connect && uri is Err ==> plan is Reply && plan->Reply_status == 502
                && plan->Reply_body == "bad upstream\n"@
        }),
{
}

/// Law: a request body is buffered up to sixteen mebibytes.
pub proof fn law_body_limit()
    ensures
        H3_REQUEST_BODY_LIMIT == 16 * 1024 * 1024,
        H3_RESPONSE_CHUNK_BYTES == 8 * 1024,
{
}

/// Law: the routes that are served over TLS keep their order, and none without
/// a certificate is among them.
pub proof fn law_served_routes_keep_their_order(
    routes: Seq<RouteView>,
    store: StoreView,
    n: int,
)
    requires
        0 <= n <= routes.len(),
    ensures
        tls_routes(routes, store, 0).len() == 0,
        n < routes.len() && store.entries.contains_key(lower(routes[n].hostname)) ==> tls_routes(
            routes,
            store,
            n + 1,
        ) == tls_routes(routes, store, n) + seq![routes[n]],
        n < routes.len() && !store.entries.contains_key(lower(routes[n].hostname)) ==> tls_routes(
            routes,
            store,
            n + 1,
        ) == tls_routes(routes, store, n),
{
}

/// Law: a body that is too large is answered 413, and a backend that cannot be
/// reached 502.
pub proof fn law_failures_have_their_status()
    ensures
        fixed_answer(true) is Reply,
        fixed_answer(true)->Reply_status == 413,
        fixed_answer(true)->Reply_body == "request body exceeds h3 buffer cap\n"@,
        fixed_answer(false) is Reply,
        fixed_answer(false)->Reply_status == 502,
        fixed_answer(false)->Reply_body == "backend unreachable\n"@,
{
}

/// Law: chunks are kept in order, up to exactly the cap, and a chunk that does
/// not fit leaves the body as it was.
pub proof fn law_body_is_kept_up_to_its_cap(bytes: Seq<u8>, cap: usize, a: Seq<u8>, b: Seq<u8>)
    ensures
        bytes.len() + a.len() == cap ==> body_pushed(bytes, cap, a) == (bytes + a, true),
        bytes.len() + a.len() > cap ==> body_pushed(bytes, cap, a) == (bytes, false),
        bytes.len() + a.len() + b.len() <= cap ==> body_pushed(
            body_pushed(bytes, cap, a).0,
            cap,
            b,
        ) == (bytes + a + b, true),
{
}

/// Law: a frontend serves the routes that have a certificate, and refuses to
/// start where none has, by its name.
pub proof fn law_frontend_needs_a_certificate(
    name: Seq<char>,
    routes: Seq<RouteView>,
    store: StoreView,
    i: int,
)
    ensures
        0 <= i < routes.len() && store.entries.contains_key(lower(routes[i].hostname))
            ==> tls_selection(name, routes, store) is Ok && tls_selection(
            name,
            routes,
            store,
        )->Ok_0.contains(routes[i]),
        (forall|j: int|
            0 <= j < routes.len() ==> !store.entries.contains_key(
                lower((#[trigger] routes[j]).hostname),
            )) ==> tls_selection(name, routes, store) == Err::<Seq<RouteView>, Seq<char>>(
            "HTTPS frontend "@ + debug_text(name)
                + ": every route is cert-less; nothing to serve on HTTP/3"@,
        ),
{
    let n = routes.len() as int;
    law_served_routes_have_certificates(routes, store, n);
    let chosen = tls_routes(routes, store, n);
    if forall|j: int|
        0 <= j < routes.len() ==> !store.entries.contains_key(
            lower((#[trigger] routes[j]).hostname),
        ) {
        lemma_no_tls_routes(routes, store, n);
    }
}

/// No route is chosen where none has a certificate.
proof fn lemma_no_tls_routes(routes: Seq<RouteView>, store: StoreView, n: int)
    requires
        n <= routes.len(),
        forall|j: int|
            0 <= j < routes.len() ==> !store.entries.contains_key(
                lower((#[trigger] routes[j]).hostname),
            ),
    ensures
        tls_routes(routes, store, n).len() == 0,
    decreases n,
{
    if n > 0 {
        lemma_no_tls_routes(routes, store, n - 1);
        assert(!store.entries.contains_key(lower(routes[n - 1].hostname)));
    }
}

} // verus!
