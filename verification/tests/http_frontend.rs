use http::header::{HeaderMap, HeaderValue};
use http::Method;
use http::Request as HttpRequest;
use yggdrasil::acme::http01::AcmeResponder;
use yggdrasil::addr::{IpAddr, Ipv4Addr, SocketAddr};
use yggdrasil::forward::{Target, UriError};
use yggdrasil::headers::has_room;
use yggdrasil::http_frontend::acceptor::{alpn_is_h2, classify_tls_error, client_addr, PrefixedStream};
use yggdrasil::http_frontend::redirect::{plan_companion, CompanionPlan, CompanionState, HostSet};
use yggdrasil::http_frontend::request::{
    after_handshake, extract_host, is_websocket_upgrade, maybe_inject_alt_svc, plan_request,
    prepare_forward, sanitise_request_headers, sanitise_request_headers_for_websocket,
    sanitise_response_headers, short_response, status_class, try_finish_response,
    try_prepare_forward, ConnContext, ForwardPlan, HandshakeStep, ListenerRule, RequestHead, RequestPlan,
};
use yggdrasil::http_frontend::route::{host_key_of, RouteTable};
use yggdrasil::proxy_protocol::ProxyEndpoints;
use yggdrasil::rule::{HstsConfig, HttpRoute, Protocol};

fn req_with(headers: &[(&'static str, &'static str)]) -> HttpRequest<()> {
    let mut b = HttpRequest::builder().uri("/foo").method(Method::GET);
    for (k, v) in headers {
        b = b.header(*k, *v);
    }
    b.body(()).unwrap()
}

fn route(host: &str, target: &str) -> HttpRoute {
    HttpRoute {
        hostname: host.to_string(),
        target: Target::parse(target).unwrap(),
        cert: None,
        key: None,
        hsts: None,
        headers: vec![],
    }
}

fn sa(a: u8, b: u8, c: u8, d: u8, port: u16) -> SocketAddr {
    SocketAddr::new(IpAddr::V4(Ipv4Addr::new(a, b, c, d)), port)
}

fn host_of(r: &HttpRequest<()>) -> Option<String> {
    extract_host(r.uri().authority().map(|a| a.as_str()), r.headers())
}

fn websocket_signals() {
    let r1 = req_with(&[("upgrade", "websocket"), ("connection", "upgrade")]);
    assert!(is_websocket_upgrade(r1.headers()));
    let r2 = req_with(&[("upgrade", "websocket")]);
    assert!(!is_websocket_upgrade(r2.headers()));
    let r3 = req_with(&[("connection", "upgrade")]);
    assert!(!is_websocket_upgrade(r3.headers()));
    let r4 = req_with(&[("upgrade", "h2c"), ("connection", "upgrade")]);
    assert!(!is_websocket_upgrade(r4.headers()));
}

#[test]
fn http_frontend_is_websocket_upgrade_requires_both_signals() {
    websocket_signals();
}

#[test]
fn request_is_websocket_upgrade_requires_both_signals() {
    websocket_signals();
    let r = req_with(&[("upgrade", "WebSocket"), ("connection", "keep-alive, Upgrade")]);
    assert!(is_websocket_upgrade(r.headers()));
}

fn host_sources() {
    let r = HttpRequest::builder().uri("https://api.example.com/foo").body(()).unwrap();
    assert_eq!(host_of(&r).as_deref(), Some("api.example.com"));
    let r = HttpRequest::builder()
        .uri("/foo")
        .header("host", "app.example.com")
        .body(())
        .unwrap();
    assert_eq!(host_of(&r).as_deref(), Some("app.example.com"));
    let r = HttpRequest::builder().uri("/foo").body(()).unwrap();
    assert_eq!(host_of(&r), None);
}

#[test]
fn http_frontend_extract_host_prefers_authority_then_host_header() {
    host_sources();
}

#[test]
fn request_extract_host_prefers_authority_then_host_header() {
    host_sources();
    let r = HttpRequest::builder()
        .uri("https://api.example.com/foo")
        .header("host", "app.example.com")
        .body(())
        .unwrap();
    assert_eq!(host_of(&r).as_deref(), Some("api.example.com"));
}

#[test]
fn http_frontend_route_table_lookup_is_case_insensitive_and_strips_port() {
    let routes = vec![route("API.example.com", "http://10.0.0.1:8080")];
    let t = RouteTable::build(&routes, "test-rule");
    assert!(t.lookup("api.example.com").is_some());
    assert!(t.lookup("API.example.com").is_some());
    assert!(t.lookup("api.example.com:443").is_some());
    assert!(t.lookup("api.example.com.").is_some());
    assert!(t.lookup("other.example.com").is_none());
}

#[test]
fn route_route_table_lookup_is_case_insensitive_and_strips_port() {
    let routes = vec![route("API.example.com", "http://10.0.0.1:8080")];
    let t = RouteTable::build(&routes, "test-rule");
    assert!(t.lookup("api.example.com").is_some());
    assert!(t.lookup("API.example.com").is_some());
    assert!(t.lookup("api.example.com:443").is_some());
    assert!(t.lookup("api.example.com.").is_some());
    assert!(t.lookup("other.example.com").is_none());
    assert_eq!(t.lookup("api.example.com").unwrap().rule_name, "test-rule");
    assert_eq!(host_key_of("API.example.com:8443"), "api.example.com");
}

#[test]
fn route_table_extend_aggregates_routes_from_multiple_rules() {
    let mut t = RouteTable::build(&[route("a.example", "http://10.0.0.1:80")], "rule-a");
    let replaced = t.extend(&[route("b.example", "http://10.0.0.2:80")], "rule-b");
    assert!(replaced.is_empty());
    assert_eq!(t.len(), 2);
    assert_eq!(t.lookup("a.example").unwrap().rule_name, "rule-a");
    assert_eq!(t.lookup("b.example").unwrap().rule_name, "rule-b");
    assert_eq!(t.hosts(), vec!["a.example", "b.example"]);
}

#[test]
fn route_table_extend_reports_cross_rule_host_collision() {
    let mut t = RouteTable::build(&[route("shared.example", "http://10.0.0.1:80")], "rule-a");
    let replaced = t.extend(&[route("shared.example", "http://10.0.0.2:80")], "rule-b");
    assert_eq!(replaced, vec!["shared.example".to_string()]);
    assert_eq!(t.lookup("shared.example").unwrap().rule_name, "rule-b");
}

#[test]
fn route_table_remove_by_rule_drops_matching_entries() {
    let mut t = RouteTable::build(&[route("x.example", "http://10.0.0.1:80")], "rule-a");
    t.extend(&[route("y.example", "http://10.0.0.2:80")], "rule-b");
    assert_eq!(t.len(), 2);
    let removed = t.remove_by_rule("rule-a");
    assert_eq!(removed, vec!["x.example".to_string()]);
    assert_eq!(t.len(), 1);
    assert!(t.lookup("y.example").is_some());
}

fn host_set_refcounts() {
    let mut s = HostSet::new();
    assert!(!s.contains("a"));
    s.add("a");
    s.add("a");
    s.add("b");
    assert!(s.contains("a"));
    assert!(s.contains("b"));
    s.remove("a");
    assert!(s.contains("a"));
    s.remove("a");
    assert!(!s.contains("a"));
    assert!(s.contains("b"));
}

#[test]
fn http_frontend_host_set_refcounts_correctly() {
    host_set_refcounts();
}

#[test]
fn redirect_host_set_refcounts_correctly() {
    host_set_refcounts();
    let mut s = HostSet::new();
    s.remove("never");
    assert!(s.is_empty());
    s.add("A");
    assert!(s.contains("a"));
}

fn context(tls: bool) -> ConnContext {
    ConnContext {
        rule: Some(ListenerRule { protocol: Protocol::Https, listen: sa(0, 0, 0, 0, 8443) }),
        rule_name: "r".to_string(),
        client_addr: sa(203, 0, 113, 7, 5000),
        tls,
        emit_alt_svc: true,
    }
}

fn head(authority: Option<&str>, pq: &str) -> RequestHead {
    RequestHead {
        authority: authority.map(|a| a.to_string()),
        path_and_query: Some(pq.to_string()),
        http11: true,
    }
}

#[test]
fn unknown_and_missing_hosts_are_answered_here() {
    let t = RouteTable::build(&[route("a.example", "http://10.0.0.1:80")], "r");
    let h = HeaderMap::new();
    match plan_request(&head(None, "/"), &h, &t) {
        RequestPlan::Reply { response, .. } => assert_eq!(response.status, 400),
        other => panic!("{other:?}"),
    }
    match plan_request(&head(Some("b.example"), "/"), &h, &t) {
        RequestPlan::Reply { response, .. } => {
            assert_eq!(response.status, 404);
            assert_eq!(response.content_type, "text/plain; charset=utf-8");
        }
        other => panic!("{other:?}"),
    }
    match plan_request(&head(Some("A.example:443"), "/x"), &h, &t) {
        RequestPlan::Forward(p) => {
            assert_eq!(p.host, "A.example:443");
            assert_eq!(p.target.url, "http://10.0.0.1/");
            assert!(!p.websocket);
        }
        other => panic!("{other:?}"),
    }
}

fn plan(websocket: bool) -> ForwardPlan {
    ForwardPlan {
        host: "api.example.com".to_string(),
        label: "api.example.com".to_string(),
        target: Target::parse("http://10.0.0.1:8080").unwrap(),
        hsts: Some(HstsConfig::default()),
        headers: vec![("x-frame-options".to_string(), "DENY".to_string())],
        websocket,
    }
}

#[test]
fn requests_are_rewritten_for_the_backend() {
    let mut h = HeaderMap::new();
    h.insert("host", HeaderValue::from_static("api.example.com"));
    h.insert("x-forwarded-for", HeaderValue::from_static("6.6.6.6"));
    h.insert("connection", HeaderValue::from_static("close"));
    let uri = prepare_forward(&mut h, &context(true), Some("/a?b"), &plan(false)).unwrap();
    assert_eq!(uri, "http://10.0.0.1:8080/a?b");
    assert_eq!(h.get("host").unwrap(), "api.example.com");
    assert_eq!(h.get("x-forwarded-for").unwrap(), "203.0.113.7");
    assert_eq!(h.get("x-forwarded-proto").unwrap(), "https");
    assert_eq!(h.get("x-forwarded-host").unwrap(), "api.example.com");
    assert!(!h.contains_key("connection"));
    let mut h = HeaderMap::new();
    let mut p = plan(false);
    p.target.host = None;
    assert!(matches!(
        try_prepare_forward(&mut h, &context(false), None, &p),
        Some(Err(UriError::NoHost))
    ));
    assert_eq!(h.get("x-forwarded-proto").unwrap(), "http");
}

#[test]
fn host_stays_though_connection_nominates_it() {
    let sent = [
        ("host", "api.example.com"),
        ("connection", "Host, X-Hop, upgrade"),
        ("upgrade", "websocket"),
        ("x-hop", "1"),
        ("x-keep", "yes"),
    ];
    let mut h = req_with(&sent).headers().clone();
    sanitise_request_headers(&mut h);
    assert_eq!(h.len(), 2);
    assert_eq!(h.get("host").unwrap(), "api.example.com");
    assert_eq!(h.get("x-keep").unwrap(), "yes");
    let mut w = req_with(&sent).headers().clone();
    sanitise_request_headers_for_websocket(&mut w);
    assert_eq!(w.len(), 4);
    assert_eq!(w.get("host").unwrap(), "api.example.com");
    assert_eq!(w.get("upgrade").unwrap(), "websocket");
    assert_eq!(w.get("connection").unwrap(), "Host, X-Hop, upgrade");
    // A response has no such header to keep.
    let mut r = req_with(&sent).headers().clone();
    sanitise_response_headers(&mut r);
    assert_eq!(r.len(), 1);
}

#[test]
fn a_handshake_keeps_its_upgrade() {
    let mut h = HeaderMap::new();
    h.insert("connection", HeaderValue::from_static("Upgrade, x-hop"));
    h.insert("upgrade", HeaderValue::from_static("websocket"));
    h.insert("x-hop", HeaderValue::from_static("1"));
    h.insert("te", HeaderValue::from_static("trailers"));
    h.insert("x-real-ip", HeaderValue::from_static("6.6.6.6"));
    sanitise_request_headers_for_websocket(&mut h);
    assert_eq!(h.get("upgrade").unwrap(), "websocket");
    assert_eq!(h.get("connection").unwrap(), "Upgrade, x-hop");
    assert!(!h.contains_key("te"));
    assert!(!h.contains_key("x-hop"));
    assert!(!h.contains_key("x-real-ip"));
    let mut h = HeaderMap::new();
    h.insert("connection", HeaderValue::from_static("upgrade, foo"));
    h.insert("upgrade", HeaderValue::from_static("websocket"));
    h.insert("foo", HeaderValue::from_static("1"));
    h.insert("te", HeaderValue::from_static("trailers"));
    h.insert("x-real-ip", HeaderValue::from_static("5.6.7.8"));
    h.insert("x-keep", HeaderValue::from_static("yes"));
    sanitise_request_headers_for_websocket(&mut h);
    assert_eq!(h.len(), 3);
    assert_eq!(h.get("connection").unwrap(), "upgrade, foo");
    assert_eq!(h.get("upgrade").unwrap(), "websocket");
    assert_eq!(h.get("x-keep").unwrap(), "yes");
    assert_eq!(after_handshake(101), HandshakeStep::Bridge);
    assert_eq!(after_handshake(403), HandshakeStep::PassThrough);
}

#[test]
fn responses_are_finished_in_order() {
    let mut h = HeaderMap::new();
    h.insert("connection", HeaderValue::from_static("close"));
    h.insert("x-frame-options", HeaderValue::from_static("ALLOW"));
    sanitise_response_headers(&mut h);
    assert!(!h.contains_key("connection"));
    assert!(try_finish_response(&mut h, &context(true), &plan(false)));
    assert_eq!(h.get("strict-transport-security").unwrap(), "max-age=31536000");
    assert_eq!(h.get("x-frame-options").unwrap(), "DENY");
    assert_eq!(h.get("alt-svc").unwrap(), "h3=\":8443\"; ma=86400");
}

#[test]
fn alt_svc_is_advertised_once_and_only_over_tls() {
    let mut h = HeaderMap::new();
    maybe_inject_alt_svc(&mut h, &context(false));
    assert!(h.is_empty());
    h.insert("alt-svc", HeaderValue::from_static("clear"));
    maybe_inject_alt_svc(&mut h, &context(true));
    assert_eq!(h.get("alt-svc").unwrap(), "clear");
    let mut c = context(true);
    c.emit_alt_svc = false;
    let mut h = HeaderMap::new();
    maybe_inject_alt_svc(&mut h, &c);
    assert!(h.is_empty());
    c.emit_alt_svc = true;
    c.rule = None;
    maybe_inject_alt_svc(&mut h, &c);
    assert!(h.is_empty());
}

#[test]
fn crowded_header_maps_are_left_alone() {
    let mut h = HeaderMap::new();
    for i in 0..6551 {
        h.insert(
            http::header::HeaderName::from_bytes(format!("x-{i}").as_bytes()).unwrap(),
            HeaderValue::from_static("1"),
        );
    }
    assert!(has_room(&h, 2));
    assert!(!has_room(&h, 3));
    let before = h.clone();
    assert!(try_prepare_forward(&mut h, &context(true), None, &plan(false)).is_none());
    assert_eq!(h, before);
    let mut p = plan(false);
    p.headers.push(("x-more".to_string(), "1".to_string()));
    assert!(!try_finish_response(&mut h, &context(true), &p));
    assert_eq!(h, before);
    assert!(try_finish_response(&mut h, &context(true), &plan(false)));
    assert_eq!(h.keys_len(), 6554);
}

#[test]
fn status_classes() {
    assert_eq!(status_class(200), "2xx");
    assert_eq!(status_class(301), "3xx");
    assert_eq!(status_class(404), "4xx");
    assert_eq!(status_class(502), "5xx");
    let r = short_response(502, "bad gateway\n");
    assert_eq!((r.status, r.body), (502, "bad gateway\n"));
}

#[test]
fn the_companion_redirects_its_hosts() {
    let mut s = CompanionState::new();
    s.register_host("a.example");
    let h = HeaderMap::new();
    match plan_companion("/x", &head(Some("A.example:80"), "/x?y=1"), &h, false, &s, None) {
        CompanionPlan::Redirect { status, location, denied } => {
            assert_eq!(status, 301);
            assert_eq!(location, "https://A.example/x?y=1");
            assert_eq!(denied, None);
        }
        _ => panic!("another plan"),
    }
    match plan_companion("/", &head(Some("b.example"), "/"), &h, true, &s, None) {
        CompanionPlan::Reply { response, .. } => assert_eq!(response.status, 404),
        _ => panic!("another plan"),
    }
    match plan_companion("/", &head(None, "/"), &h, true, &s, None) {
        CompanionPlan::Reply { response, .. } => assert_eq!(response.status, 400),
        _ => panic!("another plan"),
    }
    s.unregister_host("a.example");
    assert!(s.is_empty());
}

#[test]
fn plaintext_routes_stay_on_the_lan() {
    let mut s = CompanionState::new();
    assert!(s.register_plaintext_routes(&[route("p.example", "http://10.0.0.1:80")], "r").is_empty());
    let h = HeaderMap::new();
    match plan_companion("/", &head(Some("p.example"), "/"), &h, true, &s, None) {
        CompanionPlan::Proxy { rule_name, host, routes } => {
            assert_eq!(rule_name, "r");
            assert_eq!(host, "p.example");
            assert!(routes.lookup("p.example").is_some());
        }
        _ => panic!("another plan"),
    }
    match plan_companion("/", &head(Some("p.example"), "/"), &h, false, &s, None) {
        CompanionPlan::Reply { response, denied } => {
            assert_eq!(response.status, 404);
            assert_eq!(denied.as_deref(), Some("r"));
        }
        _ => panic!("another plan"),
    }
    // A host that is served over TLS too is sent there from outside.
    s.register_host("p.example");
    match plan_companion("/q", &head(Some("p.example"), "/q"), &h, false, &s, None) {
        CompanionPlan::Redirect { status, location, denied } => {
            assert_eq!(status, 301);
            assert_eq!(location, "https://p.example/q");
            assert_eq!(denied.as_deref(), Some("r"));
        }
        _ => panic!("another plan"),
    }
    assert_eq!(s.unregister_plaintext_routes("r"), vec!["p.example"]);
}

#[test]
fn challenges_are_answered_to_anyone() {
    let mut acme = AcmeResponder::new();
    acme.register("tok", "tok.auth");
    let s = CompanionState::new();
    let h = HeaderMap::new();
    let path = "/.well-known/acme-challenge/tok";
    for lan in [true, false] {
        match plan_companion(path, &head(None, path), &h, lan, &s, Some(&acme)) {
            CompanionPlan::Challenge { status, content_type, key_auth } => {
                assert_eq!(status, 200);
                assert_eq!(content_type, "text/plain; charset=utf-8");
                assert_eq!(key_auth, "tok.auth");
            }
            _ => panic!("another plan"),
        }
    }
    let path = "/.well-known/acme-challenge/other";
    match plan_companion(path, &head(None, path), &h, true, &s, Some(&acme)) {
        CompanionPlan::Reply { response, .. } => assert_eq!(response.status, 404),
        _ => panic!("another plan"),
    }
}

#[test]
fn the_announced_client_wins_over_the_peer() {
    let peer = sa(10, 0, 0, 1, 1);
    let e = ProxyEndpoints { client: sa(203, 0, 113, 7, 9), server: sa(10, 0, 0, 2, 443) };
    assert_eq!(client_addr(Some(e), peer), sa(203, 0, 113, 7, 9));
    assert_eq!(client_addr(None, peer), peer);
    assert!(alpn_is_h2(Some(b"h2")));
    assert!(!alpn_is_h2(Some(b"http/1.1")));
    assert!(!alpn_is_h2(None));
    assert_eq!(classify_tls_error("unexpected EOF during handshake"), "alert");
    assert_eq!(classify_tls_error("received fatal alert: UnrecognizedName"), "unknown_sni");
    assert_eq!(classify_tls_error("unrecognized_name"), "unknown_sni");
}

#[test]
fn prefixed_streams_replay_their_prefix_once() {
    let mut s = PrefixedStream::new(b"hello".to_vec(), ());
    assert_eq!(s.take_prefix(2), Some(b"he".to_vec()));
    assert_eq!(s.take_prefix(100), Some(b"llo".to_vec()));
    assert_eq!(s.take_prefix(100), None);
}
