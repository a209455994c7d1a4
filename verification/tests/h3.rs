use http::header::{HeaderMap, HeaderValue};
use yggdrasil::addr::{parse_v4, IpAddr, Ipv4Addr, SocketAddr};
use yggdrasil::certs::origin::{CertEntry, CertOrigin, CertifiedKey, KeyFormat};
use yggdrasil::certs::store::CertStore;
use yggdrasil::forward::Target;
use yggdrasil::h3_frontend::{
    backend_unreachable, next_chunk, plan_stream, select_tls_routes, too_large, try_finish_stream,
    try_prepare_stream, BodyBuffer, H3Plan, H3_RESPONSE_CHUNK_BYTES, WS_H3_501_BODY,
};
use yggdrasil::h3_interpose::{InterposeMap, RecvStep, MAP_TTL};
use yggdrasil::http_frontend::request::{
    try_prepare_forward, ConnContext, ForwardPlan, RequestHead,
};
use yggdrasil::http_frontend::route::RouteTable;
use yggdrasil::proxy_protocol::encode_v2;
use yggdrasil::rule::{HstsConfig, HttpRoute};

fn sa(a: &str) -> SocketAddr {
    let (ip, port) = a.split_once(':').unwrap();
    SocketAddr::new(IpAddr::V4(parse_v4(ip).unwrap()), port.parse().unwrap())
}

const SEC: u64 = 1_000_000_000;

#[test]
fn map_upsert_and_lookup_round_trip() {
    let mut m = InterposeMap::new();
    let relay = sa("198.51.100.1:50001");
    let real = sa("203.0.113.7:54321");
    assert_eq!(m.lookup(relay), None);
    m.upsert(relay, real);
    assert_eq!(m.lookup(relay), Some(real));
}

#[test]
fn map_upsert_replaces_previous_real_client() {
    let mut m = InterposeMap::new();
    let relay = sa("198.51.100.1:50001");
    let real_a = sa("203.0.113.7:54321");
    let real_b = sa("203.0.113.8:65530");
    m.upsert(relay, real_a);
    m.upsert(relay, real_b);
    assert_eq!(m.lookup(relay), Some(real_b));
}

#[test]
fn map_lookup_misses_on_expired_entry() {
    let mut m = InterposeMap::new();
    let relay = sa("198.51.100.1:50001");
    let real = sa("203.0.113.7:54321");
    m.upsert_at(relay, real, 0);
    assert_eq!(m.lookup_at(relay, MAP_TTL), Some(real));
    assert_eq!(m.lookup_at(relay, MAP_TTL + 5 * SEC), None);
}

#[test]
fn reap_drops_expired_entries() {
    let mut m = InterposeMap::new();
    let fresh = sa("198.51.100.2:50002");
    let stale = sa("198.51.100.3:50003");
    let now = MAP_TTL + 5 * SEC;
    m.upsert_at(fresh, sa("203.0.113.10:5000"), now);
    m.upsert_at(stale, sa("203.0.113.11:5001"), 0);
    assert_eq!(m.len(), 2);
    m.reap_at(now);
    assert_eq!(m.len(), 1);
    assert!(m.lookup_at(fresh, now).is_some());
    assert!(m.lookup_at(stale, now).is_none());
    m.reap();
}

#[test]
fn map_lookup_keys_on_full_socket_addr_not_ip_only() {
    let mut m = InterposeMap::new();
    let port_a = SocketAddr::new(IpAddr::V4(Ipv4Addr::new(198, 51, 100, 1)), 50001);
    let port_b = SocketAddr::new(IpAddr::V4(Ipv4Addr::new(198, 51, 100, 1)), 50002);
    m.upsert(port_a, sa("203.0.113.7:54321"));
    m.upsert(port_b, sa("203.0.113.8:55555"));
    assert_eq!(m.lookup(port_a), Some(sa("203.0.113.7:54321")));
    assert_eq!(m.lookup(port_b), Some(sa("203.0.113.8:55555")));
}

#[test]
fn announcements_are_sifted_out_of_a_batch() {
    let mut m = InterposeMap::new();
    let relay = sa("198.51.100.1:50001");
    let real = sa("203.0.113.7:54321");
    let head = encode_v2(real, sa("198.51.100.9:443"));
    let quic = b"\xc3 not an announcement".to_vec();
    let kept = m.sift_at(&[relay, relay, relay], &[&quic, &head, &quic], 0);
    assert_eq!(kept, vec![0, 2]);
    assert_eq!(m.lookup_at(relay, 1), Some(real));
    assert!(matches!(InterposeMap::after_batch(3, 2), RecvStep::Ready(2)));
    // Nothing is left of a batch of announcements: look again.
    assert!(matches!(InterposeMap::after_batch(1, 0), RecvStep::PollAgain));
}

#[test]
fn ws_h3_501_body_text_is_actionable() {
    let body =
        b"websocket-over-h3 (RFC 9220 extended CONNECT) not supported; fall back to HTTP/2\n";
    assert!(std::str::from_utf8(body).unwrap().contains("fall back"));
    assert_eq!(WS_H3_501_BODY.as_bytes(), body);
}

fn route(host: &str) -> HttpRoute {
    HttpRoute {
        hostname: host.to_string(),
        target: Target::parse("http://127.0.0.1:65535/").unwrap(),
        cert: None,
        key: None,
        hsts: None,
        headers: vec![],
    }
}

fn store_with(host: &str) -> CertStore {
    let mut s = CertStore::new();
    s.insert(
        host,
        CertEntry {
            key: CertifiedKey { chain: vec![], format: KeyFormat::Pkcs8, key: vec![] },
            origin: CertOrigin::Default { cert: "test".into(), key: "test".into() },
            loaded_at_unix_ms: 0,
        },
    );
    s
}

#[test]
fn a_certified_route_is_served() {
    let routes = select_tls_routes("h3-smoke", &[route("localhost")], &store_with("localhost"));
    assert_eq!(routes.unwrap().len(), 1);
}

#[test]
fn empty_routes_fail_fast() {
    let err = select_tls_routes("h3-empty", &[], &CertStore::new()).unwrap_err();
    assert!(err.contains("every route is cert-less"), "unexpected error: {err}");
}

#[test]
fn only_routes_with_certificates_are_served() {
    let routes = [route("a.local"), route("b.local")];
    let served = select_tls_routes("h3", &routes, &store_with("B.local")).unwrap();
    assert_eq!(served.len(), 1);
    assert_eq!(served[0].hostname, "b.local");
}

fn head(authority: Option<&str>) -> RequestHead {
    RequestHead {
        authority: authority.map(|a| a.to_string()),
        path_and_query: Some("/x?y".to_string()),
        http11: false,
    }
}

#[test]
fn streams_are_planned() {
    let t = RouteTable::build(&[route("a.local")], "r");
    let h = HeaderMap::new();
    assert!(matches!(
        plan_stream(&head(None), false, &h, &t),
        H3Plan::Reply { status: 400, .. }
    ));
    assert!(matches!(
        plan_stream(&head(Some("b.local")), false, &h, &t),
        H3Plan::Reply { status: 404, .. }
    ));
    match plan_stream(&head(Some("a.local")), true, &h, &t) {
        H3Plan::RefuseWebsocket { status, body, version } => {
            assert_eq!(status, 501);
            assert!(body.contains("fall back"));
            assert_eq!(version, "13");
        }
        other => panic!("{other:?}"),
    }
    match plan_stream(&head(Some("a.local")), false, &h, &t) {
        H3Plan::Forward { host, uri, .. } => {
            assert_eq!(host, "a.local");
            assert_eq!(uri, "http://127.0.0.1:65535/x?y");
        }
        other => panic!("{other:?}"),
    }
    assert!(matches!(too_large(), H3Plan::Reply { status: 413, .. }));
    assert!(matches!(backend_unreachable(), H3Plan::Reply { status: 502, .. }));
}

#[test]
fn stream_headers_are_rewritten() {
    let mut h = HeaderMap::new();
    h.insert("x-forwarded-proto", HeaderValue::from_static("http"));
    h.insert("te", HeaderValue::from_static("trailers"));
    assert!(try_prepare_stream(&mut h, sa("203.0.113.7:1"), "a.local"));
    assert_eq!(h.get("x-forwarded-proto").unwrap(), "https");
    assert_eq!(h.get("x-real-ip").unwrap(), "203.0.113.7");
    assert!(!h.contains_key("te"));
    let mut h = HeaderMap::new();
    h.insert("connection", HeaderValue::from_static("close"));
    assert!(try_finish_stream(&mut h, Some(&HstsConfig::default())));
    assert!(!h.contains_key("connection"));
    assert_eq!(h.get("strict-transport-security").unwrap(), "max-age=31536000");
}

#[test]
fn bodies_are_buffered_up_to_the_cap() {
    let mut b = BodyBuffer::new(4);
    assert!(b.push(b"abc"));
    assert!(!b.push(b"de"));
    assert!(b.push(b"d"));
    assert!(b.push(b""));
    assert!(!b.push(b"e"));
    assert_eq!(next_chunk(10), 10);
    assert_eq!(next_chunk(100_000), H3_RESPONSE_CHUNK_BYTES);
    assert_eq!(next_chunk(0), 0);
}

#[test]
fn both_transports_send_the_same_headers() {
    let mut quic = HeaderMap::new();
    quic.insert("host", HeaderValue::from_static("a.local"));
    quic.insert("x-forwarded-for", HeaderValue::from_static("6.6.6.6"));
    quic.insert("connection", HeaderValue::from_static("x-hop"));
    quic.insert("x-hop", HeaderValue::from_static("1"));
    let mut tcp = quic.clone();
    assert!(try_prepare_stream(&mut quic, sa("203.0.113.7:1"), "a.local"));
    let ctx = ConnContext {
        rule: None,
        rule_name: "r".to_string(),
        client_addr: sa("203.0.113.7:1"),
        tls: true,
        emit_alt_svc: false,
    };
    let plan = ForwardPlan {
        host: "a.local".to_string(),
        label: "a.local".to_string(),
        target: Target::parse("http://127.0.0.1:65535/").unwrap(),
        hsts: None,
        headers: vec![],
        websocket: false,
    };
    let uri = try_prepare_forward(&mut tcp, &ctx, Some("/x?y"), &plan).unwrap().unwrap();
    assert_eq!(quic, tcp);
    let t = RouteTable::build(&[route("a.local")], "r");
    match plan_stream(&head(Some("a.local")), false, &HeaderMap::new(), &t) {
        H3Plan::Forward { uri: other, .. } => assert_eq!(uri, other),
        other => panic!("{other:?}"),
    }
}
