use http::header::{
    HeaderMap, HeaderName, HeaderValue, CONNECTION, PROXY_AUTHENTICATE, PROXY_AUTHORIZATION, TE,
    TRAILER, TRANSFER_ENCODING, UPGRADE,
};
use http::Uri;
use yggdrasil::addr::{parse_v4, parse_v6, IpAddr};
use yggdrasil::forward::{
    apply_static_response_headers, build_upstream_uri, inject_forwarded, maybe_inject_hsts,
    strip_hop_by_hop, strip_untrusted_forwarding, Target, UriError,
};
use yggdrasil::rule::HstsConfig;

#[test]
fn strip_untrusted_forwarding_drops_claims_and_keeps_others() {
    let mut h = HeaderMap::new();
    h.insert("x-forwarded-for", HeaderValue::from_static("1.2.3.4"));
    h.insert("x-forwarded-proto", HeaderValue::from_static("http"));
    h.insert("x-forwarded-protocol", HeaderValue::from_static("http"));
    h.insert("x-forwarded-host", HeaderValue::from_static("evil.example"));
    h.insert("x-forwarded-port", HeaderValue::from_static("1234"));
    h.insert("x-real-ip", HeaderValue::from_static("5.6.7.8"));
    h.insert("forwarded", HeaderValue::from_static("for=lies"));
    h.insert("x-keep", HeaderValue::from_static("yes"));

    strip_untrusted_forwarding(&mut h);

    assert!(!h.contains_key("x-forwarded-for"));
    assert!(!h.contains_key("x-forwarded-proto"));
    assert!(!h.contains_key("x-forwarded-protocol"));
    assert!(!h.contains_key("x-forwarded-host"));
    assert!(!h.contains_key("x-forwarded-port"));
    assert!(!h.contains_key("x-real-ip"));
    assert!(!h.contains_key("forwarded"));
    assert_eq!(h.get("x-keep").unwrap(), "yes");
}

#[test]
fn strip_hop_by_hop_drops_standard_names() {
    let mut h = HeaderMap::new();
    h.insert(CONNECTION, HeaderValue::from_static("close"));
    h.insert(TRANSFER_ENCODING, HeaderValue::from_static("chunked"));
    h.insert(TE, HeaderValue::from_static("trailers"));
    h.insert(TRAILER, HeaderValue::from_static("expires"));
    h.insert(UPGRADE, HeaderValue::from_static("websocket"));
    h.insert(PROXY_AUTHENTICATE, HeaderValue::from_static("Basic"));
    h.insert(PROXY_AUTHORIZATION, HeaderValue::from_static("Basic abc"));
    h.insert("x-keep", HeaderValue::from_static("yes"));

    strip_hop_by_hop(&mut h);

    assert!(!h.contains_key(CONNECTION));
    assert!(!h.contains_key(TRANSFER_ENCODING));
    assert!(!h.contains_key(TE));
    assert!(!h.contains_key(TRAILER));
    assert!(!h.contains_key(UPGRADE));
    assert!(!h.contains_key(PROXY_AUTHENTICATE));
    assert!(!h.contains_key(PROXY_AUTHORIZATION));
    assert_eq!(h.get("x-keep").unwrap(), "yes");
}

#[test]
fn strip_hop_by_hop_honours_connection_listed_names() {
    let mut h = HeaderMap::new();
    h.insert(CONNECTION, HeaderValue::from_static("foo, bar"));
    h.insert("foo", HeaderValue::from_static("1"));
    h.insert("bar", HeaderValue::from_static("2"));
    h.insert("x-keep", HeaderValue::from_static("yes"));

    strip_hop_by_hop(&mut h);

    assert!(!h.contains_key(CONNECTION));
    assert!(!h.contains_key("foo"));
    assert!(!h.contains_key("bar"));
    assert_eq!(h.get("x-keep").unwrap(), "yes");
}

#[test]
fn strip_hop_by_hop_removes_listed_names() {
    let mut h = HeaderMap::new();
    h.insert(CONNECTION, HeaderValue::from_static("close, foo"));
    h.insert(TE, HeaderValue::from_static("trailers"));
    h.insert(UPGRADE, HeaderValue::from_static("websocket"));
    h.insert(HeaderName::from_static("foo"), HeaderValue::from_static("bar"));
    h.insert(HeaderName::from_static("x-keep"), HeaderValue::from_static("yes"));
    strip_hop_by_hop(&mut h);
    assert!(!h.contains_key(CONNECTION));
    assert!(!h.contains_key(TE));
    assert!(!h.contains_key(UPGRADE));
    assert!(!h.contains_key(HeaderName::from_static("foo")));
    assert_eq!(h.get(HeaderName::from_static("x-keep")).unwrap(), "yes");
}

#[test]
fn strip_forwarding_claims_removes_all_variants() {
    let mut h = HeaderMap::new();
    h.insert(HeaderName::from_static("x-forwarded-for"), HeaderValue::from_static("1.2.3.4"));
    h.insert(HeaderName::from_static("x-forwarded-proto"), HeaderValue::from_static("http"));
    h.insert(HeaderName::from_static("x-real-ip"), HeaderValue::from_static("5.6.7.8"));
    h.insert(HeaderName::from_static("forwarded"), HeaderValue::from_static("for=lies"));
    strip_untrusted_forwarding(&mut h);
    assert!(h.is_empty());
}

#[test]
fn nominations_are_read_from_every_connection_value() {
    let mut h = HeaderMap::new();
    h.append(CONNECTION, HeaderValue::from_static(" \tFoo\t,, keep-alive"));
    h.append(CONNECTION, HeaderValue::from_bytes(b"x-bin, \xff").unwrap());
    h.append(CONNECTION, HeaderValue::from_static("Close,bad name,BAR"));
    for n in ["foo", "bar", "x-bin", "keep-alive", "close", "x-keep"] {
        h.append(n, HeaderValue::from_static("1"));
        h.append(n, HeaderValue::from_static("2"));
    }
    strip_hop_by_hop(&mut h);
    assert!(!h.contains_key("foo"));
    assert!(!h.contains_key("bar"));
    // A value that is no text nominates nothing; `close` and `keep-alive` are no nominations.
    assert_eq!(h.get_all("x-bin").iter().count(), 2);
    assert!(h.contains_key("keep-alive"));
    assert!(h.contains_key("close"));
    assert_eq!(h.get_all("x-keep").iter().count(), 2);
}

#[test]
fn inject_forwarded_sets_ipv4_values() {
    let mut h = HeaderMap::new();
    let ip = IpAddr::V4(parse_v4("203.0.113.7").unwrap());

    inject_forwarded(&mut h, ip, Some("api.example.com"), "https");

    assert_eq!(h.get("x-forwarded-for").unwrap(), "203.0.113.7");
    assert_eq!(h.get("x-real-ip").unwrap(), "203.0.113.7");
    assert_eq!(h.get("x-forwarded-proto").unwrap(), "https");
    assert_eq!(h.get("x-forwarded-protocol").unwrap(), "https");
    assert_eq!(h.get("x-forwarded-host").unwrap(), "api.example.com");
}

#[test]
fn inject_forwarded_sets_ipv6_values_without_brackets() {
    let mut h = HeaderMap::new();
    let ip = IpAddr::V6(parse_v6("2001:db8::1").unwrap());

    inject_forwarded(&mut h, ip, Some("api.example.com"), "https");

    assert_eq!(h.get("x-forwarded-for").unwrap(), "2001:db8::1");
    assert_eq!(h.get("x-real-ip").unwrap(), "2001:db8::1");
    assert_eq!(h.get("x-forwarded-proto").unwrap(), "https");
    assert_eq!(h.get("x-forwarded-protocol").unwrap(), "https");
    assert_eq!(h.get("x-forwarded-host").unwrap(), "api.example.com");
}

#[test]
fn inject_forwarded_uses_http_scheme_for_plaintext_path() {
    let mut h = HeaderMap::new();
    let ip = IpAddr::V4(parse_v4("192.168.1.100").unwrap());

    inject_forwarded(&mut h, ip, Some("jellyfin.janus.local"), "http");

    assert_eq!(h.get("x-forwarded-for").unwrap(), "192.168.1.100");
    assert_eq!(h.get("x-real-ip").unwrap(), "192.168.1.100");
    assert_eq!(h.get("x-forwarded-proto").unwrap(), "http");
    assert_eq!(h.get("x-forwarded-protocol").unwrap(), "http");
    assert_eq!(h.get("x-forwarded-host").unwrap(), "jellyfin.janus.local");
}

#[test]
fn inject_forwarded_headers_writes_canonical_values() {
    let mut h = HeaderMap::new();
    let ip = IpAddr::V4(parse_v4("203.0.113.7").unwrap());
    inject_forwarded(&mut h, ip, Some("api.example.com"), "https");
    assert_eq!(h.get("x-forwarded-for").unwrap(), "203.0.113.7");
    assert_eq!(h.get("x-real-ip").unwrap(), "203.0.113.7");
    assert_eq!(h.get("x-forwarded-proto").unwrap(), "https");
    assert_eq!(h.get("x-forwarded-host").unwrap(), "api.example.com");
}

#[test]
fn inject_forwarded_replaces_and_skips_what_is_no_value() {
    let mut h = HeaderMap::new();
    h.append("x-forwarded-for", HeaderValue::from_static("1.1.1.1"));
    h.append("x-forwarded-for", HeaderValue::from_static("2.2.2.2"));
    let ip = IpAddr::V4(parse_v4("9.9.9.9").unwrap());
    inject_forwarded(&mut h, ip, Some("bad\nhost"), "https");
    assert_eq!(h.get_all("x-forwarded-for").iter().count(), 1);
    assert_eq!(h.get("x-forwarded-for").unwrap(), "9.9.9.9");
    assert!(!h.contains_key("x-forwarded-host"));
    inject_forwarded(&mut h, ip, None, "https");
    assert!(!h.contains_key("x-forwarded-host"));
}

#[test]
fn maybe_inject_hsts_none_adds_no_header() {
    let mut h = HeaderMap::new();
    maybe_inject_hsts(&mut h, None);
    assert!(!h.contains_key("strict-transport-security"));
}

#[test]
fn maybe_inject_hsts_default_config_sets_max_age_only() {
    let mut h = HeaderMap::new();
    let cfg = HstsConfig::default();
    maybe_inject_hsts(&mut h, Some(&cfg));
    assert_eq!(h.get("strict-transport-security").unwrap(), "max-age=31536000");
}

#[test]
fn maybe_inject_hsts_include_subdomains_and_preload() {
    let mut h = HeaderMap::new();
    let cfg = HstsConfig { include_subdomains: true, preload: true, ..HstsConfig::default() };
    maybe_inject_hsts(&mut h, Some(&cfg));
    assert_eq!(
        h.get("strict-transport-security").unwrap(),
        "max-age=31536000; includeSubDomains; preload"
    );
}

#[test]
fn maybe_inject_hsts_preserves_upstream_header() {
    let mut h = HeaderMap::new();
    h.insert("strict-transport-security", HeaderValue::from_static("max-age=60"));
    let cfg = HstsConfig::default();
    maybe_inject_hsts(&mut h, Some(&cfg));
    assert_eq!(h.get("strict-transport-security").unwrap(), "max-age=60");
}

#[test]
fn static_headers_have_the_final_word() {
    let mut h = HeaderMap::new();
    h.insert("x-frame-options", HeaderValue::from_static("ALLOW"));
    let list = vec![
        ("X-Frame-Options".to_string(), "DENY".to_string()),
        ("bad name".to_string(), "1".to_string()),
        ("x-bad-value".to_string(), "a\nb".to_string()),
    ];
    apply_static_response_headers(&mut h, &list);
    assert_eq!(h.get("x-frame-options").unwrap(), "DENY");
    assert_eq!(h.len(), 1);
}

#[test]
fn http_frontend_build_upstream_uri_rewrites_authority_and_preserves_path() {
    let orig: Uri = "/api/v1/foo?bar=1".parse().unwrap();
    let up = Target::parse("http://10.0.0.1:8080/ignored-path").unwrap();
    let text = build_upstream_uri(orig.path_and_query().map(|p| p.as_str()), &up).unwrap();
    let out: Uri = text.parse().unwrap();
    assert_eq!(out.scheme_str(), Some("http"));
    assert_eq!(out.authority().unwrap().as_str(), "10.0.0.1:8080");
    assert_eq!(out.path(), "/api/v1/foo");
    assert_eq!(out.query(), Some("bar=1"));
}

#[test]
fn mod_build_upstream_uri_rewrites_authority_and_preserves_path() {
    let orig: Uri = "/api/v1/foo?bar=1".parse().unwrap();
    let up = Target::parse("http://10.0.0.1:8080/ignored-path").unwrap();
    let text = build_upstream_uri(orig.path_and_query().map(|p| p.as_str()), &up).unwrap();
    assert_eq!(text, "http://10.0.0.1:8080/api/v1/foo?bar=1");
    let out: Uri = text.parse().unwrap();
    assert_eq!(out.scheme_str(), Some("http"));
    assert_eq!(out.authority().unwrap().as_str(), "10.0.0.1:8080");
    assert_eq!(out.path(), "/api/v1/foo");
    assert_eq!(out.query(), Some("bar=1"));
}

#[test]
fn upstream_uri_edges() {
    let up = Target::parse("https://Backend.example").unwrap();
    assert_eq!(up.host.as_deref(), Some("backend.example"));
    assert_eq!(up.port, Some(443));
    assert_eq!(build_upstream_uri(None, &up).unwrap(), "http://backend.example:443/");
    let up = Target::parse("data:text/plain,hello").unwrap();
    assert_eq!(build_upstream_uri(Some("/"), &up), Err(UriError::NoHost));
    let up = Target { url: "x".to_string(), host: Some("bad host".to_string()), port: None };
    assert_eq!(build_upstream_uri(Some("/"), &up), Err(UriError::Authority));
    let up = Target::parse("http://10.0.0.1").unwrap();
    assert_eq!(build_upstream_uri(Some("/a b"), &up), Err(UriError::Build));
    assert!(Target::parse("no scheme").is_none());
}

#[test]
fn stripping_twice_is_stripping_once() {
    let mut h = HeaderMap::new();
    h.insert(CONNECTION, HeaderValue::from_static("foo"));
    h.insert("foo", HeaderValue::from_static("1"));
    h.insert("x-keep", HeaderValue::from_static("yes"));
    strip_hop_by_hop(&mut h);
    let once = h.clone();
    strip_hop_by_hop(&mut h);
    assert_eq!(h, once);
    assert_eq!(h.len(), 1);
}

#[test]
fn the_policy_is_applied_once() {
    let mut h = HeaderMap::new();
    let cfg = HstsConfig { max_age: 60, ..HstsConfig::default() };
    maybe_inject_hsts(&mut h, Some(&cfg));
    maybe_inject_hsts(&mut h, Some(&HstsConfig::default()));
    assert_eq!(h.get_all("strict-transport-security").iter().count(), 1);
    assert_eq!(h.get("strict-transport-security").unwrap(), "max-age=60");
}

#[test]
fn the_last_static_header_of_a_name_wins() {
    let mut h = HeaderMap::new();
    let list = vec![
        ("x-a".to_string(), "1".to_string()),
        ("X-A".to_string(), "2".to_string()),
    ];
    apply_static_response_headers(&mut h, &list);
    assert_eq!(h.get_all("x-a").iter().count(), 1);
    assert_eq!(h.get("x-a").unwrap(), "2");
}
