use yggdrasil::addr::{parse_v4, IpAddr, SocketAddr};
use yggdrasil::resolver::{Mode, ResolverBuildError, ResolverFactory, UpstreamResolver};
use yggdrasil::rule::{Protocol, Rule};

fn sa(a: &str) -> SocketAddr {
    let (ip, port) = a.split_once(':').unwrap();
    SocketAddr::new(IpAddr::V4(parse_v4(ip).unwrap()), port.parse().unwrap())
}

fn relay_rule(port: u16) -> Rule {
    Rule {
        name: "relay-rule".into(),
        listen: sa("127.0.0.1:1111"),
        protocol: Protocol::Tcp,
        upstream_port: Some(port),
        upstream_addr: None,
        idle_timeout: None,
        proxy_protocol: None,
        routes: None,
        cert_dir: None,
    }
}

fn terminal_rule(addr: &str) -> Rule {
    Rule {
        name: "terminal-rule".into(),
        listen: sa("127.0.0.1:2222"),
        protocol: Protocol::Tcp,
        upstream_port: None,
        upstream_addr: Some(sa(addr)),
        idle_timeout: None,
        proxy_protocol: None,
        routes: None,
        cert_dir: None,
    }
}

#[test]
fn dynamic_resolver_returns_target_when_peer_known() {
    let peer = Some(sa("203.0.113.1:9999").ip());
    let r = UpstreamResolver::Dynamic { port: 8080 };
    assert_eq!(r.current_target(peer), Some(sa("203.0.113.1:8080")));
    assert!(r.is_dynamic());
    assert!(r.describe().contains("dynamic"));
    assert_eq!(r.describe(), "dynamic:peer:8080");
}

#[test]
fn dynamic_resolver_returns_none_when_peer_unknown() {
    let r = UpstreamResolver::Dynamic { port: 8080 };
    assert_eq!(r.current_target(None), None);
}

#[test]
fn static_resolver_returns_target_always() {
    let r = UpstreamResolver::Static { addr: sa("192.168.1.10:22") };
    assert_eq!(r.current_target(None), Some(sa("192.168.1.10:22")));
    assert!(!r.is_dynamic());
    assert!(r.describe().contains("static"));
    assert_eq!(r.describe(), "static:192.168.1.10:22");
}

#[test]
fn factory_relay_mode_builds_dynamic_for_relay_rule() {
    let f = ResolverFactory::new_relay();
    let r = f.build(&relay_rule(22)).unwrap();
    assert!(matches!(r, UpstreamResolver::Dynamic { port: 22, .. }));
}

#[test]
fn factory_relay_mode_rejects_terminal_rule() {
    let f = ResolverFactory::new_relay();
    let err = f.build(&terminal_rule("192.168.1.10:22")).err().unwrap();
    assert!(matches!(err, ResolverBuildError::ModeMismatch { mode: Mode::Relay, .. }));
    assert_eq!(
        err.message(),
        "rule \"terminal-rule\": rule has upstream_addr (terminal-style) but daemon is in relay \
         mode; terminal rules cannot run on a relay (daemon mode = relay)"
    );
}

#[test]
fn factory_terminal_mode_builds_static_for_terminal_rule() {
    let f = ResolverFactory::new_terminal();
    let r = f.build(&terminal_rule("192.168.1.10:22")).unwrap();
    assert!(matches!(r, UpstreamResolver::Static { .. }));
}

#[test]
fn factory_terminal_mode_rejects_relay_rule() {
    let f = ResolverFactory::new_terminal();
    let err = f.build(&relay_rule(22)).err().unwrap();
    assert!(matches!(err, ResolverBuildError::ModeMismatch { mode: Mode::Terminal, .. }));
}

#[test]
fn malformed_rules_are_internal_errors() {
    let f = ResolverFactory::new_relay();
    let mut neither = relay_rule(1);
    neither.upstream_port = None;
    assert_eq!(
        f.build(&neither).err().unwrap().message(),
        "internal resolver error: rule has neither upstream_port nor upstream_addr (validation bug)"
    );
    let mut both = relay_rule(1);
    both.upstream_addr = Some(sa("1.2.3.4:5"));
    assert!(matches!(f.build(&both).err().unwrap(), ResolverBuildError::Internal(_)));
    let lone = ResolverFactory { mode: Mode::Relay, has_peer: false };
    assert_eq!(
        lone.build(&relay_rule(1)).err().unwrap().message(),
        "internal resolver error: relay-mode factory has no peer_state (logic error)"
    );
}
