use yggdrasil::addr::{IpAddr, Ipv4Addr, SocketAddr};
use yggdrasil::certs::files::FileSet;
use yggdrasil::certs::store::{load_rule_into_store, CertStore};
use yggdrasil::certs::watcher::WatcherState;
use yggdrasil::forward::Target;
use yggdrasil::http_frontend::redirect::CompanionState;
use yggdrasil::resolver::ResolverFactory;
use yggdrasil::rule::{CertSource, HttpRoute, Protocol, Rule, RuleSet};
use yggdrasil::strmap::StrMap;
use yggdrasil::supervisor::cert_config::CertConfig;
use yggdrasil::supervisor::https::{
    cert_less_routes, frontend_description, frontend_name, loaded_hosts, plan_https,
    register_companion, tear_down, unclaim_hosts, undo_load, unload_rule_from_cert_store,
    BringUp, BringUpAction, BringUpEvent, FrontendKind, HttpsPlan,
};
use yggdrasil::supervisor::reconcile::{
    next_loop_action, plan_spawn, snapshot, ActiveProxy, HttpsRules, LoopAction, LoopEvent,
    SpawnContext, SpawnOrder, SupervisorShutDown, UpdateAction, UpdateRun,
};

fn listen(port: u16) -> SocketAddr {
    SocketAddr::new(IpAddr::V4(Ipv4Addr::new(127, 0, 0, 1)), port)
}

fn rule(name: &str, protocol: Protocol, port: u16, upstream: u16) -> Rule {
    Rule {
        name: name.to_string(),
        listen: listen(port),
        protocol,
        upstream_port: Some(upstream),
        upstream_addr: None,
        idle_timeout: None,
        proxy_protocol: None,
        routes: None,
        cert_dir: None,
    }
}

fn set(rules: Vec<Rule>) -> RuleSet {
    RuleSet { rules, routes: vec![] }
}

fn context() -> SpawnContext {
    SpawnContext {
        factory: ResolverFactory::new_relay(),
        bind: None,
        https_rules: HttpsRules::NodeWide,
    }
}

/// Applies a rule set, taking every start for a success; gives what was done.
fn apply(active: &mut StrMap<ActiveProxy>, old: &RuleSet, new: &RuleSet) -> Vec<String> {
    let ctx = context();
    let mut run = UpdateRun::new(old, new);
    let mut log = vec![];
    loop {
        match run.advance(active, &ctx) {
            UpdateAction::Finished => return log,
            UpdateAction::Stop(p) => log.push(format!("stop {}", p.name)),
            UpdateAction::Refuse { rule, .. } => log.push(format!("refuse {rule}")),
            UpdateAction::Start(SpawnOrder::L4 { rule, description, .. }) => {
                log.push(format!("start {}", rule.name));
                let proxy = ActiveProxy {
                    name: rule.name.clone(),
                    protocol: rule.protocol,
                    listen: rule.listen,
                    upstream_description: description,
                    cert_less_route_count: 0,
                    companion: None,
                };
                run.started(active, &rule.name, proxy);
            }
            UpdateAction::Start(SpawnOrder::Https { rule }) => {
                log.push(format!("https {}", rule.name))
            }
        }
    }
}

#[test]
fn spawns_proxies_for_initial_rule_set() {
    let mut active = StrMap::new();
    let new = set(vec![rule("alpha", Protocol::Tcp, 1, 9001), rule("beta", Protocol::Udp, 2, 9002)]);
    apply(&mut active, &RuleSet::empty(), &new);
    let snaps = snapshot(&active, None);
    assert_eq!(snaps.len(), 2);
    assert_eq!(snaps[0].name, "alpha");
    assert_eq!(snaps[1].name, "beta");
    assert_eq!(snaps[1].protocol, Protocol::Udp);
    assert_eq!(snaps[0].upstream_description, "dynamic:peer:9001");
}

#[test]
fn adding_a_file_spawns_a_new_proxy() {
    let mut active = StrMap::new();
    let one = set(vec![rule("alpha", Protocol::Tcp, 1, 9001)]);
    apply(&mut active, &RuleSet::empty(), &one);
    let two = set(vec![rule("alpha", Protocol::Tcp, 1, 9001), rule("beta", Protocol::Udp, 2, 9002)]);
    assert_eq!(apply(&mut active, &one, &two), vec!["start beta"]);
    let names: Vec<_> = snapshot(&active, None).into_iter().map(|s| s.name).collect();
    assert_eq!(names, vec!["alpha".to_string(), "beta".to_string()]);
}

#[test]
fn removed_and_changed_rules_stop_first() {
    let mut active = StrMap::new();
    let old = set(vec![rule("a", Protocol::Tcp, 1, 1), rule("b", Protocol::Tcp, 2, 1)]);
    apply(&mut active, &RuleSet::empty(), &old);
    // `a` moves onto the address that `b` leaves.
    let new = set(vec![rule("a", Protocol::Tcp, 2, 1)]);
    let log = apply(&mut active, &old, &new);
    assert_eq!(log.last().unwrap(), "start a");
    assert!(log.contains(&"stop a".to_string()) && log.contains(&"stop b".to_string()));
    assert_eq!(active.len(), 1);
    assert!(apply(&mut active, &new, &new).is_empty());
}

#[test]
fn unsuitable_rules_stay_offline() {
    let mut active = StrMap::new();
    let mut terminal = rule("t", Protocol::Tcp, 1, 1);
    terminal.upstream_port = None;
    terminal.upstream_addr = Some(listen(22));
    let https = rule("h", Protocol::Https, 443, 1);
    let log = apply(&mut active, &RuleSet::empty(), &set(vec![terminal, https]));
    assert_eq!(log, vec!["refuse t", "refuse h"]);
    assert_eq!(active.len(), 0);
}

#[test]
fn an_https_rule_needs_routes() {
    let mut ctx = context();
    ctx.https_rules = HttpsRules::PerRule;
    for routes in [None, Some(vec![])] {
        let mut r = rule("h", Protocol::Https, 443, 1);
        r.routes = routes;
        assert_eq!(
            plan_spawn(r, &ctx, &StrMap::new()).unwrap_err(),
            "HTTPS rule \"h\": routes list is empty; validator should have rejected this"
        );
    }
    let mut r = rule("h", Protocol::Https, 443, 1);
    r.routes = Some(vec![route("a.local")]);
    assert!(matches!(plan_spawn(r, &ctx, &StrMap::new()), Ok(SpawnOrder::Https { .. })));
}

#[test]
fn a_failed_load_is_undone() {
    let mut store = CertStore::new();
    let mut other = rule("o", Protocol::Https, 443, 1);
    other.routes = Some(vec![route("o.local")]);
    load_rule_into_store(&other, &mut store, "/nx", &None, &FileSet::new()).unwrap();
    let mut missing = route("b.local");
    missing.cert = None;
    let mut r = rule("h", Protocol::Https, 444, 1);
    r.routes = Some(vec![route("A.local"), missing]);
    assert!(load_rule_into_store(&r, &mut store, "/nx", &None, &FileSet::new()).is_err());
    assert!(store.contains("a.local"));
    undo_load(r.routes.as_ref().unwrap(), &mut store);
    assert!(!store.contains("a.local"));
    assert!(store.contains("o.local"));
    assert_eq!(store.len(), 1);
}

#[test]
fn the_bind_override_replaces_the_address() {
    let mut ctx = context();
    ctx.bind = Some(IpAddr::V4(Ipv4Addr::new(10, 1, 1, 1)));
    match plan_spawn(rule("a", Protocol::Tcp, 7, 1), &ctx, &StrMap::new()).unwrap() {
        SpawnOrder::L4 { rule, .. } => assert_eq!(rule.listen.to_text(), "10.1.1.1:7"),
        _ => panic!("another step"),
    }
}

#[test]
fn loop_events_lead_to_actions() {
    let current = set(vec![rule("a", Protocol::Tcp, 1, 1)]);
    assert!(matches!(next_loop_action(&current, LoopEvent::Cancelled), LoopAction::Shutdown));
    let other = set(vec![rule("b", Protocol::Tcp, 1, 1)]);
    match next_loop_action(&current, LoopEvent::FileUpdate(other)) {
        LoopAction::Apply { set, .. } => assert_eq!(set.rules[0].name, "b"),
        _ => panic!("another step"),
    }
    assert_ne!(SupervisorShutDown.message(), "");
}

fn route(host: &str) -> HttpRoute {
    HttpRoute {
        hostname: host.to_string(),
        target: Target::parse("http://10.0.0.1:8080").unwrap(),
        cert: Some(CertSource::Ephemeral),
        key: None,
        hsts: None,
        headers: vec![],
    }
}

#[test]
fn the_https_frontend_follows_its_routes() {
    let a = [route("a.local")];
    let b = [route("b.local")];
    assert!(matches!(plan_https(&[], &[], false), HttpsPlan::Idle));
    assert!(matches!(plan_https(&[], &a, true), HttpsPlan::TearDown));
    assert!(matches!(plan_https(&a, &a, true), HttpsPlan::Keep));
    assert!(matches!(plan_https(&a, &[], false), HttpsPlan::Start));
    assert!(matches!(plan_https(&b, &a, true), HttpsPlan::Restart));
}

#[test]
fn routes_are_split_by_certificate() {
    let routes = [route("a.local"), route("b.local")];
    let less = vec!["b.local".to_string()];
    assert_eq!(loaded_hosts(&routes, &less), vec!["a.local"]);
    let plain = cert_less_routes(&routes, &less);
    assert_eq!(plain.len(), 1);
    assert_eq!(plain[0].hostname, "b.local");
}

#[test]
fn claims_are_undone_by_teardown() {
    let routes = vec![route("a.local"), route("b.local")];
    let loaded = vec!["a.local".to_string()];
    let mut companion = CompanionState::new();
    register_companion(&mut companion, "__https__", &loaded, &vec![route("b.local")]);
    assert!(companion.hosts.contains("a.local"));
    assert!(companion.plaintext.lookup("b.local").is_some());
    let mut store = CertStore::new();
    let mut r = rule("h", Protocol::Https, 443, 1);
    r.routes = Some(vec![route("a.local")]);
    load_rule_into_store(&r, &mut store, "/nx", &None, &FileSet::new()).unwrap();
    let mut watcher = WatcherState::new();
    tear_down(&mut companion, "__https__", &loaded, &routes, &mut watcher, &mut store);
    assert!(companion.is_empty());
    assert!(store.is_empty());
    register_companion(&mut companion, "x", &loaded, &vec![]);
    unclaim_hosts(&mut companion, &loaded);
    assert!(companion.is_empty());
}

#[test]
fn unloading_a_rule_forgets_its_hosts() {
    let mut store = CertStore::new();
    let mut r = rule("h", Protocol::Https, 443, 1);
    r.routes = Some(vec![route("a.local"), route("B.local")]);
    load_rule_into_store(&r, &mut store, "/nx", &None, &FileSet::new()).unwrap();
    assert_eq!(store.len(), 2);
    unload_rule_from_cert_store(&r, &mut WatcherState::new(), &mut store);
    assert!(store.is_empty());
}

#[test]
fn bring_up_runs_and_rolls_back() {
    let mut b = BringUp::new(FrontendKind::NodeWide { http3: true });
    assert!(matches!(b.step(BringUpEvent::Loaded), BringUpAction::EnsureCompanion));
    assert!(matches!(b.step(BringUpEvent::CompanionUp), BringUpAction::StartFrontend));
    assert!(matches!(b.step(BringUpEvent::FrontendUp(listen(443))), BringUpAction::StartHttp3));
    match b.step(BringUpEvent::Http3(false)) {
        BringUpAction::Succeed { listen: l, http3 } => {
            assert_eq!(l, listen(443));
            assert!(!http3);
        }
        _ => panic!("another step"),
    }
    let mut b = BringUp::new(FrontendKind::Rule);
    b.step(BringUpEvent::Loaded);
    b.step(BringUpEvent::CompanionUp);
    assert!(matches!(
        b.step(BringUpEvent::FrontendFailed("in use".to_string())),
        BringUpAction::UndoAll(_)
    ));
    assert_eq!(frontend_name(listen(443)), "__https__@127.0.0.1:443");
    assert_ne!(frontend_description(3), "");
}

#[test]
fn certificate_settings() {
    let mut c = CertConfig::default();
    assert_eq!(c.companion_port(), 80);
    assert!(c.server_default().is_none());
    c.default_cert = Some("/c".to_string());
    assert!(c.server_default().is_none());
    c.default_key = Some("/k".to_string());
    assert_eq!(c.server_default(), Some(("/c".to_string(), "/k".to_string())));
    c.redirect_port = Some(8080);
    assert_eq!(c.companion_port(), 8080);
    c.https_http3 = false;
    c.https_alt_svc = true;
    assert!(!c.emit_alt_svc());
}

#[test]
fn an_address_is_claimed_by_one_rule() {
    let mut active = StrMap::new();
    let both = set(vec![rule("a", Protocol::Tcp, 1, 1), rule("b", Protocol::Udp, 1, 1)]);
    let log = apply(&mut active, &RuleSet::empty(), &both);
    assert_eq!(log, vec!["start a", "refuse b"]);
    match plan_spawn(rule("b", Protocol::Udp, 1, 1), &context(), &active) {
        Err(reason) => assert_eq!(
            reason,
            "rule \"b\": listen address 127.0.0.1:1 is already claimed by another rule"
        ),
        Ok(_) => panic!("claimed twice"),
    }
}

#[test]
fn the_server_section_is_taken_over() {
    let listen = SocketAddr::new(IpAddr::V4(Ipv4Addr::new(10, 0, 0, 1)), 8443);
    let cert = Some("/c.pem".to_string());
    let c = CertConfig::from_server_section(
        "/certs".to_string(), cert, None, Some(8080), listen, false, true, 1024,
    );
    assert_eq!((c.cert_dir.as_str(), c.companion_port()), ("/certs", 8080));
    assert_eq!(c.https_listen, listen);
    assert_eq!((c.https_http3, c.https_alt_svc), (false, true));
    assert_eq!(c.https_request_body_limit, 1024);
    assert!(c.server_default().is_none());
    assert_eq!(CertConfig::default().https_request_body_limit, 16 * 1024 * 1024);
}
