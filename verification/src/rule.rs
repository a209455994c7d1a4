//! Forwarding rules and HTTP routes as plain values.

use vstd::prelude::*;
use vstd::string::*;

use crate::addr::{addr_ip, addr_of, addr_port, IpAddr, SocketAddr};
use crate::forward::Target;
use crate::text::{opt_view, same};

verus! {

/// PROXY-protocol version of an emitted header.
#[derive(Clone, Copy, Debug, PartialEq, Eq, Structural, Hash)]
pub enum ProxyProto {
    V1,
    V2,
}

/// Transport of a rule.
#[derive(Clone, Copy, Debug, PartialEq, Eq, Structural, Hash)]
pub enum Protocol {
    Tcp,
    Udp,
    Https,
}

/// The name of a protocol.
pub open spec fn protocol_text(p: Protocol) -> Seq<char> {
    match p {
        Protocol::Tcp => "tcp"@,
        Protocol::Udp => "udp"@,
        Protocol::Https => "https"@,
    }
}

impl Protocol {
    /// The name of the protocol.
    pub fn as_str(&self) -> (r: &'static str)
        ensures
            r@ == protocol_text(*self),
    {
        match self {
            Protocol::Tcp => "tcp",
            Protocol::Udp => "udp",
            Protocol::Https => "https",
        }
    }
}

/// `Strict-Transport-Security` policy of a route.
#[derive(Clone, Copy, Debug, PartialEq, Eq, Structural)]
pub struct HstsConfig {
    pub max_age: u64,
    pub include_subdomains: bool,
    pub preload: bool,
}

impl Default for HstsConfig {
    /// One year, this host only, no preload.
    fn default() -> (r: Self)
        ensures
            r == (HstsConfig { max_age: 31536000, include_subdomains: false, preload: false }),
    {
        HstsConfig { max_age: 31536000, include_subdomains: false, preload: false }
    }
}

/// Explicit certificate source of a route.
#[derive(Debug)]
pub enum CertSource {
    /// A PEM chain on disk.
    Path(String),
    /// A self-signed certificate made when the route is loaded.
    Ephemeral,
}

/// The model of a [`CertSource`].
pub enum CertSourceView {
    Path(Seq<char>),
    Ephemeral,
}

impl View for CertSource {
    type V = CertSourceView;

    open spec fn view(&self) -> CertSourceView {
        match self {
            CertSource::Path(p) => CertSourceView::Path(p@),
            CertSource::Ephemeral => CertSourceView::Ephemeral,
        }
    }
}

/// One virtual host: where requests for `hostname` go.
#[derive(Debug)]
pub struct HttpRoute {
    pub hostname: String,
    pub target: Target,
    pub cert: Option<CertSource>,
    pub key: Option<String>,
    pub hsts: Option<HstsConfig>,
    /// Static response headers, in the order in which they are set.
    pub headers: Vec<(String, String)>,
}

/// The model of an [`HttpRoute`].
pub struct RouteView {
    pub hostname: Seq<char>,
    pub url: Seq<char>,
    pub host: Option<Seq<char>>,
    pub port: Option<u16>,
    pub cert: Option<CertSourceView>,
    pub key: Option<Seq<char>>,
    pub hsts: Option<HstsConfig>,
    pub headers: Seq<(Seq<char>, Seq<char>)>,
}

/// Views of a list of text pairs.
pub open spec fn pair_views(v: Seq<(String, String)>) -> Seq<(Seq<char>, Seq<char>)> {
    Seq::new(v.len(), |i: int| (v[i].0@, v[i].1@))
}

impl View for HttpRoute {
    type V = RouteView;

    open spec fn view(&self) -> RouteView {
        RouteView {
            hostname: self.hostname@,
            url: self.target.url@,
            host: opt_view(self.target.host),
            port: self.target.port,
            cert: match self.cert {
                Some(c) => Some(c@),
                None => None,
            },
            key: opt_view(self.key),
            hsts: self.hsts,
            headers: pair_views(self.headers@),
        }
    }
}

/// Views of a list of routes.
pub open spec fn route_views(v: Seq<HttpRoute>) -> Seq<RouteView> {
    Seq::new(v.len(), |i: int| v[i]@)
}

/// Equality of optional texts.
fn same_opt(a: &Option<String>, b: &Option<String>) -> (r: bool)
    ensures
        r == (opt_view(*a) == opt_view(*b)),
{
    match (a, b) {
        (Some(x), Some(y)) => same(x.as_str(), y.as_str()),
        (None, None) => true,
        _ => false,
    }
}

fn same_cert(a: &Option<CertSource>, b: &Option<CertSource>) -> (r: bool)
    ensures
        r == (match *a {
            Some(c) => Some(c@),
            None => None,
        } == match *b {
            Some(c) => Some(c@),
            None => None,
        }),
{
    match (a, b) {
        (Some(CertSource::Path(x)), Some(CertSource::Path(y))) => same(x.as_str(), y.as_str()),
        (Some(CertSource::Ephemeral), Some(CertSource::Ephemeral)) => true,
        (None, None) => true,
        _ => false,
    }
}

fn same_pairs(a: &Vec<(String, String)>, b: &Vec<(String, String)>) -> (r: bool)
    ensures
        r == (pair_views(a@) == pair_views(b@)),
{
    assert(pair_views(a@).len() == a@.len());
    assert(pair_views(b@).len() == b@.len());
    if a.len() != b.len() {
        return false;
    }
    for i in 0..a.len()
        invariant
            a@.len() == b@.len(),
            forall|j: int| 0 <= j < i ==> pair_views(a@)[j] == pair_views(b@)[j],
    {
        if !same(a[i].0.as_str(), b[i].0.as_str()) || !same(a[i].1.as_str(), b[i].1.as_str()) {
            assert(pair_views(a@)[i as int] != pair_views(b@)[i as int]);
            return false;
        }
    }
    assert(pair_views(a@) =~= pair_views(b@));
    true
}

impl HttpRoute {
    /// Whether two routes are the same.
    pub fn same_as(&self, other: &HttpRoute) -> (r: bool)
        ensures
            r == (self@ == other@),
    {
        same(self.hostname.as_str(), other.hostname.as_str()) && self.target.same_as(&other.target)
            && same_cert(&self.cert, &other.cert) && same_opt(&self.key, &other.key) && self.hsts
            == other.hsts && same_pairs(&self.headers, &other.headers)
    }
}

impl Clone for CertSource {
    fn clone(&self) -> (r: Self)
        ensures
            r == *self,
    {
        match self {
            CertSource::Path(p) => CertSource::Path(p.clone()),
            CertSource::Ephemeral => CertSource::Ephemeral,
        }
    }
}

/// A copy of a list of text pairs.
pub fn clone_pairs(v: &Vec<(String, String)>) -> (r: Vec<(String, String)>)
    ensures
        r@ == v@,
{
    let mut out: Vec<(String, String)> = Vec::new();
    for i in 0..v.len()
        invariant
            out@ == v@.subrange(0, i as int),
    {
        out.push((v[i].0.clone(), v[i].1.clone()));
        assert(out@ =~= v@.subrange(0, i + 1));
    }
    assert(out@ =~= v@);
    out
}

impl Clone for HttpRoute {
    fn clone(&self) -> (r: Self)
        ensures
            r@ == self@,
            r.hostname@ == self.hostname@,
            r.target == self.target,
            r.headers@ == self.headers@,
            r.hsts == self.hsts,
    {
        let cert = match &self.cert {
            Some(c) => Some(c.clone()),
            None => None,
        };
        let key = match &self.key {
            Some(k) => Some(k.clone()),
            None => None,
        };
        HttpRoute {
            hostname: self.hostname.clone(),
            target: self.target.clone(),
            cert,
            key,
            hsts: self.hsts,
            headers: clone_pairs(&self.headers),
        }
    }
}

/// A copy of a list of routes.
pub fn clone_routes(v: &[HttpRoute]) -> (r: Vec<HttpRoute>)
    ensures
        route_views(r@) == route_views(v@),
        r@.len() == v@.len(),
{
    let mut out: Vec<HttpRoute> = Vec::new();
    for i in 0..v.len()
        invariant
            out@.len() == i,
            route_views(out@) == route_views(v@).subrange(0, i as int),
    {
        let ghost prev = out@;
        let c = v[i].clone();
        out.push(c);
        assert(route_views(out@) =~= route_views(prev).push(v@[i as int]@));
        assert(route_views(out@) =~= route_views(v@).subrange(0, i + 1));
    }
    assert(route_views(out@) =~= route_views(v@));
    out
}

/// Whether two lists hold the same routes in the same order.
pub fn same_routes(a: &[HttpRoute], b: &[HttpRoute]) -> (r: bool)
    ensures
        r == (route_views(a@) == route_views(b@)),
{
    assert(route_views(a@).len() == a@.len());
    assert(route_views(b@).len() == b@.len());
    if a.len() != b.len() {
        return false;
    }
    for i in 0..a.len()
        invariant
            a@.len() == b@.len(),
            forall|j: int| 0 <= j < i ==> route_views(a@)[j] == route_views(b@)[j],
    {
        if !a[i].same_as(&b[i]) {
            assert(route_views(a@)[i as int] != route_views(b@)[i as int]);
            return false;
        }
    }
    assert(route_views(a@) =~= route_views(b@));
    true
}

/// A forwarding rule.
#[derive(Debug)]
pub struct Rule {
    pub name: String,
    pub listen: SocketAddr,
    pub protocol: Protocol,
    /// Port on the enrolled peer, for a rule that dials the peer.
    pub upstream_port: Option<u16>,
    /// Fixed upstream address.
    pub upstream_addr: Option<SocketAddr>,
    /// Idle timeout of a UDP flow, in milliseconds.
    pub idle_timeout: Option<u64>,
    pub proxy_protocol: Option<ProxyProto>,
    /// Virtual hosts of an HTTPS rule.
    pub routes: Option<Vec<HttpRoute>>,
    /// Certificate directory of an HTTPS rule.
    pub cert_dir: Option<String>,
}

/// The model of a [`Rule`].
pub struct RuleView {
    pub name: Seq<char>,
    pub listen: SocketAddr,
    pub protocol: Protocol,
    pub upstream_port: Option<u16>,
    pub upstream_addr: Option<SocketAddr>,
    pub idle_timeout: Option<u64>,
    pub proxy_protocol: Option<ProxyProto>,
    pub routes: Option<Seq<RouteView>>,
    pub cert_dir: Option<Seq<char>>,
}

impl View for Rule {
    type V = RuleView;

    open spec fn view(&self) -> RuleView {
        RuleView {
            name: self.name@,
            listen: self.listen,
            protocol: self.protocol,
            upstream_port: self.upstream_port,
            upstream_addr: self.upstream_addr,
            idle_timeout: self.idle_timeout,
            proxy_protocol: self.proxy_protocol,
            routes: match self.routes {
                Some(v) => Some(route_views(v@)),
                None => None,
            },
            cert_dir: opt_view(self.cert_dir),
        }
    }
}

impl Clone for Rule {
    fn clone(&self) -> (r: Self)
        ensures
            r@ == self@,
    {
        let routes = match &self.routes {
            Some(v) => Some(clone_routes(v.as_slice())),
            None => None,
        };
        let cert_dir = match &self.cert_dir {
            Some(d) => Some(d.clone()),
            None => None,
        };
        Rule {
            name: self.name.clone(),
            listen: self.listen,
            protocol: self.protocol,
            upstream_port: self.upstream_port,
            upstream_addr: self.upstream_addr,
            idle_timeout: self.idle_timeout,
            proxy_protocol: self.proxy_protocol,
            routes,
            cert_dir,
        }
    }
}

/// The listen address under a server-wide bind address.
pub open spec fn bound_listen(listen: SocketAddr, bind: Option<IpAddr>) -> SocketAddr {
    match bind {
        Some(ip) => addr_of(ip, addr_port(listen)),
        None => listen,
    }
}

impl Rule {
    /// Whether two rules are the same.
    pub fn same_as(&self, other: &Rule) -> (r: bool)
        ensures
            r == (self@ == other@),
    {
        let routes = match (&self.routes, &other.routes) {
            (Some(a), Some(b)) => same_routes(a.as_slice(), b.as_slice()),
            (None, None) => true,
            _ => false,
        };
        same(self.name.as_str(), other.name.as_str()) && self.listen == other.listen
            && self.protocol == other.protocol && self.upstream_port == other.upstream_port
            && self.upstream_addr == other.upstream_addr && self.idle_timeout
            == other.idle_timeout && self.proxy_protocol == other.proxy_protocol && routes
            && same_opt(&self.cert_dir, &other.cert_dir)
    }

    /// The rule on a server-wide bind address, which replaces the rule's own.
    pub fn with_bind_override(self, bind: Option<IpAddr>) -> (r: Rule)
        ensures
            r@ == (RuleView { listen: bound_listen(self.listen, bind), ..self@ }),
    {
        let mut r = self;
        match bind {
            Some(ip) => {
                r.listen = SocketAddr::new(ip, r.listen.port());
            },
            None => {},
        }
        r
    }
}

/// Views of a list of rules.
pub open spec fn rule_views(v: Seq<Rule>) -> Seq<RuleView> {
    Seq::new(v.len(), |i: int| v[i]@)
}

/// Everything that the configuration asks for.
#[derive(Debug)]
pub struct RuleSet {
    pub rules: Vec<Rule>,
    pub routes: Vec<HttpRoute>,
}

/// A rule whose definition changed.
#[derive(Debug)]
pub struct RuleChange {
    pub old: Rule,
    pub new: Rule,
}

/// How one rule set differs from another, by rule name.
#[derive(Debug)]
pub struct RuleDiff {
    pub added: Vec<Rule>,
    pub changed: Vec<RuleChange>,
    pub removed: Vec<Rule>,
    pub unchanged: Vec<Rule>,
}

/// Position of the first rule named `name`; the length where there is none.
pub open spec fn rule_pos(v: Seq<RuleView>, name: Seq<char>) -> int
    decreases v.len(),
{
    if v.len() == 0 || v[0].name == name {
        0
    } else {
        1 + rule_pos(v.drop_first(), name)
    }
}

/// What [`rule_pos`] returns.
pub proof fn lemma_rule_pos(v: Seq<RuleView>, name: Seq<char>)
    ensures
        0 <= rule_pos(v, name) <= v.len(),
        rule_pos(v, name) < v.len() ==> v[rule_pos(v, name)].name == name,
        forall|j: int| 0 <= j < rule_pos(v, name) ==> (#[trigger] v[j]).name != name,
    decreases v.len(),
{
    if v.len() > 0 && v[0].name != name {
        let t = v.drop_first();
        lemma_rule_pos(t, name);
        assert forall|j: int| 0 <= j < rule_pos(v, name) implies (#[trigger] v[j]).name != name by {
            if j > 0 {
                assert(v[j] == t[j - 1]);
            }
        }
    }
}

/// A rule of that name is in the list.
pub open spec fn has_rule(v: Seq<RuleView>, name: Seq<char>) -> bool {
    rule_pos(v, name) < v.len()
}

/// The rules of the first `n` of `v` whose name `other` does not have.
pub open spec fn missing_from(v: Seq<RuleView>, other: Seq<RuleView>, n: int) -> Seq<RuleView>
    decreases n,
{
    if n <= 0 {
        Seq::empty()
    } else {
        let rest = missing_from(v, other, n - 1);
        if has_rule(other, v[n - 1].name) {
            rest
        } else {
            rest.push(v[n - 1])
        }
    }
}

/// The rules of the first `n` of `new` that `old` has under the same name with
/// another definition, as pairs of old and new.
pub open spec fn redefined(old: Seq<RuleView>, new: Seq<RuleView>, n: int) -> Seq<
    (RuleView, RuleView),
>
    decreases n,
{
    if n <= 0 {
        Seq::empty()
    } else {
        let rest = redefined(old, new, n - 1);
        let p = rule_pos(old, new[n - 1].name);
        if has_rule(old, new[n - 1].name) && old[p] != new[n - 1] {
            rest.push((old[p], new[n - 1]))
        } else {
            rest
        }
    }
}

/// The rules of the first `n` of `new` that `old` has unchanged.
pub open spec fn kept(old: Seq<RuleView>, new: Seq<RuleView>, n: int) -> Seq<RuleView>
    decreases n,
{
    if n <= 0 {
        Seq::empty()
    } else {
        let rest = kept(old, new, n - 1);
        let p = rule_pos(old, new[n - 1].name);
        if has_rule(old, new[n - 1].name) && old[p] == new[n - 1] {
            rest.push(new[n - 1])
        } else {
            rest
        }
    }
}

/// Views of a list of changes.
pub open spec fn change_views(v: Seq<RuleChange>) -> Seq<(RuleView, RuleView)> {
    Seq::new(v.len(), |i: int| (v[i].old@, v[i].new@))
}

/// Decides [`rule_pos`].
fn find_rule(v: &Vec<Rule>, name: &str) -> (r: usize)
    ensures
        r == rule_pos(rule_views(v@), name@),
{
    let ghost all = rule_views(v@);
    let mut i: usize = 0;
    while i < v.len() && !same(v[i].name.as_str(), name)
        invariant
            i <= v@.len(),
            all == rule_views(v@),
            forall|j: int| 0 <= j < i ==> (#[trigger] all[j]).name != name@,
        decreases v@.len() - i,
    {
        i += 1;
    }
    proof {
        lemma_rule_pos(all, name@);
        let p = rule_pos(all, name@);
        if p < i {
            assert(all[p].name != name@);
        } else if i < p {
            assert(all[i as int].name != name@);
        }
    }
    i
}

impl RuleSet {
    /// A set without rules and routes.
    pub fn empty() -> (r: RuleSet)
        ensures
            r.rules@.len() == 0,
            r.routes@.len() == 0,
    {
        RuleSet { rules: Vec::new(), routes: Vec::new() }
    }

    /// How `new` differs from this set.
    pub fn diff(&self, new: &RuleSet) -> (r: RuleDiff)
        ensures
            ({
                let a = rule_views(self.rules@);
                let b = rule_views(new.rules@);
                &&& rule_views(r.added@) == missing_from(b, a, b.len() as int)
                &&& rule_views(r.removed@) == missing_from(a, b, a.len() as int)
                &&& change_views(r.changed@) == redefined(a, b, b.len() as int)
                &&& rule_views(r.unchanged@) == kept(a, b, b.len() as int)
            }),
    {
        let ghost a = rule_views(self.rules@);
        let ghost b = rule_views(new.rules@);
        let mut added: Vec<Rule> = Vec::new();
        let mut changed: Vec<RuleChange> = Vec::new();
        let mut unchanged: Vec<Rule> = Vec::new();
        let mut removed: Vec<Rule> = Vec::new();
        assert(rule_views(added@) =~= Seq::<RuleView>::empty());
        assert(change_views(changed@) =~= Seq::<(RuleView, RuleView)>::empty());
        for i in 0..new.rules.len()
            invariant
                a == rule_views(self.rules@),
                b == rule_views(new.rules@),
                rule_views(added@) == missing_from(b, a, i as int),
                change_views(changed@) == redefined(a, b, i as int),
                rule_views(unchanged@) == kept(a, b, i as int),
        {
            let rule = &new.rules[i];
            let p: usize = find_rule(&self.rules, rule.name.as_str());
            let ghost (added0, changed0, unchanged0) = (added@, changed@, unchanged@);
            assert(b[i as int] == rule@);
            if p >= self.rules.len() {
                added.push(rule.clone());
                assert(rule_views(added@) =~= rule_views(added0).push(rule@));
            } else {
                assert(a[p as int] == self.rules@[p as int]@);
                if self.rules[p].same_as(rule) {
                    unchanged.push(rule.clone());
                    assert(rule_views(unchanged@) =~= rule_views(unchanged0).push(rule@));
                } else {
                    changed.push(RuleChange { old: self.rules[p].clone(), new: rule.clone() });
                    assert(change_views(changed@) =~= change_views(changed0).push(
                        (a[p as int], rule@),
                    ));
                }
            }
        }
        for i in 0..self.rules.len()
            invariant
                a == rule_views(self.rules@),
                b == rule_views(new.rules@),
                rule_views(removed@) == missing_from(a, b, i as int),
        {
            let rule = &self.rules[i];
            let p: usize = find_rule(&new.rules, rule.name.as_str());
            let ghost removed0 = removed@;
            assert(a[i as int] == rule@);
            if p >= new.rules.len() {
                removed.push(rule.clone());
                assert(rule_views(removed@) =~= rule_views(removed0).push(rule@));
            }
        }
        RuleDiff { added, changed, removed, unchanged }
    }
}

/// Law: every rule of a new set is added, changed or unchanged, and only one of
/// the three.
pub proof fn law_diff_places_every_rule_once(old: Seq<RuleView>, new: Seq<RuleView>, n: int)
    requires
        0 <= n <= new.len(),
    ensures
        missing_from(new, old, n).len() + redefined(old, new, n).len() + kept(old, new, n).len()
            == n,
    decreases n,
{
    if n > 0 {
        law_diff_places_every_rule_once(old, new, n - 1);
    }
}

/// Law: a rule is missing exactly where no rule of the other list has its name;
/// it is changed where one has its name with another definition, and unchanged
/// where one has its name with the same.
pub proof fn law_diff_goes_by_name_and_definition(
    old: Seq<RuleView>,
    new: Seq<RuleView>,
    n: int,
    i: int,
)
    requires
        0 <= i < n <= new.len(),
        forall|a: int, b: int|
            0 <= a < b < old.len() ==> (#[trigger] old[a]).name != (#[trigger] old[b]).name,
    ensures
        (forall|j: int| 0 <= j < old.len() ==> (#[trigger] old[j]).name != new[i].name)
            ==> missing_from(new, old, n).contains(new[i]),
        forall|j: int|
            0 <= j < old.len() && (#[trigger] old[j]).name == new[i].name && old[j] != new[i]
                ==> redefined(old, new, n).contains((old[j], new[i])),
        forall|j: int|
            0 <= j < old.len() && (#[trigger] old[j]) == new[i] ==> kept(old, new, n).contains(
                new[i],
            ),
    decreases n,
{
    let name = new[i].name;
    lemma_rule_pos(old, name);
    let p = rule_pos(old, name);
    if i < n - 1 {
        law_diff_goes_by_name_and_definition(old, new, n - 1, i);
        let (a, b) = (missing_from(new, old, n - 1), missing_from(new, old, n));
        if a.contains(new[i]) {
            let k = choose|k: int| 0 <= k < a.len() && a[k] == new[i];
            assert(b[k] == new[i]);
        }
        let (a, b) = (kept(old, new, n - 1), kept(old, new, n));
        if a.contains(new[i]) {
            let k = choose|k: int| 0 <= k < a.len() && a[k] == new[i];
            assert(b[k] == new[i]);
        }
        let (a, b) = (redefined(old, new, n - 1), redefined(old, new, n));
        assert forall|j: int|
            0 <= j < old.len() && (#[trigger] old[j]).name == new[i].name && old[j]
                != new[i] implies b.contains((old[j], new[i])) by {
            let k = choose|k: int| 0 <= k < a.len() && a[k] == (old[j], new[i]);
            assert(b[k] == (old[j], new[i]));
        }
    } else {
        let b = missing_from(new, old, n);
        if !has_rule(old, name) {
            assert(b[b.len() - 1] == new[i]);
        }
        assert forall|j: int| 0 <= j < old.len() && (#[trigger] old[j]).name == name implies j == p
            by {
            if p < old.len() {
                assert(old[p].name == name);
            }
        }
        let c = redefined(old, new, n);
        if has_rule(old, name) && old[p] != new[i] {
            assert(c[c.len() - 1] == (old[p], new[i]));
        }
        let d = kept(old, new, n);
        if has_rule(old, name) && old[p] == new[i] {
            assert(d[d.len() - 1] == new[i]);
        }
    }
}

/// Law: a server-wide bind address replaces a rule's address and keeps its port.
pub proof fn law_bind_address_keeps_the_port(listen: SocketAddr, ip: IpAddr)
    ensures
        bound_listen(listen, None) == listen,
        addr_ip(bound_listen(listen, Some(ip))) == ip,
        addr_port(bound_listen(listen, Some(ip))) == addr_port(listen),
{
}

/// Law: the protocols go by names that tell them apart.
pub proof fn law_protocol_names()
    ensures
        protocol_text(Protocol::Tcp) == seq!['t', 'c', 'p'],
        protocol_text(Protocol::Udp) == seq!['u', 'd', 'p'],
        protocol_text(Protocol::Https) == seq!['h', 't', 't', 'p', 's'],
{
    reveal_strlit("tcp");
    reveal_strlit("udp");
    reveal_strlit("https");
    assert("tcp"@ =~= seq!['t', 'c', 'p']);
    assert("udp"@ =~= seq!['u', 'd', 'p']);
    assert("https"@ =~= seq!['h', 't', 't', 'p', 's']);
}

} // verus!
