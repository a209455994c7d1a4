//! The plaintext companion listener of one address.
//!
//! A request goes through four steps: a pending ACME challenge is answered
//! whoever asks; a route without certificate is proxied in plaintext, to peers
//! on the local network only; a host with a certificate is redirected to
//! HTTPS, whoever asks; anything else is not found.

use http::header::{HeaderMap, HeaderValue};
use vstd::prelude::*;
use vstd::string::*;

use crate::acme::http01::{parse_challenge_path, path_token, AcmeResponder};
use crate::forward::{opt_text, path_or_root, upstream_uri};
use crate::headers::{first_text, header_map, HeaderModel};
use crate::http_frontend::request::{
    extract_host, request_host, short_response, RequestHead, ShortResponse, TEXT_PLAIN,
};
use crate::http_frontend::route::{
    collided, extended, host_key, without_rule, EntryView, RouteModel, RouteTable,
};
use crate::rule::{pair_views, HttpRoute};
use crate::strmap::{increasing, StrMap};
use crate::text::{
    before_last_colon, chars_of, cut_last_colon, join3, lower, opt_view, string_of, texts, to_lower,
};

verus! {

broadcast use vstd::string::group_string_axioms;

/// Hosts with the number of claims on each. A host without claims is
/// forgotten.
pub struct HostSet {
    by_host: StrMap<usize>,
}

/// Claims per lowercase host.
pub type HostModel = Map<Seq<char>, nat>;

impl View for HostSet {
    type V = HostModel;

    closed spec fn view(&self) -> HostModel {
        self.by_host@.map_values(|c: usize| c as nat)
    }
}

/// The number of claims on a host, in any case.
pub open spec fn claims(m: HostModel, host: Seq<char>) -> nat {
    if m.contains_key(lower(host)) {
        m[lower(host)]
    } else {
        0
    }
}

/// One claim more, up to `usize::MAX`.
pub open spec fn claim_more(c: nat) -> nat {
    if c < usize::MAX {
        c + 1
    } else {
        c
    }
}

/// The set after one more claim on a host.
pub open spec fn claimed(m: HostModel, host: Seq<char>) -> HostModel {
    m.insert(lower(host), claim_more(claims(m, host)))
}

/// The set after a claim on a host was given up.
pub open spec fn unclaimed(m: HostModel, host: Seq<char>) -> HostModel {
    if !m.contains_key(lower(host)) {
        m
    } else if m[lower(host)] == 1 {
        m.remove(lower(host))
    } else {
        m.insert(lower(host), (m[lower(host)] - 1) as nat)
    }
}

impl HostSet {
    /// Every host that is remembered has a claim.
    pub closed spec fn wf(&self) -> bool {
        &&& self.by_host.wf()
        &&& forall|k: Seq<char>| #[trigger] self@.contains_key(k) ==> 1 <= self@[k] <= usize::MAX
    }

    /// No host.
    pub fn new() -> (r: Self)
        ensures
            r.wf(),
            r@ == HostModel::empty(),
    {
        let r = HostSet { by_host: StrMap::new() };
        assert(r@ =~= HostModel::empty());
        r
    }

    /// Whether there is a claim on the host.
    pub fn contains(&self, host: &str) -> (r: bool)
        requires
            self.wf(),
        ensures
            r == (claims(self@, host@) > 0),
            r == self@.contains_key(lower(host@)),
    {
        let k = to_lower(host);
        assert(self@.contains_key(k@) == self.by_host@.contains_key(k@));
        self.by_host.contains(k.as_str())
    }

    /// Adds a claim on the host.
    pub fn add(&mut self, host: &str)
        requires
            old(self).wf(),
        ensures
            final(self).wf(),
            final(self)@ == claimed(old(self)@, host@),
    {
        let k = to_lower(host);
        let ghost before = self@;
        let count: usize = match self.by_host.get(k.as_str()) {
            Some(c) => *c,
            None => 0,
        };
        let next: usize = count.saturating_add(1);
        let ghost key = k@;
        let _ = self.by_host.insert(k, next);
        assert(self@ =~= before.insert(key, next as nat));
        assert forall|q: Seq<char>| #[trigger] self@.contains_key(q) implies 1 <= self@[q]
            <= usize::MAX by {
            if q != key {
                assert(before.contains_key(q));
            }
        }
    }

    /// Gives a claim on the host up; nothing happens without one.
    pub fn remove(&mut self, host: &str)
        requires
            old(self).wf(),
        ensures
            final(self).wf(),
            final(self)@ == unclaimed(old(self)@, host@),
    {
        let k = to_lower(host);
        let ghost before = self@;
        let ghost key = k@;
        let count: usize = match self.by_host.get(k.as_str()) {
            Some(c) => *c,
            None => {
                return ;
            },
        };
        assert(before.contains_key(key));
        if count == 1 {
            let _ = self.by_host.remove(k.as_str());
            assert(self@ =~= before.remove(key));
        } else {
            let _ = self.by_host.insert(k, count - 1);
            assert(self@ =~= before.insert(key, (count - 1) as nat));
        }
        assert forall|q: Seq<char>| #[trigger] self@.contains_key(q) implies 1 <= self@[q]
            <= usize::MAX by {
            assert(before.contains_key(q));
        }
    }

    /// Whether there is no host.
    pub fn is_empty(&self) -> (r: bool)
        requires
            self.wf(),
        ensures
            r == (self@ == HostModel::empty()),
    {
        proof {
            self.by_host.lemma_keys();
            assert(self@.dom() =~= self.by_host@.dom());
            if self@.dom().len() == 0 {
                assert(self@.dom() =~= Set::empty());
                assert(self@ =~= HostModel::empty());
            }
        }
        self.by_host.len() == 0
    }
}

/// What a companion listener knows: the hosts that it redirects and the routes
/// that it serves in plaintext.
pub struct CompanionState {
    pub hosts: HostSet,
    pub plaintext: RouteTable,
}

impl CompanionState {
    /// Both parts are in order.
    pub open spec fn wf(&self) -> bool {
        self.hosts.wf() && self.plaintext.wf()
    }

    /// Neither hosts nor routes.
    pub fn new() -> (r: Self)
        ensures
            r.wf(),
            r.hosts@ == HostModel::empty(),
            r.plaintext@ == RouteModel::empty(),
    {
        CompanionState { hosts: HostSet::new(), plaintext: RouteTable::empty() }
    }

    /// Adds a claim on a host with a certificate.
    pub fn register_host(&mut self, host: &str)
        requires
            old(self).wf(),
        ensures
            final(self).wf(),
            final(self).hosts@ == claimed(old(self).hosts@, host@),
            final(self).plaintext == old(self).plaintext,
    {
        self.hosts.add(host);
    }

    /// Gives a claim on a host up.
    pub fn unregister_host(&mut self, host: &str)
        requires
            old(self).wf(),
        ensures
            final(self).wf(),
            final(self).hosts@ == unclaimed(old(self).hosts@, host@),
            final(self).plaintext == old(self).plaintext,
    {
        self.hosts.remove(host);
    }

    /// Adds a rule's routes without certificate. Gives the hosts that another
    /// route already had.
    pub fn register_plaintext_routes(&mut self, routes: &[HttpRoute], rule_name: &str) -> (r: Vec<
        String,
    >)
        requires
            old(self).wf(),
        ensures
            final(self).wf(),
            final(self).hosts == old(self).hosts,
            final(self).plaintext@ == extended(
                old(self).plaintext@,
                routes@,
                rule_name@,
                routes@.len() as int,
            ),
            texts(r@) == collided(
                old(self).plaintext@,
                routes@,
                rule_name@,
                routes@.len() as int,
            ),
    {
        self.plaintext.extend(routes, rule_name)
    }

    /// Drops a rule's routes without certificate. Gives their hosts.
    pub fn unregister_plaintext_routes(&mut self, rule_name: &str) -> (r: Vec<String>)
        requires
            old(self).wf(),
        ensures
            final(self).wf(),
            final(self).hosts == old(self).hosts,
            final(self).plaintext@ == without_rule(old(self).plaintext@, rule_name@),
            increasing(texts(r@)),
            forall|k: Seq<char>| #[trigger]
                texts(r@).contains(k) <==> old(self).plaintext@.contains_key(k) && old(
                    self,
                ).plaintext@[k].rule_name == rule_name@,
    {
        self.plaintext.remove_by_rule(rule_name)
    }

    /// Whether the listener has nothing left to do.
    pub fn is_empty(&self) -> (r: bool)
        requires
            self.wf(),
        ensures
            r == (self.hosts@ == HostModel::empty() && self.plaintext@ == RouteModel::empty()),
    {
        self.hosts.is_empty() && self.plaintext.is_empty()
    }
}

/// What to do with a request on the companion listener.
pub enum CompanionPlan {
    /// Answer with a key authorization.
    Challenge { status: u16, content_type: &'static str, key_auth: String },
    /// Answer here. With a rule name, a peer outside the local network asked
    /// for a route of that rule.
    Reply { response: ShortResponse, denied: Option<String> },
    /// Serve the request in plaintext against this single-route table.
    Proxy { rule_name: String, host: String, routes: RouteTable },
    /// Answer with this location and an empty body. With a rule name, a peer
    /// outside the local network asked for a route of that rule.
    Redirect { status: u16, location: String, denied: Option<String> },
}

/// The model of a [`CompanionPlan`].
pub enum CompanionView {
    Challenge { status: u16, content_type: Seq<char>, key_auth: Seq<char> },
    Reply { status: u16, body: Seq<char>, denied: Option<Seq<char>> },
    Proxy { rule_name: Seq<char>, host: Seq<char>, routes: RouteModel },
    Redirect { status: u16, location: Seq<char>, denied: Option<Seq<char>> },
}

/// The table that holds one plaintext route, without policy and headers of its
/// own.
pub open spec fn single_route(host: Seq<char>, e: EntryView) -> RouteModel {
    RouteModel::empty().insert(
        lower(host),
        EntryView { hsts: None, headers: Seq::empty(), ..e },
    )
}

/// The third and fourth step: redirect a host with a certificate, or give up.
pub open spec fn redirect_view(
    bare: Seq<char>,
    path_and_query: Option<Seq<char>>,
    hosts: HostModel,
    denied: Option<Seq<char>>,
) -> CompanionView {
    if hosts.contains_key(lower(bare)) {
        CompanionView::Redirect {
            status: 301,
            location: "https://"@ + bare + path_or_root(path_and_query),
            denied,
        }
    } else {
        CompanionView::Reply { status: 404, body: "no route\n"@, denied }
    }
}

/// What to do with a request on the companion listener.
pub open spec fn companion_plan(
    path: Seq<char>,
    authority: Option<Seq<char>>,
    path_and_query: Option<Seq<char>>,
    m: HeaderModel,
    lan_allows: bool,
    hosts: HostModel,
    plaintext: RouteModel,
    challenges: Map<Seq<char>, Seq<char>>,
) -> CompanionView {
    if path_token(path) is Some {
        let token = path_token(path)->0;
        if challenges.contains_key(token) {
            CompanionView::Challenge {
                status: 200,
                content_type: TEXT_PLAIN@,
                key_auth: challenges[token],
            }
        } else {
            CompanionView::Reply { status: 404, body: ""@, denied: None }
        }
    } else {
        match request_host(authority, m) {
            None => CompanionView::Reply { status: 400, body: ""@, denied: None },
            Some(host) => {
                let bare = before_last_colon(host);
                let k = host_key(bare);
                if plaintext.contains_key(k) {
                    if lan_allows {
                        CompanionView::Proxy {
                            rule_name: plaintext[k].rule_name,
                            host: bare,
                            routes: single_route(bare, plaintext[k]),
                        }
                    } else {
                        redirect_view(bare, path_and_query, hosts, Some(plaintext[k].rule_name))
                    }
                } else {
                    redirect_view(bare, path_and_query, hosts, None)
                }
            },
        }
    }
}

/// The plan is the one of the model.
pub open spec fn companion_is(p: CompanionPlan, v: CompanionView) -> bool {
    match (p, v) {
        (
            CompanionPlan::Challenge { status, content_type, key_auth },
            CompanionView::Challenge { status: s, content_type: t, key_auth: k },
        ) => status == s && content_type@ == t && key_auth@ == k,
        (
            CompanionPlan::Reply { response, denied },
            CompanionView::Reply { status, body, denied: d },
        ) => response.status == status && response.content_type@ == TEXT_PLAIN@ && response.body@
            == body && opt_view(denied) == d,
        (
            CompanionPlan::Proxy { rule_name, host, routes },
            CompanionView::Proxy { rule_name: n, host: h, routes: m },
        ) => rule_name@ == n && host@ == h && routes.wf() && routes@ == m,
        (
            CompanionPlan::Redirect { status, location, denied },
            CompanionView::Redirect { status: s, location: l, denied: d },
        ) => status == s && location@ == l && opt_view(denied) == d,
        _ => false,
    }
}

/// The pending challenges of an optional responder.
pub open spec fn pending(acme: Option<&AcmeResponder>) -> Map<Seq<char>, Seq<char>> {
    match acme {
        Some(r) => r@,
        None => Map::empty(),
    }
}

/// Redirects a host with a certificate to HTTPS; any other host is not found.
fn redirect_or_not_found(
    bare: &str,
    path_and_query: Option<&str>,
    hosts: &HostSet,
    denied: Option<String>,
) -> (r: CompanionPlan)
    requires
        hosts.wf(),
    ensures
        companion_is(
            r,
            redirect_view(bare@, opt_text(path_and_query), hosts@, opt_view(denied)),
        ),
{
    if hosts.contains(bare) {
        let pq = match path_and_query {
            Some(p) => p,
            None => "/",
        };
        CompanionPlan::Redirect { status: 301, location: join3("https://", bare, pq), denied }
    } else {
        CompanionPlan::Reply { response: short_response(404, "no route\n"), denied }
    }
}

/// Decides what to do with a request on the companion listener. `lan_allows`
/// says whether the peer is on the local network.
pub fn plan_companion(
    path: &str,
    head: &RequestHead,
    headers: &HeaderMap<HeaderValue>,
    lan_allows: bool,
    state: &CompanionState,
    acme: Option<&AcmeResponder>,
) -> (r: CompanionPlan)
    requires
        state.wf(),
        acme is Some ==> acme->0.wf(),
    ensures
        companion_is(
            r,
            companion_plan(
                path@,
                opt_view(head.authority),
                opt_view(head.path_and_query),
                header_map(*headers),
                lan_allows,
                state.hosts@,
                state.plaintext@,
                pending(acme),
            ),
        ),
{
    if let Some(token) = parse_challenge_path(path) {
        if let Some(responder) = acme {
            if let Some(key_auth) = responder.lookup(token) {
                return CompanionPlan::Challenge { status: 200, content_type: TEXT_PLAIN, key_auth };
            }
        }
        return CompanionPlan::Reply { response: short_response(404, ""), denied: None };
    }
    let authority = match &head.authority {
        Some(a) => Some(a.as_str()),
        None => None,
    };
    let path_and_query = match &head.path_and_query {
        Some(p) => Some(p.as_str()),
        None => None,
    };
    let host = match extract_host(authority, headers) {
        Some(h) => h,
        None => {
            return CompanionPlan::Reply { response: short_response(400, ""), denied: None };
        },
    };
    let v = chars_of(host.as_str());
    let b = cut_last_colon(v.as_slice());
    let bare = string_of(b.as_slice());
    match state.plaintext.lookup(bare.as_str()) {
        Some(entry) => {
            let rule_name = entry.rule_name.clone();
            if lan_allows {
                let route = HttpRoute {
                    hostname: bare.clone(),
                    target: entry.target.clone(),
                    cert: None,
                    key: None,
                    hsts: None,
                    headers: Vec::new(),
                };
                let list: Vec<HttpRoute> = vec![route];
                let routes = RouteTable::build(list.as_slice(), rule_name.as_str());
                proof {
                    let e = state.plaintext@[host_key(bare@)];
                    assert(list@ =~= seq![route]);
                    assert(pair_views(route.headers@) =~= Seq::empty());
                    reveal_with_fuel(extended, 2);
                    assert(routes@ =~= single_route(bare@, e));
                }
                CompanionPlan::Proxy { rule_name, host: bare, routes }
            } else {
                redirect_or_not_found(bare.as_str(), path_and_query, &state.hosts, Some(rule_name))
            }
        },
        None => redirect_or_not_found(bare.as_str(), path_and_query, &state.hosts, None),
    }
}

/// Law: a route without certificate is proxied to peers on the local network
/// only.
pub proof fn law_plaintext_stays_on_the_lan(
    path: Seq<char>,
    authority: Option<Seq<char>>,
    path_and_query: Option<Seq<char>>,
    m: HeaderModel,
    hosts: HostModel,
    plaintext: RouteModel,
    challenges: Map<Seq<char>, Seq<char>>,
)
    ensures
        !(companion_plan(
            path,
            authority,
            path_and_query,
            m,
            false,
            hosts,
            plaintext,
            challenges,
        ) is Proxy),
{
}

/// Law: challenges and redirects do not depend on where the peer is.
pub proof fn law_challenge_ignores_the_peer(
    path: Seq<char>,
    authority: Option<Seq<char>>,
    path_and_query: Option<Seq<char>>,
    m: HeaderModel,
    hosts: HostModel,
    plaintext: RouteModel,
    challenges: Map<Seq<char>, Seq<char>>,
)
    requires
        path_token(path) is Some || request_host(authority, m) is None || !plaintext.contains_key(
            host_key(before_last_colon(request_host(authority, m)->0)),
        ),
    ensures
        companion_plan(path, authority, path_and_query, m, true, hosts, plaintext, challenges)
            == companion_plan(
            path,
            authority,
            path_and_query,
            m,
            false,
            hosts,
            plaintext,
            challenges,
        ),
{
}

/// Law: a request for a host with a certificate, and without a plaintext route,
/// is sent to HTTPS under the same path, wherever the peer is.
pub proof fn law_certified_host_is_redirected(
    path: Seq<char>,
    authority: Option<Seq<char>>,
    path_and_query: Option<Seq<char>>,
    m: HeaderModel,
    lan_allows: bool,
    hosts: HostModel,
    plaintext: RouteModel,
    challenges: Map<Seq<char>, Seq<char>>,
)
    requires
        path_token(path) is None,
        request_host(authority, m) is Some,
        hosts.contains_key(lower(before_last_colon(request_host(authority, m)->0))),
        !lan_allows || !plaintext.contains_key(
            host_key(before_last_colon(request_host(authority, m)->0)),
        ),
    ensures
        ({
            let plan = companion_plan(
                path,
                authority,
                path_and_query,
                m,
                lan_allows,
                hosts,
                plaintext,
                challenges,
            );
            &&& plan is Redirect
            &&& plan->Redirect_status == 301
            &&& plan->location == "https://"@ + before_last_colon(
                request_host(authority, m)->0,
            ) + path_or_root(path_and_query)
        }),
{
}

/// Law: a host is remembered as long as it was claimed more often than given
/// up, in whatever case.
pub proof fn law_claim_then_unclaim(m: HostModel, host: Seq<char>)
    requires
        claims(m, host) < usize::MAX,
        m.contains_key(lower(host)) ==> m[lower(host)] >= 1,
    ensures
        unclaimed(claimed(m, host), host) == m,
        claims(claimed(m, host), host) == claims(m, host) + 1,
        claims(m, lower(host)) == claims(m, host),
{
    assert(lower(lower(host)) =~= lower(host));
    assert(unclaimed(claimed(m, host), host) =~= m);
}

/// Law: a request that is proxied in plaintext goes where the registered route
/// says: the plan's table has the route's target, URL, host and port, for the
/// host as it was asked for, so that the backend URI is the one made from the
/// registered target. Nothing else is in the table. A host that ends in a dot is
/// left out of the lookup.
pub proof fn law_plaintext_goes_to_the_registered_target(
    path: Seq<char>,
    authority: Option<Seq<char>>,
    path_and_query: Option<Seq<char>>,
    m: HeaderModel,
    lan_allows: bool,
    hosts: HostModel,
    plaintext: RouteModel,
    challenges: Map<Seq<char>, Seq<char>>,
    k: Seq<char>,
)
    requires
        companion_plan(
            path,
            authority,
            path_and_query,
            m,
            lan_allows,
            hosts,
            plaintext,
            challenges,
        ) is Proxy,
    ensures
        ({
            let plan = companion_plan(
                path,
                authority,
                path_and_query,
                m,
                lan_allows,
                hosts,
                plaintext,
                challenges,
            );
            let host = request_host(authority, m)->0;
            let bare = before_last_colon(host);
            let route = plaintext[host_key(bare)];
            let asked = plan->routes[host_key(host)];
            &&& lan_allows
            &&& plaintext.contains_key(host_key(bare))
            &&& plan->rule_name == route.rule_name
            &&& plan->host == bare
            &&& host.len() > 0 && host.last() != '.' && (bare.len() == 0 || bare.last() != '.') ==> {
                &&& plan->routes.contains_key(host_key(host))
                &&& asked.url == route.url && asked.host == route.host && asked.port == route.port
                &&& upstream_uri(path_and_query, asked.host, asked.port) == upstream_uri(
                    path_and_query,
                    route.host,
                    route.port,
                )
            }
            &&& plan->routes.contains_key(lower(bare))
            &&& plan->routes.contains_key(k) ==> k == lower(bare) && plan->routes[k].url
                == route.url && plan->routes[k].host == route.host && plan->routes[k].port
                == route.port && plan->routes[k].rule_name == route.rule_name
                && plan->routes[k].hsts is None && plan->routes[k].headers.len() == 0
        }),
{
    let host = request_host(authority, m)->0;
    if host.len() > 0 && host.last() != '.' {
        assert(crate::text::trim_dots(host) == host);
    }
}

/// Law: a pending challenge is answered, in plain text, with its key
/// authorization, and before anything else is looked at; an unknown one is not
/// found. Without a host the request is bad.
pub proof fn law_challenge_comes_first(
    token: Seq<char>,
    path: Seq<char>,
    authority: Option<Seq<char>>,
    path_and_query: Option<Seq<char>>,
    m: HeaderModel,
    lan_allows: bool,
    hosts: HostModel,
    plaintext: RouteModel,
    challenges: Map<Seq<char>, Seq<char>>,
)
    ensures
        path_token(path) == Some(token) && challenges.contains_key(token) ==> companion_plan(
            path,
            authority,
            path_and_query,
            m,
            lan_allows,
            hosts,
            plaintext,
            challenges,
        ) == (CompanionView::Challenge {
            status: 200,
            content_type: "text/plain; charset=utf-8"@,
            key_auth: challenges[token],
        }),
        path_token(path) == Some(token) && !challenges.contains_key(token) ==> companion_plan(
            path,
            authority,
            path_and_query,
            m,
            lan_allows,
            hosts,
            plaintext,
            challenges,
        ) == (CompanionView::Reply { status: 404, body: ""@, denied: None }),
        path_token(path) is None && authority is None && first_text(m, "host"@) is None
            ==> companion_plan(
            path,
            authority,
            path_and_query,
            m,
            lan_allows,
            hosts,
            plaintext,
            challenges,
        ) == (CompanionView::Reply { status: 400, body: ""@, denied: None }),
{
}

/// Law: a request for a host that has neither a certificate nor a plaintext route
/// is not found. A peer outside the local network is told so too of a host that
/// has a plaintext route alone, and is counted against the route's rule.
pub proof fn law_unserved_host_is_not_found(
    path: Seq<char>,
    authority: Option<Seq<char>>,
    path_and_query: Option<Seq<char>>,
    m: HeaderModel,
    lan_allows: bool,
    hosts: HostModel,
    plaintext: RouteModel,
    challenges: Map<Seq<char>, Seq<char>>,
)
    requires
        path_token(path) is None,
        request_host(authority, m) is Some,
    ensures
        ({
            let bare = before_last_colon(request_host(authority, m)->0);
            let plan = companion_plan(
                path,
                authority,
                path_and_query,
                m,
                lan_allows,
                hosts,
                plaintext,
                challenges,
            );
            let routed = plaintext.contains_key(host_key(bare));
            let certified = hosts.contains_key(lower(bare));
            &&& !routed && !certified ==> plan == (CompanionView::Reply {
                status: 404,
                body: "no route\n"@,
                denied: None,
            })
            &&& routed && !lan_allows && !certified ==> plan == (CompanionView::Reply {
                status: 404,
                body: "no route\n"@,
                denied: Some(plaintext[host_key(bare)].rule_name),
            })
            &&& routed && lan_allows ==> plan is Proxy
            &&& certified && !routed ==> plan is Redirect && plan->Redirect_denied is None
            &&& certified && routed && !lan_allows ==> plan is Redirect && plan->Redirect_denied
                == Some(plaintext[host_key(bare)].rule_name)
        }),
{
}

/// Law: claims are counted host by host, in whatever case: one claim adds one to
/// its own host, giving one up takes one from it, and other hosts keep theirs.
pub proof fn law_claims_are_counted_by_host(m: HostModel, host: Seq<char>, other: Seq<char>)
    requires
        claims(m, host) < usize::MAX,
    ensures
        claims(claimed(m, host), host) == claims(m, host) + 1,
        claims(m, host) > 0 ==> claims(unclaimed(m, host), host) == claims(m, host) - 1,
        claims(m, host) == 1 ==> !unclaimed(m, host).contains_key(lower(host)),
        !m.contains_key(lower(host)) ==> unclaimed(m, host) == m,
        lower(other) != lower(host) ==> claims(claimed(m, host), other) == claims(m, other)
            && claims(unclaimed(m, host), other) == claims(m, other),
{
}

/// Law: a plan holds what it was planned to hold: the status and text of an
/// answer, the key authorization of a challenge, the rule, host and routes of a
/// proxied request, and the location of a redirect.
pub proof fn law_plan_holds_what_was_planned(p: CompanionPlan, v: CompanionView)
    requires
        companion_is(p, v),
    ensures
        p is Challenge <==> v is Challenge,
        p is Reply <==> v is Reply,
        p is Proxy <==> v is Proxy,
        p is Redirect <==> v is Redirect,
        v is Challenge ==> p->key_auth@ == v->key_auth && p->Challenge_status == v->Challenge_status
            && p->content_type@ == v->content_type,
        v is Reply ==> p->response.status == v->Reply_status && p->response.body@ == v->body
            && p->response.content_type@ == "text/plain; charset=utf-8"@ && opt_view(
            p->Reply_denied,
        ) == v->Reply_denied,
        v is Proxy ==> p->rule_name@ == v->rule_name && p->host@ == v->host && p->routes@
            == v->routes,
        v is Redirect ==> p->location@ == v->location && p->Redirect_status == v->Redirect_status
            && opt_view(p->Redirect_denied) == v->Redirect_denied,
{
}

} // verus!
