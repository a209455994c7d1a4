//! Exact, case-insensitive hostname to route mapping.

use vstd::prelude::*;
use vstd::string::*;

use crate::forward::Target;
use crate::rule::{clone_pairs, pair_views, HstsConfig, HttpRoute};
use crate::strmap::{by_lowercase, increasing, lemma_by_lowercase, StrMap};
use crate::text::{
    before_last_colon, chars_of, cut_last_colon, lower, opt_view, same, string_of, texts, to_lower,
    trim_dots, trim_dots_chars,
};

verus! {

/// Where requests for one host go.
#[derive(Debug)]
pub struct RouteEntry {
    pub target: Target,
    pub hsts: Option<HstsConfig>,
    pub headers: Vec<(String, String)>,
    /// Name of the rule that contributed the route.
    pub rule_name: String,
}

/// The model of a [`RouteEntry`].
pub struct EntryView {
    pub url: Seq<char>,
    pub host: Option<Seq<char>>,
    pub port: Option<u16>,
    pub hsts: Option<HstsConfig>,
    pub headers: Seq<(Seq<char>, Seq<char>)>,
    pub rule_name: Seq<char>,
}

impl View for RouteEntry {
    type V = EntryView;

    open spec fn view(&self) -> EntryView {
        EntryView {
            url: self.target.url@,
            host: opt_view(self.target.host),
            port: self.target.port,
            hsts: self.hsts,
            headers: pair_views(self.headers@),
            rule_name: self.rule_name@,
        }
    }
}

/// The entry that a route contributes under a rule name.
pub open spec fn entry_of(r: HttpRoute, rule_name: Seq<char>) -> EntryView {
    EntryView {
        url: r.target.url@,
        host: opt_view(r.target.host),
        port: r.target.port,
        hsts: r.hsts,
        headers: pair_views(r.headers@),
        rule_name,
    }
}

/// The entries by lowercase hostname.
pub type RouteModel = Map<Seq<char>, EntryView>;

/// The table after the first `n` routes were added, in order.
pub open spec fn extended(
    m: RouteModel,
    routes: Seq<HttpRoute>,
    rule_name: Seq<char>,
    n: int,
) -> RouteModel
    decreases n,
{
    if n <= 0 {
        m
    } else {
        extended(m, routes, rule_name, n - 1).insert(
            lower(routes[n - 1].hostname@),
            entry_of(routes[n - 1], rule_name),
        )
    }
}

/// The hostnames among the first `n` routes that were taken when their turn
/// came, in order.
pub open spec fn collided(
    m: RouteModel,
    routes: Seq<HttpRoute>,
    rule_name: Seq<char>,
    n: int,
) -> Seq<Seq<char>>
    decreases n,
{
    if n <= 0 {
        Seq::empty()
    } else {
        let before = collided(m, routes, rule_name, n - 1);
        let k = lower(routes[n - 1].hostname@);
        if extended(m, routes, rule_name, n - 1).contains_key(k) {
            before.push(k)
        } else {
            before
        }
    }
}

/// The table without the entries of a rule.
pub open spec fn without_rule(m: RouteModel, rule_name: Seq<char>) -> RouteModel {
    Map::new(
        |k: Seq<char>| m.contains_key(k) && m[k].rule_name != rule_name,
        |k: Seq<char>| m[k],
    )
}

/// The table key for the host of a request: trailing dots go first, then a
/// port, then case.
pub open spec fn host_key(host: Seq<char>) -> Seq<char> {
    lower(before_last_colon(trim_dots(host)))
}

/// Decides [`host_key`].
pub fn host_key_of(host: &str) -> (r: String)
    ensures
        r@ == host_key(host@),
{
    let v = chars_of(host);
    let t = trim_dots_chars(v.as_slice());
    let h = cut_last_colon(t.as_slice());
    let s = string_of(h.as_slice());
    to_lower(s.as_str())
}

/// Hostname to route mapping.
pub struct RouteTable {
    by_host: StrMap<RouteEntry>,
}

impl View for RouteTable {
    type V = RouteModel;

    closed spec fn view(&self) -> RouteModel {
        self.by_host@.map_values(|e: RouteEntry| e@)
    }
}

impl RouteTable {
    /// The table is in order.
    pub closed spec fn table_wf(&self) -> bool {
        self.by_host.wf()
    }

    /// The table is in order, and holds finitely many hosts, in lowercase.
    pub open spec fn wf(&self) -> bool {
        self.table_wf() && by_lowercase(self@)
    }

    /// An empty table.
    pub fn empty() -> (r: Self)
        ensures
            r.wf(),
            r@ == RouteModel::empty(),
    {
        let r = RouteTable { by_host: StrMap::new() };
        assert(r@ =~= RouteModel::empty());
        r
    }

    /// A table of one rule's routes.
    pub fn build(routes: &[HttpRoute], rule_name: &str) -> (r: Self)
        ensures
            r.wf(),
            r@ == extended(RouteModel::empty(), routes@, rule_name@, routes@.len() as int),
    {
        let mut t = RouteTable::empty();
        let _ = t.extend(routes, rule_name);
        t
    }

    /// Adds routes; a host that is already there is taken over. Gives the
    /// hosts that were, in the order of the routes.
    pub fn extend(&mut self, routes: &[HttpRoute], rule_name: &str) -> (r: Vec<String>)
        requires
            old(self).wf(),
        ensures
            final(self).wf(),
            final(self)@ == extended(old(self)@, routes@, rule_name@, routes@.len() as int),
            texts(r@) == collided(old(self)@, routes@, rule_name@, routes@.len() as int),
    {
        let mut replaced: Vec<String> = Vec::new();
        let ghost m = self@;
        assert(texts(replaced@) =~= Seq::<Seq<char>>::empty());
        for i in 0..routes.len()
            invariant
                self.wf(),
                self@ == extended(m, routes@, rule_name@, i as int),
                texts(replaced@) == collided(m, routes@, rule_name@, i as int),
        {
            let key = to_lower(routes[i].hostname.as_str());
            let entry = RouteEntry {
                target: routes[i].target.clone(),
                hsts: routes[i].hsts,
                headers: clone_pairs(&routes[i].headers),
                rule_name: rule_name.to_owned(),
            };
            let ghost before = self@;
            let ghost inner = self.by_host@;
            let ghost e = entry@;
            let ghost done = replaced@;
            assert(e == entry_of(routes@[i as int], rule_name@));
            let was = self.by_host.insert(key.clone(), entry);
            assert(self@ =~= before.insert(key@, e));
            proof {
                lemma_by_lowercase(before, routes@[i as int].hostname@, e);
            }
            if was.is_some() {
                replaced.push(key);
                assert(texts(replaced@) =~= texts(done).push(key@));
            }
        }
        replaced
    }

    /// Drops the entries of a rule. Gives their hosts, in increasing order.
    pub fn remove_by_rule(&mut self, rule_name: &str) -> (r: Vec<String>)
        requires
            old(self).wf(),
        ensures
            final(self).wf(),
            final(self)@ == without_rule(old(self)@, rule_name@),
            increasing(texts(r@)),
            forall|k: Seq<char>| #[trigger]
                texts(r@).contains(k) <==> old(self)@.contains_key(k) && old(self)@[k].rule_name
                    == rule_name@,
    {
        let mut out: Vec<String> = Vec::new();
        let ghost m = self@;
        let ghost ks = self.by_host.keys();
        let n: usize = self.by_host.len();
        proof {
            self.by_host.lemma_keys();
        }
        assert(texts(out@) =~= Seq::<Seq<char>>::empty());
        let ghost mut from: Seq<int> = Seq::empty();
        for i in 0..n
            invariant
                self.wf(),
                m == self@,
                ks == self.by_host.keys(),
                n == ks.len(),
                increasing(ks),
                from.len() == out@.len(),
                forall|j: int| 0 <= j < from.len() ==> 0 <= #[trigger] from[j] < i,
                forall|j: int| 0 <= j < from.len() ==> texts(out@)[j] == ks[#[trigger] from[j]],
                forall|a: int, b: int| 0 <= a < b < from.len() ==> #[trigger] from[a] < #[trigger] from[b],
                forall|j: int|
                    0 <= j < i && m[#[trigger] ks[j]].rule_name == rule_name@ ==> texts(
                        out@,
                    ).contains(ks[j]),
                forall|j: int|
                    0 <= j < out@.len() ==> m.contains_key(#[trigger] texts(out@)[j]) && m[texts(
                        out@,
                    )[j]].rule_name == rule_name@,
        {
            let e = self.by_host.value_at(i);
            let ghost done = out@;
            if same(e.rule_name.as_str(), rule_name) {
                out.push(self.by_host.key_at(i).clone());
                proof {
                    assert(texts(out@) =~= texts(done).push(ks[i as int]));
                    from = from.push(i as int);
                    assert forall|j: int|
                        0 <= j < i + 1 && m[#[trigger] ks[j]].rule_name
                            == rule_name@ implies texts(out@).contains(ks[j]) by {
                        if j < i {
                            let q = choose|q: int|
                                0 <= q < texts(done).len() && texts(done)[q] == ks[j];
                            assert(texts(out@)[q] == ks[j]);
                        } else {
                            assert(texts(out@)[done.len() as int] == ks[j]);
                        }
                    }
                }
            }
        }
        proof {
            assert forall|a: int, b: int| 0 <= a < b < texts(out@).len() implies crate::text::text_lt(
                #[trigger] texts(out@)[a],
                #[trigger] texts(out@)[b],
            ) by {
                assert(texts(out@)[a] == ks[from[a]] && texts(out@)[b] == ks[from[b]]);
            }
            assert forall|k: Seq<char>| #[trigger] texts(out@).contains(k) <==> m.contains_key(k)
                && m[k].rule_name == rule_name@ by {
                if m.contains_key(k) && m[k].rule_name == rule_name@ {
                    assert(ks.contains(k));
                    let j = choose|j: int| 0 <= j < ks.len() && ks[j] == k;
                    assert(m[ks[j]].rule_name == rule_name@);
                }
            }
        }
        for i in 0..out.len()
            invariant
                self.wf(),
                self@ == m.remove_keys(texts(out@).subrange(0, i as int).to_set()),
        {
            let ghost before = self@;
            self.by_host.remove(out[i].as_str());
            proof {
                assert(self@ =~= before.remove(out@[i as int]@));
                assert(self@.dom() =~= before.dom().remove(out@[i as int]@));
                let a = texts(out@).subrange(0, i as int);
                let b = texts(out@).subrange(0, i + 1);
                assert(b =~= a.push(out@[i as int]@));
                assert forall|k: Seq<char>| b.contains(k) <==> a.contains(k) || k
                    == out@[i as int]@ by {
                    if a.contains(k) {
                        let q = choose|q: int| 0 <= q < a.len() && a[q] == k;
                        assert(b[q] == k);
                    }
                    if k == out@[i as int]@ {
                        assert(b[i as int] == k);
                    }
                }
                assert(self@ =~= m.remove_keys(b.to_set()));
            }
        }
        proof {
            assert(texts(out@).subrange(0, out@.len() as int) =~= texts(out@));
            assert(self@ =~= without_rule(m, rule_name@));
        }
        out
    }

    /// The entry for the host of a request.
    pub fn lookup(&self, host: &str) -> (r: Option<&RouteEntry>)
        requires
            self.wf(),
        ensures
            r is Some <==> self@.contains_key(host_key(host@)),
            r is Some ==> r->0@ == self@[host_key(host@)],
    {
        let k = host_key_of(host);
        self.by_host.get(k.as_str())
    }

    /// Number of hosts.
    pub fn len(&self) -> (r: usize)
        requires
            self.wf(),
        ensures
            r == self@.dom().len(),
    {
        assert(self@.dom() =~= self.by_host@.dom());
        self.by_host.len()
    }

    /// Whether there is no host.
    pub fn is_empty(&self) -> (r: bool)
        requires
            self.wf(),
        ensures
            r == (self@ == RouteModel::empty()),
    {
        proof {
            self.by_host.lemma_keys();
            assert(self@.dom() =~= self.by_host@.dom());
            if self@.dom().len() == 0 {
                assert(self@.dom() =~= Set::empty());
                assert(self@ =~= RouteModel::empty());
            }
        }
        self.by_host.len() == 0
    }

    /// The hosts, in increasing order.
    pub fn hosts(&self) -> (r: Vec<String>)
        requires
            self.wf(),
        ensures
            increasing(texts(r@)),
            forall|k: Seq<char>| #[trigger] texts(r@).contains(k) <==> self@.contains_key(k),
    {
        let mut out: Vec<String> = Vec::new();
        let n: usize = self.by_host.len();
        let ghost ks = self.by_host.keys();
        for i in 0..n
            invariant
                n == ks.len(),
                ks == self.by_host.keys(),
                texts(out@) == ks.subrange(0, i as int),
        {
            let ghost done = out@;
            out.push(self.by_host.key_at(i).clone());
            assert(texts(out@) =~= texts(done).push(ks[i as int]));
            assert(texts(out@) =~= ks.subrange(0, i + 1));
        }
        proof {
            assert(ks.subrange(0, n as int) =~= ks);
            self.by_host.lemma_keys();
        }
        out
    }
}

/// Adding routes of one rule leaves every other key as it was, and puts the
/// rule's name on each key that it sets.
proof fn lemma_extended_keys(
    m: RouteModel,
    routes: Seq<HttpRoute>,
    rule_name: Seq<char>,
    n: int,
    k: Seq<char>,
)
    requires
        0 <= n <= routes.len(),
    ensures
        ({
            let out = extended(m, routes, rule_name, n);
            if exists|i: int| 0 <= i < n && lower(#[trigger] routes[i].hostname@) == k {
                out.contains_key(k) && out[k].rule_name == rule_name
            } else {
                (out.contains_key(k) <==> m.contains_key(k)) && (m.contains_key(k) ==> out[k]
                    == m[k])
            }
        }),
    decreases n,
{
    if n > 0 {
        lemma_extended_keys(m, routes, rule_name, n - 1, k);
        if lower(routes[n - 1].hostname@) != k {
            if exists|i: int| 0 <= i < n && lower(#[trigger] routes[i].hostname@) == k {
                let i = choose|i: int| 0 <= i < n && lower(#[trigger] routes[i].hostname@) == k;
                assert(0 <= i < n - 1);
            }
        }
    }
}

/// Law: dropping a rule's routes undoes adding them, for a table that knew
/// neither the rule nor the hosts.
pub proof fn law_removal_undoes_extension(
    m: RouteModel,
    routes: Seq<HttpRoute>,
    rule_name: Seq<char>,
)
    requires
        forall|k: Seq<char>| #[trigger] m.contains_key(k) ==> m[k].rule_name != rule_name,
        forall|i: int|
            0 <= i < routes.len() ==> !m.contains_key(lower(#[trigger] routes[i].hostname@)),
    ensures
        without_rule(extended(m, routes, rule_name, routes.len() as int), rule_name) == m,
{
    let n = routes.len() as int;
    let out = without_rule(extended(m, routes, rule_name, n), rule_name);
    assert forall|k: Seq<char>| #[trigger] out.contains_key(k) <==> m.contains_key(k) by {
        lemma_extended_keys(m, routes, rule_name, n, k);
    }
    assert forall|k: Seq<char>| out.contains_key(k) implies #[trigger] out[k] == m[k] by {
        lemma_extended_keys(m, routes, rule_name, n, k);
    }
    assert(out =~= m);
}

/// Law: lookup ignores case, and a port behind the host.
pub proof fn law_lookup_ignores_case_and_port(host: Seq<char>, port: Seq<char>)
    requires
        !host.contains(':'),
        !port.contains(':'),
        port.len() > 0,
        port.last() != '.',
        host.len() > 0,
        host.last() != '.',
    ensures
        host_key(host + seq![':'] + port) == host_key(host),
        host_key(lower(host)) == host_key(host),
        host_key(host.push('.')) == host_key(host),
{
    let s = host + seq![':'] + port;
    assert(s.last() == port.last());
    assert(trim_dots(s) == s);
    crate::text::lemma_rfind(s, ':');
    let i = crate::text::rfind(s, ':');
    let n = host.len() as int;
    assert(s[n] == ':');
    if i > n {
        assert(s[i] == port[i - n - 1]);
        assert(port.contains(port[i - n - 1]));
    }
    assert(i == n);
    assert(s.subrange(0, n) =~= host);
    crate::text::lemma_rfind(host, ':');
    if crate::text::rfind(host, ':') >= 0 {
        assert(host.contains(host[crate::text::rfind(host, ':')]));
    }
    let l = lower(host);
    crate::text::lemma_rfind(l, ':');
    let j = crate::text::rfind(l, ':');
    if j >= 0 {
        assert(crate::text::lower_char(host[j]) == ':');
        assert(host[j] == ':');
        assert(host.contains(host[j]));
    }
    assert(l.last() == crate::text::lower_char(host.last()));
    assert(lower(l) =~= l);
    assert(host.push('.').drop_last() =~= host);
    assert(trim_dots(host) == host);
}

/// Law: a host without port, trailing dot and capitals is looked up as it is, so
/// that no two such hosts share a route.
pub proof fn law_plain_host_is_its_own_key(host: Seq<char>)
    requires
        !host.contains(':'),
        host.len() > 0,
        host.last() != '.',
        forall|i: int| 0 <= i < host.len() ==> !('A' <= #[trigger] host[i] && host[i] <= 'Z'),
    ensures
        host_key(host) == host,
{
    crate::text::lemma_rfind(host, ':');
    let i = crate::text::rfind(host, ':');
    if i >= 0 {
        assert(host.contains(host[i]));
    }
    assert(trim_dots(host) == host);
    assert(lower(host) =~= host);
}

/// Law: of the routes for one host the last one counts. Its requests go to the
/// route's own target, with the route's own policy and headers, under the rule's
/// name; hosts that no route names are left alone.
pub proof fn law_last_route_of_a_host_counts(
    m: RouteModel,
    routes: Seq<HttpRoute>,
    rule_name: Seq<char>,
    n: int,
    i: int,
    other: Seq<char>,
)
    requires
        0 <= i < n <= routes.len(),
        forall|j: int| i < j < n ==> lower(#[trigger] routes[j].hostname@) != lower(
            routes[i].hostname@,
        ),
    ensures
        ({
            let out = extended(m, routes, rule_name, n);
            let k = lower(routes[i].hostname@);
            &&& out.contains_key(k)
            &&& out[k].url == routes[i].target.url@
            &&& out[k].host == opt_view(routes[i].target.host)
            &&& out[k].port == routes[i].target.port
            &&& out[k].hsts == routes[i].hsts
            &&& out[k].headers == pair_views(routes[i].headers@)
            &&& out[k].rule_name == rule_name
            &&& (forall|j: int| 0 <= j < n ==> lower(#[trigger] routes[j].hostname@) != other) ==> (
            out.contains_key(other) <==> m.contains_key(other)) && (m.contains_key(other)
                ==> out[other] == m[other])
        }),
    decreases n,
{
    if i < n - 1 {
        law_last_route_of_a_host_counts(m, routes, rule_name, n - 1, i, other);
        assert(lower(routes[n - 1].hostname@) != lower(routes[i].hostname@));
    }
    if forall|j: int| 0 <= j < n ==> lower(#[trigger] routes[j].hostname@) != other {
        lemma_extended_keys(m, routes, rule_name, n, other);
    }
}

/// Law: a rule's routes go with the rule, and no other route does.
pub proof fn law_routes_go_with_their_rule(m: RouteModel, rule_name: Seq<char>, k: Seq<char>)
    ensures
        without_rule(m, rule_name).contains_key(k) <==> m.contains_key(k) && m[k].rule_name
            != rule_name,
        without_rule(m, rule_name).contains_key(k) ==> without_rule(m, rule_name)[k] == m[k],
{
}

/// Law: a host is reported as taken exactly where it was there before, or where
/// an earlier route of the list names it.
pub proof fn law_taken_hosts_are_reported(
    m: RouteModel,
    routes: Seq<HttpRoute>,
    rule_name: Seq<char>,
    n: int,
)
    requires
        0 < n <= routes.len(),
    ensures
        ({
            let k = lower(routes[n - 1].hostname@);
            let taken = m.contains_key(k) || exists|j: int|
                0 <= j < n - 1 && lower(#[trigger] routes[j].hostname@) == k;
            collided(m, routes, rule_name, n) == (if taken {
                collided(m, routes, rule_name, n - 1).push(k)
            } else {
                collided(m, routes, rule_name, n - 1)
            })
        }),
        collided(m, routes, rule_name, 0) == Seq::<Seq<char>>::empty(),
{
    lemma_extended_keys(m, routes, rule_name, n - 1, lower(routes[n - 1].hostname@));
}

/// Law: the key of a host with a port is the host in lowercase, whatever it
/// ends in; that of a host without one lacks the dots that it ends in.
pub proof fn law_dots_go_before_the_port(host: Seq<char>, port: Seq<char>, dots: Seq<char>)
    requires
        !port.contains(':'),
        port.len() > 0,
        port.last() != '.',
        forall|i: int| 0 <= i < dots.len() ==> #[trigger] dots[i] == '.',
    ensures
        host_key(host + ":"@ + port) == lower(host),
        host_key(host + ":"@ + port + dots) == lower(host),
        host_key(port + dots) == lower(port),
{
    reveal_strlit(":");
    let s = host + ":"@ + port;
    assert(s.last() == port.last());
    assert(trim_dots(s) == s);
    crate::text::law_port_is_cut_off(host, port);
    crate::text::law_trailing_dots_go(s, dots);
    crate::text::law_trailing_dots_go(port, dots);
}

} // verus!
