//! The HTTPS frontend: whether to start, keep or replace it, bringing it up
//! together with its certificates and the companion listener, and undoing all
//! of it.

use vstd::prelude::*;
use vstd::string::*;

use crate::addr::{addr_text, SocketAddr};
use crate::certs::origin::origin_paths;
use crate::certs::store::{without_host, CertStore, StoreView};
use crate::certs::watcher::{
    dirs_of, dirs_registered, dirs_unregistered, holds, next_count, paths_at, recount, up,
    DirCounts, HostPaths, WatchChange, WatcherState,
};
use crate::http_frontend::redirect::{claimed, claims, unclaimed, CompanionState, HostModel};
use crate::http_frontend::route::{collided, extended, without_rule, RouteModel};
use crate::rule::{route_views, same_routes, HttpRoute, Protocol, Rule, RouteView};
use crate::text::{dec, dec_string, join3, lower, same, texts, to_lower};

verus! {

broadcast use vstd::string::group_string_axioms;

/// Name under which the node's routes are registered.
pub const HTTPS_FRONTEND_NAME: &'static str = "__https__";

/// What a list of routes asks of the HTTPS frontend.
#[derive(Clone, Copy, Debug, PartialEq, Eq, Structural)]
pub enum HttpsPlan {
    /// Nothing runs and nothing is asked for.
    Idle,
    /// Nothing is asked for any more: stop what runs.
    TearDown,
    /// What runs is what is asked for.
    Keep,
    /// Start a frontend.
    Start,
    /// Stop what runs, then start a frontend.
    Restart,
}

/// What a list of routes asks of the HTTPS frontend.
pub open spec fn https_plan(
    desired: Seq<RouteView>,
    previous: Seq<RouteView>,
    running: bool,
) -> HttpsPlan {
    if desired.len() == 0 {
        if running {
            HttpsPlan::TearDown
        } else {
            HttpsPlan::Idle
        }
    } else if running && desired == previous {
        HttpsPlan::Keep
    } else if running {
        HttpsPlan::Restart
    } else {
        HttpsPlan::Start
    }
}

/// Decides what a list of routes asks of the HTTPS frontend.
pub fn plan_https(desired: &[HttpRoute], previous: &[HttpRoute], running: bool) -> (r: HttpsPlan)
    ensures
        r == https_plan(route_views(desired@), route_views(previous@), running),
{
    assert(route_views(desired@).len() == desired@.len());
    if desired.len() == 0 {
        if running {
            HttpsPlan::TearDown
        } else {
            HttpsPlan::Idle
        }
    } else if running && same_routes(desired, previous) {
        HttpsPlan::Keep
    } else if running {
        HttpsPlan::Restart
    } else {
        HttpsPlan::Start
    }
}

/// Law: a reload that leaves the routes as they are leaves a running frontend
/// as it is, and no other reload with routes does.
pub proof fn law_same_routes_keep_the_frontend(
    desired: Seq<RouteView>,
    previous: Seq<RouteView>,
)
    requires
        desired.len() > 0,
    ensures
        https_plan(desired, previous, true) == HttpsPlan::Keep <==> desired == previous,
{
}

/// A host, in any case, is among a list of hosts.
pub open spec fn host_listed(list: Seq<Seq<char>>, host: Seq<char>) -> bool {
    exists|i: int| 0 <= i < list.len() && lower(#[trigger] list[i]) == lower(host)
}

fn is_host_listed(list: &Vec<String>, host: &str) -> (r: bool)
    ensures
        r == host_listed(texts(list@), host@),
{
    let h = to_lower(host);
    for i in 0..list.len()
        invariant
            h@ == lower(host@),
            forall|j: int| 0 <= j < i ==> lower(#[trigger] texts(list@)[j]) != h@,
    {
        let l = to_lower(list[i].as_str());
        if same(l.as_str(), h.as_str()) {
            assert(lower(texts(list@)[i as int]) == lower(host@));
            return true;
        }
    }
    false
}

/// The lowercase hosts of the first `n` routes that have a certificate.
pub open spec fn loaded_of(routes: Seq<RouteView>, cert_less: Seq<Seq<char>>, n: int) -> Seq<
    Seq<char>,
>
    decreases n,
{
    if n <= 0 {
        Seq::empty()
    } else {
        let before = loaded_of(routes, cert_less, n - 1);
        if host_listed(cert_less, routes[n - 1].hostname) {
            before
        } else {
            before.push(lower(routes[n - 1].hostname))
        }
    }
}

/// The lowercase hosts of the routes that have a certificate, in order.
pub fn loaded_hosts(routes: &[HttpRoute], cert_less: &Vec<String>) -> (r: Vec<String>)
    ensures
        texts(r@) == loaded_of(route_views(routes@), texts(cert_less@), routes@.len() as int),
{
    let mut out: Vec<String> = Vec::new();
    let ghost all = route_views(routes@);
    assert(texts(out@) =~= Seq::<Seq<char>>::empty());
    for i in 0..routes.len()
        invariant
            all == route_views(routes@),
            texts(out@) == loaded_of(all, texts(cert_less@), i as int),
    {
        assert(all[i as int] == routes@[i as int]@);
        if !is_host_listed(cert_less, routes[i].hostname.as_str()) {
            let ghost done = out@;
            let l = to_lower(routes[i].hostname.as_str());
            let ghost lv = l@;
            out.push(l);
            assert(texts(out@) =~= texts(done).push(lv));
        }
    }
    out
}

/// The first `n` routes that have no certificate.
pub open spec fn cert_less_of(routes: Seq<RouteView>, cert_less: Seq<Seq<char>>, n: int) -> Seq<
    RouteView,
>
    decreases n,
{
    if n <= 0 {
        Seq::empty()
    } else {
        let before = cert_less_of(routes, cert_less, n - 1);
        if host_listed(cert_less, routes[n - 1].hostname) {
            before.push(routes[n - 1])
        } else {
            before
        }
    }
}

/// The routes that have no certificate, in order.
pub fn cert_less_routes(routes: &[HttpRoute], cert_less: &Vec<String>) -> (r: Vec<HttpRoute>)
    ensures
        route_views(r@) == cert_less_of(
            route_views(routes@),
            texts(cert_less@),
            routes@.len() as int,
        ),
{
    let mut out: Vec<HttpRoute> = Vec::new();
    let ghost all = route_views(routes@);
    assert(route_views(out@) =~= Seq::<RouteView>::empty());
    for i in 0..routes.len()
        invariant
            all == route_views(routes@),
            route_views(out@) == cert_less_of(all, texts(cert_less@), i as int),
    {
        assert(all[i as int] == routes@[i as int]@);
        if is_host_listed(cert_less, routes[i].hostname.as_str()) {
            let ghost done = out@;
            out.push(routes[i].clone());
            assert(route_views(out@) =~= route_views(done).push(all[i as int]));
        }
    }
    out
}

/// Law: every route is served in exactly one way: over TLS where its host was
/// loaded, in plaintext where it has no certificate.
pub proof fn law_routes_are_partitioned(
    routes: Seq<RouteView>,
    cert_less: Seq<Seq<char>>,
    n: int,
)
    requires
        0 <= n <= routes.len(),
    ensures
        loaded_of(routes, cert_less, n).len() + cert_less_of(routes, cert_less, n).len() == n,
        forall|i: int|
            0 <= i < cert_less_of(routes, cert_less, n).len() ==> host_listed(
                cert_less,
                (#[trigger] cert_less_of(routes, cert_less, n)[i]).hostname,
            ),
    decreases n,
{
    if n > 0 {
        law_routes_are_partitioned(routes, cert_less, n - 1);
    }
}

/// The claims after one more on each of the first `n` hosts.
pub open spec fn claim_all(m: HostModel, hosts: Seq<Seq<char>>, n: int) -> HostModel
    decreases n,
{
    if n <= 0 {
        m
    } else {
        claimed(claim_all(m, hosts, n - 1), hosts[n - 1])
    }
}

/// The claims after one on each of the first `n` hosts was given up.
pub open spec fn unclaim_all(m: HostModel, hosts: Seq<Seq<char>>, n: int) -> HostModel
    decreases n,
{
    if n <= 0 {
        m
    } else {
        unclaimed(unclaim_all(m, hosts, n - 1), hosts[n - 1])
    }
}

/// The plaintext routes after those of a name were replaced.
pub open spec fn replaced_routes(m: RouteModel, routes: Seq<HttpRoute>, name: Seq<char>) -> RouteModel {
    extended(without_rule(m, name), routes, name, routes.len() as int)
}

/// Registers loaded hosts and routes without certificate with the companion
/// listener, in place of the routes that the name had there. Gives the hosts
/// that another route already had.
pub fn register_companion(
    companion: &mut CompanionState,
    name: &str,
    loaded: &Vec<String>,
    plaintext: &Vec<HttpRoute>,
) -> (r: Vec<String>)
    requires
        old(companion).wf(),
    ensures
        final(companion).wf(),
        final(companion).hosts@ == claim_all(
            old(companion).hosts@,
            texts(loaded@),
            loaded@.len() as int,
        ),
        final(companion).plaintext@ == replaced_routes(
            old(companion).plaintext@,
            plaintext@,
            name@,
        ),
        texts(r@) == collided(
            without_rule(old(companion).plaintext@, name@),
            plaintext@,
            name@,
            plaintext@.len() as int,
        ),
{
    let ghost h0 = companion.hosts@;
    let ghost p0 = companion.plaintext@;
    for i in 0..loaded.len()
        invariant
            companion.wf(),
            companion.hosts@ == claim_all(h0, texts(loaded@), i as int),
            companion.plaintext@ == p0,
    {
        assert(texts(loaded@)[i as int] == loaded@[i as int]@);
        companion.register_host(loaded[i].as_str());
    }
    let _ = companion.unregister_plaintext_routes(name);
    companion.register_plaintext_routes(plaintext.as_slice(), name)
}

/// Gives up a claim on each host.
pub fn unclaim_hosts(companion: &mut CompanionState, hosts: &Vec<String>)
    requires
        old(companion).wf(),
    ensures
        final(companion).wf(),
        final(companion).hosts@ == unclaim_all(
            old(companion).hosts@,
            texts(hosts@),
            hosts@.len() as int,
        ),
        final(companion).plaintext == old(companion).plaintext,
{
    let ghost h0 = companion.hosts@;
    let ghost p0 = companion.plaintext;
    for i in 0..hosts.len()
        invariant
            companion.wf(),
            companion.hosts@ == unclaim_all(h0, texts(hosts@), i as int),
            companion.plaintext == p0,
    {
        assert(texts(hosts@)[i as int] == hosts@[i as int]@);
        companion.unregister_host(hosts[i].as_str());
    }
}

/// How often a host, in any case, occurs among the first `n` of a list.
pub open spec fn occurrences(hosts: Seq<Seq<char>>, n: int, key: Seq<char>) -> nat
    decreases n,
{
    if n <= 0 {
        0
    } else {
        occurrences(hosts, n - 1, key) + (if lower(hosts[n - 1]) == key {
            1nat
        } else {
            0
        })
    }
}

/// The claims on a key.
pub open spec fn key_claims(m: HostModel, key: Seq<char>) -> nat {
    if m.contains_key(key) {
        m[key]
    } else {
        0
    }
}

/// Every host that is remembered has a claim.
pub open spec fn no_zero(m: HostModel) -> bool {
    forall|k: Seq<char>| #[trigger] m.contains_key(k) ==> m[k] >= 1
}

/// How claims add up.
proof fn lemma_claim_all(m: HostModel, hosts: Seq<Seq<char>>, n: int, key: Seq<char>)
    requires
        0 <= n <= hosts.len(),
        no_zero(m),
        key_claims(m, key) + n <= usize::MAX,
    ensures
        no_zero(claim_all(m, hosts, n)),
        key_claims(claim_all(m, hosts, n), key) == key_claims(m, key) + occurrences(
            hosts,
            n,
            key,
        ),
        occurrences(hosts, n, key) <= n,
    decreases n,
{
    if n > 0 {
        lemma_claim_all(m, hosts, n - 1, key);
        let a = claim_all(m, hosts, n - 1);
        let b = claim_all(m, hosts, n);
        let h = hosts[n - 1];
        assert(claims(a, h) == key_claims(a, lower(h)));
        assert forall|k: Seq<char>| #[trigger] b.contains_key(k) implies b[k] >= 1 by {
            if k != lower(h) {
                assert(a.contains_key(k));
            }
        }
    }
}

/// How claims are given up.
proof fn lemma_unclaim_all(m: HostModel, hosts: Seq<Seq<char>>, n: int, key: Seq<char>)
    requires
        0 <= n <= hosts.len(),
        no_zero(m),
        key_claims(m, key) >= occurrences(hosts, n, key),
    ensures
        no_zero(unclaim_all(m, hosts, n)),
        key_claims(unclaim_all(m, hosts, n), key) == key_claims(m, key) - occurrences(
            hosts,
            n,
            key,
        ),
    decreases n,
{
    if n > 0 {
        lemma_unclaim_all(m, hosts, n - 1, key);
        let a = unclaim_all(m, hosts, n - 1);
        let b = unclaim_all(m, hosts, n);
        let h = hosts[n - 1];
        assert forall|k: Seq<char>| #[trigger] b.contains_key(k) implies b[k] >= 1 by {
            assert(a.contains_key(k));
        }
    }
}

/// Law: undoing a registration leaves exactly the claims that were there
/// before it.
pub proof fn law_rollback_restores_claims(m: HostModel, hosts: Seq<Seq<char>>)
    requires
        no_zero(m),
        forall|k: Seq<char>| #[trigger] key_claims(m, k) + hosts.len() <= usize::MAX,
    ensures
        unclaim_all(claim_all(m, hosts, hosts.len() as int), hosts, hosts.len() as int) == m,
{
    let n = hosts.len() as int;
    let a = claim_all(m, hosts, n);
    let b = unclaim_all(a, hosts, n);
    assert forall|k: Seq<char>| key_claims(b, k) == key_claims(m, k) && no_zero(b) by {
        assert(key_claims(m, k) + hosts.len() <= usize::MAX);
        lemma_claim_all(m, hosts, n, k);
        lemma_unclaim_all(a, hosts, n, k);
    }
    assert(key_claims(b, Seq::empty()) == key_claims(m, Seq::empty()) && no_zero(b));
    assert(b =~= m) by {
        assert forall|k: Seq<char>| b.contains_key(k) <==> m.contains_key(k) by {
            assert(key_claims(b, k) == key_claims(m, k));
        }
        assert forall|k: Seq<char>| b.contains_key(k) implies b[k] == m[k] by {
            assert(key_claims(b, k) == key_claims(m, k));
        }
    }
}

/// What is watched for which hosts.
pub struct WatchView {
    pub hosts: HostPaths,
    pub dirs: DirCounts,
}

/// The watch list of a watcher.
pub open spec fn watch_view(w: WatcherState) -> WatchView {
    WatchView { hosts: w.hosts(), dirs: w.dirs() }
}

/// The watch list after a host was registered with its files.
pub open spec fn watch_registered(
    w: WatchView,
    host: Seq<char>,
    paths: Seq<Seq<char>>,
) -> WatchView {
    if paths.len() == 0 {
        w
    } else {
        let prev = dirs_of(paths_at(w.hosts, host));
        let new = dirs_of(paths);
        WatchView {
            hosts: w.hosts.insert(lower(host), paths),
            dirs: recount(w.dirs, new.difference(prev), prev.difference(new)),
        }
    }
}

/// The watch list after a host was forgotten.
pub open spec fn watch_unregistered(w: WatchView, host: Seq<char>) -> WatchView {
    WatchView {
        hosts: w.hosts.remove(lower(host)),
        dirs: recount(w.dirs, Set::empty(), dirs_of(paths_at(w.hosts, host))),
    }
}

/// The files behind a host's certificate.
pub open spec fn files_of(s: StoreView, host: Seq<char>) -> Seq<Seq<char>> {
    if s.entries.contains_key(lower(host)) {
        origin_paths(s.entries[lower(host)].origin)
    } else {
        Seq::empty()
    }
}

/// The watch list after the first `n` hosts were registered with the files of
/// their certificates.
pub open spec fn watch_all(w: WatchView, s: StoreView, hosts: Seq<Seq<char>>, n: int) -> WatchView
    decreases n,
{
    if n <= 0 {
        w
    } else {
        watch_registered(watch_all(w, s, hosts, n - 1), hosts[n - 1], files_of(s, hosts[n - 1]))
    }
}

/// A change starts watching exactly the directories that got their first
/// holder, and stops watching exactly those that lost their last, each once.
pub open spec fn change_follows(c: WatchChange, before: DirCounts, after: DirCounts) -> bool {
    &&& texts(c.watch@).no_duplicates()
    &&& texts(c.unwatch@).no_duplicates()
    &&& forall|d: Seq<char>| #[trigger]
        texts(c.watch@).contains(d) <==> holds(before, d) == 0 && holds(after, d) > 0
    &&& forall|d: Seq<char>| #[trigger]
        texts(c.unwatch@).contains(d) <==> holds(before, d) > 0 && holds(after, d) == 0
}

/// The number of holders after a recount.
proof fn lemma_recount(
    w: DirCounts,
    taken: Set<Seq<char>>,
    released: Set<Seq<char>>,
    d: Seq<char>,
)
    ensures
        holds(recount(w, taken, released), d) == next_count(w, taken, released, d),
{
}

/// Registers the hosts with the files of their certificates. Gives what to
/// change about the watched directories, host by host.
pub fn register_watches(
    watcher: &mut WatcherState,
    store: &CertStore,
    hosts: &Vec<String>,
) -> (r: Vec<WatchChange>)
    requires
        old(watcher).wf(),
        store.wf(),
    ensures
        final(watcher).wf(),
        watch_view(*final(watcher)) == watch_all(
            watch_view(*old(watcher)),
            store@,
            texts(hosts@),
            hosts@.len() as int,
        ),
        r@.len() == hosts@.len(),
        forall|i: int|
            0 <= i < r@.len() ==> change_follows(
                #[trigger] r@[i],
                watch_all(watch_view(*old(watcher)), store@, texts(hosts@), i).dirs,
                watch_all(watch_view(*old(watcher)), store@, texts(hosts@), i + 1).dirs,
            ),
{
    let mut out: Vec<WatchChange> = Vec::new();
    let ghost w0 = watch_view(*watcher);
    let ghost hs = texts(hosts@);
    for i in 0..hosts.len()
        invariant
            watcher.wf(),
            store.wf(),
            hs == texts(hosts@),
            watch_view(*watcher) == watch_all(w0, store@, hs, i as int),
            out@.len() == i,
            forall|j: int|
                0 <= j < i ==> change_follows(
                    #[trigger] out@[j],
                    watch_all(w0, store@, hs, j).dirs,
                    watch_all(w0, store@, hs, j + 1).dirs,
                ),
    {
        assert(hs[i as int] == hosts@[i as int]@);
        let ghost before = watch_view(*watcher);
        let paths = store.watched_paths_for(hosts[i].as_str());
        assert(texts(paths@).len() == paths@.len());
        let change = watcher.register(hosts[i].as_str(), paths.as_slice());
        proof {
            let host = hosts@[i as int]@;
            let after = watch_view(*watcher);
            assert(after == watch_registered(before, host, files_of(store@, host)));
            if paths@.len() == 0 {
                assert(texts(change.watch@).len() == 0);
                assert(texts(change.unwatch@).len() == 0);
            } else {
                let prev = dirs_of(paths_at(before.hosts, host));
                let new = dirs_of(texts(paths@));
                let t = new.difference(prev);
                let x = prev.difference(new);
                assert forall|d: Seq<char>| #[trigger] texts(change.watch@).contains(d) <==> holds(
                    before.dirs,
                    d,
                ) == 0 && holds(after.dirs, d) > 0 by {
                    lemma_recount(before.dirs, t, x, d);
                }
                assert forall|d: Seq<char>| #[trigger]
                    texts(change.unwatch@).contains(d) <==> holds(before.dirs, d) > 0 && holds(
                        after.dirs,
                        d,
                    ) == 0 by {
                    lemma_recount(before.dirs, t, x, d);
                }
            }
            assert(change_follows(change, before.dirs, after.dirs));
        }
        out.push(change);
    }
    out
}

/// The store and the watch list after the first `n` hosts were released.
pub open spec fn released_all(
    w: WatchView,
    s: StoreView,
    hosts: Seq<Seq<char>>,
    n: int,
) -> (WatchView, StoreView)
    decreases n,
{
    if n <= 0 {
        (w, s)
    } else {
        let (w1, s1) = released_all(w, s, hosts, n - 1);
        (watch_unregistered(w1, hosts[n - 1]), without_host(s1, hosts[n - 1]))
    }
}

/// Releasing hosts takes no directory.
proof fn lemma_released_holds(
    w: WatchView,
    s: StoreView,
    hosts: Seq<Seq<char>>,
    n: int,
    d: Seq<char>,
)
    requires
        n >= 0,
    ensures
        holds(released_all(w, s, hosts, n).0.dirs, d) <= holds(w.dirs, d),
    decreases n,
{
    if n > 0 {
        lemma_released_holds(w, s, hosts, n - 1, d);
        let w1 = released_all(w, s, hosts, n - 1).0;
        lemma_recount(
            w1.dirs,
            Set::empty(),
            dirs_of(paths_at(w1.hosts, hosts[n - 1])),
            d,
        );
    }
}

/// Forgets each host: its files are no longer watched, and its certificate
/// leaves the store. Gives the directories to stop watching.
pub fn release_hosts(
    watcher: &mut WatcherState,
    store: &mut CertStore,
    hosts: &Vec<String>,
) -> (r: Vec<String>)
    requires
        old(watcher).wf(),
        old(store).wf(),
    ensures
        final(watcher).wf(),
        final(store).wf(),
        (watch_view(*final(watcher)), final(store)@) == released_all(
            watch_view(*old(watcher)),
            old(store)@,
            texts(hosts@),
            hosts@.len() as int,
        ),
        forall|d: Seq<char>| #[trigger]
            texts(r@).contains(d) <==> holds(old(watcher).dirs(), d) > 0 && holds(
                final(watcher).dirs(),
                d,
            ) == 0,
        texts(r@).no_duplicates(),
{
    let mut out: Vec<String> = Vec::new();
    let ghost w0 = watch_view(*watcher);
    let ghost s0 = store@;
    let ghost hs = texts(hosts@);
    assert(texts(out@) =~= Seq::<Seq<char>>::empty());
    for i in 0..hosts.len()
        invariant
            watcher.wf(),
            store.wf(),
            hs == texts(hosts@),
            (watch_view(*watcher), store@) == released_all(w0, s0, hs, i as int),
            forall|d: Seq<char>| #[trigger]
                texts(out@).contains(d) <==> holds(w0.dirs, d) > 0 && holds(watcher.dirs(), d) == 0,
            texts(out@).no_duplicates(),
    {
        assert(hs[i as int] == hosts@[i as int]@);
        let ghost before = watch_view(*watcher);
        let ghost done = texts(out@);
        let mut gone = watcher.unregister(hosts[i].as_str());
        let _ = store.remove(hosts[i].as_str());
        let ghost gv = texts(gone@);
        let ghost outv = out@;
        let ghost gonev = gone@;
        out.append(&mut gone);
        proof {
            let host = hosts@[i as int]@;
            let x = dirs_of(paths_at(before.hosts, host));
            assert(texts(out@) =~= done + gv);
            assert forall|a: int, b: int| 0 <= a < b < texts(out@).len() implies texts(out@)[a]
                != texts(out@)[b] by {
                if a < done.len() <= b {
                    let d = done[a];
                    assert(done.contains(d));
                    assert(holds(before.dirs, d) == 0);
                    assert(gv.contains(gv[b - done.len()]));
                    assert(holds(before.dirs, gv[b - done.len()]) == 1);
                }
            }
            assert forall|d: Seq<char>| #[trigger] texts(out@).contains(d) <==> holds(w0.dirs, d)
                > 0 && holds(watcher.dirs(), d) == 0 by {
                lemma_recount(before.dirs, Set::empty(), x, d);
                lemma_released_holds(w0, s0, hs, i as int, d);
                assert(done.contains(d) <==> holds(w0.dirs, d) > 0 && holds(before.dirs, d) == 0);
                assert(gv.contains(d) <==> x.contains(d) && holds(before.dirs, d) == 1);
                if done.contains(d) {
                    let k = choose|k: int| 0 <= k < done.len() && done[k] == d;
                    assert(texts(out@)[k] == d);
                }
                if gv.contains(d) {
                    let k = choose|k: int| 0 <= k < gv.len() && gv[k] == d;
                    assert(texts(out@)[done.len() + k] == d);
                }
                if texts(out@).contains(d) {
                    let k = choose|k: int| 0 <= k < texts(out@).len() && texts(out@)[k] == d;
                    if k < done.len() {
                        assert(done[k] == d);
                    } else {
                        assert(gv[k - done.len()] == d);
                    }
                }
            }
        }
    }
    out
}

/// Law: a released host has no certificate left, in any case.
pub proof fn law_released_hosts_are_gone(
    w: WatchView,
    s: StoreView,
    hosts: Seq<Seq<char>>,
    n: int,
    i: int,
)
    requires
        0 <= i < n <= hosts.len(),
    ensures
        !released_all(w, s, hosts, n).1.entries.contains_key(lower(hosts[i])),
        !released_all(w, s, hosts, n).1.specs.contains_key(lower(hosts[i])),
        !released_all(w, s, hosts, n).0.hosts.contains_key(lower(hosts[i])),
    decreases n,
{
    if i < n - 1 {
        law_released_hosts_are_gone(w, s, hosts, n - 1, i);
    }
}

/// The hosts of a list of routes.
pub open spec fn hosts_of(routes: Seq<RouteView>) -> Seq<Seq<char>> {
    Seq::new(routes.len(), |i: int| routes[i].hostname)
}

/// The hosts of a list of routes.
fn route_hosts(routes: &[HttpRoute]) -> (r: Vec<String>)
    ensures
        texts(r@) == hosts_of(route_views(routes@)),
{
    let mut out: Vec<String> = Vec::new();
    let ghost all = hosts_of(route_views(routes@));
    for i in 0..routes.len()
        invariant
            all == hosts_of(route_views(routes@)),
            texts(out@) == all.subrange(0, i as int),
    {
        let ghost done = out@;
        out.push(routes[i].hostname.clone());
        assert(texts(out@) =~= texts(done).push(routes@[i as int].hostname@));
        assert(texts(out@) =~= all.subrange(0, i + 1));
    }
    assert(all.subrange(0, routes@.len() as int) =~= all);
    out
}

/// The store after the first `n` hosts left it.
pub open spec fn without_hosts(s: StoreView, hosts: Seq<Seq<char>>, n: int) -> StoreView
    decreases n,
{
    if n <= 0 {
        s
    } else {
        without_host(without_hosts(s, hosts, n - 1), hosts[n - 1])
    }
}

/// Undoes a load that failed: the certificates of all routes leave the store,
/// those of an earlier route that did load among them. Nothing was watched yet.
pub fn undo_load(routes: &[HttpRoute], store: &mut CertStore)
    requires
        old(store).wf(),
    ensures
        final(store).wf(),
        final(store)@ == without_hosts(
            old(store)@,
            hosts_of(route_views(routes@)),
            routes@.len() as int,
        ),
{
    let ghost s0 = store@;
    let ghost hs = hosts_of(route_views(routes@));
    for i in 0..routes.len()
        invariant
            store.wf(),
            hs == hosts_of(route_views(routes@)),
            store@ == without_hosts(s0, hs, i as int),
    {
        assert(hs[i as int] == routes@[i as int].hostname@);
        let _ = store.remove(routes[i].hostname.as_str());
    }
}

/// Law: undoing a load leaves no certificate for any of the hosts, and every
/// other host as it was.
pub proof fn law_undone_load_leaves_nothing(s: StoreView, hosts: Seq<Seq<char>>, k: Seq<char>)
    ensures
        ({
            let t = without_hosts(s, hosts, hosts.len() as int);
            if exists|i: int| 0 <= i < hosts.len() && lower(#[trigger] hosts[i]) == k {
                !t.entries.contains_key(k) && !t.specs.contains_key(k)
            } else {
                &&& t.entries.contains_key(k) <==> s.entries.contains_key(k)
                &&& t.entries.contains_key(k) ==> t.entries[k] == s.entries[k]
                &&& t.specs.contains_key(k) <==> s.specs.contains_key(k)
                &&& t.specs.contains_key(k) ==> t.specs[k] == s.specs[k]
            }
        }),
{
    lemma_without_hosts(s, hosts, hosts.len() as int, k);
}

proof fn lemma_without_hosts(s: StoreView, hosts: Seq<Seq<char>>, n: int, k: Seq<char>)
    requires
        0 <= n <= hosts.len(),
    ensures
        ({
            let t = without_hosts(s, hosts, n);
            if exists|i: int| 0 <= i < n && lower(#[trigger] hosts[i]) == k {
                !t.entries.contains_key(k) && !t.specs.contains_key(k)
            } else {
                &&& t.entries.contains_key(k) <==> s.entries.contains_key(k)
                &&& t.entries.contains_key(k) ==> t.entries[k] == s.entries[k]
                &&& t.specs.contains_key(k) <==> s.specs.contains_key(k)
                &&& t.specs.contains_key(k) ==> t.specs[k] == s.specs[k]
            }
        }),
    decreases n,
{
    if n > 0 {
        lemma_without_hosts(s, hosts, n - 1, k);
        if lower(hosts[n - 1]) == k {
            assert(exists|i: int| 0 <= i < n && lower(#[trigger] hosts[i]) == k);
        } else if exists|i: int| 0 <= i < n && lower(#[trigger] hosts[i]) == k {
            let i = choose|i: int| 0 <= i < n && lower(#[trigger] hosts[i]) == k;
            assert(i < n - 1);
        }
    }
}

/// Undoes what a running frontend registered with the companion listener, and
/// forgets the certificates of its routes. Gives the directories to stop
/// watching.
pub fn tear_down(
    companion: &mut CompanionState,
    name: &str,
    claimed_hosts: &Vec<String>,
    previous: &[HttpRoute],
    watcher: &mut WatcherState,
    store: &mut CertStore,
) -> (r: Vec<String>)
    requires
        old(companion).wf(),
        old(watcher).wf(),
        old(store).wf(),
    ensures
        final(companion).wf(),
        final(watcher).wf(),
        final(store).wf(),
        final(companion).hosts@ == unclaim_all(
            old(companion).hosts@,
            texts(claimed_hosts@),
            claimed_hosts@.len() as int,
        ),
        final(companion).plaintext@ == without_rule(old(companion).plaintext@, name@),
        (watch_view(*final(watcher)), final(store)@) == released_all(
            watch_view(*old(watcher)),
            old(store)@,
            hosts_of(route_views(previous@)),
            previous@.len() as int,
        ),
        forall|d: Seq<char>| #[trigger]
            texts(r@).contains(d) <==> holds(old(watcher).dirs(), d) > 0 && holds(
                final(watcher).dirs(),
                d,
            ) == 0,
        texts(r@).no_duplicates(),
{
    unclaim_hosts(companion, claimed_hosts);
    let _ = companion.unregister_plaintext_routes(name);
    let hosts = route_hosts(previous);
    assert(texts(hosts@).len() == hosts@.len());
    release_hosts(watcher, store, &hosts)
}

/// The routes whose certificates leave the store with a rule.
pub open spec fn unloaded_routes(rule: Rule) -> Seq<RouteView> {
    if rule.protocol == Protocol::Https {
        crate::certs::store::rule_routes(rule)
    } else {
        Seq::empty()
    }
}

/// Forgets the certificates of an HTTPS rule's routes; nothing happens for any
/// other rule. Gives the directories to stop watching.
pub fn unload_rule_from_cert_store(
    rule: &Rule,
    watcher: &mut WatcherState,
    store: &mut CertStore,
) -> (r: Vec<String>)
    requires
        old(watcher).wf(),
        old(store).wf(),
    ensures
        final(watcher).wf(),
        final(store).wf(),
        (watch_view(*final(watcher)), final(store)@) == released_all(
            watch_view(*old(watcher)),
            old(store)@,
            hosts_of(unloaded_routes(*rule)),
            unloaded_routes(*rule).len() as int,
        ),
        forall|d: Seq<char>| #[trigger]
            texts(r@).contains(d) <==> holds(old(watcher).dirs(), d) > 0 && holds(
                final(watcher).dirs(),
                d,
            ) == 0,
        texts(r@).no_duplicates(),
{
    let mut hosts: Vec<String> = Vec::new();
    assert(texts(hosts@) =~= hosts_of(Seq::<RouteView>::empty()));
    if rule.protocol == Protocol::Https {
        if let Some(routes) = &rule.routes {
            hosts = route_hosts(routes.as_slice());
        }
    }
    assert(texts(hosts@).len() == hosts@.len());
    release_hosts(watcher, store, &hosts)
}

/// What is being brought up.
#[derive(Clone, Copy, Debug, PartialEq, Eq, Structural)]
pub enum FrontendKind {
    /// The frontend of all the node's routes.
    NodeWide { http3: bool },
    /// The frontend of one rule.
    Rule,
}

/// Where bringing up stands.
#[derive(Clone, Copy, Debug, PartialEq, Eq, Structural)]
pub enum BringUpPhase {
    Loading,
    Companion,
    Frontend,
    Http3(SocketAddr),
    Over,
}

/// What happened.
#[derive(Debug)]
pub enum BringUpEvent {
    /// The certificates are in the store.
    Loaded,
    LoadFailed(String),
    /// The companion listener runs.
    CompanionUp,
    CompanionFailed(String),
    /// The frontend listens on this address.
    FrontendUp(SocketAddr),
    FrontendFailed(String),
    /// HTTP/3 was tried; whether it runs.
    Http3(bool),
}

/// What to do next.
#[derive(Debug)]
pub enum BringUpAction {
    /// Register the files of the loaded certificates, and make sure that the
    /// companion listener of the address runs.
    EnsureCompanion,
    /// Register with the companion listener, then start the frontend.
    StartFrontend,
    /// Start HTTP/3 on the same address.
    StartHttp3,
    /// Forget the certificates of the routes, then give up.
    UndoLoad(String),
    /// Give up the claims on the companion listener and forget the loaded
    /// certificates, then give up.
    UndoAll(String),
    /// Give up.
    Fail(String),
    /// The frontend listens on this address, with or without HTTP/3.
    Succeed { listen: SocketAddr, http3: bool },
}

/// The model of a [`BringUpEvent`].
pub enum BringUpEventView {
    Loaded,
    LoadFailed(Seq<char>),
    CompanionUp,
    CompanionFailed(Seq<char>),
    FrontendUp(SocketAddr),
    FrontendFailed(Seq<char>),
    Http3(bool),
}

impl View for BringUpEvent {
    type V = BringUpEventView;

    open spec fn view(&self) -> BringUpEventView {
        match self {
            BringUpEvent::Loaded => BringUpEventView::Loaded,
            BringUpEvent::LoadFailed(m) => BringUpEventView::LoadFailed(m@),
            BringUpEvent::CompanionUp => BringUpEventView::CompanionUp,
            BringUpEvent::CompanionFailed(m) => BringUpEventView::CompanionFailed(m@),
            BringUpEvent::FrontendUp(a) => BringUpEventView::FrontendUp(*a),
            BringUpEvent::FrontendFailed(m) => BringUpEventView::FrontendFailed(m@),
            BringUpEvent::Http3(b) => BringUpEventView::Http3(*b),
        }
    }
}

/// The model of a [`BringUpAction`].
pub enum BringUpActionView {
    EnsureCompanion,
    StartFrontend,
    StartHttp3,
    UndoLoad(Seq<char>),
    UndoAll(Seq<char>),
    Fail(Seq<char>),
    Succeed { listen: SocketAddr, http3: bool },
}

impl View for BringUpAction {
    type V = BringUpActionView;

    open spec fn view(&self) -> BringUpActionView {
        match self {
            BringUpAction::EnsureCompanion => BringUpActionView::EnsureCompanion,
            BringUpAction::StartFrontend => BringUpActionView::StartFrontend,
            BringUpAction::StartHttp3 => BringUpActionView::StartHttp3,
            BringUpAction::UndoLoad(m) => BringUpActionView::UndoLoad(m@),
            BringUpAction::UndoAll(m) => BringUpActionView::UndoAll(m@),
            BringUpAction::Fail(m) => BringUpActionView::Fail(m@),
            BringUpAction::Succeed { listen, http3 } => BringUpActionView::Succeed {
                listen: *listen,
                http3: *http3,
            },
        }
    }
}

/// What follows an event. HTTP/3 that does not come up is done without; an
/// event that does not belong to the phase gives up.
pub open spec fn bring_up_step(
    kind: FrontendKind,
    phase: BringUpPhase,
    event: BringUpEventView,
) -> (BringUpPhase, BringUpActionView) {
    match (phase, event) {
        (BringUpPhase::Loading, BringUpEventView::Loaded) => (
            BringUpPhase::Companion,
            BringUpActionView::EnsureCompanion,
        ),
        (BringUpPhase::Loading, BringUpEventView::LoadFailed(m)) => (
            BringUpPhase::Over,
            match kind {
                FrontendKind::NodeWide { .. } => BringUpActionView::Fail(m),
                FrontendKind::Rule => BringUpActionView::UndoLoad(m),
            },
        ),
        (BringUpPhase::Companion, BringUpEventView::CompanionUp) => (
            BringUpPhase::Frontend,
            BringUpActionView::StartFrontend,
        ),
        (BringUpPhase::Companion, BringUpEventView::CompanionFailed(m)) => (
            BringUpPhase::Over,
            BringUpActionView::Fail(m),
        ),
        (BringUpPhase::Frontend, BringUpEventView::FrontendUp(a)) => if kind == (
        FrontendKind::NodeWide { http3: true }) {
            (BringUpPhase::Http3(a), BringUpActionView::StartHttp3)
        } else {
            (BringUpPhase::Over, BringUpActionView::Succeed { listen: a, http3: false })
        },
        (BringUpPhase::Frontend, BringUpEventView::FrontendFailed(m)) => (
            BringUpPhase::Over,
            BringUpActionView::UndoAll(m),
        ),
        (BringUpPhase::Http3(a), BringUpEventView::Http3(up)) => (
            BringUpPhase::Over,
            BringUpActionView::Succeed { listen: a, http3: up },
        ),
        _ => (BringUpPhase::Over, BringUpActionView::Fail("unexpected event"@)),
    }
}

/// Bringing up an HTTPS frontend. The certificates are loaded first.
#[derive(Clone, Copy, Debug, PartialEq, Eq, Structural)]
pub struct BringUp {
    pub kind: FrontendKind,
    pub phase: BringUpPhase,
}

impl BringUp {
    /// Nothing has happened yet.
    pub fn new(kind: FrontendKind) -> (r: Self)
        ensures
            r == (BringUp { kind, phase: BringUpPhase::Loading }),
    {
        BringUp { kind, phase: BringUpPhase::Loading }
    }

    /// Decides what follows an event.
    pub fn step(&mut self, event: BringUpEvent) -> (r: BringUpAction)
        ensures
            final(self).kind == old(self).kind,
            (final(self).phase, r@) == bring_up_step(old(self).kind, old(self).phase, event@),
    {
        match (self.phase, event) {
            (BringUpPhase::Loading, BringUpEvent::Loaded) => {
                self.phase = BringUpPhase::Companion;
                BringUpAction::EnsureCompanion
            },
            (BringUpPhase::Loading, BringUpEvent::LoadFailed(m)) => {
                self.phase = BringUpPhase::Over;
                match self.kind {
                    FrontendKind::NodeWide { .. } => BringUpAction::Fail(m),
                    FrontendKind::Rule => BringUpAction::UndoLoad(m),
                }
            },
            (BringUpPhase::Companion, BringUpEvent::CompanionUp) => {
                self.phase = BringUpPhase::Frontend;
                BringUpAction::StartFrontend
            },
            (BringUpPhase::Companion, BringUpEvent::CompanionFailed(m)) => {
                self.phase = BringUpPhase::Over;
                BringUpAction::Fail(m)
            },
            (BringUpPhase::Frontend, BringUpEvent::FrontendUp(a)) => {
                if self.kind == (FrontendKind::NodeWide { http3: true }) {
                    self.phase = BringUpPhase::Http3(a);
                    BringUpAction::StartHttp3
                } else {
                    self.phase = BringUpPhase::Over;
                    BringUpAction::Succeed { listen: a, http3: false }
                }
            },
            (BringUpPhase::Frontend, BringUpEvent::FrontendFailed(m)) => {
                self.phase = BringUpPhase::Over;
                BringUpAction::UndoAll(m)
            },
            (BringUpPhase::Http3(a), BringUpEvent::Http3(up)) => {
                self.phase = BringUpPhase::Over;
                BringUpAction::Succeed { listen: a, http3: up }
            },
            _ => {
                self.phase = BringUpPhase::Over;
                BringUpAction::Fail("unexpected event".to_owned())
            },
        }
    }
}

/// Law: a frontend that fails to start after its hosts were registered is
/// always undone, and one that started never fails for want of HTTP/3.
pub proof fn law_failed_frontend_is_undone(
    kind: FrontendKind,
    message: Seq<char>,
    listen: SocketAddr,
    up: bool,
)
    ensures
        bring_up_step(
            kind,
            BringUpPhase::Frontend,
            BringUpEventView::FrontendFailed(message),
        ).1 == BringUpActionView::UndoAll(message),
        bring_up_step(kind, BringUpPhase::Http3(listen), BringUpEventView::Http3(up)).1 == (
        BringUpActionView::Succeed { listen, http3: up }),
{
}

/// The name of the node-wide frontend that runs at an address.
pub open spec fn running_name(bound: SocketAddr) -> Seq<char> {
    HTTPS_FRONTEND_NAME@ + "@"@ + addr_text(bound)
}

/// The description of a frontend with so many routes.
pub open spec fn description_of(routes: nat) -> Seq<char> {
    "https:"@ + dec(routes) + " routes"@
}

/// The name of the running node-wide frontend.
pub fn frontend_name(bound: SocketAddr) -> (r: String)
    ensures
        r@ == running_name(bound),
{
    let a = bound.to_text();
    join3(HTTPS_FRONTEND_NAME, "@", a.as_str())
}

/// The description of a frontend with so many routes.
pub fn frontend_description(routes: usize) -> (r: String)
    ensures
        r@ == description_of(routes as nat),
{
    let n = dec_string(routes as u64);
    join3("https:", n.as_str(), " routes")
}

/// Law: routes bring a frontend up, and none take it down. One that runs is
/// restarted for other routes only.
pub proof fn law_frontend_follows_the_routes(
    desired: Seq<RouteView>,
    previous: Seq<RouteView>,
)
    requires
        desired.len() > 0,
    ensures
        https_plan(Seq::empty(), previous, false) == HttpsPlan::Idle,
        https_plan(Seq::empty(), previous, true) == HttpsPlan::TearDown,
        https_plan(desired, previous, false) == HttpsPlan::Start,
        https_plan(desired, desired, true) == HttpsPlan::Keep,
        desired != previous ==> https_plan(desired, previous, true) == HttpsPlan::Restart,
{
}

/// Law: a route's host counts as loaded, in lowercase, exactly where no host of
/// the list without certificate is the same but for its case; otherwise the
/// route itself is to be served in plaintext. The order stays.
pub proof fn law_each_route_finds_its_listener(
    routes: Seq<RouteView>,
    cert_less: Seq<Seq<char>>,
    n: int,
)
    requires
        0 < n <= routes.len(),
    ensures
        ({
            let last = routes[n - 1];
            let bare = exists|i: int|
                0 <= i < cert_less.len() && lower(#[trigger] cert_less[i]) == lower(last.hostname);
            &&& bare ==> cert_less_of(routes, cert_less, n) == cert_less_of(
                routes,
                cert_less,
                n - 1,
            ) + seq![last] && loaded_of(routes, cert_less, n) == loaded_of(routes, cert_less, n - 1)
            &&& !bare ==> loaded_of(routes, cert_less, n) == loaded_of(routes, cert_less, n - 1)
                + seq![lower(last.hostname)] && cert_less_of(routes, cert_less, n) == cert_less_of(
                routes,
                cert_less,
                n - 1,
            )
            &&& loaded_of(routes, cert_less, 0).len() == 0
            &&& cert_less_of(routes, cert_less, 0).len() == 0
        }),
{
    assert(loaded_of(routes, cert_less, n) =~= if host_listed(cert_less, routes[n - 1].hostname) {
        loaded_of(routes, cert_less, n - 1)
    } else {
        loaded_of(routes, cert_less, n - 1) + seq![lower(routes[n - 1].hostname)]
    });
    assert(cert_less_of(routes, cert_less, n) =~= if host_listed(
        cert_less,
        routes[n - 1].hostname,
    ) {
        cert_less_of(routes, cert_less, n - 1) + seq![routes[n - 1]]
    } else {
        cert_less_of(routes, cert_less, n - 1)
    });
}

/// Law: registering a list of hosts adds a claim for each time a host is named
/// there, in whatever case, and giving the list up takes as many away.
pub proof fn law_claims_add_up(m: HostModel, hosts: Seq<Seq<char>>, key: Seq<char>)
    requires
        no_zero(m),
        key_claims(m, key) + hosts.len() <= usize::MAX,
    ensures
        key_claims(claim_all(m, hosts, hosts.len() as int), key) == key_claims(m, key)
            + occurrences(hosts, hosts.len() as int, key),
        key_claims(m, key) >= occurrences(hosts, hosts.len() as int, key) ==> key_claims(
            unclaim_all(m, hosts, hosts.len() as int),
            key,
        ) == key_claims(m, key) - occurrences(hosts, hosts.len() as int, key),
        hosts.len() > 0 ==> occurrences(hosts, hosts.len() as int, key) == occurrences(
            hosts,
            hosts.len() - 1,
            key,
        ) + (if lower(hosts.last()) == key {
            1nat
        } else {
            0nat
        }),
        (forall|i: int| 0 <= i < hosts.len() ==> lower(#[trigger] hosts[i]) != key) ==> occurrences(
            hosts,
            hosts.len() as int,
            key,
        ) == 0,
{
    lemma_claim_all(m, hosts, hosts.len() as int, key);
    if key_claims(m, key) >= occurrences(hosts, hosts.len() as int, key) {
        lemma_unclaim_all(m, hosts, hosts.len() as int, key);
    }
    if forall|i: int| 0 <= i < hosts.len() ==> lower(#[trigger] hosts[i]) != key {
        lemma_no_occurrence(hosts, hosts.len() as int, key);
    }
}

/// A host that is not in a list does not occur there.
proof fn lemma_no_occurrence(hosts: Seq<Seq<char>>, n: int, key: Seq<char>)
    requires
        n <= hosts.len(),
        forall|i: int| 0 <= i < hosts.len() ==> lower(#[trigger] hosts[i]) != key,
    ensures
        occurrences(hosts, n, key) == 0,
    decreases n,
{
    if n > 0 {
        lemma_no_occurrence(hosts, n - 1, key);
        assert(lower(hosts[n - 1]) != key);
    }
}

/// Law: the plaintext routes of a name are replaced as a whole: the new ones
/// are there, an old one that is not among them is gone, and the routes of
/// other names stay where no new one takes their host.
pub proof fn law_plaintext_routes_are_replaced(
    m: RouteModel,
    routes: Seq<HttpRoute>,
    name: Seq<char>,
    i: int,
    k: Seq<char>,
)
    ensures
        ({
            let t = replaced_routes(m, routes, name);
            &&& 0 <= i < routes.len() ==> t.contains_key(lower(routes[i].hostname@)) && t[lower(
                routes[i].hostname@,
            )].rule_name == name
            &&& (forall|j: int| 0 <= j < routes.len() ==> lower(#[trigger] routes[j].hostname@)
                != k) ==> t.contains_key(k) == (m.contains_key(k) && m[k].rule_name != name) && (
            t.contains_key(k) ==> t[k] == m[k])
        }),
{
    let base = without_rule(m, name);
    let n = routes.len() as int;
    if 0 <= i < n {
        lemma_extended_route(base, routes, name, n, i);
    }
    if forall|j: int| 0 <= j < routes.len() ==> lower(#[trigger] routes[j].hostname@) != k {
        lemma_extended_other(base, routes, name, n, k);
    }
}

/// A route that was added is there, under the name.
proof fn lemma_extended_route(
    m: RouteModel,
    routes: Seq<HttpRoute>,
    name: Seq<char>,
    n: int,
    i: int,
)
    requires
        0 <= i < n <= routes.len(),
    ensures
        extended(m, routes, name, n).contains_key(lower(routes[i].hostname@)),
        extended(m, routes, name, n)[lower(routes[i].hostname@)].rule_name == name,
    decreases n,
{
    if i < n - 1 {
        lemma_extended_route(m, routes, name, n - 1, i);
    }
}

/// A host that no route names is left alone.
proof fn lemma_extended_other(
    m: RouteModel,
    routes: Seq<HttpRoute>,
    name: Seq<char>,
    n: int,
    k: Seq<char>,
)
    requires
        n <= routes.len(),
        forall|j: int| 0 <= j < routes.len() ==> lower(#[trigger] routes[j].hostname@) != k,
    ensures
        extended(m, routes, name, n).contains_key(k) == m.contains_key(k),
        m.contains_key(k) ==> extended(m, routes, name, n)[k] == m[k],
    decreases n,
{
    if n > 0 {
        lemma_extended_other(m, routes, name, n - 1, k);
        assert(lower(routes[n - 1].hostname@) != k);
    }
}

/// Law: each host is watched through the files of its own certificate; a host
/// that is registered twice counts once, and one without files, or that is not
/// in the list, keeps what it had.
pub proof fn law_hosts_are_watched_through_their_files(
    w: WatchView,
    s: StoreView,
    hosts: Seq<Seq<char>>,
    n: int,
    k: Seq<char>,
)
    requires
        0 <= n <= hosts.len(),
        lower(k) == k,
    ensures
        ({
            let t = watch_all(w, s, hosts, n).hosts;
            let named = exists|i: int| 0 <= i < n && lower(#[trigger] hosts[i]) == k;
            let files = files_of(s, k);
            &&& named && files.len() > 0 ==> t.contains_key(k) && t[k] == files
            &&& !named || files.len() == 0 ==> t.contains_key(k) == w.hosts.contains_key(k) && (
            w.hosts.contains_key(k) ==> t[k] == w.hosts[k])
        }),
    decreases n,
{
    if n > 0 {
        law_hosts_are_watched_through_their_files(w, s, hosts, n - 1, k);
        let h = hosts[n - 1];
        if lower(h) == k {
            assert(files_of(s, h) == files_of(s, k));
        } else if exists|i: int| 0 <= i < n && lower(#[trigger] hosts[i]) == k {
            let i = choose|i: int| 0 <= i < n && lower(#[trigger] hosts[i]) == k;
            assert(i < n - 1);
        }
    }
}

/// Law: a host without certificate has no files to watch, and one with a
/// certificate those that it was read from.
pub proof fn law_watched_files_are_the_certificate_files(s: StoreView, host: Seq<char>)
    ensures
        !s.entries.contains_key(lower(host)) ==> files_of(s, host).len() == 0,
        s.entries.contains_key(lower(host)) ==> files_of(s, host) == origin_paths(
            s.entries[lower(host)].origin,
        ),
{
}

/// Law: releasing some hosts leaves the certificate of every other host where
/// it is.
pub proof fn law_other_hosts_are_not_released(
    w: WatchView,
    s: StoreView,
    hosts: Seq<Seq<char>>,
    n: int,
    k: Seq<char>,
)
    requires
        0 <= n <= hosts.len(),
        forall|i: int| 0 <= i < n ==> lower(#[trigger] hosts[i]) != k,
    ensures
        ({
            let t = released_all(w, s, hosts, n);
            &&& t.1.entries.contains_key(k) == s.entries.contains_key(k)
            &&& s.entries.contains_key(k) ==> t.1.entries[k] == s.entries[k]
            &&& t.1.specs.contains_key(k) == s.specs.contains_key(k)
            &&& s.specs.contains_key(k) ==> t.1.specs[k] == s.specs[k]
            &&& t.0.hosts.contains_key(k) == w.hosts.contains_key(k)
            &&& w.hosts.contains_key(k) ==> t.0.hosts[k] == w.hosts[k]
        }),
    decreases n,
{
    if n > 0 {
        law_other_hosts_are_not_released(w, s, hosts, n - 1, k);
        assert(lower(hosts[n - 1]) != k);
    }
}

/// Law: only an HTTPS rule takes certificates with it, those of all its routes.
pub proof fn law_only_https_rules_hold_certificates(rule: Rule)
    ensures
        rule.protocol != Protocol::Https ==> unloaded_routes(rule).len() == 0,
        rule.protocol == Protocol::Https && rule.routes is None ==> unloaded_routes(rule).len()
            == 0,
        rule.protocol == Protocol::Https && rule.routes is Some ==> unloaded_routes(rule)
            == route_views(rule.routes->0@),
{
}

/// Law: a frontend comes up in order: its certificates, the companion listener,
/// the frontend itself, and then HTTP/3 where it serves all the node's routes
/// and HTTP/3 is on. It is up at the address that it listens on.
pub proof fn law_frontend_comes_up_in_order(kind: FrontendKind, listen: SocketAddr)
    ensures
        bring_up_step(kind, BringUpPhase::Loading, BringUpEventView::Loaded) == (
            BringUpPhase::Companion,
            BringUpActionView::EnsureCompanion,
        ),
        bring_up_step(kind, BringUpPhase::Companion, BringUpEventView::CompanionUp) == (
            BringUpPhase::Frontend,
            BringUpActionView::StartFrontend,
        ),
        kind is NodeWide && kind->http3 ==> bring_up_step(
            kind,
            BringUpPhase::Frontend,
            BringUpEventView::FrontendUp(listen),
        ) == (BringUpPhase::Http3(listen), BringUpActionView::StartHttp3),
        kind is Rule || !kind->http3 ==> bring_up_step(
            kind,
            BringUpPhase::Frontend,
            BringUpEventView::FrontendUp(listen),
        ) == (BringUpPhase::Over, BringUpActionView::Succeed { listen, http3: false }),
{
}

/// Law: what fails ends bringing up, with the message of the failure. A rule's
/// failed load is undone; where the companion listener fails nothing was
/// registered yet.
pub proof fn law_failed_bring_up_says_why(kind: FrontendKind, message: Seq<char>)
    ensures
        kind is NodeWide ==> bring_up_step(
            kind,
            BringUpPhase::Loading,
            BringUpEventView::LoadFailed(message),
        ) == (BringUpPhase::Over, BringUpActionView::Fail(message)),
        kind is Rule ==> bring_up_step(
            kind,
            BringUpPhase::Loading,
            BringUpEventView::LoadFailed(message),
        ) == (BringUpPhase::Over, BringUpActionView::UndoLoad(message)),
        bring_up_step(kind, BringUpPhase::Companion, BringUpEventView::CompanionFailed(message)) == (
            BringUpPhase::Over,
            BringUpActionView::Fail(message),
        ),
        bring_up_step(kind, BringUpPhase::Frontend, BringUpEventView::FrontendFailed(message)) == (
            BringUpPhase::Over,
            BringUpActionView::UndoAll(message),
        ),
{
}

/// Law: the node-wide frontend goes by its name and the address that it listens
/// on, and tells how many routes it has.
pub proof fn law_frontend_goes_by_its_address(bound: SocketAddr, routes: nat)
    ensures
        running_name(bound) == "__https__@"@ + addr_text(bound),
        description_of(routes) == "https:"@ + dec(routes) + " routes"@,
{
    reveal_strlit("__https__");
    reveal_strlit("@");
    reveal_strlit("__https__@");
    assert("__https__"@ + "@"@ =~= "__https__@"@);
}

/// Law: a directory is to be watched from its first holder on, and no longer
/// once its last holder has gone; one that keeps a holder is left alone.
pub proof fn law_directories_are_watched_while_held(
    c: WatchChange,
    before: DirCounts,
    after: DirCounts,
    d: Seq<char>,
)
    requires
        change_follows(c, before, after),
    ensures
        !before.contains_key(d) && after.contains_key(d) && after[d] > 0 ==> texts(
            c.watch@,
        ).contains(d) && !texts(c.unwatch@).contains(d),
        before.contains_key(d) && before[d] > 0 && !after.contains_key(d) ==> texts(
            c.unwatch@,
        ).contains(d) && !texts(c.watch@).contains(d),
        before.contains_key(d) && before[d] > 0 && after.contains_key(d) && after[d] > 0
            ==> !texts(c.watch@).contains(d) && !texts(c.unwatch@).contains(d),
        !before.contains_key(d) && !after.contains_key(d) ==> !texts(c.watch@).contains(d)
            && !texts(c.unwatch@).contains(d),
{
}

/// Law: a host holds the directories of its files from its registration until
/// it is released.
pub proof fn law_watch_list_counts_directories(
    w: WatchView,
    host: Seq<char>,
    paths: Seq<Seq<char>>,
)
    ensures
        watch_registered(w, host, paths).dirs == dirs_registered(w.hosts, w.dirs, host, paths),
        paths.len() > 0 ==> watch_registered(w, host, paths).hosts == w.hosts.insert(
            lower(host),
            paths,
        ),
        paths.len() == 0 ==> watch_registered(w, host, paths) == w,
        watch_unregistered(w, host).dirs == dirs_unregistered(w.hosts, w.dirs, host),
        !watch_unregistered(w, host).hosts.contains_key(lower(host)),
{
}

} // verus!
