//! The certificate store: certificates by hostname, and what is needed to load
//! each of them again.

use vstd::prelude::*;
use vstd::string::*;

use crate::certs::files::{file_read, has_file, FileModel, FileSet};
use crate::certs::loader::{
    conv_cert, conv_key, default_covers, default_names, ephemeral_pair, ephemeral_refused,
    load_route_cert_at, load_rule_route_cert_at, node_cert, now_unix_ms, read_default_cert_sans,
    route_has_key, rule_cert, rule_source_of, CertContext, ContextView, RuleContext,
};
use crate::certs::origin::{
    clone_opt, clone_pair, origin_paths, pair_view, CertEntry, CertEntryView, CertError,
    CertErrorView, CertOrigin, CertifiedKey, Chain, ChainView, OriginView, ReloadSpec, SpecView,
};
use crate::certs::pem::leaf_names;
use crate::path::join_path;
use crate::rule::{route_views, CertSourceView, HttpRoute, Rule, RouteView};
use crate::strmap::{
    by_lowercase, increasing, lemma_by_lowercase, lemma_increasing_len, lemma_increasing_unique,
    lemma_lowercase_without, StrMap,
};
use crate::text::{ascii, lower, opt_view, texts, to_lower};

verus! {

broadcast use vstd::string::group_string_axioms;

/// The contents of a store, by lowercase hostname.
pub struct StoreView {
    pub entries: Map<Seq<char>, CertEntryView>,
    pub specs: Map<Seq<char>, SpecView>,
}

/// The contents are in order: finitely many hosts in lowercase, and every spec
/// can be reloaded from disk.
pub open spec fn store_ok(s: StoreView) -> bool {
    &&& by_lowercase(s.entries)
    &&& by_lowercase(s.specs)
    &&& forall|k: Seq<char>| #[trigger] s.specs.contains_key(k) ==> reloadable(s.specs[k])
}

/// A certificate that comes from disk: an explicit path has its key, and no
/// certificate of a rule is ephemeral.
pub open spec fn reloadable(s: SpecView) -> bool {
    s.chain is Rule ==> route_has_key(s.route) && s.route.cert
        != Some(CertSourceView::Ephemeral)
}

/// Certificates by hostname.
pub struct CertStore {
    entries: StrMap<CertEntry>,
    specs: StrMap<ReloadSpec>,
}

impl View for CertStore {
    type V = StoreView;

    closed spec fn view(&self) -> StoreView {
        StoreView {
            entries: self.entries@.map_values(|e: CertEntry| e@),
            specs: self.specs@.map_values(|s: ReloadSpec| s@),
        }
    }
}

/// What a reload did.
#[derive(Clone, Copy, Debug, PartialEq, Eq, Structural)]
pub enum ReloadOutcome {
    /// Nothing is known of how to load the host.
    NoSpec,
    /// The entry was replaced.
    Replaced,
    /// The files are there, but no certificate covers the host any more: the
    /// entry was dropped.
    CertLess,
}

/// The store with an entry for a host.
pub open spec fn with_entry(s: StoreView, host: Seq<char>, e: CertEntryView) -> StoreView {
    StoreView { entries: s.entries.insert(lower(host), e), ..s }
}

/// The store with a reload spec for a host.
pub open spec fn with_spec(s: StoreView, host: Seq<char>, spec: SpecView) -> StoreView {
    StoreView { specs: s.specs.insert(lower(host), spec), ..s }
}

/// The store without a host.
pub open spec fn without_host(s: StoreView, host: Seq<char>) -> StoreView {
    StoreView { entries: s.entries.remove(lower(host)), specs: s.specs.remove(lower(host)) }
}

/// The names of an optional default certificate.
pub open spec fn optional_names(
    server_default: Option<(Seq<char>, Seq<char>)>,
    files: FileModel,
) -> Result<Option<Seq<Seq<char>>>, CertErrorView> {
    match server_default {
        None => Ok(None),
        Some((c, _)) => match default_names(c, files) {
            Ok(n) => Ok(Some(n)),
            Err(e) => Err(e),
        },
    }
}

/// What loading a host again gives: an entry, none, or an error.
pub open spec fn resolved(s: SpecView, files: FileModel, now: u64) -> Result<
    Option<CertEntryView>,
    CertErrorView,
> {
    match s.chain {
        ChainView::Node => match optional_names(s.server_default, files) {
            Err(e) => Err(e),
            Ok(sans) => node_cert(
                s.route.hostname,
                ContextView {
                    rule_name: s.rule_name,
                    server_cert_dir: s.server_cert_dir,
                    server_default: s.server_default,
                    server_default_sans: sans,
                },
                files,
                now,
            ),
        },
        ChainView::Rule { cert_dir } => match rule_cert(
            rule_source_of(s.route, cert_dir, s.server_cert_dir, s.server_default, files),
            s.rule_name,
            s.route.hostname,
            files,
            now,
        ) {
            Ok(e) => Ok(Some(e)),
            Err(e) => Err(e),
        },
    }
}

/// A file that an entry came from is missing.
pub open spec fn file_missing(o: OriginView, files: FileModel) -> bool {
    match o {
        OriginView::Path { cert, key } | OriginView::Convention { cert, key }
        | OriginView::Default { cert, key } | OriginView::Acme { cert, key } => !(has_file(
            files,
            cert,
        ) && has_file(files, key)),
        OriginView::Ephemeral | OriginView::AcmePending { .. } => false,
    }
}

/// Whether a file that an entry came from is missing.
fn misses_file(o: &CertOrigin, files: &FileSet) -> (r: bool)
    requires
        files.wf(),
    ensures
        r == file_missing(o@, files@),
{
    match o {
        CertOrigin::Path { cert, key } | CertOrigin::Convention { cert, key }
        | CertOrigin::Default { cert, key } | CertOrigin::Acme { cert, key } => !(files.is_file(
            cert.as_str(),
        ) && files.is_file(key.as_str())),
        CertOrigin::Ephemeral | CertOrigin::AcmePending { .. } => false,
    }
}

/// The store and the outcome after a reload of a host. An error leaves the
/// store as it was. Where nothing is found in place of an entry whose files are
/// missing, that is an error.
pub open spec fn reloaded(s: StoreView, host: Seq<char>, files: FileModel, now: u64) -> (
    StoreView,
    Result<ReloadOutcome, CertErrorView>,
) {
    let k = lower(host);
    if !s.specs.contains_key(k) {
        (s, Ok(ReloadOutcome::NoSpec))
    } else {
        match resolved(s.specs[k], files, now) {
            Ok(Some(e)) => (
                StoreView { entries: s.entries.insert(k, e), ..s },
                Ok(ReloadOutcome::Replaced),
            ),
            Ok(None) => if s.entries.contains_key(k) && file_missing(s.entries[k].origin, files) {
                (
                    s,
                    Err(
                        CertErrorView::NoSource {
                            rule: s.specs[k].rule_name,
                            route: s.specs[k].route.hostname,
                        },
                    ),
                )
            } else {
                (StoreView { entries: s.entries.remove(k), ..s }, Ok(ReloadOutcome::CertLess))
            },
            Err(e) => (s, Err(e)),
        }
    }
}

/// The names of an optional default certificate.
fn optional_sans(server_default: &Option<(String, String)>, files: &FileSet) -> (r: Result<
    Option<Vec<String>>,
    CertError,
>)
    requires
        files.wf(),
    ensures
        match optional_names(pair_view(*server_default), files@) {
            Ok(Some(n)) => r is Ok && r->Ok_0 is Some && texts(r->Ok_0->0@) == n,
            Ok(None) => r is Ok && r->Ok_0 is None,
            Err(e) => r is Err && r->Err_0@ == e,
        },
{
    match server_default {
        None => Ok(None),
        Some((c, _)) => match read_default_cert_sans(c.as_str(), files) {
            Ok(n) => Ok(Some(n)),
            Err(e) => Err(e),
        },
    }
}

/// Loads a host again.
fn resolve(spec: &ReloadSpec, files: &FileSet, now: u64) -> (r: Result<Option<CertEntry>, CertError>)
    requires
        files.wf(),
        reloadable(spec@),
    ensures
        match resolved(spec@, files@, now) {
            Ok(Some(e)) => r is Ok && r->Ok_0 is Some && r->Ok_0->0@ == e,
            Ok(None) => r is Ok && r->Ok_0 is None,
            Err(e) => r is Err && r->Err_0@ == e,
        },
{
    match &spec.chain {
        Chain::Node => {
            let sans = match optional_sans(&spec.server_default, files) {
                Ok(s) => s,
                Err(e) => {
                    return Err(e);
                },
            };
            let ctx = CertContext {
                rule_name: spec.rule_name.clone(),
                server_cert_dir: spec.server_cert_dir.clone(),
                server_default: clone_pair(&spec.server_default),
                server_default_sans: sans,
            };
            load_route_cert_at(&spec.route, &ctx, files, now)
        },
        Chain::Rule { cert_dir } => {
            let ctx = RuleContext {
                rule_name: spec.rule_name.clone(),
                rule_cert_dir: clone_opt(cert_dir),
                server_cert_dir: spec.server_cert_dir.clone(),
                server_default: clone_pair(&spec.server_default),
            };
            match load_rule_route_cert_at(&spec.route, &ctx, files, now) {
                Ok(e) => Ok(Some(e)),
                Err(e) => Err(e),
            }
        },
    }
}

/// Whether a reload gave what it should, from `s` to `t`.
pub open spec fn reload_is(
    s: StoreView,
    t: StoreView,
    r: Result<ReloadOutcome, CertError>,
    host: Seq<char>,
    files: FileModel,
    now: u64,
) -> bool {
    &&& t == reloaded(s, host, files, now).0
    &&& match reloaded(s, host, files, now).1 {
        Ok(o) => r is Ok && r->Ok_0 == o,
        Err(e) => r is Err && r->Err_0@ == e,
    }
}

/// The rows of a full listing.
pub open spec fn full_rows(v: Seq<(String, CertOrigin, u64)>) -> Seq<(Seq<char>, OriginView, u64)> {
    Seq::new(v.len(), |i: int| (v[i].0@, v[i].1@, v[i].2))
}

/// The rows of a listing.
pub open spec fn rows(v: Seq<(String, CertOrigin)>) -> Seq<(Seq<char>, OriginView)> {
    Seq::new(v.len(), |i: int| (v[i].0@, v[i].1@))
}

/// A full listing holds exactly the hosts of a store, by increasing name, each
/// with its origin and the time of its load.
pub open spec fn is_full_listing(l: Seq<(Seq<char>, OriginView, u64)>, s: StoreView) -> bool {
    let names = Seq::new(l.len(), |i: int| l[i].0);
    &&& increasing(names)
    &&& forall|k: Seq<char>| #[trigger] names.contains(k) <==> s.entries.contains_key(k)
    &&& forall|i: int|
        0 <= i < l.len() ==> s.entries[(#[trigger] l[i]).0].origin == l[i].1
            && s.entries[l[i].0].loaded_at_unix_ms == l[i].2
}

/// A listing holds exactly the hosts of a store, by increasing name, each with
/// its origin.
pub open spec fn is_listing(l: Seq<(Seq<char>, OriginView)>, s: StoreView) -> bool {
    let names = Seq::new(l.len(), |i: int| l[i].0);
    &&& increasing(names)
    &&& forall|k: Seq<char>| #[trigger] names.contains(k) <==> s.entries.contains_key(k)
    &&& forall|i: int| 0 <= i < l.len() ==> s.entries[(#[trigger] l[i]).0].origin == l[i].1
}

impl CertStore {
    /// Both tables are in order.
    pub closed spec fn tables_wf(&self) -> bool {
        self.entries.wf() && self.specs.wf()
    }

    /// The tables and what they hold are in order.
    pub open spec fn wf(&self) -> bool {
        self.tables_wf() && store_ok(self@)
    }

    /// An empty store.
    pub fn new() -> (r: Self)
        ensures
            r.wf(),
            r@.entries == Map::<Seq<char>, CertEntryView>::empty(),
            r@.specs == Map::<Seq<char>, SpecView>::empty(),
    {
        let r = CertStore { entries: StrMap::new(), specs: StrMap::new() };
        assert(r@.entries =~= Map::<Seq<char>, CertEntryView>::empty());
        assert(r@.specs =~= Map::<Seq<char>, SpecView>::empty());
        r
    }

    /// Puts an entry under a hostname, in any case.
    pub fn insert(&mut self, hostname: &str, entry: CertEntry)
        requires
            old(self).wf(),
        ensures
            final(self).wf(),
            final(self)@ == with_entry(old(self)@, hostname@, entry@),
    {
        let ghost before = self@;
        let ghost e = entry@;
        let k = to_lower(hostname);
        let _ = self.entries.insert(k, entry);
        assert(self@.entries =~= before.entries.insert(lower(hostname@), e));
        proof {
            lemma_by_lowercase(before.entries, hostname@, e);
        }
    }

    /// Takes a hostname's entry out, and its reload spec with it.
    pub fn remove(&mut self, hostname: &str) -> (r: Option<CertEntry>)
        requires
            old(self).wf(),
        ensures
            final(self).wf(),
            final(self)@ == without_host(old(self)@, hostname@),
            r is Some <==> old(self)@.entries.contains_key(lower(hostname@)),
            r is Some ==> r->0@ == old(self)@.entries[lower(hostname@)],
    {
        let ghost before = self@;
        let k = to_lower(hostname);
        let _ = self.specs.remove(k.as_str());
        let r = self.entries.remove(k.as_str());
        assert(self@.entries =~= before.entries.remove(lower(hostname@)));
        assert(self@.specs =~= before.specs.remove(lower(hostname@)));
        proof {
            lemma_lowercase_without(before.entries, hostname@);
            lemma_lowercase_without(before.specs, hostname@);
        }
        r
    }

    /// Records how to load a hostname again.
    pub fn record_reload_spec(&mut self, hostname: &str, spec: ReloadSpec)
        requires
            old(self).wf(),
            reloadable(spec@),
        ensures
            final(self).wf(),
            final(self)@ == with_spec(old(self)@, hostname@, spec@),
    {
        let ghost before = self@;
        let ghost s = spec@;
        let k = to_lower(hostname);
        let _ = self.specs.insert(k, spec);
        assert(self@.specs =~= before.specs.insert(lower(hostname@), s));
        proof {
            lemma_by_lowercase(before.specs, hostname@, s);
        }
    }

    /// How to load a hostname again, if that is recorded.
    pub fn reload_spec(&self, hostname: &str) -> (r: Option<ReloadSpec>)
        requires
            self.wf(),
        ensures
            r is Some <==> self@.specs.contains_key(lower(hostname@)),
            r is Some ==> r->0@ == self@.specs[lower(hostname@)],
    {
        let k = to_lower(hostname);
        match self.specs.get(k.as_str()) {
            Some(s) => Some(s.clone()),
            None => None,
        }
    }

    /// Loads a hostname's certificate again, and stamps it with the clock. An
    /// error leaves the old entry in service.
    pub fn reload_host(&mut self, hostname: &str, files: &FileSet) -> (r: Result<
        ReloadOutcome,
        CertError,
    >)
        requires
            old(self).wf(),
            files.wf(),
        ensures
            final(self).wf(),
            exists|now: u64|
                reload_is(old(self)@, final(self)@, r, hostname@, files@, now),
    {
        let now: u64 = now_unix_ms();
        self.reload_host_at(hostname, files, now)
    }

    /// Loads a hostname's certificate again at a given time. An error leaves
    /// the old entry in service.
    pub fn reload_host_at(&mut self, hostname: &str, files: &FileSet, now: u64) -> (r: Result<
        ReloadOutcome,
        CertError,
    >)
        requires
            old(self).wf(),
            files.wf(),
        ensures
            final(self).wf(),
            reload_is(old(self)@, final(self)@, r, hostname@, files@, now),
    {
        let k = to_lower(hostname);
        let ghost before = self@;
        let (found, rule, route) = match self.specs.get(k.as_str()) {
            Some(s) => {
                assert(before.specs.contains_key(k@));
                (resolve(s, files, now), s.rule_name.clone(), s.route.hostname.clone())
            },
            None => {
                return Ok(ReloadOutcome::NoSpec);
            },
        };
        match found {
            Ok(Some(e)) => {
                let ghost ev = e@;
                let _ = self.entries.insert(k, e);
                assert(self@.entries =~= before.entries.insert(lower(hostname@), ev));
                proof {
                    lemma_by_lowercase(before.entries, hostname@, ev);
                }
                Ok(ReloadOutcome::Replaced)
            },
            Ok(None) => {
                let missing = match self.entries.get(k.as_str()) {
                    Some(e) => misses_file(&e.origin, files),
                    None => false,
                };
                if missing {
                    return Err(CertError::NoSource { rule, route });
                }
                let _ = self.entries.remove(k.as_str());
                assert(self@.entries =~= before.entries.remove(lower(hostname@)));
                proof {
                    lemma_lowercase_without(before.entries, hostname@);
                }
                Ok(ReloadOutcome::CertLess)
            },
            Err(e) => Err(e),
        }
    }

    /// Every hostname with the origin of its certificate and the time of its
    /// load, by increasing hostname.
    pub fn list_full(&self) -> (r: Vec<(String, CertOrigin, u64)>)
        requires
            self.wf(),
        ensures
            r@.len() == self@.entries.dom().len(),
            is_full_listing(full_rows(r@), self@),
    {
        let mut out: Vec<(String, CertOrigin, u64)> = Vec::new();
        let n: usize = self.entries.len();
        let ghost ks = self.entries.keys();
        proof {
            self.entries.lemma_keys();
            assert(self@.entries.dom() =~= self.entries@.dom());
        }
        for i in 0..n
            invariant
                self.wf(),
                ks == self.entries.keys(),
                n == ks.len(),
                out@.len() == i,
                forall|j: int| 0 <= j < i ==> (#[trigger] out@[j]).0@ == ks[j],
                forall|j: int|
                    0 <= j < i ==> self@.entries.contains_key((#[trigger] out@[j]).0@)
                        && self@.entries[out@[j].0@].origin == out@[j].1@
                        && self@.entries[out@[j].0@].loaded_at_unix_ms == out@[j].2,
        {
            let e = self.entries.value_at(i);
            out.push((self.entries.key_at(i).clone(), e.origin.clone(), e.loaded_at_unix_ms));
        }
        assert(Seq::new(full_rows(out@).len(), |i: int| full_rows(out@)[i].0) =~= ks);
        out
    }

    /// Every hostname with the origin of its certificate, by increasing
    /// hostname.
    pub fn list(&self) -> (r: Vec<(String, CertOrigin)>)
        requires
            self.wf(),
        ensures
            r@.len() == self@.entries.dom().len(),
            is_listing(rows(r@), self@),
    {
        let mut out: Vec<(String, CertOrigin)> = Vec::new();
        let n: usize = self.entries.len();
        let ghost ks = self.entries.keys();
        proof {
            self.entries.lemma_keys();
            assert(self@.entries.dom() =~= self.entries@.dom());
        }
        for i in 0..n
            invariant
                self.wf(),
                ks == self.entries.keys(),
                n == ks.len(),
                out@.len() == i,
                forall|j: int| 0 <= j < i ==> (#[trigger] out@[j]).0@ == ks[j],
                forall|j: int|
                    0 <= j < i ==> self@.entries.contains_key((#[trigger] out@[j]).0@)
                        && self@.entries[out@[j].0@].origin == out@[j].1@,
        {
            let e = self.entries.value_at(i);
            out.push((self.entries.key_at(i).clone(), e.origin.clone()));
        }
        assert(Seq::new(rows(out@).len(), |i: int| rows(out@)[i].0) =~= ks);
        out
    }

    /// The files behind a hostname's certificate; none for an unknown host.
    pub fn watched_paths_for(&self, hostname: &str) -> (r: Vec<String>)
        requires
            self.wf(),
        ensures
            texts(r@) == (if self@.entries.contains_key(lower(hostname@)) {
                origin_paths(self@.entries[lower(hostname@)].origin)
            } else {
                Seq::empty()
            }),
    {
        let k = to_lower(hostname);
        match self.entries.get(k.as_str()) {
            Some(e) => e.origin.watched_paths(),
            None => {
                let out: Vec<String> = Vec::new();
                assert(texts(out@) =~= Seq::<Seq<char>>::empty());
                out
            },
        }
    }

    /// Number of hostnames.
    pub fn len(&self) -> (r: usize)
        requires
            self.wf(),
        ensures
            r == self@.entries.dom().len(),
    {
        assert(self@.entries.dom() =~= self.entries@.dom());
        self.entries.len()
    }

    /// Whether there is no hostname.
    pub fn is_empty(&self) -> (r: bool)
        requires
            self.wf(),
        ensures
            r == (self@.entries.dom().len() == 0),
    {
        self.len() == 0
    }

    /// Whether a hostname, in any case, has a certificate.
    pub fn contains(&self, hostname: &str) -> (r: bool)
        requires
            self.wf(),
        ensures
            r == self@.entries.contains_key(lower(hostname@)),
    {
        let k = to_lower(hostname);
        self.entries.contains(k.as_str())
    }

    /// The certificate and key for a hostname, in any case.
    pub fn lookup(&self, hostname: &str) -> (r: Option<&CertifiedKey>)
        requires
            self.wf(),
        ensures
            r is Some <==> self@.entries.contains_key(lower(hostname@)),
            r is Some ==> r->0@ == self@.entries[lower(hostname@)].key,
    {
        let k = to_lower(hostname);
        match self.entries.get(k.as_str()) {
            Some(e) => Some(&e.key),
            None => None,
        }
    }
}

/// Where loading a list of routes stands: the store so far, the hosts without
/// certificate so far, and the error that ended it.
pub struct LoadState {
    pub store: StoreView,
    pub cert_less: Seq<Seq<char>>,
    pub failed: Option<CertErrorView>,
}

/// The spec that loading a route through the node-wide chain records.
pub open spec fn node_spec(route: RouteView, ctx: ContextView) -> SpecView {
    SpecView {
        rule_name: ctx.rule_name,
        route,
        chain: ChainView::Node,
        server_cert_dir: ctx.server_cert_dir,
        server_default: ctx.server_default,
    }
}

/// Where loading stands after the first `n` routes. An error ends it; what was
/// loaded before stays.
pub open spec fn load_state(
    store: StoreView,
    routes: Seq<RouteView>,
    ctx: ContextView,
    files: FileModel,
    now: u64,
    n: int,
) -> LoadState
    decreases n,
{
    if n <= 0 {
        LoadState { store, cert_less: Seq::empty(), failed: None }
    } else {
        let s = load_state(store, routes, ctx, files, now, n - 1);
        let r = routes[n - 1];
        if s.failed is Some {
            s
        } else {
            match node_cert(r.hostname, ctx, files, now) {
                Err(e) => LoadState { failed: Some(e), ..s },
                Ok(None) => LoadState { cert_less: s.cert_less.push(r.hostname), ..s },
                Ok(Some(e)) => LoadState {
                    store: with_entry(
                        with_spec(s.store, r.hostname, node_spec(r, ctx)),
                        r.hostname,
                        e,
                    ),
                    ..s
                },
            }
        }
    }
}

/// Once loading has failed, it stays so.
proof fn lemma_load_stays_failed(
    store: StoreView,
    routes: Seq<RouteView>,
    ctx: ContextView,
    files: FileModel,
    now: u64,
    i: int,
    n: int,
)
    requires
        0 <= i <= n,
        load_state(store, routes, ctx, files, now, i).failed is Some,
    ensures
        load_state(store, routes, ctx, files, now, n) == load_state(
            store,
            routes,
            ctx,
            files,
            now,
            i,
        ),
    decreases n - i,
{
    if i < n {
        lemma_load_stays_failed(store, routes, ctx, files, now, i, n - 1);
    }
}

/// What loading a list of routes amounts to. An unreadable default certificate
/// ends it before it starts.
pub open spec fn load_outcome(
    store: StoreView,
    rule_name: Seq<char>,
    routes: Seq<RouteView>,
    server_cert_dir: Seq<char>,
    server_default: Option<(Seq<char>, Seq<char>)>,
    files: FileModel,
    now: u64,
) -> LoadState {
    match optional_names(server_default, files) {
        Err(e) => LoadState { store, cert_less: Seq::empty(), failed: Some(e) },
        Ok(sans) => load_state(
            store,
            routes,
            ContextView {
                rule_name,
                server_cert_dir,
                server_default,
                server_default_sans: sans,
            },
            files,
            now,
            routes.len() as int,
        ),
    }
}

/// Whether loading a list of routes, from `s` to `t`, gave what it should.
pub open spec fn load_is(
    s: StoreView,
    t: StoreView,
    r: Result<Vec<String>, CertError>,
    rule_name: Seq<char>,
    routes: Seq<RouteView>,
    server_cert_dir: Seq<char>,
    server_default: Option<(Seq<char>, Seq<char>)>,
    files: FileModel,
    now: u64,
) -> bool {
    let o = load_outcome(s, rule_name, routes, server_cert_dir, server_default, files, now);
    &&& t == o.store
    &&& match o.failed {
        Some(e) => r is Err && r->Err_0@ == e,
        None => r is Ok && texts(r->Ok_0@) == o.cert_less,
    }
}

/// Resolves every route through the node-wide chain, stamped with the clock,
/// and puts the results into the store. Gives the hosts without certificate,
/// which are not put there.
pub fn load_routes_into_store(
    rule_name: &str,
    routes: &[HttpRoute],
    store: &mut CertStore,
    server_cert_dir: &str,
    server_default: &Option<(String, String)>,
    files: &FileSet,
) -> (r: Result<Vec<String>, CertError>)
    requires
        old(store).wf(),
        files.wf(),
    ensures
        final(store).wf(),
        exists|now: u64|
            load_is(
                old(store)@,
                final(store)@,
                r,
                rule_name@,
                route_views(routes@),
                server_cert_dir@,
                pair_view(*server_default),
                files@,
                now,
            ),
{
    let now: u64 = now_unix_ms();
    load_routes_into_store_at(rule_name, routes, store, server_cert_dir, server_default, files, now)
}

/// Resolves every route through the node-wide chain at a given time, and puts
/// the results into the store. Gives the hosts without certificate, which are
/// not put there.
pub fn load_routes_into_store_at(
    rule_name: &str,
    routes: &[HttpRoute],
    store: &mut CertStore,
    server_cert_dir: &str,
    server_default: &Option<(String, String)>,
    files: &FileSet,
    now: u64,
) -> (r: Result<Vec<String>, CertError>)
    requires
        old(store).wf(),
        files.wf(),
    ensures
        final(store).wf(),
        load_is(
            old(store)@,
            final(store)@,
            r,
            rule_name@,
            route_views(routes@),
            server_cert_dir@,
            pair_view(*server_default),
            files@,
            now,
        ),
{
    let sans = match optional_sans(server_default, files) {
        Ok(s) => s,
        Err(e) => {
            return Err(e);
        },
    };
    let ctx = CertContext {
        rule_name: rule_name.to_owned(),
        server_cert_dir: server_cert_dir.to_owned(),
        server_default: clone_pair(server_default),
        server_default_sans: sans,
    };
    let ghost start = store@;
    let ghost all = route_views(routes@);
    let ghost c = ctx@;
    let n: usize = routes.len();
    let mut cert_less: Vec<String> = Vec::new();
    assert(texts(cert_less@) =~= Seq::<Seq<char>>::empty());
    for i in 0..n
        invariant
            n == routes@.len(),
            files.wf(),
            store.wf(),
            all == route_views(routes@),
            c == ctx@,
            c.rule_name == rule_name@,
            c.server_cert_dir == server_cert_dir@,
            c.server_default == pair_view(*server_default),
            optional_names(pair_view(*server_default), files@) == Ok::<
                Option<Seq<Seq<char>>>,
                CertErrorView,
            >(c.server_default_sans),
            load_state(start, all, c, files@, now, i as int).failed is None,
            store@ == load_state(start, all, c, files@, now, i as int).store,
            texts(cert_less@) == load_state(start, all, c, files@, now, i as int).cert_less,
            start == old(store)@,
    {
        assert(all[i as int] == routes@[i as int]@);
        match load_route_cert_at(&routes[i], &ctx, files, now) {
            Err(e) => {
                proof {
                    lemma_load_stays_failed(start, all, c, files@, now, i + 1, n as int);
                }
                return Err(e);
            },
            Ok(None) => {
                let ghost done = cert_less@;
                cert_less.push(routes[i].hostname.clone());
                assert(texts(cert_less@) =~= texts(done).push(routes@[i as int].hostname@));
            },
            Ok(Some(entry)) => {
                let spec = ReloadSpec {
                    rule_name: rule_name.to_owned(),
                    route: routes[i].clone(),
                    chain: Chain::Node,
                    server_cert_dir: server_cert_dir.to_owned(),
                    server_default: clone_pair(server_default),
                };
                store.record_reload_spec(routes[i].hostname.as_str(), spec);
                store.insert(routes[i].hostname.as_str(), entry);
            },
        }
    }
    Ok(cert_less)
}

/// The files that loading a host through the node-wide chain looks at.
pub open spec fn node_paths(
    host: Seq<char>,
    dir: Seq<char>,
    server_default: Option<(Seq<char>, Seq<char>)>,
) -> Seq<Seq<char>> {
    let conv = seq![conv_cert(dir, host), conv_key(dir, host)];
    match server_default {
        Some((c, k)) => conv + seq![c, k],
        None => conv,
    }
}

/// The files to look at before a host is loaded through the node-wide chain.
pub fn wanted_paths(host: &str, dir: &str, server_default: &Option<(String, String)>) -> (r: Vec<
    String,
>)
    ensures
        texts(r@) == node_paths(host@, dir@, pair_view(*server_default)),
{
    let base = join_path(dir, host);
    let mut out: Vec<String> = Vec::new();
    out.push(join_path(base.as_str(), "fullchain.pem"));
    out.push(join_path(base.as_str(), "privkey.pem"));
    if let Some((c, k)) = server_default {
        out.push(c.clone());
        out.push(k.clone());
    }
    assert(texts(out@) =~= node_paths(host@, dir@, pair_view(*server_default)));
    out
}

/// Two snapshots agree on a list of paths.
pub open spec fn agree(a: FileModel, b: FileModel, paths: Seq<Seq<char>>) -> bool {
    forall|i: int|
        0 <= i < paths.len() ==> has_file(a, #[trigger] paths[i]) == has_file(b, paths[i])
            && file_read(a, paths[i]) == file_read(b, paths[i])
}

/// Law: a certificate is found under its hostname in whatever case, and under
/// no other.
pub proof fn law_lookup_ignores_case(
    s: StoreView,
    host: Seq<char>,
    e: CertEntryView,
    asked: Seq<char>,
)
    ensures
        lower(asked) == lower(host) ==> with_entry(s, host, e).entries.contains_key(lower(asked))
            && with_entry(s, host, e).entries[lower(asked)] == e,
        lower(asked) != lower(host) ==> (with_entry(s, host, e).entries.contains_key(lower(asked))
            <==> s.entries.contains_key(lower(asked))),
        !without_host(with_entry(s, host, e), asked).entries.contains_key(lower(asked)),
{
}

/// Law: what the node-wide chain gives depends on no file but the wanted ones.
pub proof fn law_node_chain_reads_only_wanted_files(
    s: SpecView,
    a: FileModel,
    b: FileModel,
    now: u64,
)
    requires
        s.chain is Node,
        agree(a, b, node_paths(s.route.hostname, s.server_cert_dir, s.server_default)),
    ensures
        resolved(s, a, now) == resolved(s, b, now),
{
    let p = node_paths(s.route.hostname, s.server_cert_dir, s.server_default);
    assert(p[0] == conv_cert(s.server_cert_dir, s.route.hostname));
    assert(p[1] == conv_key(s.server_cert_dir, s.route.hostname));
    if s.server_default is Some {
        assert(p[2] == (s.server_default->0).0);
        assert(p[3] == (s.server_default->0).1);
    }
}

/// Law: a host that was put into the store is taken out, in whatever case, with
/// its spec, and exactly it: what was put in comes back, the store then holds
/// one host less, a reload does not bring the host back, and taking it out once
/// more gives nothing.
pub proof fn law_removal_is_complete(
    s: StoreView,
    host: Seq<char>,
    spec: SpecView,
    e: CertEntryView,
    again: Seq<char>,
    other: Seq<char>,
    files: FileModel,
    now: u64,
)
    requires
        store_ok(s),
        lower(again) == lower(host),
    ensures
        ({
            let full = with_entry(with_spec(s, host, spec), host, e);
            let t = without_host(full, again);
            &&& full.entries.contains_key(lower(again)) && full.entries[lower(again)] == e
            &&& !t.entries.contains_key(lower(host))
            &&& !t.specs.contains_key(lower(host))
            &&& reloaded(t, host, files, now) == (
                t,
                Ok::<ReloadOutcome, CertErrorView>(ReloadOutcome::NoSpec),
            )
            &&& without_host(t, again) == t
            &&& t.entries.dom().len() == full.entries.dom().len() - 1
            &&& lower(other) != lower(host) ==> {
                &&& t.entries.contains_key(lower(other)) == full.entries.contains_key(lower(other))
                &&& t.specs.contains_key(lower(other)) == full.specs.contains_key(lower(other))
                &&& t.entries.contains_key(lower(other)) ==> t.entries[lower(other)]
                    == full.entries[lower(other)]
                &&& t.specs.contains_key(lower(other)) ==> t.specs[lower(other)]
                    == full.specs[lower(other)]
            }
        }),
{
    let full = with_entry(with_spec(s, host, spec), host, e);
    let t = without_host(full, again);
    lemma_by_lowercase(s.entries, host, e);
    assert(t.entries.dom() =~= full.entries.dom().remove(lower(again)));
    assert(without_host(t, again).entries =~= t.entries);
    assert(without_host(t, again).specs =~= t.specs);
}

/// Law: the two listings of a store agree, row by row; there is one row for
/// each host, in lowercase.
pub proof fn law_listings_agree(
    s: StoreView,
    l: Seq<(Seq<char>, OriginView)>,
    full: Seq<(Seq<char>, OriginView, u64)>,
)
    requires
        store_ok(s),
        is_listing(l, s),
        is_full_listing(full, s),
    ensures
        l == Seq::new(full.len(), |i: int| (full[i].0, full[i].1)),
        l.len() == s.entries.dom().len(),
        forall|i: int| 0 <= i < l.len() ==> lower((#[trigger] l[i]).0) == l[i].0,
{
    let a = Seq::new(l.len(), |i: int| l[i].0);
    let b = Seq::new(full.len(), |i: int| full[i].0);
    assert forall|k: Seq<char>| #[trigger] a.contains(k) <==> b.contains(k) by {
        assert(a.contains(k) <==> s.entries.contains_key(k));
        assert(b.contains(k) <==> s.entries.contains_key(k));
    }
    lemma_increasing_unique(a, b);
    lemma_increasing_len(a, s.entries);
    assert forall|i: int| 0 <= i < l.len() implies #[trigger] l[i] == (full[i].0, full[i].1) by {
        assert(a[i] == b[i]);
        assert(s.entries[l[i].0].origin == l[i].1);
        assert(s.entries[full[i].0].origin == full[i].1);
    }
    assert(l =~= Seq::new(full.len(), |i: int| (full[i].0, full[i].1)));
    assert forall|i: int| 0 <= i < l.len() implies lower((#[trigger] l[i]).0) == l[i].0 by {
        assert(a[i] == l[i].0);
        assert(a.contains(a[i]));
        assert(s.entries.contains_key(l[i].0));
    }
}

/// Law: a file that has gone missing takes no certificate out of service: the
/// host keeps the one it has, or gets one that is found in its place.
pub proof fn law_missing_file_keeps_the_host(
    s: StoreView,
    host: Seq<char>,
    files: FileModel,
    now: u64,
)
    requires
        s.entries.contains_key(lower(host)),
        file_missing(s.entries[lower(host)].origin, files),
    ensures
        ({
            let t = reloaded(s, host, files, now);
            &&& t.0.entries.contains_key(lower(host))
            &&& t.1 != Ok::<ReloadOutcome, CertErrorView>(ReloadOutcome::Replaced)
                ==> t.0.entries[lower(host)] == s.entries[lower(host)]
        }),
{
}

/// Law: a reload that fails changes nothing: the certificate that was served
/// stays in service.
pub proof fn law_failed_reload_keeps_the_old_entry(
    s: StoreView,
    host: Seq<char>,
    files: FileModel,
    now: u64,
)
    requires
        reloaded(s, host, files, now).1 is Err,
    ensures
        reloaded(s, host, files, now).0 == s,
{
}

/// Law: a reload touches no other host, and no spec.
pub proof fn law_reload_touches_one_host(
    s: StoreView,
    host: Seq<char>,
    other: Seq<char>,
    files: FileModel,
    now: u64,
)
    requires
        lower(other) != lower(host),
    ensures
        ({
            let t = reloaded(s, host, files, now).0;
            &&& t.specs == s.specs
            &&& t.entries.contains_key(lower(other)) == s.entries.contains_key(lower(other))
            &&& s.entries.contains_key(lower(other)) ==> t.entries[lower(other)]
                == s.entries[lower(other)]
        }),
{
}

/// Law: a host that the default certificate does not cover is never served with
/// it. Without files of its own in the convention directory it has no
/// certificate.
pub proof fn law_uncovered_host_is_cert_less(
    host: Seq<char>,
    ctx: ContextView,
    files: FileModel,
    now: u64,
)
    requires
        !default_covers(ctx, host),
    ensures
        node_cert(host, ctx, files, now) is Ok && node_cert(host, ctx, files, now)->Ok_0 is Some
            ==> node_cert(host, ctx, files, now)->Ok_0->0.origin is Convention,
        !(has_file(files, conv_cert(ctx.server_cert_dir, host)) && has_file(
            files,
            conv_key(ctx.server_cert_dir, host),
        )) ==> node_cert(host, ctx, files, now) == Ok::<Option<CertEntryView>, CertErrorView>(None),
{
}

/// Law: a default certificate that cannot be read or parsed is an error; it
/// makes no host lose its certificate.
pub proof fn law_broken_default_changes_nothing(
    store: StoreView,
    rule_name: Seq<char>,
    routes: Seq<RouteView>,
    server_cert_dir: Seq<char>,
    server_default: Option<(Seq<char>, Seq<char>)>,
    files: FileModel,
    now: u64,
)
    requires
        optional_names(server_default, files) is Err,
    ensures
        ({
            let s = load_outcome(
                store,
                rule_name,
                routes,
                server_cert_dir,
                server_default,
                files,
                now,
            );
            s.failed is Some && s.store == store
        }),
{
}

/// The spec that loading a route of a single rule records.
pub open spec fn rule_spec(
    route: RouteView,
    rule_name: Seq<char>,
    rule_dir: Option<Seq<char>>,
    server_cert_dir: Seq<char>,
    server_default: Option<(Seq<char>, Seq<char>)>,
) -> SpecView {
    SpecView {
        rule_name,
        route,
        chain: ChainView::Rule { cert_dir: rule_dir },
        server_cert_dir,
        server_default,
    }
}

/// The source of a route in a rule's chain is an ephemeral certificate.
pub open spec fn is_ephemeral(route: RouteView) -> bool {
    route.cert == Some(CertSourceView::Ephemeral)
}

/// The store after a route of a rule was loaded.
pub open spec fn with_rule_entry(
    s: StoreView,
    e: CertEntryView,
    r: RouteView,
    spec: SpecView,
) -> StoreView {
    with_entry(
        if is_ephemeral(r) {
            s
        } else {
            with_spec(s, r.hostname, spec)
        },
        r.hostname,
        e,
    )
}

/// The store after the first `n` routes of a rule were loaded one after the
/// other, with the given entries: each puts its entry there, and a reload spec
/// unless the certificate is ephemeral.
pub open spec fn rule_store(
    s: StoreView,
    entries: Seq<CertEntryView>,
    routes: Seq<RouteView>,
    rule_name: Seq<char>,
    rule_dir: Option<Seq<char>>,
    server_cert_dir: Seq<char>,
    server_default: Option<(Seq<char>, Seq<char>)>,
    n: int,
) -> StoreView
    decreases n,
{
    if n <= 0 {
        s
    } else {
        with_rule_entry(
            rule_store(
                s,
                entries,
                routes,
                rule_name,
                rule_dir,
                server_cert_dir,
                server_default,
                n - 1,
            ),
            entries[n - 1],
            routes[n - 1],
            rule_spec(routes[n - 1], rule_name, rule_dir, server_cert_dir, server_default),
        )
    }
}

/// `entries` are entries that a rule's chain gives for the first of `routes`.
pub open spec fn rule_entries_are(
    entries: Seq<CertEntryView>,
    routes: Seq<RouteView>,
    rule_name: Seq<char>,
    rule_dir: Option<Seq<char>>,
    server_cert_dir: Seq<char>,
    server_default: Option<(Seq<char>, Seq<char>)>,
    files: FileModel,
    now: u64,
) -> bool {
    entries.len() <= routes.len() && forall|i: int|
        0 <= i < entries.len() ==> rule_entry_is(
            #[trigger] entries[i],
            routes[i],
            rule_name,
            rule_dir,
            server_cert_dir,
            server_default,
            files,
            now,
        )
}

/// `t` is `s` after the first `n` routes of a rule were loaded.
pub open spec fn rule_loaded(
    s: StoreView,
    t: StoreView,
    routes: Seq<RouteView>,
    rule_name: Seq<char>,
    rule_dir: Option<Seq<char>>,
    server_cert_dir: Seq<char>,
    server_default: Option<(Seq<char>, Seq<char>)>,
    files: FileModel,
    now: u64,
    n: int,
) -> bool {
    exists|entries: Seq<CertEntryView>|
        entries.len() == n && #[trigger] rule_entries_are(
            entries,
            routes,
            rule_name,
            rule_dir,
            server_cert_dir,
            server_default,
            files,
            now,
        ) && t == rule_store(
            s,
            entries,
            routes,
            rule_name,
            rule_dir,
            server_cert_dir,
            server_default,
            n,
        )
}

/// More entries do not change what fewer routes leave.
proof fn lemma_rule_store_prefix(
    s: StoreView,
    entries: Seq<CertEntryView>,
    e: CertEntryView,
    routes: Seq<RouteView>,
    rule_name: Seq<char>,
    rule_dir: Option<Seq<char>>,
    server_cert_dir: Seq<char>,
    server_default: Option<(Seq<char>, Seq<char>)>,
    n: int,
)
    requires
        n <= entries.len(),
    ensures
        rule_store(
            s,
            entries.push(e),
            routes,
            rule_name,
            rule_dir,
            server_cert_dir,
            server_default,
            n,
        ) == rule_store(
            s,
            entries,
            routes,
            rule_name,
            rule_dir,
            server_cert_dir,
            server_default,
            n,
        ),
    decreases n,
{
    if n > 0 {
        lemma_rule_store_prefix(
            s,
            entries,
            e,
            routes,
            rule_name,
            rule_dir,
            server_cert_dir,
            server_default,
            n - 1,
        );
    }
}

/// `e` is an entry that a rule's chain gives for a route.
pub open spec fn rule_entry_is(
    e: CertEntryView,
    r: RouteView,
    rule_name: Seq<char>,
    rule_dir: Option<Seq<char>>,
    server_cert_dir: Seq<char>,
    server_default: Option<(Seq<char>, Seq<char>)>,
    files: FileModel,
    now: u64,
) -> bool {
    if is_ephemeral(r) {
        ascii(r.hostname) && e.origin is Ephemeral && e.loaded_at_unix_ms == now && ephemeral_pair(
            r.hostname,
            e.key,
        )
    } else {
        rule_cert(
            rule_source_of(r, rule_dir, server_cert_dir, server_default, files),
            rule_name,
            r.hostname,
            files,
            now,
        ) == Ok::<CertEntryView, CertErrorView>(e)
    }
}

/// The routes of a rule; none where the rule has no list.
pub open spec fn rule_routes(rule: Rule) -> Seq<RouteView> {
    match rule.routes {
        Some(v) => route_views(v@),
        None => Seq::empty(),
    }
}

/// `e` is the error of a route that a rule's chain does not serve.
pub open spec fn rule_error_is(
    e: CertErrorView,
    r: RouteView,
    rule_name: Seq<char>,
    rule_dir: Option<Seq<char>>,
    server_cert_dir: Seq<char>,
    server_default: Option<(Seq<char>, Seq<char>)>,
    files: FileModel,
    now: u64,
) -> bool {
    if is_ephemeral(r) {
        e is Ephemeral && e->Ephemeral_rule == rule_name && e->Ephemeral_route == r.hostname
            && ephemeral_refused(r.hostname, e->Ephemeral_detail)
    } else {
        rule_cert(
            rule_source_of(r, rule_dir, server_cert_dir, server_default, files),
            rule_name,
            r.hostname,
            files,
            now,
        ) == Err::<CertEntryView, CertErrorView>(e)
    }
}

/// Whether loading a rule, from `s` to `t`, gave what it should. The first
/// error ends it; what was loaded before stays.
pub open spec fn rule_load_done(
    s: StoreView,
    t: StoreView,
    r: Result<(), CertError>,
    rule: Rule,
    server_cert_dir: Seq<char>,
    server_default: Option<(Seq<char>, Seq<char>)>,
    files: FileModel,
    now: u64,
) -> bool {
    let routes = rule_routes(rule);
    let dir = opt_view(rule.cert_dir);
    match r {
        Ok(_) => rule_loaded(
            s,
            t,
            routes,
            rule.name@,
            dir,
            server_cert_dir,
            server_default,
            files,
            now,
            routes.len() as int,
        ),
        Err(e) => exists|i: int|
            0 <= i < routes.len() && rule_error_is(
                e@,
                #[trigger] routes[i],
                rule.name@,
                dir,
                server_cert_dir,
                server_default,
                files,
                now,
            ) && rule_loaded(
                s,
                t,
                routes,
                rule.name@,
                dir,
                server_cert_dir,
                server_default,
                files,
                now,
                i,
            ),
    }
}

/// Resolves every route of a rule through the rule's chain, stamped with the
/// clock, and puts the results into the store. Certificates from disk are
/// recorded for reload.
pub fn load_rule_into_store(
    rule: &Rule,
    store: &mut CertStore,
    server_cert_dir: &str,
    server_default: &Option<(String, String)>,
    files: &FileSet,
) -> (r: Result<(), CertError>)
    requires
        old(store).wf(),
        files.wf(),
        forall|i: int|
            0 <= i < rule_routes(*rule).len() ==> route_has_key(#[trigger] rule_routes(*rule)[i]),
    ensures
        final(store).wf(),
        exists|now: u64|
            rule_load_done(
                old(store)@,
                final(store)@,
                r,
                *rule,
                server_cert_dir@,
                pair_view(*server_default),
                files@,
                now,
            ),
{
    let now: u64 = now_unix_ms();
    load_rule_into_store_at(rule, store, server_cert_dir, server_default, files, now)
}

/// Resolves every route of a rule through the rule's chain at a given time,
/// and puts the results into the store. Certificates from disk are recorded
/// for reload.
pub fn load_rule_into_store_at(
    rule: &Rule,
    store: &mut CertStore,
    server_cert_dir: &str,
    server_default: &Option<(String, String)>,
    files: &FileSet,
    now: u64,
) -> (r: Result<(), CertError>)
    requires
        old(store).wf(),
        files.wf(),
        forall|i: int|
            0 <= i < rule_routes(*rule).len() ==> route_has_key(#[trigger] rule_routes(*rule)[i]),
    ensures
        final(store).wf(),
        rule_load_done(
            old(store)@,
            final(store)@,
            r,
            *rule,
            server_cert_dir@,
            pair_view(*server_default),
            files@,
            now,
        ),
{
    let routes = match &rule.routes {
        Some(v) => v,
        None => {
            assert(rule_entries_are(
                Seq::empty(),
                rule_routes(*rule),
                rule.name@,
                opt_view(rule.cert_dir),
                server_cert_dir@,
                pair_view(*server_default),
                files@,
                now,
            ));
            return Ok(());
        },
    };
    assert(route_views(routes@) == rule_routes(*rule));
    assert forall|j: int| 0 <= j < route_views(routes@).len() implies route_has_key(
        #[trigger] route_views(routes@)[j],
    ) by {
        assert(route_has_key(rule_routes(*rule)[j]));
    }
    let ctx = RuleContext {
        rule_name: rule.name.clone(),
        rule_cert_dir: clone_opt(&rule.cert_dir),
        server_cert_dir: server_cert_dir.to_owned(),
        server_default: clone_pair(server_default),
    };
    let ghost start = store@;
    let ghost all = route_views(routes@);
    let ghost dir = opt_view(rule.cert_dir);
    let ghost def = pair_view(*server_default);
    let ghost mut done: Seq<CertEntryView> = Seq::empty();
    let n: usize = routes.len();
    for i in 0..n
        invariant
            n == routes@.len(),
            files.wf(),
            store.wf(),
            all == route_views(routes@),
            all == rule_routes(*rule),
            forall|j: int| 0 <= j < all.len() ==> route_has_key(#[trigger] all[j]),
            dir == opt_view(rule.cert_dir),
            def == pair_view(*server_default),
            ctx.rule_name@ == rule.name@,
            opt_view(ctx.rule_cert_dir) == dir,
            ctx.server_cert_dir@ == server_cert_dir@,
            pair_view(ctx.server_default) == def,
            start == old(store)@,
            done.len() == i,
            rule_entries_are(done, all, rule.name@, dir, server_cert_dir@, def, files@, now),
            store@ == rule_store(
                start,
                done,
                all,
                rule.name@,
                dir,
                server_cert_dir@,
                def,
                i as int,
            ),
    {
        let ghost r = all[i as int];
        assert(r == routes@[i as int]@);
        let ghost mid = store@;
        match load_rule_route_cert_at(&routes[i], &ctx, files, now) {
            Err(e) => {
                assert(rule_loaded(
                    start,
                    store@,
                    all,
                    rule.name@,
                    dir,
                    server_cert_dir@,
                    def,
                    files@,
                    now,
                    i as int,
                ));
                assert(rule_error_is(
                    e@,
                    rule_routes(*rule)[i as int],
                    rule.name@,
                    dir,
                    server_cert_dir@,
                    def,
                    files@,
                    now,
                ));
                return Err(e);
            },
            Ok(entry) => {
                let ghost ev = entry@;
                let from_disk = match entry.origin {
                    CertOrigin::Ephemeral => false,
                    _ => true,
                };
                if from_disk {
                    let spec = ReloadSpec {
                        rule_name: rule.name.clone(),
                        route: routes[i].clone(),
                        chain: Chain::Rule { cert_dir: clone_opt(&rule.cert_dir) },
                        server_cert_dir: server_cert_dir.to_owned(),
                        server_default: clone_pair(server_default),
                    };
                    store.record_reload_spec(routes[i].hostname.as_str(), spec);
                }
                store.insert(routes[i].hostname.as_str(), entry);
                proof {
                    assert(rule_entry_is(
                        ev,
                        r,
                        rule.name@,
                        dir,
                        server_cert_dir@,
                        def,
                        files@,
                        now,
                    ));
                    assert(store@ == with_rule_entry(
                        mid,
                        ev,
                        r,
                        rule_spec(r, rule.name@, dir, server_cert_dir@, def),
                    ));
                    lemma_rule_store_prefix(
                        start,
                        done,
                        ev,
                        all,
                        rule.name@,
                        dir,
                        server_cert_dir@,
                        def,
                        i as int,
                    );
                    done = done.push(ev);
                }
            },
        }
    }
    Ok(())
}

/// Law: an entry misses a file exactly where one of the two files that it was
/// read from is not there; one that was not read from files misses none.
pub proof fn law_either_file_may_be_missing(cert: Seq<char>, key: Seq<char>, files: FileModel)
    ensures
        ({
            let gone = !has_file(files, cert) || !has_file(files, key);
            &&& file_missing(OriginView::Path { cert, key }, files) == gone
            &&& file_missing(OriginView::Convention { cert, key }, files) == gone
            &&& file_missing(OriginView::Default { cert, key }, files) == gone
            &&& file_missing(OriginView::Acme { cert, key }, files) == gone
            &&& !file_missing(OriginView::AcmePending { cert, key }, files)
            &&& !file_missing(OriginView::Ephemeral, files)
        }),
{
}

/// Law: a reload serves what it found, takes the host out of service where
/// nothing covers it any more although the old files are there, and reports a
/// missing file as an error of the host's rule.
pub proof fn law_reload_serves_what_it_finds(
    s: StoreView,
    host: Seq<char>,
    files: FileModel,
    now: u64,
)
    requires
        s.specs.contains_key(lower(host)),
    ensures
        ({
            let k = lower(host);
            let spec = s.specs[k];
            let found = resolved(spec, files, now);
            let t = reloaded(s, host, files, now);
            let gone = s.entries.contains_key(k) && file_missing(s.entries[k].origin, files);
            &&& found is Ok && found->Ok_0 is Some ==> t.1 == Ok::<ReloadOutcome, CertErrorView>(
                ReloadOutcome::Replaced,
            ) && t.0.entries.contains_key(k) && t.0.entries[k] == found->Ok_0->0
            &&& found is Ok && found->Ok_0 is None && gone ==> t.1 == Err::<
                ReloadOutcome,
                CertErrorView,
            >(CertErrorView::NoSource { rule: spec.rule_name, route: spec.route.hostname })
            &&& found is Ok && found->Ok_0 is None && !gone ==> t.1 == Ok::<
                ReloadOutcome,
                CertErrorView,
            >(ReloadOutcome::CertLess) && !t.0.entries.contains_key(k)
            &&& found is Err ==> t.1 == Err::<ReloadOutcome, CertErrorView>(found->Err_0)
            &&& t.0.specs == s.specs
        }),
{
}

/// Law: a host of which nothing is recorded is not reloaded.
pub proof fn law_unrecorded_host_is_not_reloaded(
    s: StoreView,
    host: Seq<char>,
    files: FileModel,
    now: u64,
)
    requires
        !s.specs.contains_key(lower(host)),
    ensures
        reloaded(s, host, files, now) == (
            s,
            Ok::<ReloadOutcome, CertErrorView>(ReloadOutcome::NoSpec),
        ),
{
}

/// Law: a reload with what a load recorded repeats the load: through the
/// node-wide chain with the names of the default certificate read anew, through
/// a rule's chain with the rule's own directory.
pub proof fn law_reload_repeats_the_load(
    route: RouteView,
    rule_name: Seq<char>,
    rule_dir: Option<Seq<char>>,
    server_cert_dir: Seq<char>,
    server_default: Option<(Seq<char>, Seq<char>)>,
    sans: Option<Seq<Seq<char>>>,
    files: FileModel,
    now: u64,
)
    ensures
        optional_names(server_default, files) == Ok::<Option<Seq<Seq<char>>>, CertErrorView>(sans)
            ==> ({
            let ctx = ContextView {
                rule_name,
                server_cert_dir,
                server_default,
                server_default_sans: sans,
            };
            resolved(node_spec(route, ctx), files, now) == node_cert(
                route.hostname,
                ctx,
                files,
                now,
            )
        }),
        ({
            let spec = rule_spec(route, rule_name, rule_dir, server_cert_dir, server_default);
            let source = rule_source_of(route, rule_dir, server_cert_dir, server_default, files);
            let loaded = rule_cert(source, rule_name, route.hostname, files, now);
            let again = resolved(spec, files, now);
            &&& loaded is Ok ==> again == Ok::<Option<CertEntryView>, CertErrorView>(
                Some(loaded->Ok_0),
            )
            &&& loaded is Err ==> again == Err::<Option<CertEntryView>, CertErrorView>(
                loaded->Err_0,
            )
        }),
{
}

/// Law: the names of the default certificate are read where there is one, and
/// an error in reading them is one of the default certificate.
pub proof fn law_default_names_are_read(
    cert: Seq<char>,
    key: Seq<char>,
    files: FileModel,
    source: Seq<char>,
)
    ensures
        optional_names(None, files) == Ok::<Option<Seq<Seq<char>>>, CertErrorView>(None),
        files.contains_key(cert) && files[cert].read == Err::<Seq<u8>, Seq<char>>(source)
            ==> optional_names(Some((cert, key)), files) == Err::<
            Option<Seq<Seq<char>>>,
            CertErrorView,
        >(
            CertErrorView::CertRead {
                rule: "<default>"@,
                route: "<default>"@,
                path: cert,
                source,
            },
        ),
        files.contains_key(cert) && files[cert].read is Ok ==> ({
            let names = leaf_names(cert, files[cert].read->Ok_0);
            let r = optional_names(Some((cert, key)), files);
            &&& names is Ok ==> r == Ok::<Option<Seq<Seq<char>>>, CertErrorView>(Some(names->Ok_0))
            &&& names is Err ==> r == Err::<Option<Seq<Seq<char>>>, CertErrorView>(names->Err_0)
        }),
{
}

/// Law: loading a list of routes puts the certificate that each host has into
/// the store, with what it takes to load it again, lists each host that has
/// none, and touches no other host. Where two routes have the same host, the
/// later one counts.
pub proof fn law_loaded_routes_are_in_the_store(
    store: StoreView,
    routes: Seq<RouteView>,
    ctx: ContextView,
    files: FileModel,
    now: u64,
    n: int,
    i: int,
    other: Seq<char>,
)
    requires
        0 <= n <= routes.len(),
        load_state(store, routes, ctx, files, now, n).failed is None,
    ensures
        ({
            let s = load_state(store, routes, ctx, files, now, n);
            &&& 0 <= i < n ==> {
                let k = lower(routes[i].hostname);
                let r = node_cert(routes[i].hostname, ctx, files, now);
                &&& r is Ok
                &&& r->Ok_0 is None ==> s.cert_less.contains(routes[i].hostname)
                &&& r->Ok_0 is Some && (forall|j: int|
                    i < j < n ==> lower((#[trigger] routes[j]).hostname) != k) ==> {
                    &&& s.store.entries.contains_key(k) && s.store.entries[k] == r->Ok_0->0
                    &&& s.store.specs.contains_key(k) && s.store.specs[k] == (SpecView {
                        rule_name: ctx.rule_name,
                        route: routes[i],
                        chain: ChainView::Node,
                        server_cert_dir: ctx.server_cert_dir,
                        server_default: ctx.server_default,
                    })
                }
            }
            &&& (forall|j: int| 0 <= j < n ==> lower((#[trigger] routes[j]).hostname) != other)
                ==> {
                &&& s.store.entries.contains_key(other) == store.entries.contains_key(other)
                &&& store.entries.contains_key(other) ==> s.store.entries[other]
                    == store.entries[other]
                &&& s.store.specs.contains_key(other) == store.specs.contains_key(other)
                &&& store.specs.contains_key(other) ==> s.store.specs[other] == store.specs[other]
            }
        }),
    decreases n,
{
    if n > 0 {
        law_loaded_routes_are_in_the_store(store, routes, ctx, files, now, n - 1, i, other);
        let before = load_state(store, routes, ctx, files, now, n - 1);
        let s = load_state(store, routes, ctx, files, now, n);
        let last = routes[n - 1];
        let r = node_cert(last.hostname, ctx, files, now);
        if r is Ok && r->Ok_0 is None {
            assert(s.cert_less == before.cert_less.push(last.hostname));
            assert(s.cert_less[before.cert_less.len() as int] == last.hostname);
        }
        if 0 <= i < n - 1 && before.cert_less.contains(routes[i].hostname) {
            let k = choose|k: int|
                0 <= k < before.cert_less.len() && before.cert_less[k] == routes[i].hostname;
            assert(s.cert_less[k] == routes[i].hostname);
        }
    }
}

/// Law: a load that failed did so at the first route whose certificate could
/// not be loaded, with the error of that route, and kept what came before it.
pub proof fn law_load_stops_at_the_first_error(
    store: StoreView,
    routes: Seq<RouteView>,
    ctx: ContextView,
    files: FileModel,
    now: u64,
    i: int,
    n: int,
)
    requires
        0 <= i < n <= routes.len(),
        forall|j: int|
            0 <= j < i ==> node_cert((#[trigger] routes[j]).hostname, ctx, files, now) is Ok,
        node_cert(routes[i].hostname, ctx, files, now) is Err,
    ensures
        load_state(store, routes, ctx, files, now, n).failed == Some(
            node_cert(routes[i].hostname, ctx, files, now)->Err_0,
        ),
        load_state(store, routes, ctx, files, now, n).store == load_state(
            store,
            routes,
            ctx,
            files,
            now,
            i,
        ).store,
        load_state(store, routes, ctx, files, now, i).failed is None,
    decreases n,
{
    lemma_load_succeeds(store, routes, ctx, files, now, i);
    lemma_load_stays_failed(store, routes, ctx, files, now, i + 1, n);
}

/// Loading does not fail as long as no route does.
proof fn lemma_load_succeeds(
    store: StoreView,
    routes: Seq<RouteView>,
    ctx: ContextView,
    files: FileModel,
    now: u64,
    n: int,
)
    requires
        0 <= n <= routes.len(),
        forall|j: int|
            0 <= j < n ==> node_cert((#[trigger] routes[j]).hostname, ctx, files, now) is Ok,
    ensures
        load_state(store, routes, ctx, files, now, n).failed is None,
    decreases n,
{
    if n > 0 {
        lemma_load_succeeds(store, routes, ctx, files, now, n - 1);
        let last = routes[n - 1];
        assert(node_cert(last.hostname, ctx, files, now) is Ok);
    }
}

/// Law: loading a rule puts the entry of each of its routes under the route's
/// host, and records how to load it again with the rule's own directory, unless
/// the certificate is ephemeral; no other host is touched. Where two routes
/// have the same host, the later one counts.
pub proof fn law_rule_routes_are_in_the_store(
    s: StoreView,
    entries: Seq<CertEntryView>,
    routes: Seq<RouteView>,
    rule_name: Seq<char>,
    rule_dir: Option<Seq<char>>,
    server_cert_dir: Seq<char>,
    server_default: Option<(Seq<char>, Seq<char>)>,
    n: int,
    i: int,
    other: Seq<char>,
)
    requires
        0 <= n <= routes.len(),
        entries.len() == n,
    ensures
        ({
            let t = rule_store(
                s,
                entries,
                routes,
                rule_name,
                rule_dir,
                server_cert_dir,
                server_default,
                n,
            );
            &&& 0 <= i < n && (forall|j: int|
                i < j < n ==> lower((#[trigger] routes[j]).hostname) != lower(routes[i].hostname))
                ==> {
                let k = lower(routes[i].hostname);
                &&& t.entries.contains_key(k) && t.entries[k] == entries[i]
                &&& routes[i].cert != Some(CertSourceView::Ephemeral) ==> t.specs.contains_key(k)
                    && t.specs[k] == (SpecView {
                    rule_name,
                    route: routes[i],
                    chain: ChainView::Rule { cert_dir: rule_dir },
                    server_cert_dir,
                    server_default,
                })
            }
            &&& (forall|j: int| 0 <= j < n ==> lower((#[trigger] routes[j]).hostname) != other)
                ==> {
                &&& t.entries.contains_key(other) == s.entries.contains_key(other)
                &&& s.entries.contains_key(other) ==> t.entries[other] == s.entries[other]
                &&& t.specs.contains_key(other) == s.specs.contains_key(other)
                &&& s.specs.contains_key(other) ==> t.specs[other] == s.specs[other]
            }
            &&& (forall|j: int|
                0 <= j < n && lower((#[trigger] routes[j]).hostname) == other ==> routes[j].cert
                    == Some(CertSourceView::Ephemeral)) ==> t.specs.contains_key(other)
                == s.specs.contains_key(other)
        }),
    decreases n,
{
    if n > 0 {
        let fewer = entries.drop_last();
        law_rule_routes_are_in_the_store(
            s,
            fewer,
            routes,
            rule_name,
            rule_dir,
            server_cert_dir,
            server_default,
            n - 1,
            i,
            other,
        );
        lemma_rule_store_prefix(
            s,
            fewer,
            entries.last(),
            routes,
            rule_name,
            rule_dir,
            server_cert_dir,
            server_default,
            n - 1,
        );
        assert(fewer.push(entries.last()) =~= entries);
        let last = routes[n - 1];
        assert(lower(last.hostname) == lower(routes[n - 1].hostname));
    }
}

/// Law: before a host is loaded, its own two files are looked at, and the two
/// of the default certificate where there is one.
pub proof fn law_files_that_are_looked_at(
    host: Seq<char>,
    dir: Seq<char>,
    cert: Seq<char>,
    key: Seq<char>,
)
    ensures
        node_paths(host, dir, None) == seq![conv_cert(dir, host), conv_key(dir, host)],
        node_paths(host, dir, Some((cert, key))) == seq![
            conv_cert(dir, host),
            conv_key(dir, host),
            cert,
            key,
        ],
{
    assert(node_paths(host, dir, Some((cert, key))) =~= seq![
        conv_cert(dir, host),
        conv_key(dir, host),
        cert,
        key,
    ]);
}

/// Law: a rule that was loaded is served with what its chain gives: under the
/// host of each route lies a certificate of the first source that applies to
/// the route, and for an ephemeral one a certificate that was made for the
/// host.
pub proof fn law_loaded_rule_is_served(
    s: StoreView,
    t: StoreView,
    r: Result<(), CertError>,
    rule: Rule,
    server_cert_dir: Seq<char>,
    server_default: Option<(Seq<char>, Seq<char>)>,
    files: FileModel,
    now: u64,
    i: int,
)
    requires
        rule_load_done(s, t, r, rule, server_cert_dir, server_default, files, now),
        r is Ok,
        rule.routes is Some,
        0 <= i < rule.routes->0@.len(),
        forall|j: int|
            i < j < rule.routes->0@.len() ==> lower((#[trigger] rule.routes->0@[j]).hostname@)
                != lower(rule.routes->0@[i].hostname@),
    ensures
        ({
            let route = rule.routes->0@[i]@;
            let k = lower(route.hostname);
            let e = t.entries[k];
            let source = rule_source_of(
                route,
                opt_view(rule.cert_dir),
                server_cert_dir,
                server_default,
                files,
            );
            &&& t.entries.contains_key(k)
            &&& e.loaded_at_unix_ms == now
            &&& source == Some(e.origin)
            &&& route.cert == Some(CertSourceView::Ephemeral) ==> e.origin is Ephemeral
                && ephemeral_pair(route.hostname, e.key)
            &&& route.cert != Some(CertSourceView::Ephemeral) ==> rule_cert(
                source,
                rule.name@,
                route.hostname,
                files,
                now,
            ) == Ok::<CertEntryView, CertErrorView>(e)
        }),
{
    let routes = rule_routes(rule);
    let dir = opt_view(rule.cert_dir);
    let n = routes.len() as int;
    let entries = choose|entries: Seq<CertEntryView>|
        entries.len() == n && #[trigger] rule_entries_are(
            entries,
            routes,
            rule.name@,
            dir,
            server_cert_dir,
            server_default,
            files,
            now,
        ) && t == rule_store(
            s,
            entries,
            routes,
            rule.name@,
            dir,
            server_cert_dir,
            server_default,
            n,
        );
    assert(routes[i] == rule.routes->0@[i]@);
    assert forall|j: int| i < j < n implies lower((#[trigger] routes[j]).hostname) != lower(
        routes[i].hostname,
    ) by {
        assert(routes[j] == rule.routes->0@[j]@);
    }
    law_rule_routes_are_in_the_store(
        s,
        entries,
        routes,
        rule.name@,
        dir,
        server_cert_dir,
        server_default,
        n,
        i,
        Seq::empty(),
    );
    assert(rule_entry_is(
        entries[i],
        routes[i],
        rule.name@,
        dir,
        server_cert_dir,
        server_default,
        files,
        now,
    ));
}

/// Law: a rule whose load failed did so at a route that its chain has no
/// certificate for, with the error of that route.
pub proof fn law_failed_rule_load_names_its_route(
    s: StoreView,
    t: StoreView,
    r: Result<(), CertError>,
    rule: Rule,
    server_cert_dir: Seq<char>,
    server_default: Option<(Seq<char>, Seq<char>)>,
    files: FileModel,
    now: u64,
)
    requires
        rule_load_done(s, t, r, rule, server_cert_dir, server_default, files, now),
        r is Err,
    ensures
        rule.routes is Some,
        exists|i: int|
            0 <= i < rule.routes->0@.len() && ({
                let route = (#[trigger] rule.routes->0@[i])@;
                if route.cert == Some(CertSourceView::Ephemeral) {
                    r->Err_0@ is Ephemeral && r->Err_0@->Ephemeral_route == route.hostname
                        && r->Err_0@->Ephemeral_rule == rule.name@
                } else {
                    rule_cert(
                        rule_source_of(
                            route,
                            opt_view(rule.cert_dir),
                            server_cert_dir,
                            server_default,
                            files,
                        ),
                        rule.name@,
                        route.hostname,
                        files,
                        now,
                    ) == Err::<CertEntryView, CertErrorView>(r->Err_0@)
                }
            }),
{
    let routes = rule_routes(rule);
    let i = choose|i: int|
        0 <= i < routes.len() && rule_error_is(
            r->Err_0@,
            #[trigger] routes[i],
            rule.name@,
            opt_view(rule.cert_dir),
            server_cert_dir,
            server_default,
            files,
            now,
        ) && rule_loaded(
            s,
            t,
            routes,
            rule.name@,
            opt_view(rule.cert_dir),
            server_cert_dir,
            server_default,
            files,
            now,
            i,
        );
    assert(routes[i] == rule.routes->0@[i]@);
}

/// Law: a reload reports what it did, and leaves the store as that says.
pub proof fn law_reload_reports_what_it_did(
    s: StoreView,
    t: StoreView,
    r: Result<ReloadOutcome, CertError>,
    host: Seq<char>,
    files: FileModel,
    now: u64,
)
    requires
        reload_is(s, t, r, host, files, now),
    ensures
        t.specs == s.specs,
        r is Err ==> t == s,
        r == Ok::<ReloadOutcome, CertError>(ReloadOutcome::NoSpec) <==> !s.specs.contains_key(
            lower(host),
        ),
        r == Ok::<ReloadOutcome, CertError>(ReloadOutcome::NoSpec) ==> t == s,
        r == Ok::<ReloadOutcome, CertError>(ReloadOutcome::CertLess) ==> !t.entries.contains_key(
            lower(host),
        ),
        r == Ok::<ReloadOutcome, CertError>(ReloadOutcome::Replaced) ==> t.entries.contains_key(
            lower(host),
        ) && resolved(s.specs[lower(host)], files, now) == Ok::<
            Option<CertEntryView>,
            CertErrorView,
        >(Some(t.entries[lower(host)])),
        r is Err && resolved(s.specs[lower(host)], files, now) is Err ==> r->Err_0@ == resolved(
            s.specs[lower(host)],
            files,
            now,
        )->Err_0,
{
}

/// Law: loading a list of routes gives the hosts without certificate where no
/// route failed, and the error otherwise; the store is as the load left it.
pub proof fn law_load_reports_what_it_did(
    s: StoreView,
    t: StoreView,
    r: Result<Vec<String>, CertError>,
    rule_name: Seq<char>,
    routes: Seq<RouteView>,
    dir: Seq<char>,
    server_default: Option<(Seq<char>, Seq<char>)>,
    files: FileModel,
    now: u64,
    sans: Option<Seq<Seq<char>>>,
)
    requires
        load_is(s, t, r, rule_name, routes, dir, server_default, files, now),
    ensures
        optional_names(server_default, files) is Err ==> t == s && r is Err && r->Err_0@
            == optional_names(server_default, files)->Err_0,
        optional_names(server_default, files) == Ok::<Option<Seq<Seq<char>>>, CertErrorView>(sans)
            ==> ({
            let ctx = ContextView {
                rule_name,
                server_cert_dir: dir,
                server_default,
                server_default_sans: sans,
            };
            let end = load_state(s, routes, ctx, files, now, routes.len() as int);
            &&& t == end.store
            &&& r is Ok <==> end.failed is None
            &&& r is Ok ==> texts(r->Ok_0@) == end.cert_less
            &&& r is Err ==> r->Err_0@ == end.failed->0
        }),
{
}

/// Law: a full listing has a row for each host with a certificate and for no
/// other, by increasing name, with the origin and the load time of that host's
/// certificate.
pub proof fn law_listing_shows_each_host(
    l: Seq<(Seq<char>, OriginView, u64)>,
    s: StoreView,
    i: int,
    k: Seq<char>,
)
    requires
        is_full_listing(l, s),
        0 <= i < l.len(),
    ensures
        s.entries.contains_key(l[i].0),
        l[i].1 == s.entries[l[i].0].origin,
        l[i].2 == s.entries[l[i].0].loaded_at_unix_ms,
        s.entries.contains_key(k) ==> exists|j: int| 0 <= j < l.len() && (#[trigger] l[j]).0 == k,
        i + 1 < l.len() ==> crate::text::text_lt(l[i].0, l[i + 1].0),
{
    let names = Seq::new(l.len(), |j: int| l[j].0);
    assert(names[i] == l[i].0);
    assert(names.contains(names[i]));
    if s.entries.contains_key(k) {
        assert(names.contains(k));
        let j = choose|j: int| 0 <= j < names.len() && names[j] == k;
        assert(l[j].0 == k);
    }
    if i + 1 < l.len() {
        assert(crate::text::text_lt(names[i], names[i + 1]));
    }
}

/// Law: whatever was loaded through the node-wide chain can be reloaded, and of
/// a rule's certificates all but the ephemeral ones.
pub proof fn law_files_can_be_reloaded(
    route: RouteView,
    ctx: ContextView,
    rule_name: Seq<char>,
    rule_dir: Option<Seq<char>>,
)
    ensures
        reloadable(node_spec(route, ctx)),
        route_has_key(route) ==> (reloadable(
            rule_spec(route, rule_name, rule_dir, ctx.server_cert_dir, ctx.server_default),
        ) <==> route.cert != Some(CertSourceView::Ephemeral)),
{
}

} // verus!
