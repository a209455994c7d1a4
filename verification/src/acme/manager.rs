//! The hosts whose certificates are managed, and what is known of each.

use vstd::prelude::*;
use vstd::string::*;

use crate::acme::error::{AcmeError, AcmeErrorView};
use crate::certs::origin::clone_opt;
use crate::strmap::{
    by_lowercase, increasing, lemma_by_lowercase, lemma_increasing_len, lemma_lowercase_without, StrMap,
};
use crate::text::{lemma_text_lt_irreflexive, lower, opt_view, text_lt, texts, to_lower};

verus! {

broadcast use vstd::string::group_string_axioms;

/// How a host proves its control of a name.
#[derive(Clone, Copy, Debug, PartialEq, Eq, Structural)]
pub enum AcmeChallenge {
    Http01,
    Dns01,
}

/// The name of a challenge.
pub open spec fn challenge_text(c: AcmeChallenge) -> Seq<char> {
    match c {
        AcmeChallenge::Http01 => "http01"@,
        AcmeChallenge::Dns01 => "dns01"@,
    }
}

impl AcmeChallenge {
    /// The name of the challenge.
    pub fn as_str(&self) -> (r: &'static str)
        ensures
            r@ == challenge_text(*self),
    {
        match self {
            AcmeChallenge::Http01 => "http01",
            AcmeChallenge::Dns01 => "dns01",
        }
    }
}

/// How one host is managed.
#[derive(Debug)]
pub struct AcmeRouteConfig {
    pub challenge: AcmeChallenge,
    pub provider: Option<String>,
}

impl Clone for AcmeRouteConfig {
    fn clone(&self) -> (r: Self)
        ensures
            r == *self,
    {
        AcmeRouteConfig { challenge: self.challenge, provider: clone_opt(&self.provider) }
    }
}

impl AcmeRouteConfig {
    /// A host that answers HTTP-01 challenges.
    pub fn http01() -> (r: Self)
        ensures
            r.challenge == AcmeChallenge::Http01,
            r.provider is None,
    {
        AcmeRouteConfig { challenge: AcmeChallenge::Http01, provider: None }
    }
}

/// How a host is doing.
#[derive(Clone, Copy, Debug, PartialEq, Eq, Structural)]
pub enum HostStatus {
    /// No certificate was issued yet.
    Pending,
    /// A certificate is on disk and in use.
    Active,
    /// The last attempt failed.
    Error,
}

/// The name of a status.
pub open spec fn status_text(s: HostStatus) -> Seq<char> {
    match s {
        HostStatus::Pending => "pending"@,
        HostStatus::Active => "active"@,
        HostStatus::Error => "error"@,
    }
}

impl HostStatus {
    /// The name of the status.
    pub fn as_str(&self) -> (r: &'static str)
        ensures
            r@ == status_text(*self),
    {
        match self {
            HostStatus::Pending => "pending",
            HostStatus::Active => "active",
            HostStatus::Error => "error",
        }
    }
}

/// What is known of a managed host.
#[derive(Debug)]
pub struct HostState {
    pub route_cfg: AcmeRouteConfig,
    pub state: HostStatus,
    pub last_error: Option<String>,
    pub next_renewal_unix: Option<u64>,
    pub not_after_unix: Option<u64>,
}

/// The model of a [`HostState`].
pub struct HostView {
    pub challenge: AcmeChallenge,
    pub provider: Option<Seq<char>>,
    pub state: HostStatus,
    pub last_error: Option<Seq<char>>,
    pub next_renewal_unix: Option<u64>,
    pub not_after_unix: Option<u64>,
}

impl View for HostState {
    type V = HostView;

    open spec fn view(&self) -> HostView {
        HostView {
            challenge: self.route_cfg.challenge,
            provider: opt_view(self.route_cfg.provider),
            state: self.state,
            last_error: opt_view(self.last_error),
            next_renewal_unix: self.next_renewal_unix,
            not_after_unix: self.not_after_unix,
        }
    }
}

/// A host that was just registered.
pub open spec fn fresh_host(challenge: AcmeChallenge, provider: Option<Seq<char>>) -> HostView {
    HostView {
        challenge,
        provider,
        state: HostStatus::Pending,
        last_error: None,
        next_renewal_unix: None,
        not_after_unix: None,
    }
}

/// The hosts after one was registered; one that is already there is left
/// alone.
pub open spec fn installed(
    m: Map<Seq<char>, HostView>,
    host: Seq<char>,
    fresh: HostView,
) -> Map<Seq<char>, HostView> {
    if m.contains_key(lower(host)) {
        m
    } else {
        m.insert(lower(host), fresh)
    }
}

/// What the registration of a host asks for.
#[derive(Clone, Copy, Debug, PartialEq, Eq, Structural)]
pub enum Registration {
    /// The host is new: start a renewer for it.
    Start,
    /// The host has a renewer, which stays in charge.
    Known,
}

/// What the registration of a host asks for.
pub open spec fn registration(m: Map<Seq<char>, HostView>, host: Seq<char>) -> Registration {
    if m.contains_key(lower(host)) {
        Registration::Known
    } else {
        Registration::Start
    }
}

/// What is shown of a managed host.
#[derive(Debug)]
pub struct AcmeHostInfo {
    pub hostname: String,
    pub challenge: &'static str,
    pub provider: Option<String>,
    pub state: &'static str,
    pub last_error: Option<String>,
    pub next_renewal_unix: Option<u64>,
    pub not_after_unix: Option<u64>,
}

/// The information shows what is known of a host.
pub open spec fn shows(i: AcmeHostInfo, h: HostView) -> bool {
    &&& i.challenge@ == challenge_text(h.challenge)
    &&& opt_view(i.provider) == h.provider
    &&& i.state@ == status_text(h.state)
    &&& opt_view(i.last_error) == h.last_error
    &&& i.next_renewal_unix == h.next_renewal_unix
    &&& i.not_after_unix == h.not_after_unix
}

/// A list shows exactly the hosts of a table, by increasing name.
pub open spec fn is_managed_list(l: Seq<AcmeHostInfo>, m: Map<Seq<char>, HostView>) -> bool {
    let names = Seq::new(l.len(), |i: int| l[i].hostname@);
    &&& increasing(names)
    &&& forall|k: Seq<char>| #[trigger] names.contains(k) <==> m.contains_key(k)
    &&& forall|i: int| 0 <= i < l.len() ==> shows(#[trigger] l[i], m[l[i].hostname@])
}

/// The managed hosts, by lowercase name.
pub struct HostTable {
    hosts: StrMap<HostState>,
}

impl View for HostTable {
    type V = Map<Seq<char>, HostView>;

    closed spec fn view(&self) -> Map<Seq<char>, HostView> {
        self.hosts@.map_values(|s: HostState| s@)
    }
}

impl HostTable {
    /// The table is in order.
    pub closed spec fn table_wf(&self) -> bool {
        self.hosts.wf()
    }

    /// The table is in order, and holds finitely many hosts, in lowercase.
    pub open spec fn wf(&self) -> bool {
        self.table_wf() && by_lowercase(self@)
    }

    /// No host.
    pub fn new() -> (r: Self)
        ensures
            r.wf(),
            r@ == Map::<Seq<char>, HostView>::empty(),
    {
        let r = HostTable { hosts: StrMap::new() };
        assert(r@ =~= Map::<Seq<char>, HostView>::empty());
        r
    }

    /// Registers a host. A host that is already registered is left alone, and
    /// the answer is no.
    pub fn install_host(&mut self, host: &str, route_cfg: &AcmeRouteConfig) -> (r: bool)
        requires
            old(self).wf(),
        ensures
            final(self).wf(),
            r == !old(self)@.contains_key(lower(host@)),
            final(self)@ == installed(
                old(self)@,
                host@,
                fresh_host(route_cfg.challenge, opt_view(route_cfg.provider)),
            ),
    {
        let k = to_lower(host);
        if self.hosts.contains(k.as_str()) {
            return false;
        }
        let ghost before = self@;
        let s = HostState {
            route_cfg: route_cfg.clone(),
            state: HostStatus::Pending,
            last_error: None,
            next_renewal_unix: None,
            not_after_unix: None,
        };
        let ghost v = s@;
        let _ = self.hosts.insert(k, s);
        assert(self@ =~= before.insert(lower(host@), v));
        proof {
            lemma_by_lowercase(before, host@, v);
        }
        true
    }

    /// Takes what is known of a host out, to be changed and put back.
    pub fn take_host(&mut self, host: &str) -> (r: Option<HostState>)
        requires
            old(self).wf(),
        ensures
            final(self).wf(),
            final(self)@ == old(self)@.remove(lower(host@)),
            r is Some <==> old(self)@.contains_key(lower(host@)),
            r is Some ==> r->0@ == old(self)@[lower(host@)],
    {
        let ghost before = self@;
        let k = to_lower(host);
        let r = self.hosts.remove(k.as_str());
        assert(self@ =~= before.remove(lower(host@)));
        proof {
            lemma_lowercase_without(before, host@);
        }
        r
    }

    /// Puts what is known of a host back.
    pub fn put_host(&mut self, host: &str, state: HostState)
        requires
            old(self).wf(),
        ensures
            final(self).wf(),
            final(self)@ == old(self)@.insert(lower(host@), state@),
    {
        let ghost before = self@;
        let ghost v = state@;
        let k = to_lower(host);
        let _ = self.hosts.insert(k, state);
        assert(self@ =~= before.insert(lower(host@), v));
        proof {
            lemma_by_lowercase(before, host@, v);
        }
    }

    /// Whether a host can be asked to renew at once; an error for a host that
    /// is not managed.
    pub fn check_managed(&self, host: &str) -> (r: Result<(), AcmeError>)
        requires
            self.wf(),
        ensures
            r is Ok <==> self@.contains_key(lower(host@)),
            r is Err ==> r->Err_0@ == (AcmeErrorView::Client {
                host: host@,
                detail: "no ACME-managed route declares this hostname"@,
            }),
    {
        let k = to_lower(host);
        if self.hosts.contains(k.as_str()) {
            Ok(())
        } else {
            Err(
                AcmeError::client(
                    host,
                    "no ACME-managed route declares this hostname".to_owned(),
                ),
            )
        }
    }

    /// Every managed host, by increasing name.
    pub fn list_managed(&self) -> (r: Vec<AcmeHostInfo>)
        requires
            self.wf(),
        ensures
            r@.len() == self@.dom().len(),
            is_managed_list(r@, self@),
    {
        let mut out: Vec<AcmeHostInfo> = Vec::new();
        let n: usize = self.hosts.len();
        let ghost ks = self.hosts.keys();
        proof {
            self.hosts.lemma_keys();
            assert(self@.dom() =~= self.hosts@.dom());
        }
        for i in 0..n
            invariant
                self.wf(),
                ks == self.hosts.keys(),
                n == ks.len(),
                out@.len() == i,
                forall|j: int| 0 <= j < i ==> (#[trigger] out@[j]).hostname@ == ks[j],
                forall|j: int|
                    0 <= j < i ==> self@.contains_key((#[trigger] out@[j]).hostname@) && shows(
                        out@[j],
                        self@[out@[j].hostname@],
                    ),
        {
            let s = self.hosts.value_at(i);
            let info = AcmeHostInfo {
                hostname: self.hosts.key_at(i).clone(),
                challenge: s.route_cfg.challenge.as_str(),
                provider: clone_opt(&s.route_cfg.provider),
                state: s.state.as_str(),
                last_error: clone_opt(&s.last_error),
                next_renewal_unix: s.next_renewal_unix,
                not_after_unix: s.not_after_unix,
            };
            out.push(info);
        }
        assert(Seq::new(out@.len(), |i: int| out@[i].hostname@) =~= ks);
        out
    }
}

/// The host, challenge and provider with which the wildcard certificate of a
/// domain is managed.
pub open spec fn wildcard_of(domain: Seq<char>, providers: Seq<Seq<char>>) -> Result<
    (Seq<char>, AcmeChallenge, Option<Seq<char>>),
    AcmeErrorView,
> {
    if providers.len() == 0 {
        Err(
            AcmeErrorView::Account {
                host: domain,
                detail: "no [acme.dns.<provider>] sub-table configured (validator gap)"@,
            },
        )
    } else {
        Ok((domain, AcmeChallenge::Dns01, Some(providers[0])))
    }
}

/// The host and configuration with which the wildcard certificate of a domain
/// is managed: DNS-01 with the first provider, by increasing name.
pub fn wildcard_config(domain: &str, provider_names: &Vec<String>) -> (r: Result<
    (String, AcmeRouteConfig),
    AcmeError,
>)
    ensures
        match wildcard_of(domain@, texts(provider_names@)) {
            Ok((host, challenge, provider)) => r is Ok && r->Ok_0.0@ == host
                && r->Ok_0.1.challenge == challenge && opt_view(r->Ok_0.1.provider) == provider,
            Err(e) => r is Err && r->Err_0@ == e,
        },
        provider_names@.len() == 0 ==> r is Err && r->Err_0@ == (AcmeErrorView::Account {
            host: domain@,
            detail: "no [acme.dns.<provider>] sub-table configured (validator gap)"@,
        }),
        provider_names@.len() > 0 ==> r is Ok && r->Ok_0.0@ == domain@ && r->Ok_0.1.challenge
            == AcmeChallenge::Dns01 && opt_view(r->Ok_0.1.provider) == Some(provider_names@[0]@),
{
    assert(texts(provider_names@).len() == provider_names@.len());
    if provider_names.len() == 0 {
        return Err(
            AcmeError::Account {
                host: domain.to_owned(),
                detail:
                    "no [acme.dns.<provider>] sub-table configured (validator gap)".to_owned(),
            },
        );
    }
    let cfg = AcmeRouteConfig {
        challenge: AcmeChallenge::Dns01,
        provider: Some(provider_names[0].clone()),
    };
    Ok((domain.to_owned(), cfg))
}

/// What became of a renewer that was asked to renew at once.
#[derive(Debug)]
pub enum KickOutcome {
    /// The renewer no longer listens.
    NotSent,
    /// The renewer dropped the question.
    NoReply,
    Reply(Result<(), AcmeError>),
}

/// What is reported of a renewal that was asked for.
pub open spec fn kick_report(host: Seq<char>, outcome: KickOutcome) -> Option<AcmeErrorView> {
    match outcome {
        KickOutcome::NotSent => Some(
            AcmeErrorView::Client { host, detail: "renewer task is no longer running"@ },
        ),
        KickOutcome::NoReply => Some(
            AcmeErrorView::Client { host, detail: "renewer task dropped the kick reply"@ },
        ),
        KickOutcome::Reply(Ok(_)) => None,
        KickOutcome::Reply(Err(e)) => Some(e@),
    }
}

/// What is reported of a renewal that was asked for.
pub fn kick_result(host: &str, outcome: KickOutcome) -> (r: Result<(), AcmeError>)
    ensures
        r is Ok <==> kick_report(host@, outcome) is None,
        r is Err ==> kick_report(host@, outcome) == Some(r->Err_0@),
        match outcome {
            KickOutcome::NotSent => r is Err && r->Err_0@ == (AcmeErrorView::Client {
                host: host@,
                detail: "renewer task is no longer running"@,
            }),
            KickOutcome::NoReply => r is Err && r->Err_0@ == (AcmeErrorView::Client {
                host: host@,
                detail: "renewer task dropped the kick reply"@,
            }),
            KickOutcome::Reply(x) => r == x,
        },
{
    match outcome {
        KickOutcome::NotSent => Err(
            AcmeError::client(host, "renewer task is no longer running".to_owned()),
        ),
        KickOutcome::NoReply => Err(
            AcmeError::client(host, "renewer task dropped the kick reply".to_owned()),
        ),
        KickOutcome::Reply(x) => x,
    }
}

/// Law: registering a host again, in whatever case and however configured,
/// changes nothing, whatever was learned of it meanwhile.
pub proof fn law_registration_is_idempotent(
    m: Map<Seq<char>, HostView>,
    host: Seq<char>,
    fresh: HostView,
    learned: HostView,
    again: Seq<char>,
    other: HostView,
)
    requires
        lower(again) == lower(host),
    ensures
        installed(installed(m, host, fresh), again, other) == installed(m, host, fresh),
        installed(m.insert(lower(host), learned), again, other) == m.insert(lower(host), learned),
{
}

/// Law: a host that is registered twice, in whatever case and however
/// configured, gets a renewer the first time only. It is listed once, as it was
/// registered first, in a list by increasing name that has one row more than
/// there were hosts before.
pub proof fn law_registered_host_is_listed_once(
    m: Map<Seq<char>, HostView>,
    host: Seq<char>,
    fresh: HostView,
    again: Seq<char>,
    other: HostView,
    l: Seq<AcmeHostInfo>,
)
    requires
        by_lowercase(m),
        !m.contains_key(lower(host)),
        lower(again) == lower(host),
        is_managed_list(l, installed(installed(m, host, fresh), again, other)),
    ensures
        registration(m, host) == Registration::Start,
        registration(installed(m, host, fresh), again) == Registration::Known,
        increasing(Seq::new(l.len(), |i: int| l[i].hostname@)),
        exists|i: int|
            0 <= i < l.len() && (#[trigger] l[i]).hostname@ == lower(host) && shows(l[i], fresh),
        forall|i: int, j: int|
            0 <= i < l.len() && 0 <= j < l.len() && (#[trigger] l[i]).hostname@ == lower(host) && (
            #[trigger] l[j]).hostname@ == lower(host) ==> i == j,
        l.len() == m.dom().len() + 1,
{
    let t = installed(installed(m, host, fresh), again, other);
    let names = Seq::new(l.len(), |i: int| l[i].hostname@);
    assert(t == m.insert(lower(host), fresh));
    assert(names.contains(lower(host)));
    let i = choose|i: int| 0 <= i < names.len() && names[i] == lower(host);
    assert(l[i].hostname@ == lower(host));
    assert(shows(l[i], t[l[i].hostname@]));
    assert forall|a: int, b: int|
        0 <= a < l.len() && 0 <= b < l.len() && (#[trigger] l[a]).hostname@ == lower(host) && (
        #[trigger] l[b]).hostname@ == lower(host) implies a == b by {
        lemma_text_lt_irreflexive(lower(host));
        if a < b {
            assert(text_lt(names[a], names[b]));
        } else if b < a {
            assert(text_lt(names[b], names[a]));
        }
    }
    lemma_increasing_len(names, t);
    assert(t.dom() =~= m.dom().insert(lower(host)));
}

/// Law: a host that is registered for the first time is pending, with the
/// challenge and provider it was registered with and nothing learned of it; no
/// other host is touched.
pub proof fn law_new_host_is_pending(
    m: Map<Seq<char>, HostView>,
    host: Seq<char>,
    challenge: AcmeChallenge,
    provider: Option<Seq<char>>,
    other: Seq<char>,
)
    requires
        !m.contains_key(lower(host)),
    ensures
        ({
            let t = installed(m, host, fresh_host(challenge, provider));
            let h = t[lower(host)];
            &&& t.contains_key(lower(host))
            &&& h.state == HostStatus::Pending && h.challenge == challenge && h.provider
                == provider
            &&& h.last_error is None && h.next_renewal_unix is None && h.not_after_unix is None
            &&& registration(m, host) == Registration::Start
            &&& lower(other) != lower(host) ==> t.contains_key(lower(other)) == m.contains_key(
                lower(other),
            ) && (m.contains_key(lower(other)) ==> t[lower(other)] == m[lower(other)])
        }),
{
}

/// Law: the wildcard certificate of a domain is managed under the domain's own
/// name, by DNS-01 with the first provider; without one it cannot be.
pub proof fn law_wildcard_takes_the_first_provider(
    domain: Seq<char>,
    first: Seq<char>,
    rest: Seq<Seq<char>>,
)
    ensures
        wildcard_of(domain, seq![first] + rest) == Ok::<
            (Seq<char>, AcmeChallenge, Option<Seq<char>>),
            AcmeErrorView,
        >((domain, AcmeChallenge::Dns01, Some(first))),
        wildcard_of(domain, Seq::empty()) is Err,
        wildcard_of(domain, Seq::empty())->Err_0 is Account,
        wildcard_of(domain, Seq::empty())->Err_0->Account_host == domain,
{
}

/// Law: the challenges and the states go by names that tell them apart.
pub proof fn law_names_tell_apart()
    ensures
        challenge_text(AcmeChallenge::Http01) == seq!['h', 't', 't', 'p', '0', '1'],
        challenge_text(AcmeChallenge::Dns01) == seq!['d', 'n', 's', '0', '1'],
        status_text(HostStatus::Pending) == seq!['p', 'e', 'n', 'd', 'i', 'n', 'g'],
        status_text(HostStatus::Active) == seq!['a', 'c', 't', 'i', 'v', 'e'],
        status_text(HostStatus::Error) == seq!['e', 'r', 'r', 'o', 'r'],
{
    reveal_strlit("http01");
    reveal_strlit("dns01");
    reveal_strlit("pending");
    reveal_strlit("active");
    reveal_strlit("error");
    assert("http01"@ =~= seq!['h', 't', 't', 'p', '0', '1']);
    assert("dns01"@ =~= seq!['d', 'n', 's', '0', '1']);
    assert("pending"@ =~= seq!['p', 'e', 'n', 'd', 'i', 'n', 'g']);
    assert("active"@ =~= seq!['a', 'c', 't', 'i', 'v', 'e']);
    assert("error"@ =~= seq!['e', 'r', 'r', 'o', 'r']);
}

/// Law: a list of managed hosts has a row for each host and for no other, and
/// the row shows what is known of the host: how it proves itself, how it does,
/// what went wrong, and when it expires and is renewed.
pub proof fn law_list_shows_what_is_known(
    l: Seq<AcmeHostInfo>,
    m: Map<Seq<char>, HostView>,
    i: int,
    k: Seq<char>,
)
    requires
        is_managed_list(l, m),
        0 <= i < l.len(),
    ensures
        ({
            let h = m[l[i].hostname@];
            &&& m.contains_key(l[i].hostname@)
            &&& l[i].challenge@ == (if h.challenge == AcmeChallenge::Http01 {
                "http01"@
            } else {
                "dns01"@
            })
            &&& l[i].state@ == (if h.state == HostStatus::Active {
                "active"@
            } else if h.state == HostStatus::Error {
                "error"@
            } else {
                "pending"@
            })
            &&& opt_view(l[i].provider) == h.provider
            &&& opt_view(l[i].last_error) == h.last_error
            &&& l[i].next_renewal_unix == h.next_renewal_unix
            &&& l[i].not_after_unix == h.not_after_unix
        }),
        m.contains_key(k) ==> exists|j: int| 0 <= j < l.len() && (#[trigger] l[j]).hostname@ == k,
        i + 1 < l.len() ==> text_lt(l[i].hostname@, l[i + 1].hostname@),
{
    let names = Seq::new(l.len(), |j: int| l[j].hostname@);
    assert(names[i] == l[i].hostname@);
    assert(names.contains(names[i]));
    if m.contains_key(k) {
        assert(names.contains(k));
        let j = choose|j: int| 0 <= j < names.len() && names[j] == k;
        assert(l[j].hostname@ == k);
    }
    if i + 1 < l.len() {
        assert(text_lt(names[i], names[i + 1]));
    }
}

/// Law: a renewal that was asked for is reported as the renewer reports it, and
/// as an error of the host where the renewer does not hear or does not answer.
pub proof fn law_renewal_is_reported(host: Seq<char>, e: AcmeError)
    ensures
        kick_report(host, KickOutcome::Reply(Ok(()))) is None,
        kick_report(host, KickOutcome::Reply(Err(e))) == Some(e@),
        kick_report(host, KickOutcome::NotSent) is Some,
        kick_report(host, KickOutcome::NotSent)->0 is Client,
        kick_report(host, KickOutcome::NotSent)->0->Client_host == host,
        kick_report(host, KickOutcome::NoReply) is Some,
        kick_report(host, KickOutcome::NoReply)->0 is Client,
        kick_report(host, KickOutcome::NoReply)->0->Client_host == host,
{
}

} // verus!
