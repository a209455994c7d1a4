//! Issuance of one certificate over ACME with DNS-01.
//!
//! [`Issuance`] walks one order from the account to the certificate. It says
//! what to do, and is told what came of it. Every challenge record is placed
//! and visible before the first challenge is declared ready. Once validation has
//! an outcome, good or bad, and wherever a step before it fails, every record
//! that was placed is removed before anything else happens.

use rcgen::{CertificateParams, DistinguishedName, DnType, KeyPair};
use vstd::prelude::*;
use vstd::string::*;

use crate::acme::dns01::{challenge_fqdn, challenge_name};
use crate::acme::error::{AcmeError, AcmeErrorView};
use crate::acme::provider::{HandleView, ProviderRegistry, TxtHandle};
use crate::path::{debug_text, quoted};
use crate::text::{ascii, join2, texts};

verus! {

broadcast use vstd::string::group_string_axioms;

/// Pause between two looks at an order, in milliseconds.
pub const ORDER_POLL_INTERVAL_MS: u64 = 2_000;

/// How long to wait for an order, in milliseconds.
pub const ORDER_POLL_DEADLINE_MS: u64 = 120_000;

/// A certificate chain and its private key, both as PEM.
#[derive(Debug)]
pub struct IssuedCert {
    pub fullchain_pem: Vec<u8>,
    pub privkey_pem: Vec<u8>,
}

/// The model of an [`IssuedCert`].
pub struct IssuedView {
    pub fullchain_pem: Seq<u8>,
    pub privkey_pem: Seq<u8>,
}

impl View for IssuedCert {
    type V = IssuedView;

    open spec fn view(&self) -> IssuedView {
        IssuedView { fullchain_pem: self.fullchain_pem@, privkey_pem: self.privkey_pem@ }
    }
}

/// A challenge that the authority offers.
#[derive(Debug)]
pub struct Challenge {
    /// Whether it is a DNS-01 challenge.
    pub dns01: bool,
    pub url: String,
    /// The value of the TXT record that answers it.
    pub dns_value: String,
}

/// An authorization that the order needs.
#[derive(Debug)]
pub struct Authorization {
    pub host: String,
    pub challenges: Vec<Challenge>,
}

/// The model of a [`Challenge`].
pub struct ChallengeView {
    pub dns01: bool,
    pub url: Seq<char>,
    pub dns_value: Seq<char>,
}

/// The model of an [`Authorization`].
pub struct AuthView {
    pub host: Seq<char>,
    pub challenges: Seq<ChallengeView>,
}

impl View for Challenge {
    type V = ChallengeView;

    open spec fn view(&self) -> ChallengeView {
        ChallengeView { dns01: self.dns01, url: self.url@, dns_value: self.dns_value@ }
    }
}

impl View for Authorization {
    type V = AuthView;

    open spec fn view(&self) -> AuthView {
        AuthView {
            host: self.host@,
            challenges: Seq::new(self.challenges@.len(), |i: int| self.challenges@[i]@),
        }
    }
}

/// Views of a list of authorizations.
pub open spec fn auth_views(v: Seq<Authorization>) -> Seq<AuthView> {
    Seq::new(v.len(), |i: int| v[i]@)
}

/// Views of a list of handles.
pub open spec fn handle_views(v: Seq<TxtHandle>) -> Seq<HandleView> {
    Seq::new(v.len(), |i: int| v[i]@)
}

/// State of an order at the authority.
#[derive(Clone, Copy, Debug, PartialEq, Eq, Structural)]
pub enum OrderState {
    Pending,
    Ready,
    Processing,
    Valid,
    Invalid,
}

/// Which part of a signing request could not be made.
#[derive(Clone, Copy, Debug, PartialEq, Eq, Structural)]
pub enum CsrStage {
    Params,
    KeyPair,
    Serialize,
}

/// Where an issuance stands.
#[derive(Debug)]
pub enum Phase {
    Account,
    Order,
    Authorizations,
    /// Placing the record of this authorization.
    Place(usize),
    /// Waiting for the record of this authorization to become visible.
    Propagate(usize),
    /// Declaring this challenge ready.
    Ready(usize),
    /// Asking for the state of the order.
    Poll,
    /// Pausing before the next question.
    PollPause,
    /// Removing this record; the error to end with, if any, is kept.
    Teardown(usize, Option<AcmeError>),
    Csr,
    /// Submitting the signing request; this is the key.
    Finalize(Vec<u8>),
    /// Asking for the certificate; this is the key.
    Fetch(Vec<u8>),
    /// Pausing before the next question; this is the key.
    FetchPause(Vec<u8>),
    Finished,
}

/// The model of a [`Phase`].
pub enum PhaseView {
    Account,
    Order,
    Authorizations,
    Place(int),
    Propagate(int),
    Ready(int),
    Poll,
    PollPause,
    Teardown(int, Option<AcmeErrorView>),
    Csr,
    Finalize(Seq<u8>),
    Fetch(Seq<u8>),
    FetchPause(Seq<u8>),
    Finished,
}

/// View of an optional error.
pub open spec fn opt_error(e: Option<AcmeError>) -> Option<AcmeErrorView> {
    match e {
        Some(e) => Some(e@),
        None => None,
    }
}

impl View for Phase {
    type V = PhaseView;

    open spec fn view(&self) -> PhaseView {
        match self {
            Phase::Account => PhaseView::Account,
            Phase::Order => PhaseView::Order,
            Phase::Authorizations => PhaseView::Authorizations,
            Phase::Place(i) => PhaseView::Place(*i as int),
            Phase::Propagate(i) => PhaseView::Propagate(*i as int),
            Phase::Ready(i) => PhaseView::Ready(*i as int),
            Phase::Poll => PhaseView::Poll,
            Phase::PollPause => PhaseView::PollPause,
            Phase::Teardown(i, e) => PhaseView::Teardown(*i as int, opt_error(*e)),
            Phase::Csr => PhaseView::Csr,
            Phase::Finalize(k) => PhaseView::Finalize(k@),
            Phase::Fetch(k) => PhaseView::Fetch(k@),
            Phase::FetchPause(k) => PhaseView::FetchPause(k@),
            Phase::Finished => PhaseView::Finished,
        }
    }
}

/// What came of the last action.
#[derive(Debug)]
pub enum IssueEvent {
    /// The action succeeded.
    Done,
    /// The action failed, with the message of the directory client.
    Failed(String),
    /// The action failed, with an error of its own.
    Error(AcmeError),
    /// The authorizations of the order.
    Authorizations(Vec<Authorization>),
    /// The record was placed.
    Placed(TxtHandle),
    /// The state of the order.
    State(OrderState),
    /// The pause is over; so long after polling began, in milliseconds.
    Woke(u64),
    /// The signing request as DER, and its private key as PEM.
    Csr(Vec<u8>, Vec<u8>),
    /// The signing request could not be made.
    CsrFailed(CsrStage, String),
    /// The certificate chain, if it is there yet.
    Certificate(Option<Vec<u8>>),
}

/// The model of an [`IssueEvent`].
pub enum EventView {
    Done,
    Failed(Seq<char>),
    Error(AcmeErrorView),
    Authorizations(Seq<AuthView>),
    Placed(HandleView),
    State(OrderState),
    Woke(u64),
    Csr(Seq<u8>, Seq<u8>),
    CsrFailed(CsrStage, Seq<char>),
    Certificate(Option<Seq<u8>>),
}

impl View for IssueEvent {
    type V = EventView;

    open spec fn view(&self) -> EventView {
        match self {
            IssueEvent::Done => EventView::Done,
            IssueEvent::Failed(s) => EventView::Failed(s@),
            IssueEvent::Error(e) => EventView::Error(e@),
            IssueEvent::Authorizations(v) => EventView::Authorizations(auth_views(v@)),
            IssueEvent::Placed(h) => EventView::Placed(h@),
            IssueEvent::State(s) => EventView::State(*s),
            IssueEvent::Woke(t) => EventView::Woke(*t),
            IssueEvent::Csr(a, b) => EventView::Csr(a@, b@),
            IssueEvent::CsrFailed(s, m) => EventView::CsrFailed(*s, m@),
            IssueEvent::Certificate(c) => EventView::Certificate(
                match c {
                    Some(b) => Some(b@),
                    None => None,
                },
            ),
        }
    }
}

/// What to do next.
#[derive(Debug)]
pub enum IssueAction {
    /// Load the account, or register one.
    LoadAccount,
    /// Submit an order for these names.
    NewOrder(Vec<String>),
    /// Fetch the authorizations of the order.
    FetchAuthorizations,
    /// Place a TXT record.
    PlaceTxt { fqdn: String, value: String },
    /// Wait until the TXT record is visible.
    AwaitPropagation { fqdn: String, value: String },
    /// Declare the challenge at this URL ready.
    SetReady(String),
    /// Ask for the state of the order.
    Refresh,
    /// Pause for this many milliseconds.
    Sleep(u64),
    /// Remove a TXT record. A failure is logged and otherwise ignored.
    RemoveTxt(TxtHandle),
    /// Make a signing request for these names; the first is the common name.
    BuildCsr(Vec<String>),
    /// Submit the signing request.
    Finalize(Vec<u8>),
    /// Ask for the certificate.
    FetchCertificate,
    /// The issuance is over.
    Finish(Result<IssuedCert, AcmeError>),
}

/// The model of an [`IssueAction`].
pub enum ActionView {
    LoadAccount,
    NewOrder(Seq<Seq<char>>),
    FetchAuthorizations,
    PlaceTxt { fqdn: Seq<char>, value: Seq<char> },
    AwaitPropagation { fqdn: Seq<char>, value: Seq<char> },
    SetReady(Seq<char>),
    Refresh,
    Sleep(u64),
    RemoveTxt(HandleView),
    BuildCsr(Seq<Seq<char>>),
    Finalize(Seq<u8>),
    FetchCertificate,
    Finish(Result<IssuedView, AcmeErrorView>),
}

impl View for IssueAction {
    type V = ActionView;

    open spec fn view(&self) -> ActionView {
        match self {
            IssueAction::LoadAccount => ActionView::LoadAccount,
            IssueAction::NewOrder(v) => ActionView::NewOrder(texts(v@)),
            IssueAction::FetchAuthorizations => ActionView::FetchAuthorizations,
            IssueAction::PlaceTxt { fqdn, value } => ActionView::PlaceTxt {
                fqdn: fqdn@,
                value: value@,
            },
            IssueAction::AwaitPropagation { fqdn, value } => ActionView::AwaitPropagation {
                fqdn: fqdn@,
                value: value@,
            },
            IssueAction::SetReady(u) => ActionView::SetReady(u@),
            IssueAction::Refresh => ActionView::Refresh,
            IssueAction::Sleep(t) => ActionView::Sleep(*t),
            IssueAction::RemoveTxt(h) => ActionView::RemoveTxt(h@),
            IssueAction::BuildCsr(v) => ActionView::BuildCsr(texts(v@)),
            IssueAction::Finalize(b) => ActionView::Finalize(b@),
            IssueAction::FetchCertificate => ActionView::FetchCertificate,
            IssueAction::Finish(r) => ActionView::Finish(
                match r {
                    Ok(c) => Ok(c@),
                    Err(e) => Err(e@),
                },
            ),
        }
    }
}

/// The issuance of one certificate.
#[derive(Debug)]
pub struct Issuance {
    pub host: String,
    pub extra_sans: Vec<String>,
    pub provider: String,
    /// Whether the provider is registered.
    pub provider_known: bool,
    pub authorizations: Vec<Authorization>,
    /// The records that were placed.
    pub handles: Vec<TxtHandle>,
    /// The challenges that the visible ones of those records answer.
    pub urls: Vec<String>,
    pub phase: Phase,
}

/// The model of an [`Issuance`].
pub struct IssueView {
    pub host: Seq<char>,
    pub extra_sans: Seq<Seq<char>>,
    pub provider: Seq<char>,
    pub provider_known: bool,
    pub authorizations: Seq<AuthView>,
    pub handles: Seq<HandleView>,
    pub urls: Seq<Seq<char>>,
    pub phase: PhaseView,
}

impl View for Issuance {
    type V = IssueView;

    open spec fn view(&self) -> IssueView {
        IssueView {
            host: self.host@,
            extra_sans: texts(self.extra_sans@),
            provider: self.provider@,
            provider_known: self.provider_known,
            authorizations: auth_views(self.authorizations@),
            handles: handle_views(self.handles@),
            urls: texts(self.urls@),
            phase: self.phase@,
        }
    }
}

/// A step: where the issuance stands then, and what to do.
pub type IssueStep = (IssueView, ActionView);

/// The names of the order and of the signing request.
pub open spec fn order_names(s: IssueView) -> Seq<Seq<char>> {
    seq![s.host] + s.extra_sans
}

/// The issuance ends with an error.
pub open spec fn fail(s: IssueView, e: AcmeErrorView) -> IssueStep {
    (IssueView { phase: PhaseView::Finished, ..s }, ActionView::Finish(Err(e)))
}

/// The issuance ends with a directory client error.
pub open spec fn fail_client(s: IssueView, detail: Seq<char>) -> IssueStep {
    fail(s, AcmeErrorView::Client { host: s.host, detail })
}

/// Remove record `i`, or go on once all are removed: to the signing request
/// after a good outcome, to the end after a bad one.
pub open spec fn teardown_step(s: IssueView, i: int, failed: Option<AcmeErrorView>) -> IssueStep {
    if i < s.handles.len() {
        (
            IssueView { phase: PhaseView::Teardown(i, failed), ..s },
            ActionView::RemoveTxt(s.handles[i]),
        )
    } else {
        match failed {
            Some(e) => fail(s, e),
            None => (
                IssueView { phase: PhaseView::Csr, ..s },
                ActionView::BuildCsr(order_names(s)),
            ),
        }
    }
}

/// The issuance stops with an error, after every record is removed.
pub open spec fn stop(s: IssueView, e: AcmeErrorView) -> IssueStep {
    teardown_step(s, 0, Some(e))
}

/// The issuance stops with a directory client error, after every record is
/// removed.
pub open spec fn stop_client(s: IssueView, detail: Seq<char>) -> IssueStep {
    stop(s, AcmeErrorView::Client { host: s.host, detail })
}

/// The records have been removed by then.
pub open spec fn records_gone(p: PhaseView) -> bool {
    p is Csr || p is Finalize || p is Fetch || p is FetchPause || p is Finished
}

/// Position of the first DNS-01 challenge; the length where there is none.
pub open spec fn dns01_pos(c: Seq<ChallengeView>) -> int
    decreases c.len(),
{
    if c.len() == 0 || c[0].dns01 {
        0
    } else {
        1 + dns01_pos(c.drop_first())
    }
}

/// The DNS-01 challenge of an authorization.
pub open spec fn dns01_challenge(a: AuthView) -> Option<ChallengeView> {
    if dns01_pos(a.challenges) < a.challenges.len() {
        Some(a.challenges[dns01_pos(a.challenges)])
    } else {
        None
    }
}

/// Declare challenge `i` ready, or ask for the state once all are.
pub open spec fn ready_step(s: IssueView, i: int) -> IssueStep {
    if i < s.urls.len() {
        (IssueView { phase: PhaseView::Ready(i), ..s }, ActionView::SetReady(s.urls[i]))
    } else {
        (IssueView { phase: PhaseView::Poll, ..s }, ActionView::Refresh)
    }
}

/// Place the record of authorization `i`, or go on once all are placed.
pub open spec fn place_step(s: IssueView, i: int) -> IssueStep {
    if i >= s.authorizations.len() {
        ready_step(s, 0)
    } else {
        let a = s.authorizations[i];
        match dns01_challenge(a) {
            None => stop_client(
                s,
                "authorization for "@ + debug_text(a.host) + " has no matching Dns01 challenge"@,
            ),
            Some(c) => if !s.provider_known {
                stop(s, AcmeErrorView::UnknownProvider { host: s.host, provider: s.provider })
            } else {
                (
                    IssueView { phase: PhaseView::Place(i), ..s },
                    ActionView::PlaceTxt { fqdn: challenge_name(a.host), value: c.dns_value },
                )
            },
        }
    }
}

/// The prefix of the message of a signing request that could not be made.
pub open spec fn csr_stage_text(stage: CsrStage) -> Seq<char> {
    match stage {
        CsrStage::Params => "CertificateParams::new: "@,
        CsrStage::KeyPair => "KeyPair::generate: "@,
        CsrStage::Serialize => "serialize_request: "@,
    }
}

/// A directory client error.
pub open spec fn client_error(s: IssueView, detail: Seq<char>) -> AcmeErrorView {
    AcmeErrorView::Client { host: s.host, detail }
}

/// What follows an event. An event that does not belong to the phase stops the
/// issuance with an error. While records are removed, any event reports the end
/// of one removal.
pub open spec fn issue_step(s: IssueView, event: EventView) -> IssueStep {
    match (s.phase, event) {
        (PhaseView::Account, EventView::Done) => (
            IssueView { phase: PhaseView::Order, ..s },
            ActionView::NewOrder(order_names(s)),
        ),
        (PhaseView::Account, EventView::Error(e)) => fail(s, e),
        (PhaseView::Order, EventView::Done) => (
            IssueView { phase: PhaseView::Authorizations, ..s },
            ActionView::FetchAuthorizations,
        ),
        (PhaseView::Order, EventView::Failed(m)) => fail_client(s, "new_order: "@ + m),
        (PhaseView::Authorizations, EventView::Authorizations(v)) => place_step(
            IssueView { authorizations: v, handles: Seq::empty(), urls: Seq::empty(), ..s },
            0,
        ),
        (PhaseView::Authorizations, EventView::Failed(m)) => fail_client(
            s,
            "order.authorizations: "@ + m,
        ),
        (PhaseView::Place(i), EventView::Placed(h)) => {
            let t = IssueView { handles: s.handles.push(h), ..s };
            if 0 <= i < s.authorizations.len() && dns01_challenge(s.authorizations[i]) is Some {
                (
                    IssueView { phase: PhaseView::Propagate(i), ..t },
                    ActionView::AwaitPropagation {
                        fqdn: challenge_name(s.authorizations[i].host),
                        value: dns01_challenge(s.authorizations[i])->0.dns_value,
                    },
                )
            } else {
                stop_client(t, "unexpected event"@)
            }
        },
        (PhaseView::Place(_), EventView::Error(e)) => stop(s, e),
        (PhaseView::Propagate(i), EventView::Done) => if 0 <= i < s.authorizations.len()
            && dns01_challenge(s.authorizations[i]) is Some {
            place_step(
                IssueView {
                    urls: s.urls.push(dns01_challenge(s.authorizations[i])->0.url),
                    ..s
                },
                i + 1,
            )
        } else {
            stop_client(s, "unexpected event"@)
        },
        (PhaseView::Propagate(_), EventView::Error(e)) => stop(s, e),
        (PhaseView::Ready(i), EventView::Done) => ready_step(s, i + 1),
        (PhaseView::Ready(i), EventView::Failed(m)) => if 0 <= i < s.urls.len() {
            stop_client(s, "set_challenge_ready "@ + s.urls[i] + ": "@ + m)
        } else {
            stop_client(s, "unexpected event"@)
        },
        (PhaseView::Poll, EventView::State(state)) => match state {
            OrderState::Pending | OrderState::Processing => (
                IssueView { phase: PhaseView::PollPause, ..s },
                ActionView::Sleep(ORDER_POLL_INTERVAL_MS),
            ),
            OrderState::Ready | OrderState::Valid => teardown_step(s, 0, None),
            OrderState::Invalid => teardown_step(
                s,
                0,
                Some(client_error(s, "order entered Invalid state during validation"@)),
            ),
        },
        (PhaseView::Poll, EventView::Failed(m)) => stop_client(s, "order.refresh: "@ + m),
        (PhaseView::PollPause, EventView::Woke(elapsed)) => if elapsed > ORDER_POLL_DEADLINE_MS {
            teardown_step(
                s,
                0,
                Some(client_error(s, "order did not reach Ready within 120s"@)),
            )
        } else {
            (IssueView { phase: PhaseView::Poll, ..s }, ActionView::Refresh)
        },
        (PhaseView::Teardown(i, failed), _) => teardown_step(s, i + 1, failed),
        (PhaseView::Csr, EventView::Csr(csr, key)) => (
            IssueView { phase: PhaseView::Finalize(key), ..s },
            ActionView::Finalize(csr),
        ),
        (PhaseView::Csr, EventView::CsrFailed(stage, m)) => fail_client(
            s,
            csr_stage_text(stage) + m,
        ),
        (PhaseView::Finalize(key), EventView::Done) => (
            IssueView { phase: PhaseView::Fetch(key), ..s },
            ActionView::FetchCertificate,
        ),
        (PhaseView::Finalize(_), EventView::Failed(m)) => fail_client(
            s,
            "order.finalize: "@ + m,
        ),
        (PhaseView::Fetch(key), EventView::Certificate(c)) => match c {
            Some(chain) => (
                IssueView { phase: PhaseView::Finished, ..s },
                ActionView::Finish(Ok(IssuedView { fullchain_pem: chain, privkey_pem: key })),
            ),
            None => (
                IssueView { phase: PhaseView::FetchPause(key), ..s },
                ActionView::Sleep(ORDER_POLL_INTERVAL_MS),
            ),
        },
        (PhaseView::Fetch(_), EventView::Failed(m)) => fail_client(s, "order.certificate: "@ + m),
        (PhaseView::FetchPause(key), EventView::Woke(elapsed)) => if elapsed
            > ORDER_POLL_DEADLINE_MS {
            fail_client(s, "certificate did not materialise within 120s"@)
        } else {
            (IssueView { phase: PhaseView::Fetch(key), ..s }, ActionView::FetchCertificate)
        },
        _ => if records_gone(s.phase) {
            fail_client(s, "unexpected event"@)
        } else {
            stop_client(s, "unexpected event"@)
        },
    }
}

/// What [`dns01_pos`] returns.
proof fn lemma_dns01_pos(c: Seq<ChallengeView>)
    ensures
        0 <= dns01_pos(c) <= c.len(),
        dns01_pos(c) < c.len() ==> c[dns01_pos(c)].dns01,
        forall|j: int| 0 <= j < dns01_pos(c) ==> !(#[trigger] c[j]).dns01,
    decreases c.len(),
{
    if c.len() > 0 && !c[0].dns01 {
        let t = c.drop_first();
        lemma_dns01_pos(t);
        assert forall|j: int| 0 <= j < dns01_pos(c) implies !(#[trigger] c[j]).dns01 by {
            if j > 0 {
                assert(c[j] == t[j - 1]);
            }
        }
    }
}

/// The DNS-01 challenge of an authorization.
fn find_dns01(a: &Authorization) -> (r: Option<usize>)
    ensures
        r is Some <==> dns01_challenge(a@) is Some,
        r is Some ==> r->0 < a.challenges@.len() && a.challenges@[r->0 as int]@ == dns01_challenge(
            a@,
        )->0,
{
    let ghost c = a@.challenges;
    let n: usize = a.challenges.len();
    let mut i: usize = 0;
    while i < n && !a.challenges[i].dns01
        invariant
            i <= n,
            n == a.challenges@.len(),
            c == a@.challenges,
            forall|j: int| 0 <= j < i ==> !(#[trigger] c[j]).dns01,
        decreases n - i,
    {
        assert(c[i as int] == a.challenges@[i as int]@);
        i += 1;
    }
    proof {
        lemma_dns01_pos(c);
        let p = dns01_pos(c);
        if p < i {
            assert(!c[p].dns01);
        } else if i < p {
            assert(c[i as int] == a.challenges@[i as int]@);
        }
        if i < n {
            assert(c[i as int] == a.challenges@[i as int]@);
        }
    }
    if i < n {
        Some(i)
    } else {
        None
    }
}

/// An issuance of which nothing has happened yet.
pub open spec fn issuance_begun(
    host: Seq<char>,
    extra_sans: Seq<Seq<char>>,
    provider: Seq<char>,
    providers: Map<Seq<char>, Seq<char>>,
) -> IssueStep {
    (
        IssueView {
            host,
            extra_sans,
            provider,
            provider_known: providers.contains_key(provider),
            authorizations: Seq::empty(),
            handles: Seq::empty(),
            urls: Seq::empty(),
            phase: PhaseView::Account,
        },
        ActionView::LoadAccount,
    )
}

impl Issuance {
    /// Starts an issuance for `host`, with further names if any.
    pub fn new(
        host: &str,
        extra_sans: Vec<String>,
        provider: &str,
        registry: &ProviderRegistry,
    ) -> (r: (Issuance, IssueAction))
        requires
            registry.wf(),
        ensures
            (r.0@, r.1@) == issuance_begun(host@, texts(extra_sans@), provider@, registry@),
            r.0@ == (IssueView {
                host: host@,
                extra_sans: texts(extra_sans@),
                provider: provider@,
                provider_known: registry@.contains_key(provider@),
                authorizations: Seq::empty(),
                handles: Seq::empty(),
                urls: Seq::empty(),
                phase: PhaseView::Account,
            }),
            r.1@ == ActionView::LoadAccount,
    {
        let provider_known = registry.get(host, provider).is_ok();
        let s = Issuance {
            host: host.to_owned(),
            extra_sans,
            provider: provider.to_owned(),
            provider_known,
            authorizations: Vec::new(),
            handles: Vec::new(),
            urls: Vec::new(),
            phase: Phase::Account,
        };
        assert(s@.authorizations =~= Seq::<AuthView>::empty());
        assert(s@.handles =~= Seq::<HandleView>::empty());
        assert(s@.urls =~= Seq::<Seq<char>>::empty());
        (s, IssueAction::LoadAccount)
    }

    fn end(self, e: AcmeError) -> (r: (Issuance, IssueAction))
        ensures
            r.0.wf(),
            (r.0@, r.1@) == fail(self@, e@),
    {
        let mut s = self;
        s.phase = Phase::Finished;
        (s, IssueAction::Finish(Err(e)))
    }

    fn end_client(self, detail: String) -> (r: (Issuance, IssueAction))
        ensures
            r.0.wf(),
            (r.0@, r.1@) == fail_client(self@, detail@),
    {
        let e = AcmeError::client(self.host.as_str(), detail);
        self.end(e)
    }

    fn names(&self) -> (r: Vec<String>)
        ensures
            texts(r@) == order_names(self@),
    {
        let mut out: Vec<String> = Vec::new();
        out.push(self.host.clone());
        assert(texts(out@) =~= seq![self@.host] + self@.extra_sans.subrange(0, 0));
        for i in 0..self.extra_sans.len()
            invariant
                texts(out@) == seq![self@.host] + self@.extra_sans.subrange(0, i as int),
        {
            let ghost done = out@;
            out.push(self.extra_sans[i].clone());
            assert(texts(out@) =~= texts(done).push(self.extra_sans@[i as int]@));
            assert(texts(out@) =~= seq![self@.host] + self@.extra_sans.subrange(0, i + 1));
        }
        assert(self@.extra_sans.subrange(0, self@.extra_sans.len() as int)
            =~= self@.extra_sans);
        out
    }

    fn go_teardown(self, i: usize, failed: Option<AcmeError>) -> (r: (Issuance, IssueAction))
        ensures
            r.0.wf(),
            (r.0@, r.1@) == teardown_step(self@, i as int, opt_error(failed)),
    {
        let mut s = self;
        if i < s.handles.len() {
            let h = s.handles[i].clone();
            assert(s@.handles[i as int] == s.handles@[i as int]@);
            s.phase = Phase::Teardown(i, failed);
            return (s, IssueAction::RemoveTxt(h));
        }
        match failed {
            Some(e) => s.end(e),
            None => {
                let names = s.names();
                s.phase = Phase::Csr;
                (s, IssueAction::BuildCsr(names))
            },
        }
    }

    fn stop(self, e: AcmeError) -> (r: (Issuance, IssueAction))
        ensures
            r.0.wf(),
            (r.0@, r.1@) == stop(self@, e@),
    {
        self.go_teardown(0, Some(e))
    }

    fn stop_client(self, detail: String) -> (r: (Issuance, IssueAction))
        ensures
            r.0.wf(),
            (r.0@, r.1@) == stop_client(self@, detail@),
    {
        let e = AcmeError::client(self.host.as_str(), detail);
        self.stop(e)
    }

    fn go_ready(self, i: usize) -> (r: (Issuance, IssueAction))
        ensures
            r.0.wf(),
            (r.0@, r.1@) == ready_step(self@, i as int),
    {
        let mut s = self;
        if i < s.urls.len() {
            let u = s.urls[i].clone();
            s.phase = Phase::Ready(i);
            (s, IssueAction::SetReady(u))
        } else {
            s.phase = Phase::Poll;
            (s, IssueAction::Refresh)
        }
    }

    fn go_place(self, i: usize) -> (r: (Issuance, IssueAction))
        ensures
            r.0.wf(),
            (r.0@, r.1@) == place_step(self@, i as int),
    {
        if i >= self.authorizations.len() {
            return self.go_ready(0);
        }
        assert(self@.authorizations[i as int] == self.authorizations@[i as int]@);
        let found = find_dns01(&self.authorizations[i]);
        match found {
            None => {
                let mut d = "authorization for ".to_owned();
                d.append(quoted(self.authorizations[i].host.as_str()).as_str());
                d.append(" has no matching Dns01 challenge");
                self.stop_client(d)
            },
            Some(k) => {
                if !self.provider_known {
                    let e = AcmeError::UnknownProvider {
                        host: self.host.clone(),
                        provider: self.provider.clone(),
                    };
                    return self.stop(e);
                }
                let fqdn = challenge_fqdn(self.authorizations[i].host.as_str());
                let value = self.authorizations[i].challenges[k].dns_value.clone();
                let mut s = self;
                s.phase = Phase::Place(i);
                (s, IssueAction::PlaceTxt { fqdn, value })
            },
        }
    }

    /// The phase counts within the lists that it counts through.
    pub open spec fn wf(&self) -> bool {
        match self.phase {
            Phase::Place(i) | Phase::Propagate(i) | Phase::Ready(i) | Phase::Teardown(
                i,
                _,
            ) => i < usize::MAX,
            _ => true,
        }
    }

    /// Decides what follows an event.
    pub fn step(self, event: IssueEvent) -> (r: (Issuance, IssueAction))
        requires
            self.wf(),
        ensures
            r.0.wf(),
            (r.0@, r.1@) == issue_step(self@, event@),
    {
        let ghost before = self@;
        let mut s = self;
        let mut phase = Phase::Finished;
        core::mem::swap(&mut s.phase, &mut phase);
        let unexpected = "unexpected event".to_owned();
        let gone = match &phase {
            Phase::Csr | Phase::Finalize(_) | Phase::Fetch(_) | Phase::FetchPause(_)
            | Phase::Finished => true,
            _ => false,
        };
        match (phase, event) {
            (Phase::Account, IssueEvent::Done) => {
                let names = s.names();
                s.phase = Phase::Order;
                (s, IssueAction::NewOrder(names))
            },
            (Phase::Account, IssueEvent::Error(e)) => s.end(e),
            (Phase::Order, IssueEvent::Done) => {
                s.phase = Phase::Authorizations;
                (s, IssueAction::FetchAuthorizations)
            },
            (Phase::Order, IssueEvent::Failed(m)) => {
                s.end_client(join2("new_order: ", m.as_str()))
            },
            (Phase::Authorizations, IssueEvent::Authorizations(v)) => {
                s.authorizations = v;
                s.handles = Vec::new();
                s.urls = Vec::new();
                assert(s@.handles =~= Seq::<HandleView>::empty());
                assert(s@.urls =~= Seq::<Seq<char>>::empty());
                s.go_place(0)
            },
            (Phase::Authorizations, IssueEvent::Failed(m)) => {
                s.end_client(join2("order.authorizations: ", m.as_str()))
            },
            (Phase::Place(i), IssueEvent::Placed(h)) => {
                let ghost hs = s.handles@;
                let ghost hv = h@;
                s.handles.push(h);
                assert(s@.handles =~= handle_views(hs).push(hv));
                if i < s.authorizations.len() {
                    assert(s@.authorizations[i as int] == s.authorizations@[i as int]@);
                    if let Some(k) = find_dns01(&s.authorizations[i]) {
                        let fqdn = challenge_fqdn(s.authorizations[i].host.as_str());
                        let value = s.authorizations[i].challenges[k].dns_value.clone();
                        s.phase = Phase::Propagate(i);
                        return (s, IssueAction::AwaitPropagation { fqdn, value });
                    }
                }
                s.stop_client(unexpected)
            },
            (Phase::Place(_), IssueEvent::Error(e)) => s.stop(e),
            (Phase::Propagate(i), IssueEvent::Done) => {
                if i < s.authorizations.len() {
                    assert(s@.authorizations[i as int] == s.authorizations@[i as int]@);
                    if let Some(k) = find_dns01(&s.authorizations[i]) {
                        let url = s.authorizations[i].challenges[k].url.clone();
                        let ghost us = s.urls@;
                        let ghost uv = url@;
                        s.urls.push(url);
                        assert(s@.urls =~= texts(us).push(uv));
                        return s.go_place(i + 1);
                    }
                }
                s.stop_client(unexpected)
            },
            (Phase::Propagate(_), IssueEvent::Error(e)) => s.stop(e),
            (Phase::Ready(i), IssueEvent::Done) => s.go_ready(i + 1),
            (Phase::Ready(i), IssueEvent::Failed(m)) => {
                if i < s.urls.len() {
                    let mut d = join2("set_challenge_ready ", s.urls[i].as_str());
                    d.append(": ");
                    d.append(m.as_str());
                    s.stop_client(d)
                } else {
                    s.stop_client(unexpected)
                }
            },
            (Phase::Poll, IssueEvent::State(state)) => match state {
                OrderState::Pending | OrderState::Processing => {
                    s.phase = Phase::PollPause;
                    (s, IssueAction::Sleep(ORDER_POLL_INTERVAL_MS))
                },
                OrderState::Ready | OrderState::Valid => s.go_teardown(0, None),
                OrderState::Invalid => {
                    let e = AcmeError::client(
                        s.host.as_str(),
                        "order entered Invalid state during validation".to_owned(),
                    );
                    s.go_teardown(0, Some(e))
                },
            },
            (Phase::Poll, IssueEvent::Failed(m)) => {
                s.stop_client(join2("order.refresh: ", m.as_str()))
            },
            (Phase::PollPause, IssueEvent::Woke(elapsed)) => {
                if elapsed > ORDER_POLL_DEADLINE_MS {
                    let e = AcmeError::client(
                        s.host.as_str(),
                        "order did not reach Ready within 120s".to_owned(),
                    );
                    s.go_teardown(0, Some(e))
                } else {
                    s.phase = Phase::Poll;
                    (s, IssueAction::Refresh)
                }
            },
            (Phase::Teardown(i, failed), _) => s.go_teardown(i + 1, failed),
            (Phase::Csr, IssueEvent::Csr(csr, key)) => {
                s.phase = Phase::Finalize(key);
                (s, IssueAction::Finalize(csr))
            },
            (Phase::Csr, IssueEvent::CsrFailed(stage, m)) => {
                let p = match stage {
                    CsrStage::Params => "CertificateParams::new: ",
                    CsrStage::KeyPair => "KeyPair::generate: ",
                    CsrStage::Serialize => "serialize_request: ",
                };
                s.end_client(join2(p, m.as_str()))
            },
            (Phase::Finalize(key), IssueEvent::Done) => {
                s.phase = Phase::Fetch(key);
                (s, IssueAction::FetchCertificate)
            },
            (Phase::Finalize(_), IssueEvent::Failed(m)) => {
                s.end_client(join2("order.finalize: ", m.as_str()))
            },
            (Phase::Fetch(key), IssueEvent::Certificate(c)) => match c {
                Some(chain) => {
                    s.phase = Phase::Finished;
                    (
                        s,
                        IssueAction::Finish(
                            Ok(IssuedCert { fullchain_pem: chain, privkey_pem: key }),
                        ),
                    )
                },
                None => {
                    s.phase = Phase::FetchPause(key);
                    (s, IssueAction::Sleep(ORDER_POLL_INTERVAL_MS))
                },
            },
            (Phase::Fetch(_), IssueEvent::Failed(m)) => {
                s.end_client(join2("order.certificate: ", m.as_str()))
            },
            (Phase::FetchPause(key), IssueEvent::Woke(elapsed)) => {
                if elapsed > ORDER_POLL_DEADLINE_MS {
                    s.end_client("certificate did not materialise within 120s".to_owned())
                } else {
                    s.phase = Phase::Fetch(key);
                    (s, IssueAction::FetchCertificate)
                }
            },
            _ => {
                if gone {
                    s.end_client(unexpected)
                } else {
                    s.stop_client(unexpected)
                }
            },
        }
    }
}

/// Every name is ASCII.
pub open spec fn all_ascii(names: Seq<Seq<char>>) -> bool {
    forall|i: int| 0 <= i < names.len() ==> ascii(#[trigger] names[i])
}

/// A signing request as DER and its private key as PEM; or the stage that
/// failed, with its message.
pub type MadeRequest = Result<(Seq<u8>, Seq<u8>), (CsrStage, Seq<char>)>;

/// The model of what became of a signing request.
pub open spec fn request_view(
    r: Result<(Vec<u8>, Vec<u8>), (CsrStage, String)>,
) -> MadeRequest {
    match r {
        Ok((csr, key_pem)) => Ok((csr@, key_pem@)),
        Err((stage, detail)) => Err((stage, detail@)),
    }
}

/// What became of a signing request is such as `rcgen` gives for a list of
/// names and a common name: a request signed with a key that comes out of its
/// generator, or its error.
pub uninterp spec fn request_made(
    names: Seq<Seq<char>>,
    common_name: Seq<char>,
    made: MadeRequest,
) -> bool;

/// `rcgen::CertificateParams::new` for the names, `KeyPair::generate` and
/// `CertificateParams::serialize_request`: the request as DER with the key as
/// PEM, or the stage that failed with its message. Names are refused exactly
/// where one of them is not ASCII. The key is random: of the bytes, and of
/// whether there are any, nothing more is stated than what they were made for.
#[verifier::external_body]
fn signed_request(names: &Vec<String>, common_name: &str) -> (r: Result<
    (Vec<u8>, Vec<u8>),
    (CsrStage, String),
>)
    ensures
        request_made(texts(names@), common_name@, request_view(r)),
        !all_ascii(texts(names@)) <==> r is Err && (r->Err_0).0 == CsrStage::Params,
{
    let mut p = CertificateParams::new(names.clone())
        .map_err(|e| (CsrStage::Params, e.to_string()))?;
    p.distinguished_name = DistinguishedName::new();
    p.distinguished_name.push(DnType::CommonName, common_name);
    let key = KeyPair::generate().map_err(|e| (CsrStage::KeyPair, e.to_string()))?;
    let csr = p.serialize_request(&key).map_err(|e| (CsrStage::Serialize, e.to_string()))?;
    Ok((csr.der().to_vec(), key.serialize_pem().into_bytes()))
}

/// The event that reports what became of a signing request.
pub open spec fn csr_reported(made: MadeRequest) -> EventView {
    match made {
        Ok((csr, key_pem)) => EventView::Csr(csr, key_pem),
        Err((stage, detail)) => EventView::CsrFailed(stage, detail),
    }
}

/// Reports what became of a signing request as an event.
pub fn csr_event(made: Result<(Vec<u8>, Vec<u8>), (CsrStage, String)>) -> (r: IssueEvent)
    ensures
        r@ == csr_reported(request_view(made)),
        match made {
            Ok((csr, key_pem)) => r == IssueEvent::Csr(csr, key_pem),
            Err((stage, detail)) => r == IssueEvent::CsrFailed(stage, detail),
        },
{
    match made {
        Ok((csr, key_pem)) => IssueEvent::Csr(csr, key_pem),
        Err((stage, detail)) => IssueEvent::CsrFailed(stage, detail),
    }
}

/// Makes a signing request for the names, the first of which is the common
/// name, and reports it as an event. Names are refused exactly where one of
/// them is not ASCII; any other failure is one of the making. Whether the
/// making succeeds is not stated: its key is random.
pub fn build_csr(names: &Vec<String>) -> (r: IssueEvent)
    requires
        names@.len() > 0,
    ensures
        exists|made: MadeRequest| #[trigger]
            request_made(texts(names@), texts(names@)[0], made) && r@ == csr_reported(made),
        r is CsrFailed && r->CsrFailed_0 == CsrStage::Params <==> !all_ascii(texts(names@)),
{
    let made = signed_request(names, names[0].as_str());
    let ghost m = request_view(made);
    assert(request_made(texts(names@), texts(names@)[0], m));
    csr_event(made)
}

/// The issuance is in order: a record was placed, and a challenge noted, for
/// each authorization that is done with, and for all of them from the first
/// declared challenge on.
pub open spec fn in_order(s: IssueView) -> bool {
    match s.phase {
        PhaseView::Place(i) => 0 <= i < s.authorizations.len() && s.handles.len() == i
            && s.urls.len() == i && dns01_challenge(s.authorizations[i]) is Some,
        PhaseView::Propagate(i) => 0 <= i < s.authorizations.len() && s.handles.len() == i + 1
            && s.urls.len() == i && dns01_challenge(s.authorizations[i]) is Some,
        PhaseView::Ready(i) => 0 <= i < s.urls.len() && s.urls.len() == s.authorizations.len()
            && s.handles.len() == s.authorizations.len(),
        PhaseView::Poll | PhaseView::PollPause => s.handles.len() == s.authorizations.len()
            && s.urls.len() == s.authorizations.len(),
        PhaseView::Teardown(i, _) => 0 <= i < s.handles.len(),
        _ => true,
    }
}

/// Law: every step keeps the issuance in order. In particular no challenge is
/// declared ready before a record for every authorization is placed and
/// visible.
pub proof fn law_steps_keep_order(s: IssueView, event: EventView)
    requires
        in_order(s),
    ensures
        in_order(issue_step(s, event).0),
        issue_step(s, event).1 is SetReady ==> ({
            let t = issue_step(s, event).0;
            t.handles.len() == t.authorizations.len() && t.urls.len() == t.authorizations.len()
        }),
{
}

/// The issuance after `n` records were removed, whether or not each removal
/// succeeded.
pub open spec fn removals(s: IssueView, results: Seq<EventView>, n: int) -> IssueStep
    decreases n,
{
    if n <= 0 {
        match s.phase {
            PhaseView::Teardown(i, failed) => teardown_step(s, i, failed),
            _ => fail_client(s, "unexpected event"@),
        }
    } else {
        issue_step(removals(s, results, n - 1).0, results[n - 1])
    }
}

/// Law: once removal has begun, every record is removed, in order and
/// once each, whatever becomes of the single removals; only then does the
/// issuance go on to the signing request, or end with the error.
pub proof fn law_every_record_is_removed(
    s: IssueView,
    failed: Option<AcmeErrorView>,
    results: Seq<EventView>,
    n: int,
)
    requires
        s.phase == PhaseView::Teardown(0, failed),
        s.handles.len() > 0,
        results.len() == s.handles.len(),
        0 <= n <= s.handles.len(),
    ensures
        n < s.handles.len() ==> removals(s, results, n).1 == ActionView::RemoveTxt(s.handles[n])
            && removals(s, results, n).0 == (IssueView {
            phase: PhaseView::Teardown(n, failed),
            ..s
        }),
        n == s.handles.len() ==> removals(s, results, n).1 == (match failed {
            Some(e) => ActionView::Finish(Err(e)),
            None => ActionView::BuildCsr(order_names(s)),
        }),
    decreases n,
{
    if n > 0 {
        law_every_record_is_removed(s, failed, results, n - 1);
    }
}

/// Where an issuance stands after `n` events.
pub open spec fn after(s: IssueView, events: Seq<EventView>, n: int) -> IssueView
    decreases n,
{
    if n <= 0 {
        s
    } else {
        issue_step(after(s, events, n - 1), events[n - 1]).0
    }
}

/// The records that were reported as placed, in order, by `n` events.
pub open spec fn placed(s: IssueView, events: Seq<EventView>, n: int) -> Seq<HandleView>
    decreases n,
{
    if n <= 0 {
        Seq::empty()
    } else {
        let before = placed(s, events, n - 1);
        match events[n - 1] {
            EventView::Placed(h) => if after(s, events, n - 1).phase is Place {
                before.push(h)
            } else {
                before
            },
            _ => before,
        }
    }
}

/// The records whose removal was ordered, in order, on `n` events.
pub open spec fn removed(s: IssueView, events: Seq<EventView>, n: int) -> Seq<HandleView>
    decreases n,
{
    if n <= 0 {
        Seq::empty()
    } else {
        let before = removed(s, events, n - 1);
        match issue_step(after(s, events, n - 1), events[n - 1]).1 {
            ActionView::RemoveTxt(h) => before.push(h),
            _ => before,
        }
    }
}

/// What the issuance holds agrees with what was placed and removed.
pub open spec fn accounted(s: IssueView, placed: Seq<HandleView>, removed: Seq<HandleView>) -> bool {
    &&& placed == s.handles
    &&& match s.phase {
        PhaseView::Account | PhaseView::Order | PhaseView::Authorizations => s.handles.len() == 0
            && removed.len() == 0,
        PhaseView::Place(_) | PhaseView::Propagate(_) | PhaseView::Ready(_) | PhaseView::Poll
        | PhaseView::PollPause => removed.len() == 0,
        PhaseView::Teardown(i, _) => 0 <= i < s.handles.len() && removed == s.handles.subrange(
            0,
            i + 1,
        ),
        _ => removed == s.handles,
    }
}

/// Every step keeps the account of the records.
proof fn lemma_accounted(s: IssueView, events: Seq<EventView>, n: int)
    requires
        s.phase is Account,
        s.handles.len() == 0,
        0 <= n,
    ensures
        accounted(after(s, events, n), placed(s, events, n), removed(s, events, n)),
    decreases n,
{
    if n <= 0 {
        assert(placed(s, events, n) =~= s.handles);
    } else {
        lemma_accounted(s, events, n - 1);
        let u = after(s, events, n);
        let r = removed(s, events, n);
        assert(placed(s, events, n) =~= u.handles);
        if u.phase is Teardown {
            assert(r =~= u.handles.subrange(0, u.phase->Teardown_0 + 1));
        } else if records_gone(u.phase) {
            assert(r =~= u.handles);
        }
    }
}

/// Law: no record is left behind. Whatever happens, an issuance that ends, well
/// or not, has by then ordered the removal of every record that was placed,
/// exactly once each and in the order of placing; so has one that goes on to its
/// signing request.
pub proof fn law_no_record_is_left_behind(s: IssueView, events: Seq<EventView>, n: int)
    requires
        s.phase is Account,
        s.handles.len() == 0,
        0 < n,
    ensures
        issue_step(after(s, events, n - 1), events[n - 1]).1 is Finish ==> removed(s, events, n)
            == placed(s, events, n),
        records_gone(after(s, events, n).phase) ==> removed(s, events, n) == placed(s, events, n),
{
    lemma_accounted(s, events, n);
    let t = after(s, events, n - 1);
    assert(issue_step(t, events[n - 1]).1 is Finish ==> issue_step(t, events[n - 1]).0.phase
        is Finished);
}

/// Law: from the moment the order is looked at, an outcome of validation, be it
/// ready, valid, invalid or late, and a failed look, leads to the removal of the
/// records.
pub proof fn law_outcome_leads_to_removal(s: IssueView, event: EventView)
    requires
        in_order(s),
        s.handles.len() > 0,
        ({
            ||| s.phase is Poll && event is State && event->State_0 != OrderState::Pending
                && event->State_0 != OrderState::Processing
            ||| s.phase is Poll && event is Failed
            ||| s.phase is PollPause && event is Woke && event->Woke_0 > ORDER_POLL_DEADLINE_MS
        }),
    ensures
        issue_step(s, event).1 == ActionView::RemoveTxt(s.handles[0]),
        issue_step(s, event).0.phase is Teardown,
{
}

/// Law: the signing request names exactly what the order named.
pub proof fn law_csr_names_are_the_order_names(s: IssueView, event: EventView)
    ensures
        issue_step(s, event).1 is NewOrder ==> issue_step(s, event).1->NewOrder_0 == order_names(s),
        issue_step(s, event).1 is BuildCsr ==> issue_step(s, event).1->BuildCsr_0 == order_names(s),
        order_names(issue_step(s, event).0) == order_names(s),
{
}

/// Law: once finished, an issuance makes no further request.
pub proof fn law_finished_is_final(s: IssueView, event: EventView)
    requires
        s.phase is Finished,
    ensures
        issue_step(s, event).0.phase is Finished,
        issue_step(s, event).1 is Finish,
{
}

/// Law: an issuance begins with the account, then orders the host and its
/// further names, the host first, and then asks what to prove.
pub proof fn law_order_names_the_host_first(s: IssueView)
    ensures
        s.phase is Account ==> issue_step(s, EventView::Done) == (
            IssueView { phase: PhaseView::Order, ..s },
            ActionView::NewOrder(seq![s.host] + s.extra_sans),
        ),
        s.phase is Order ==> issue_step(s, EventView::Done) == (
            IssueView { phase: PhaseView::Authorizations, ..s },
            ActionView::FetchAuthorizations,
        ),
{
}

/// Law: of the challenges of an authorization the first DNS-01 one is taken up;
/// without one there is none.
pub proof fn law_first_dns01_challenge_is_taken(a: AuthView, i: int)
    ensures
        0 <= i < a.challenges.len() && a.challenges[i].dns01 && (forall|j: int|
            0 <= j < i ==> !(#[trigger] a.challenges[j]).dns01) ==> dns01_challenge(a) == Some(
            a.challenges[i],
        ),
        (forall|j: int| 0 <= j < a.challenges.len() ==> !(#[trigger] a.challenges[j]).dns01)
            ==> dns01_challenge(a) is None,
{
    lemma_dns01_pos(a.challenges);
    let p = dns01_pos(a.challenges);
    if 0 <= i < a.challenges.len() && a.challenges[i].dns01 {
        if i < p {
            assert(!a.challenges[i].dns01);
        }
    }
}

/// Law: for each authorization a record with the value of its challenge is
/// placed below the name that it is for, then waited for, and then its
/// challenge noted and the next one taken up.
pub proof fn law_each_record_answers_its_challenge(
    s: IssueView,
    i: int,
    c: ChallengeView,
    h: HandleView,
)
    requires
        0 <= i < s.authorizations.len(),
        dns01_challenge(s.authorizations[i]) == Some(c),
        s.provider_known,
    ensures
        place_step(s, i) == (
            IssueView { phase: PhaseView::Place(i), ..s },
            ActionView::PlaceTxt {
                fqdn: "_acme-challenge."@ + s.authorizations[i].host,
                value: c.dns_value,
            },
        ),
        s.phase == PhaseView::Place(i) ==> issue_step(s, EventView::Placed(h)) == (
            IssueView { phase: PhaseView::Propagate(i), handles: s.handles.push(h), ..s },
            ActionView::AwaitPropagation {
                fqdn: "_acme-challenge."@ + s.authorizations[i].host,
                value: c.dns_value,
            },
        ),
        s.phase == PhaseView::Propagate(i) ==> issue_step(s, EventView::Done) == place_step(
            IssueView { urls: s.urls.push(c.url), ..s },
            i + 1,
        ),
{
}

/// Law: without a challenge that can be answered, or a provider to answer it
/// with, no record is placed, and the issuance ends with an error that says so
/// once the earlier records are gone.
pub proof fn law_unanswerable_challenge_is_an_error(s: IssueView, i: int)
    requires
        0 <= i < s.authorizations.len(),
        s.handles.len() == 0,
    ensures
        dns01_challenge(s.authorizations[i]) is None ==> place_step(s, i).1 == ActionView::Finish(
            Err(
                AcmeErrorView::Client {
                    host: s.host,
                    detail: "authorization for "@ + debug_text(s.authorizations[i].host)
                        + " has no matching Dns01 challenge"@,
                },
            ),
        ),
        dns01_challenge(s.authorizations[i]) is Some && !s.provider_known ==> place_step(s, i).1
            == ActionView::Finish(
            Err(AcmeErrorView::UnknownProvider { host: s.host, provider: s.provider }),
        ),
{
}

/// Law: once every record is visible, each noted challenge is declared ready,
/// in order; after the last the order is looked at.
pub proof fn law_every_challenge_is_declared(s: IssueView, i: int)
    ensures
        s.authorizations.len() <= i ==> place_step(s, i) == ready_step(s, 0),
        0 <= i < s.urls.len() ==> ready_step(s, i) == (
            IssueView { phase: PhaseView::Ready(i), ..s },
            ActionView::SetReady(s.urls[i]),
        ),
        i >= s.urls.len() ==> ready_step(s, i) == (
            IssueView { phase: PhaseView::Poll, ..s },
            ActionView::Refresh,
        ),
        s.phase == PhaseView::Ready(i) ==> issue_step(s, EventView::Done) == ready_step(s, i + 1),
{
}

/// Law: an order that is still being worked on is looked at again every two
/// seconds, for two minutes; one that is ready or valid goes on, and one that
/// is invalid or late ends with an error of the host. No record is left when
/// it does.
pub proof fn law_order_is_awaited_for_two_minutes(s: IssueView, elapsed: u64)
    requires
        s.handles.len() == 0,
    ensures
        s.phase is Poll ==> issue_step(s, EventView::State(OrderState::Pending)) == (
            IssueView { phase: PhaseView::PollPause, ..s },
            ActionView::Sleep(2_000),
        ) && issue_step(s, EventView::State(OrderState::Processing)) == (
            IssueView { phase: PhaseView::PollPause, ..s },
            ActionView::Sleep(2_000),
        ),
        s.phase is Poll ==> issue_step(s, EventView::State(OrderState::Ready)) == (
            IssueView { phase: PhaseView::Csr, ..s },
            ActionView::BuildCsr(seq![s.host] + s.extra_sans),
        ) && issue_step(s, EventView::State(OrderState::Valid)) == (
            IssueView { phase: PhaseView::Csr, ..s },
            ActionView::BuildCsr(seq![s.host] + s.extra_sans),
        ),
        s.phase is Poll ==> issue_step(s, EventView::State(OrderState::Invalid)).1
            == ActionView::Finish(
            Err(
                AcmeErrorView::Client {
                    host: s.host,
                    detail: "order entered Invalid state during validation"@,
                },
            ),
        ),
        s.phase is PollPause && elapsed <= 120_000 ==> issue_step(s, EventView::Woke(elapsed)) == (
            IssueView { phase: PhaseView::Poll, ..s },
            ActionView::Refresh,
        ),
        s.phase is PollPause && elapsed > 120_000 ==> issue_step(s, EventView::Woke(elapsed)).1
            == ActionView::Finish(
            Err(
                AcmeErrorView::Client {
                    host: s.host,
                    detail: "order did not reach Ready within 120s"@,
                },
            ),
        ),
{
}

/// Law: what is issued is the chain that the authority gave with the key that
/// the signing request was made with, however often the certificate was asked
/// for; it is asked for every two seconds, for two minutes.
pub proof fn law_issued_chain_comes_with_its_key(
    s: IssueView,
    csr: Seq<u8>,
    key: Seq<u8>,
    chain: Seq<u8>,
    elapsed: u64,
)
    ensures
        s.phase is Csr ==> issue_step(s, EventView::Csr(csr, key)) == (
            IssueView { phase: PhaseView::Finalize(key), ..s },
            ActionView::Finalize(csr),
        ),
        s.phase == PhaseView::Finalize(key) ==> issue_step(s, EventView::Done) == (
            IssueView { phase: PhaseView::Fetch(key), ..s },
            ActionView::FetchCertificate,
        ),
        s.phase == PhaseView::Fetch(key) ==> issue_step(s, EventView::Certificate(None)) == (
            IssueView { phase: PhaseView::FetchPause(key), ..s },
            ActionView::Sleep(2_000),
        ),
        s.phase == PhaseView::FetchPause(key) && elapsed <= 120_000 ==> issue_step(
            s,
            EventView::Woke(elapsed),
        ) == (IssueView { phase: PhaseView::Fetch(key), ..s }, ActionView::FetchCertificate),
        s.phase == PhaseView::FetchPause(key) && elapsed > 120_000 ==> issue_step(
            s,
            EventView::Woke(elapsed),
        ).1 == ActionView::Finish(
            Err(
                AcmeErrorView::Client {
                    host: s.host,
                    detail: "certificate did not materialise within 120s"@,
                },
            ),
        ),
        s.phase == PhaseView::Fetch(key) ==> issue_step(
            s,
            EventView::Certificate(Some(chain)),
        ).1 == ActionView::Finish(
            Ok(IssuedView { fullchain_pem: chain, privkey_pem: key }),
        ),
{
}

/// Law: what the authority or the provider answers with an error ends the
/// issuance with that error, or with one of the host that says which request
/// it was and repeats the message.
pub proof fn law_failed_request_is_named(
    s: IssueView,
    e: AcmeErrorView,
    m: Seq<char>,
)
    requires
        s.handles.len() == 0,
    ensures
        ({
            let said = |text: Seq<char>|
                ActionView::Finish(
                    Err(AcmeErrorView::Client { host: s.host, detail: text + m }),
                );
            let failed = issue_step(s, EventView::Failed(m)).1;
            let error = issue_step(s, EventView::Error(e)).1;
            &&& s.phase is Account || s.phase is Place || s.phase is Propagate ==> error
                == ActionView::Finish(Err(e))
            &&& s.phase is Order ==> failed == said("new_order: "@)
            &&& s.phase is Authorizations ==> failed == said("order.authorizations: "@)
            &&& s.phase is Ready && 0 <= s.phase->Ready_0 < s.urls.len() ==> failed == said(
                "set_challenge_ready "@ + s.urls[s.phase->Ready_0] + ": "@,
            )
            &&& s.phase is Poll ==> failed == said("order.refresh: "@)
            &&& s.phase is Finalize ==> failed == said("order.finalize: "@)
            &&& s.phase is Fetch ==> failed == said("order.certificate: "@)
            &&& s.phase is Csr ==> issue_step(s, EventView::CsrFailed(CsrStage::Params, m)).1
                == said("CertificateParams::new: "@)
            &&& s.phase is Csr ==> issue_step(s, EventView::CsrFailed(CsrStage::KeyPair, m)).1
                == said("KeyPair::generate: "@)
            &&& s.phase is Csr ==> issue_step(s, EventView::CsrFailed(CsrStage::Serialize, m)).1
                == said("serialize_request: "@)
        }),
{
}

/// Law: a signing request that was made is handed on with its key, in that
/// order, and one that was not with the stage that failed.
pub proof fn law_signing_request_is_reported(
    csr: Seq<u8>,
    key: Seq<u8>,
    stage: CsrStage,
    m: Seq<char>,
)
    ensures
        csr_reported(Ok((csr, key))) == EventView::Csr(csr, key),
        csr_reported(Err((stage, m))) == EventView::CsrFailed(stage, m),
{
}

/// Law: an issuance begins with the account, for the host and names that it was
/// started for, with no record placed; it knows whether its provider is
/// registered.
pub proof fn law_issuance_begins_with_the_account(
    host: Seq<char>,
    extra_sans: Seq<Seq<char>>,
    provider: Seq<char>,
    providers: Map<Seq<char>, Seq<char>>,
)
    ensures
        ({
            let (s, action) = issuance_begun(host, extra_sans, provider, providers);
            &&& action == ActionView::LoadAccount
            &&& issue_step(s, EventView::Done).1 == ActionView::NewOrder(seq![host] + extra_sans)
            &&& s.handles.len() == 0 && s.urls.len() == 0
            &&& s.provider == provider
            &&& s.provider_known <==> providers.contains_key(provider)
            &&& in_order(s)
        }),
{
}

} // verus!
