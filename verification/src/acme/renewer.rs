//! The renewal of one host's certificate.
//!
//! A renewer looks at the certificate on disk, waits until it is time or until
//! it is asked to hurry, issues, stores, and starts over. After a failed
//! issuance it backs off first.

use rand::Rng;
use vstd::prelude::*;
use vstd::string::*;

use crate::acme::error::{acme_error_text, clone_acme_error, AcmeError, AcmeErrorView};
use crate::acme::manager::{
    fresh_host, installed, registration, AcmeRouteConfig, HostState, HostStatus, HostTable,
    HostView, Registration,
};
use crate::text::{join2, join3, opt_view, same, texts};

verus! {

broadcast use vstd::string::group_string_axioms;

/// Pause after a failed issuance, in seconds.
pub const ISSUE_BACKOFF_SECS: u64 = 300;

/// Unix time in seconds, by `SystemTime::now`; none before 1970. Nothing is
/// promised of the count: it is whatever the clock says.
#[verifier::external_body]
pub(crate) fn now_unix_secs() -> Option<u64> {
    let since = std::time::SystemTime::now().duration_since(std::time::UNIX_EPOCH);
    since.ok().map(|d| d.as_secs())
}

/// `rand::Rng::gen_range` of the thread's generator: a number below `n`.
/// Nothing else is promised of it: it is random.
#[verifier::external_body]
fn random_below(n: u64) -> (r: u64)
    requires
        n > 0,
    ensures
        r < n,
{
    rand::thread_rng().gen_range(0..n)
}

/// Registers a host to be managed, and says whether it needs a renewer. A
/// second registration changes nothing. No host is refused.
pub fn register_host(hosts: &mut HostTable, host: &str, route_cfg: &AcmeRouteConfig) -> (r: Result<
    Registration,
    AcmeError,
>)
    requires
        old(hosts).wf(),
    ensures
        final(hosts).wf(),
        r == Ok::<Registration, AcmeError>(registration(old(hosts)@, host@)),
        final(hosts)@ == installed(
            old(hosts)@,
            host@,
            fresh_host(route_cfg.challenge, opt_view(route_cfg.provider)),
        ),
{
    if !hosts.install_host(host, route_cfg) {
        return Ok(Registration::Known);
    }
    Ok(Registration::Start)
}

/// A number of seconds after a point in time, or before it.
pub open spec fn offset(jitter: u64, later: bool) -> int {
    if later {
        jitter as int
    } else {
        -jitter
    }
}

/// How long to wait before a certificate is renewed, in seconds: the time to
/// its expiry, less `renew_before`, moved by `jitter`; up to `u64::MAX`. None
/// where the time to renew has passed, with or without the jitter.
pub open spec fn renewal_wait(not_after: u64, renew_before: u64, jitter: int, now: u64) -> Option<
    u64,
> {
    let target = not_after - now - renew_before;
    if not_after <= now || target < 0 || target + jitter < 0 {
        None
    } else if target + jitter > u64::MAX {
        Some(u64::MAX)
    } else {
        Some((target + jitter) as u64)
    }
}

/// How long to wait before a certificate is renewed, for a given clock, and
/// jitter to either side.
pub fn renewal_wait_at(not_after: u64, renew_before: u64, jitter: u64, later: bool, now: u64) -> (r:
    Option<u64>)
    ensures
        r == renewal_wait(not_after, renew_before, offset(jitter, later), now),
{
    if not_after <= now {
        return None;
    }
    let lifetime: u64 = not_after - now;
    let target: u64 = match lifetime.checked_sub(renew_before) {
        Some(t) => t,
        None => {
            return None;
        },
    };
    if later {
        Some(target.saturating_add(jitter))
    } else {
        target.checked_sub(jitter)
    }
}

/// A number that jitter below `renew_jitter` can be.
pub open spec fn jitter_pick(renew_jitter: u64, pick: u64) -> bool {
    if renew_jitter == 0 {
        pick == 0
    } else {
        pick < renew_jitter
    }
}

/// How long to wait before a certificate is renewed, for a clock that may not
/// be readable. Without a clock it is time.
pub open spec fn clocked_wait(
    not_after: u64,
    renew_before: u64,
    jitter: int,
    now: Option<u64>,
) -> Option<u64> {
    match now {
        Some(n) => renewal_wait(not_after, renew_before, jitter, n),
        None => None,
    }
}

/// How long to wait from now before a certificate is renewed, in seconds, with
/// random jitter to either side. None where it is time already. Which jitter and
/// which side is not stated: both are random.
pub fn sleep_until_renewal(not_after: u64, renew_before: u64, renew_jitter: u64) -> (r: Option<u64>)
    ensures
        exists|now: Option<u64>, pick: u64, later: bool|
            jitter_pick(renew_jitter, pick) && r == #[trigger] clocked_wait(
                not_after,
                renew_before,
                offset(pick, later),
                now,
            ),
{
    let clock = now_unix_secs();
    let now: u64 = match clock {
        Some(n) => n,
        None => {
            assert(jitter_pick(renew_jitter, 0));
            assert(None::<u64> == clocked_wait(not_after, renew_before, offset(0, false), clock));
            return None;
        },
    };
    if not_after <= now || not_after - now < renew_before {
        assert(jitter_pick(renew_jitter, 0));
        assert(None::<u64> == clocked_wait(not_after, renew_before, offset(0, false), clock));
        return None;
    }
    let pick: u64 = if renew_jitter == 0 {
        0
    } else {
        random_below(renew_jitter)
    };
    let side: u64 = random_below(2);
    let later = side == 1;
    let r = renewal_wait_at(not_after, renew_before, pick, later, now);
    assert(r == clocked_wait(not_after, renew_before, offset(pick, later), clock));
    r
}

/// Which part of a certificate file could not be read.
#[derive(Clone, Copy, Debug, PartialEq, Eq, Structural)]
pub enum NotAfterStage {
    Pem,
    X509,
}

/// The expiry of the first certificate of a PEM file, in seconds of Unix time;
/// or which part could not be read, with the message.
pub type FoundExpiry = Result<u64, (NotAfterStage, Seq<char>)>;

/// The expiry that `x509_parser` reads from a PEM file.
pub uninterp spec fn pem_expiry(pem: Seq<u8>) -> FoundExpiry;

/// View of a read expiry.
pub open spec fn expiry_result(r: Result<u64, (NotAfterStage, String)>) -> FoundExpiry {
    match r {
        Ok(t) => Ok(t),
        Err((s, m)) => Err((s, m@)),
    }
}

/// `x509_parser::pem::parse_x509_pem` and `parse_x509_certificate`, with the
/// `not_after` of the result.
#[verifier::external_body]
fn parse_expiry(pem: &[u8]) -> (r: Result<u64, (NotAfterStage, String)>)
    ensures
        expiry_result(r) == pem_expiry(pem@),
{
    let (_, section) = x509_parser::pem::parse_x509_pem(pem).map_err(
        |e| (NotAfterStage::Pem, e.to_string()),
    )?;
    let (_, cert) = x509_parser::parse_x509_certificate(&section.contents).map_err(
        |e| (NotAfterStage::X509, e.to_string()),
    )?;
    Ok(cert.validity().not_after.timestamp() as u64)
}

/// The expiry of a certificate file, or the error.
pub open spec fn expiry_or_error(path: Seq<char>, found: FoundExpiry) -> Result<
    u64,
    AcmeErrorView,
> {
    match found {
        Ok(t) => Ok(t),
        Err((stage, m)) => Err(
            AcmeErrorView::Storage {
                host: "<unknown>"@,
                detail: match stage {
                    NotAfterStage::Pem => "parse PEM at "@,
                    NotAfterStage::X509 => "parse X.509 at "@,
                } + path + ": "@ + m,
            },
        ),
    }
}

/// Checks a read expiry.
pub fn checked_expiry(path: &str, found: Result<u64, (NotAfterStage, String)>) -> (r: Result<
    u64,
    AcmeError,
>)
    ensures
        match expiry_or_error(path@, expiry_result(found)) {
            Ok(t) => r is Ok && r->Ok_0 == t,
            Err(e) => r is Err && r->Err_0@ == e,
        },
{
    match found {
        Ok(t) => Ok(t),
        Err((stage, m)) => {
            let p = match stage {
                NotAfterStage::Pem => "parse PEM at ",
                NotAfterStage::X509 => "parse X.509 at ",
            };
            let mut d = join3(p, path, ": ");
            d.append(m.as_str());
            Err(AcmeError::Storage { host: "<unknown>".to_owned(), detail: d })
        },
    }
}

/// The expiry of a certificate file, in seconds of Unix time. `contents` is
/// what reading the file gave.
pub fn read_not_after(path: &str, contents: Result<&Vec<u8>, String>) -> (r: Result<u64, AcmeError>)
    ensures
        match contents {
            Err(m) => r is Err && r->Err_0@ == (AcmeErrorView::Storage {
                host: "<unknown>"@,
                detail: "read "@ + path@ + ": "@ + m@,
            }),
            Ok(b) => match expiry_or_error(path@, pem_expiry(b@)) {
                Ok(t) => r is Ok && r->Ok_0 == t,
                Err(e) => r is Err && r->Err_0@ == e,
            },
        },
{
    match contents {
        Err(m) => {
            let mut d = join3("read ", path, ": ");
            d.append(m.as_str());
            Err(AcmeError::Storage { host: "<unknown>".to_owned(), detail: d })
        },
        Ok(b) => checked_expiry(path, parse_expiry(b.as_slice())),
    }
}

/// Names besides the host that a certificate covers: one level of subdomains
/// for the configured domain itself.
pub open spec fn extra_names(host: Seq<char>, domain: Seq<char>) -> Seq<Seq<char>> {
    if domain == host {
        seq!["*."@ + host]
    } else {
        Seq::empty()
    }
}

/// Names besides the host that a certificate covers.
pub fn extra_sans(host: &str, domain: &str) -> (r: Vec<String>)
    ensures
        texts(r@) == extra_names(host@, domain@),
{
    let mut out: Vec<String> = Vec::new();
    if same(domain, host) {
        out.push(join2("*.", host));
    }
    assert(texts(out@) =~= extra_names(host@, domain@));
    out
}

/// Where a renewer stands.
#[derive(Clone, Copy, Debug, PartialEq, Eq, Structural)]
pub enum RenewPhase {
    /// Looking at the certificate on disk.
    Checking,
    /// Waiting until it is time, or until asked.
    Waiting,
    /// It is time: seeing whether somebody asked, without waiting.
    Polling,
    Issuing,
    Storing,
    BackingOff,
    Stopped,
}

/// What happened.
#[derive(Debug)]
pub enum RenewEvent {
    /// The certificate on disk was looked at: its expiry where it could be
    /// read, how long to wait where it is not time yet, and the current Unix
    /// time in seconds.
    Checked { not_after: Option<u64>, wait: Option<u64>, now: u64 },
    /// The daemon is being stopped.
    Cancelled,
    /// Nobody can ask any more.
    KickClosed,
    /// Somebody asks for an immediate renewal.
    Kicked,
    /// Nobody asked.
    NotKicked,
    /// The time is over.
    Elapsed,
    /// A certificate was issued.
    Issued,
    IssueFailed(AcmeError),
    /// The certificate is on disk; its expiry where it could be read.
    Stored { not_after: Option<u64> },
    StoreFailed(AcmeError),
}

/// The model of a [`RenewEvent`].
pub enum RenewEventView {
    Checked { not_after: Option<u64>, wait: Option<u64>, now: u64 },
    Cancelled,
    KickClosed,
    Kicked,
    NotKicked,
    Elapsed,
    Issued,
    IssueFailed(AcmeErrorView),
    Stored { not_after: Option<u64> },
    StoreFailed(AcmeErrorView),
}

impl View for RenewEvent {
    type V = RenewEventView;

    open spec fn view(&self) -> RenewEventView {
        match self {
            RenewEvent::Checked { not_after, wait, now } => RenewEventView::Checked {
                not_after: *not_after,
                wait: *wait,
                now: *now,
            },
            RenewEvent::Cancelled => RenewEventView::Cancelled,
            RenewEvent::KickClosed => RenewEventView::KickClosed,
            RenewEvent::Kicked => RenewEventView::Kicked,
            RenewEvent::NotKicked => RenewEventView::NotKicked,
            RenewEvent::Elapsed => RenewEventView::Elapsed,
            RenewEvent::Issued => RenewEventView::Issued,
            RenewEvent::IssueFailed(e) => RenewEventView::IssueFailed(e@),
            RenewEvent::Stored { not_after } => RenewEventView::Stored { not_after: *not_after },
            RenewEvent::StoreFailed(e) => RenewEventView::StoreFailed(e@),
        }
    }
}

/// What to tell whoever asked.
#[derive(Debug)]
pub enum Reply {
    /// Nobody is waiting for an answer.
    Nobody,
    Success,
    Failure(AcmeError),
}

/// The model of a [`Reply`].
pub enum ReplyView {
    Nobody,
    Success,
    Failure(AcmeErrorView),
}

impl View for Reply {
    type V = ReplyView;

    open spec fn view(&self) -> ReplyView {
        match self {
            Reply::Nobody => ReplyView::Nobody,
            Reply::Success => ReplyView::Success,
            Reply::Failure(e) => ReplyView::Failure(e@),
        }
    }
}

/// What to do next.
#[derive(Debug)]
pub enum RenewAction {
    /// Answer, then look at the certificate on disk.
    Check(Reply),
    /// Wait for this many seconds, unless asked or stopped before.
    Wait(u64),
    /// See whether somebody asked, without waiting.
    PollKick,
    /// Issue a certificate for the host and these names.
    Issue(Vec<String>),
    /// Write the certificate to disk, then reload the host.
    Store,
    /// Answer, then wait for this many seconds unless stopped before.
    Backoff(Reply, u64),
    Stop,
}

/// The model of a [`RenewAction`].
pub enum RenewActionView {
    Check(ReplyView),
    Wait(u64),
    PollKick,
    Issue(Seq<Seq<char>>),
    Store,
    Backoff(ReplyView, u64),
    Stop,
}

impl View for RenewAction {
    type V = RenewActionView;

    open spec fn view(&self) -> RenewActionView {
        match self {
            RenewAction::Check(r) => RenewActionView::Check(r@),
            RenewAction::Wait(t) => RenewActionView::Wait(*t),
            RenewAction::PollKick => RenewActionView::PollKick,
            RenewAction::Issue(v) => RenewActionView::Issue(texts(v@)),
            RenewAction::Store => RenewActionView::Store,
            RenewAction::Backoff(r, t) => RenewActionView::Backoff(r@, *t),
            RenewAction::Stop => RenewActionView::Stop,
        }
    }
}

/// The renewer of one host.
#[derive(Debug)]
pub struct Renewer {
    pub host: String,
    /// The configured domain, whose certificate is a wildcard one.
    pub domain: String,
    /// Whether somebody waits for an answer.
    pub asked: bool,
    pub phase: RenewPhase,
}

/// The model of a [`Renewer`].
pub struct RenewerView {
    pub host: Seq<char>,
    pub domain: Seq<char>,
    pub asked: bool,
    pub phase: RenewPhase,
}

impl View for Renewer {
    type V = RenewerView;

    open spec fn view(&self) -> RenewerView {
        RenewerView {
            host: self.host@,
            domain: self.domain@,
            asked: self.asked,
            phase: self.phase,
        }
    }
}

/// A step: where the renewer stands then, what is known of the host, and what
/// to do.
pub type RenewStep = (RenewerView, HostView, RenewActionView);

/// The time of the next renewal.
pub open spec fn next_renewal(wait: Option<u64>, now: u64) -> Option<u64> {
    match wait {
        Some(w) => Some(
            if now + w <= u64::MAX {
                (now + w) as u64
            } else {
                u64::MAX
            },
        ),
        None => None,
    }
}

/// What is known of a host after its certificate on disk was looked at.
pub open spec fn checked_host(
    h: HostView,
    not_after: Option<u64>,
    wait: Option<u64>,
    now: u64,
) -> HostView {
    HostView {
        next_renewal_unix: next_renewal(wait, now),
        not_after_unix: not_after,
        state: if not_after is Some && h.state == HostStatus::Pending {
            HostStatus::Active
        } else {
            h.state
        },
        ..h
    }
}

/// What is known of a host after an error.
pub open spec fn failed_host(h: HostView, e: AcmeErrorView) -> HostView {
    HostView { state: HostStatus::Error, last_error: Some(acme_error_text(e)), ..h }
}

/// What is known of a host after its certificate was stored.
pub open spec fn stored_host(h: HostView, not_after: Option<u64>) -> HostView {
    HostView { state: HostStatus::Active, last_error: None, not_after_unix: not_after, ..h }
}

/// The answer to whoever asked, where somebody did.
pub open spec fn answer(r: RenewerView, reply: ReplyView) -> ReplyView {
    if r.asked {
        reply
    } else {
        ReplyView::Nobody
    }
}

/// Issue now.
pub open spec fn issue_now(r: RenewerView, h: HostView, asked: bool) -> RenewStep {
    (
        RenewerView { asked, phase: RenewPhase::Issuing, ..r },
        h,
        RenewActionView::Issue(extra_names(r.host, r.domain)),
    )
}

/// Stop.
pub open spec fn stop_now(r: RenewerView, h: HostView) -> RenewStep {
    (RenewerView { phase: RenewPhase::Stopped, ..r }, h, RenewActionView::Stop)
}

/// What follows an event. An event that does not belong to the phase stops the
/// renewer.
pub open spec fn renew_step(r: RenewerView, h: HostView, event: RenewEventView) -> RenewStep {
    match (r.phase, event) {
        (RenewPhase::Checking, RenewEventView::Checked { not_after, wait, now }) => {
            let h2 = checked_host(h, not_after, wait, now);
            match wait {
                Some(w) => (
                    RenewerView { phase: RenewPhase::Waiting, ..r },
                    h2,
                    RenewActionView::Wait(w),
                ),
                None => (
                    RenewerView { phase: RenewPhase::Polling, ..r },
                    h2,
                    RenewActionView::PollKick,
                ),
            }
        },
        (RenewPhase::Waiting, RenewEventView::Kicked) => issue_now(r, h, true),
        (RenewPhase::Waiting, RenewEventView::Elapsed) => issue_now(r, h, r.asked),
        (RenewPhase::Polling, RenewEventView::Kicked) => issue_now(r, h, true),
        (RenewPhase::Polling, RenewEventView::NotKicked) => issue_now(r, h, r.asked),
        (RenewPhase::Issuing, RenewEventView::Issued) => (
            RenewerView { phase: RenewPhase::Storing, ..r },
            h,
            RenewActionView::Store,
        ),
        (RenewPhase::Issuing, RenewEventView::IssueFailed(e)) => (
            RenewerView { asked: false, phase: RenewPhase::BackingOff, ..r },
            failed_host(h, e),
            RenewActionView::Backoff(answer(r, ReplyView::Failure(e)), ISSUE_BACKOFF_SECS),
        ),
        (RenewPhase::Storing, RenewEventView::Stored { not_after }) => (
            RenewerView { asked: false, phase: RenewPhase::Checking, ..r },
            stored_host(h, not_after),
            RenewActionView::Check(answer(r, ReplyView::Success)),
        ),
        (RenewPhase::Storing, RenewEventView::StoreFailed(e)) => (
            RenewerView { asked: false, phase: RenewPhase::Checking, ..r },
            failed_host(h, e),
            RenewActionView::Check(answer(r, ReplyView::Failure(e))),
        ),
        (RenewPhase::BackingOff, RenewEventView::Elapsed) => (
            RenewerView { phase: RenewPhase::Checking, ..r },
            h,
            RenewActionView::Check(ReplyView::Nobody),
        ),
        _ => stop_now(r, h),
    }
}

/// A renewer that has done nothing yet, and what it does first.
pub open spec fn renewer_begun(host: Seq<char>, domain: Seq<char>) -> (RenewerView, RenewActionView) {
    (
        RenewerView { host, domain, asked: false, phase: RenewPhase::Checking },
        RenewActionView::Check(ReplyView::Nobody),
    )
}

impl Renewer {
    /// The renewer of a host.
    pub fn new(host: &str, domain: &str) -> (r: (Renewer, RenewAction))
        ensures
            (r.0@, r.1@) == renewer_begun(host@, domain@),
            r.0@ == (RenewerView {
                host: host@,
                domain: domain@,
                asked: false,
                phase: RenewPhase::Checking,
            }),
            r.1@ == RenewActionView::Check(ReplyView::Nobody),
    {
        let s = Renewer {
            host: host.to_owned(),
            domain: domain.to_owned(),
            asked: false,
            phase: RenewPhase::Checking,
        };
        (s, RenewAction::Check(Reply::Nobody))
    }

    fn issue(&mut self, asked: bool) -> (r: RenewAction)
        ensures
            forall|h: HostView|
                (final(self)@, h, r@) == #[trigger] issue_now(old(self)@, h, asked),
    {
        self.asked = asked;
        self.phase = RenewPhase::Issuing;
        RenewAction::Issue(extra_sans(self.host.as_str(), self.domain.as_str()))
    }

    fn reply(&mut self, reply: Reply) -> (r: Reply)
        ensures
            r@ == answer(old(self)@, reply@),
            final(self)@ == (RenewerView { asked: false, ..old(self)@ }),
    {
        let asked = self.asked;
        self.asked = false;
        if asked {
            reply
        } else {
            Reply::Nobody
        }
    }

    /// Decides what follows an event, and notes what was learned of the host.
    pub fn step(&mut self, host: &mut HostState, event: RenewEvent) -> (r: RenewAction)
        ensures
            (final(self)@, final(host)@, r@) == renew_step(old(self)@, old(host)@, event@),
    {
        match (self.phase, event) {
            (RenewPhase::Checking, RenewEvent::Checked { not_after, wait, now }) => {
                host.next_renewal_unix = match wait {
                    Some(w) => Some(now.saturating_add(w)),
                    None => None,
                };
                host.not_after_unix = not_after;
                if not_after.is_some() && host.state == HostStatus::Pending {
                    host.state = HostStatus::Active;
                }
                match wait {
                    Some(w) => {
                        self.phase = RenewPhase::Waiting;
                        RenewAction::Wait(w)
                    },
                    None => {
                        self.phase = RenewPhase::Polling;
                        RenewAction::PollKick
                    },
                }
            },
            (RenewPhase::Waiting, RenewEvent::Kicked) => self.issue(true),
            (RenewPhase::Waiting, RenewEvent::Elapsed) => {
                let asked = self.asked;
                self.issue(asked)
            },
            (RenewPhase::Polling, RenewEvent::Kicked) => self.issue(true),
            (RenewPhase::Polling, RenewEvent::NotKicked) => {
                let asked = self.asked;
                self.issue(asked)
            },
            (RenewPhase::Issuing, RenewEvent::Issued) => {
                self.phase = RenewPhase::Storing;
                RenewAction::Store
            },
            (RenewPhase::Issuing, RenewEvent::IssueFailed(e)) => {
                host.state = HostStatus::Error;
                host.last_error = Some(e.message());
                let reply = self.reply(Reply::Failure(clone_acme_error(&e)));
                self.phase = RenewPhase::BackingOff;
                RenewAction::Backoff(reply, ISSUE_BACKOFF_SECS)
            },
            (RenewPhase::Storing, RenewEvent::Stored { not_after }) => {
                host.state = HostStatus::Active;
                host.last_error = None;
                host.not_after_unix = not_after;
                let reply = self.reply(Reply::Success);
                self.phase = RenewPhase::Checking;
                RenewAction::Check(reply)
            },
            (RenewPhase::Storing, RenewEvent::StoreFailed(e)) => {
                host.state = HostStatus::Error;
                host.last_error = Some(e.message());
                let reply = self.reply(Reply::Failure(e));
                self.phase = RenewPhase::Checking;
                RenewAction::Check(reply)
            },
            (RenewPhase::BackingOff, RenewEvent::Elapsed) => {
                self.phase = RenewPhase::Checking;
                RenewAction::Check(Reply::Nobody)
            },
            _ => {
                self.phase = RenewPhase::Stopped;
                RenewAction::Stop
            },
        }
    }
}

/// The answer that an action carries.
pub open spec fn reply_of(a: RenewActionView) -> ReplyView {
    match a {
        RenewActionView::Check(r) => r,
        RenewActionView::Backoff(r, _) => r,
        _ => ReplyView::Nobody,
    }
}

/// Law: whoever asks is answered exactly once: as soon as the attempt that the
/// question started has succeeded or failed. Nobody else is.
pub proof fn law_question_is_answered_once(r: RenewerView, h: HostView, event: RenewEventView)
    ensures
        !r.asked ==> reply_of(renew_step(r, h, event).2) is Nobody,
        !(reply_of(renew_step(r, h, event).2) is Nobody) ==> r.asked && !renew_step(
            r,
            h,
            event,
        ).0.asked,
        r.asked && renew_step(r, h, event).0.phase != RenewPhase::Stopped && !renew_step(
            r,
            h,
            event,
        ).0.asked ==> !(reply_of(renew_step(r, h, event).2) is Nobody),
        event is Kicked && (r.phase == RenewPhase::Waiting || r.phase == RenewPhase::Polling)
            ==> renew_step(r, h, event).0.asked && renew_step(r, h, event).2 is Issue,
{
}

/// Law: a stored certificate makes the host active and clears its error; a
/// failure, of issuance or of storing, marks it and keeps the message.
pub proof fn law_outcome_is_noted(r: RenewerView, h: HostView, event: RenewEventView)
    requires
        r.phase == RenewPhase::Issuing || r.phase == RenewPhase::Storing,
    ensures
        r.phase == RenewPhase::Storing && event is Stored ==> renew_step(r, h, event).1.state
            == HostStatus::Active && renew_step(r, h, event).1.last_error is None,
        r.phase == RenewPhase::Issuing && event is IssueFailed ==> renew_step(r, h, event).1.state
            == HostStatus::Error && renew_step(r, h, event).1.last_error == Some(
            acme_error_text(event->IssueFailed_0),
        ),
        r.phase == RenewPhase::Storing && event is StoreFailed ==> renew_step(r, h, event).1.state
            == HostStatus::Error && renew_step(r, h, event).1.last_error == Some(
            acme_error_text(event->StoreFailed_0),
        ),
{
}

/// Law: a renewal is planned within the jitter of the expiry less the safety
/// margin, to either side; and before the expiry wherever the margin is larger
/// than the jitter.
pub proof fn law_renewal_is_in_time(
    not_after: u64,
    renew_before: u64,
    renew_jitter: u64,
    pick: u64,
    later: bool,
    now: u64,
)
    requires
        jitter_pick(renew_jitter, pick),
        renewal_wait(not_after, renew_before, offset(pick, later), now) is Some,
    ensures
        ({
            let at = now + renewal_wait(not_after, renew_before, offset(pick, later), now)->0;
            &&& !later ==> at <= not_after - renew_before
            &&& at <= not_after - renew_before + renew_jitter
            &&& not_after - renew_before - renew_jitter <= at
            &&& renew_jitter <= renew_before ==> at <= not_after
        }),
{
}

/// Law: a certificate is renewed the margin before its expiry, moved by the
/// jitter to the given side; at once where that time has passed, where the
/// margin is already reached without the jitter, and where the clock cannot be
/// read.
pub proof fn law_renewal_waits_for_the_margin(
    not_after: u64,
    renew_before: u64,
    jitter: u64,
    now: u64,
)
    ensures
        now < not_after && now + renew_before <= not_after && not_after - now - renew_before
            + jitter <= u64::MAX ==> clocked_wait(
            not_after,
            renew_before,
            offset(jitter, true),
            Some(now),
        ) == Some((not_after - now - renew_before + jitter) as u64),
        now < not_after && now + renew_before + jitter <= not_after ==> clocked_wait(
            not_after,
            renew_before,
            offset(jitter, false),
            Some(now),
        ) == Some((not_after - now - renew_before - jitter) as u64),
        now + renew_before + jitter > not_after ==> clocked_wait(
            not_after,
            renew_before,
            offset(jitter, false),
            Some(now),
        ) is None,
        not_after <= now || now + renew_before > not_after ==> clocked_wait(
            not_after,
            renew_before,
            offset(jitter, true),
            Some(now),
        ) is None,
        clocked_wait(not_after, renew_before, offset(jitter, true), None) is None,
        clocked_wait(not_after, renew_before, offset(jitter, false), None) is None,
{
}

/// Law: jitter is below its bound, and none where the bound is zero.
pub proof fn law_jitter_is_bounded(bound: u64, pick: u64)
    ensures
        jitter_pick(bound, pick) <==> pick < bound || (bound == 0 && pick == 0),
{
}

/// Law: the certificate of the configured domain itself covers one level of
/// subdomains too; that of any other host covers the host alone.
pub proof fn law_domain_gets_a_wildcard(host: Seq<char>, domain: Seq<char>)
    ensures
        host == domain ==> extra_names(host, domain) == seq!["*."@ + domain],
        host != domain ==> extra_names(host, domain).len() == 0,
{
}

/// Law: an expiry that was read is given as it is; what could not be read is an
/// error that names the file and the part.
pub proof fn law_unreadable_expiry_names_the_file(path: Seq<char>, t: u64, m: Seq<char>)
    ensures
        expiry_or_error(path, Ok(t)) == Ok::<u64, AcmeErrorView>(t),
        expiry_or_error(path, Err((NotAfterStage::Pem, m))) == Err::<u64, AcmeErrorView>(
            AcmeErrorView::Storage {
                host: "<unknown>"@,
                detail: "parse PEM at "@ + path + ": "@ + m,
            },
        ),
        expiry_or_error(path, Err((NotAfterStage::X509, m))) == Err::<u64, AcmeErrorView>(
            AcmeErrorView::Storage {
                host: "<unknown>"@,
                detail: "parse X.509 at "@ + path + ": "@ + m,
            },
        ),
{
}

/// Law: a renewer that has looked at the certificate on disk waits as long as
/// it was told, or goes on at once where it is time; it notes the expiry and
/// the time of the renewal, and takes a host that was pending as active where
/// there is a certificate. Nothing else of the host changes.
pub proof fn law_renewer_waits_as_told(
    r: RenewerView,
    h: HostView,
    not_after: Option<u64>,
    wait: u64,
    now: u64,
)
    requires
        r.phase == RenewPhase::Checking,
    ensures
        ({
            let told = renew_step(
                r,
                h,
                RenewEventView::Checked { not_after, wait: Some(wait), now },
            );
            let due = renew_step(r, h, RenewEventView::Checked { not_after, wait: None, now });
            let state = if h.state == HostStatus::Pending && not_after is Some {
                HostStatus::Active
            } else {
                h.state
            };
            &&& told.2 == RenewActionView::Wait(wait)
            &&& told.0 == (RenewerView { phase: RenewPhase::Waiting, ..r })
            &&& told.1.not_after_unix == not_after
            &&& told.1.next_renewal_unix is Some
            &&& now + wait <= u64::MAX ==> told.1.next_renewal_unix->0 == now + wait
            &&& now + wait > u64::MAX ==> told.1.next_renewal_unix->0 == u64::MAX
            &&& told.1 == (HostView {
                state,
                not_after_unix: told.1.not_after_unix,
                next_renewal_unix: told.1.next_renewal_unix,
                ..h
            })
            &&& due.2 == RenewActionView::PollKick
            &&& due.0 == (RenewerView { phase: RenewPhase::Polling, ..r })
            &&& due.1 == (HostView {
                state,
                not_after_unix: not_after,
                next_renewal_unix: None,
                ..h
            })
        }),
{
}

/// Law: a renewer issues when its time is over, when it is asked, and when it
/// is due and nobody asked; it stores what was issued, looks again at what was
/// stored, and looks again five minutes after a failed issuance.
pub proof fn law_renewer_goes_round(r: RenewerView, h: HostView, e: AcmeErrorView, t: Option<u64>)
    ensures
        ({
            let names = if r.host == r.domain {
                seq!["*."@ + r.host]
            } else {
                Seq::empty()
            };
            let waiting = RenewerView { phase: RenewPhase::Waiting, ..r };
            let polling = RenewerView { phase: RenewPhase::Polling, ..r };
            let issuing = RenewerView { phase: RenewPhase::Issuing, ..r };
            let storing = RenewerView { phase: RenewPhase::Storing, ..r };
            let resting = RenewerView { phase: RenewPhase::BackingOff, ..r };
            let checking = RenewerView { phase: RenewPhase::Checking, ..r };
            &&& renew_step(waiting, h, RenewEventView::Elapsed) == (
                issuing,
                h,
                RenewActionView::Issue(names),
            )
            &&& renew_step(polling, h, RenewEventView::NotKicked) == (
                issuing,
                h,
                RenewActionView::Issue(names),
            )
            &&& renew_step(waiting, h, RenewEventView::Kicked) == (
                RenewerView { asked: true, ..issuing },
                h,
                RenewActionView::Issue(names),
            )
            &&& renew_step(polling, h, RenewEventView::Kicked) == (
                RenewerView { asked: true, ..issuing },
                h,
                RenewActionView::Issue(names),
            )
            &&& renew_step(issuing, h, RenewEventView::Issued) == (
                storing,
                h,
                RenewActionView::Store,
            )
            &&& renew_step(storing, h, RenewEventView::Stored { not_after: t }).2 is Check
            &&& renew_step(storing, h, RenewEventView::Stored { not_after: t }).0
                == (RenewerView { asked: false, ..checking })
            &&& renew_step(
                storing,
                h,
                RenewEventView::Stored { not_after: t },
            ).1.not_after_unix == t
            &&& renew_step(storing, h, RenewEventView::StoreFailed(e)).2 is Check
            &&& renew_step(storing, h, RenewEventView::StoreFailed(e)).0 == (RenewerView {
                asked: false,
                ..checking
            })
            &&& renew_step(issuing, h, RenewEventView::IssueFailed(e)).2 is Backoff
            &&& renew_step(issuing, h, RenewEventView::IssueFailed(e)).2->Backoff_1 == 5 * 60
            &&& renew_step(issuing, h, RenewEventView::IssueFailed(e)).0 == (RenewerView {
                asked: false,
                ..resting
            })
            &&& renew_step(resting, h, RenewEventView::Elapsed) == (
                checking,
                h,
                RenewActionView::Check(ReplyView::Nobody),
            )
        }),
{
}

/// Law: whoever asked hears of success when the certificate is stored, and of
/// the very error when the attempt failed.
pub proof fn law_answer_tells_the_outcome(
    r: RenewerView,
    h: HostView,
    e: AcmeErrorView,
    t: Option<u64>,
)
    requires
        r.asked,
    ensures
        r.phase == RenewPhase::Storing ==> renew_step(
            r,
            h,
            RenewEventView::Stored { not_after: t },
        ).2 == RenewActionView::Check(ReplyView::Success),
        r.phase == RenewPhase::Storing ==> renew_step(r, h, RenewEventView::StoreFailed(e)).2
            == RenewActionView::Check(ReplyView::Failure(e)),
        r.phase == RenewPhase::Issuing ==> renew_step(r, h, RenewEventView::IssueFailed(e)).2
            == RenewActionView::Backoff(ReplyView::Failure(e), 300),
{
}

/// Law: a renewer stops in every phase when the daemon is stopped or nobody can
/// ask any more, and leaves the host as it is.
pub proof fn law_renewer_stops(r: RenewerView, h: HostView)
    ensures
        renew_step(r, h, RenewEventView::Cancelled) == (
            RenewerView { phase: RenewPhase::Stopped, ..r },
            h,
            RenewActionView::Stop,
        ),
        renew_step(r, h, RenewEventView::KickClosed) == (
            RenewerView { phase: RenewPhase::Stopped, ..r },
            h,
            RenewActionView::Stop,
        ),
{
}

/// Law: a renewer begins with a look at the certificate on disk, before anybody
/// has asked, so that a certificate that is not due is not renewed.
pub proof fn law_renewer_looks_first(
    host: Seq<char>,
    domain: Seq<char>,
    h: HostView,
    not_after: Option<u64>,
    wait: u64,
    now: u64,
)
    ensures
        renewer_begun(host, domain).0.host == host,
        renewer_begun(host, domain).0.domain == domain,
        !renewer_begun(host, domain).0.asked,
        renewer_begun(host, domain).1 == RenewActionView::Check(ReplyView::Nobody),
        renew_step(
            renewer_begun(host, domain).0,
            h,
            RenewEventView::Checked { not_after, wait: Some(wait), now },
        ).2 == RenewActionView::Wait(wait),
{
}

} // verus!
