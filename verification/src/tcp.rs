//! Decisions of a per-rule TCP proxy: what an accepted connection is for, what
//! goes to the upstream before the two sides are copied into each other, and
//! how a proxy winds down.
//!
//! Sockets are driven from outside. Each decision takes what just happened and
//! says what to do next.

use vstd::prelude::*;
use vstd::string::*;

use crate::addr::{addr_ip, addr_of, addr_port, SocketAddr};
use crate::canary::{
    arm_key, armed, arms_at, law_only_the_armed_token_matches, matches_arm, ArmModel,
    CanaryArmTable,
};
use crate::proxy_protocol::{
    decode_step, encode_header, law_decision_is_stable, law_reader_stays_in_header,
    law_v1_round_trip, law_v2_round_trip, lemma_parse_bounds, parse, proxy_header, Parsed,
};
use crate::resolver::{target_of, UpstreamResolver};
use crate::rule::{Protocol, ProxyProto};

verus! {

/// Backlog of each listener.
pub const LISTEN_BACKLOG: i32 = 1024;

/// Copy buffer per direction, in bytes.
pub const FORWARD_BUFFER_SIZE: usize = 32768;

/// How long to wait for the first bytes of a connection while a canary is
/// armed, in milliseconds.
pub const CANARY_PEEK_TIMEOUT_MS: u64 = 200;

/// How long to wait for cancelled connections to wind down, in milliseconds.
pub const CANCEL_GRACE_MS: u64 = 250;

/// How to bind a rule's listeners.
#[derive(Clone, Copy, Debug, PartialEq, Eq, Structural)]
pub enum ListenerPlan {
    /// Refused: a rule needs a worker.
    NoWorker,
    /// One plain listener.
    Single,
    /// This many listeners that share the port; all but the first bind the
    /// address that the first got.
    Shared(usize),
}

/// How to bind a rule's listeners.
pub open spec fn listener_plan(workers: usize) -> ListenerPlan {
    if workers == 0 {
        ListenerPlan::NoWorker
    } else if workers == 1 {
        ListenerPlan::Single
    } else {
        ListenerPlan::Shared(workers)
    }
}

/// Decides how to bind a rule's listeners.
pub fn plan_listeners(workers: usize) -> (r: ListenerPlan)
    ensures
        r == listener_plan(workers),
{
    if workers == 0 {
        ListenerPlan::NoWorker
    } else if workers == 1 {
        ListenerPlan::Single
    } else {
        ListenerPlan::Shared(workers)
    }
}

/// What happened in the accept loop.
pub enum AcceptEvent<'a> {
    /// The proxy is being stopped.
    Cancelled,
    /// `accept` failed.
    AcceptFailed,
    /// A connection came in.
    Accepted,
    /// The first bytes of the connection were peeked; none where that failed
    /// or took too long.
    Peeked(Option<&'a [u8]>),
}

/// What the accept loop does next.
#[derive(Clone, Copy, Debug, PartialEq, Eq, Structural)]
pub enum AcceptAction {
    /// Leave the loop.
    Stop,
    /// Accept the next connection.
    AcceptNext,
    /// Peek the first bytes of the connection, without consuming them.
    Peek,
    /// Echo the connection in process, after its token.
    Echo,
    /// Close the connection: there is no dial target yet.
    DropNoTarget,
    /// Forward the connection to this target.
    Forward(SocketAddr),
}

/// Forward to the dial target, or drop without one.
pub open spec fn forward_or_drop(target: Option<SocketAddr>) -> AcceptAction {
    match target {
        Some(t) => AcceptAction::Forward(t),
        None => AcceptAction::DropNoTarget,
    }
}

/// The peeked bytes open with a token that is armed on the listener.
pub open spec fn opens_with_token(
    arms: ArmModel,
    local: SocketAddr,
    peeked: Option<Seq<u8>>,
    now: u64,
) -> bool {
    peeked is Some && peeked->0.len() >= 32 && matches_arm(
        arms,
        arm_key(local, Protocol::Tcp),
        peeked->0.subrange(0, 32),
        now,
    )
}

/// View of peeked bytes.
pub open spec fn peek_view(p: Option<&[u8]>) -> Option<Seq<u8>> {
    match p {
        Some(b) => Some(b@),
        None => None,
    }
}

/// What the accept loop does next.
pub open spec fn accept_step(
    arms: ArmModel,
    local: SocketAddr,
    target: Option<SocketAddr>,
    now: u64,
    event: AcceptEvent,
) -> AcceptAction {
    match event {
        AcceptEvent::Cancelled => AcceptAction::Stop,
        AcceptEvent::AcceptFailed => AcceptAction::AcceptNext,
        AcceptEvent::Accepted => if armed(arms, arm_key(local, Protocol::Tcp), now) {
            AcceptAction::Peek
        } else {
            forward_or_drop(target)
        },
        AcceptEvent::Peeked(p) => if opens_with_token(arms, local, peek_view(p), now) {
            AcceptAction::Echo
        } else {
            forward_or_drop(target)
        },
    }
}

/// Whether the peeked bytes open with a token that is armed on the listener.
pub fn match_peeked(arms: &CanaryArmTable, local: SocketAddr, peeked: Option<&[u8]>, now: u64) -> (r:
    bool)
    ensures
        r == opens_with_token(arms@, local, peek_view(peeked), now),
        r ==> peeked is Some && peeked->0@.len() >= 32 && exists|i: int|
            0 <= i < arms_at(arms@, arm_key(local, Protocol::Tcp)).len() && (#[trigger] arms_at(
                arms@,
                arm_key(local, Protocol::Tcp),
            )[i]).0 == peeked->0@.subrange(0, 32) && now < arms_at(
                arms@,
                arm_key(local, Protocol::Tcp),
            )[i].1,
{
    let bytes = match peeked {
        Some(b) => b,
        None => {
            return false;
        },
    };
    if bytes.len() < 32 {
        return false;
    }
    let mut token: [u8; 32] = [0u8; 32];
    for i in 0..32usize
        invariant
            bytes@.len() >= 32,
            forall|j: int| 0 <= j < i ==> token@[j] == bytes@[j],
    {
        token[i] = bytes[i];
    }
    assert(token@ =~= bytes@.subrange(0, 32));
    arms.match_token_at(local, Protocol::Tcp, &token, now)
}

/// Decides what the accept loop does next. `peer` is the enrolled peer's
/// address where it is known.
pub fn next_accept(
    arms: &CanaryArmTable,
    local: SocketAddr,
    resolver: &UpstreamResolver,
    peer: Option<crate::addr::IpAddr>,
    now: u64,
    event: AcceptEvent,
) -> (r: AcceptAction)
    ensures
        r == accept_step(arms@, local, target_of(*resolver, peer), now, event),
{
    let divert = match event {
        AcceptEvent::Cancelled => {
            return AcceptAction::Stop;
        },
        AcceptEvent::AcceptFailed => {
            return AcceptAction::AcceptNext;
        },
        AcceptEvent::Accepted => {
            if arms.is_armed_at(local, Protocol::Tcp, now) {
                return AcceptAction::Peek;
            }
            false
        },
        AcceptEvent::Peeked(p) => match_peeked(arms, local, p, now),
    };
    if divert {
        return AcceptAction::Echo;
    }
    match resolver.current_target(peer) {
        Some(t) => AcceptAction::Forward(t),
        None => AcceptAction::DropNoTarget,
    }
}

/// Why a forwarded connection ended.
#[derive(Clone, Copy, Debug, PartialEq, Eq, Structural)]
pub enum CloseReason {
    /// The upstream could not be reached. The upstream has got no byte.
    ConnectFailed,
    /// The inbound PROXY header could not be read or was malformed.
    HeaderFailed,
    /// The PROXY header could not be written.
    HeaderWriteFailed,
    /// Bytes read while looking for a header could not be passed on.
    LeftoverWriteFailed,
    /// The proxy is being stopped.
    Cancelled,
    /// Both sides were copied to their end.
    Finished,
    /// A peer went away.
    PeerClosed,
    /// Copying failed.
    CopyFailed,
}

/// Where a forwarded connection stands.
#[derive(Debug)]
pub enum ConnState {
    Connecting,
    /// Reading the inbound PROXY header; these bytes were read so far.
    Reading(Vec<u8>),
    /// Writing the PROXY header; these bytes come after it.
    WritingHeader(Vec<u8>),
    WritingLeftover,
    Copying,
    Closed,
}

/// The model of a [`ConnState`].
pub enum ConnStateView {
    Connecting,
    Reading(Seq<u8>),
    WritingHeader(Seq<u8>),
    WritingLeftover,
    Copying,
    Closed,
}

impl View for ConnState {
    type V = ConnStateView;

    open spec fn view(&self) -> ConnStateView {
        match self {
            ConnState::Connecting => ConnStateView::Connecting,
            ConnState::Reading(b) => ConnStateView::Reading(b@),
            ConnState::WritingHeader(b) => ConnStateView::WritingHeader(b@),
            ConnState::WritingLeftover => ConnStateView::WritingLeftover,
            ConnState::Copying => ConnStateView::Copying,
            ConnState::Closed => ConnStateView::Closed,
        }
    }
}

/// How a connection that failed while it was copied went away.
#[derive(Clone, Copy, Debug, PartialEq, Eq, Structural)]
pub enum IoFault {
    ConnectionReset,
    ConnectionAborted,
    BrokenPipe,
    UnexpectedEof,
    Other,
}

/// A fault is a peer going away.
pub open spec fn peer_went(fault: IoFault) -> bool {
    fault == IoFault::ConnectionReset || fault == IoFault::ConnectionAborted || fault
        == IoFault::BrokenPipe || fault == IoFault::UnexpectedEof
}

/// Whether a fault is a peer going away, which is no trouble.
pub fn is_benign_close(fault: IoFault) -> (r: bool)
    ensures
        r == peer_went(fault),
{
    match fault {
        IoFault::ConnectionReset | IoFault::ConnectionAborted | IoFault::BrokenPipe
        | IoFault::UnexpectedEof => true,
        IoFault::Other => false,
    }
}

/// What happened on a forwarded connection.
#[derive(Debug)]
pub enum ConnEvent {
    Connected,
    ConnectFailed,
    /// Bytes came from the client, as many as were asked for.
    Read(Vec<u8>),
    /// The client sent no more.
    Eof,
    ReadFailed,
    Written,
    WriteFailed,
    Copied,
    CopyFailed(IoFault),
    Cancelled,
}

/// The model of a [`ConnEvent`].
pub enum ConnEventView {
    Connected,
    ConnectFailed,
    Read(Seq<u8>),
    Eof,
    ReadFailed,
    Written,
    WriteFailed,
    Copied,
    CopyFailed(IoFault),
    Cancelled,
}

impl View for ConnEvent {
    type V = ConnEventView;

    open spec fn view(&self) -> ConnEventView {
        match self {
            ConnEvent::Connected => ConnEventView::Connected,
            ConnEvent::ConnectFailed => ConnEventView::ConnectFailed,
            ConnEvent::Read(b) => ConnEventView::Read(b@),
            ConnEvent::Eof => ConnEventView::Eof,
            ConnEvent::ReadFailed => ConnEventView::ReadFailed,
            ConnEvent::Written => ConnEventView::Written,
            ConnEvent::WriteFailed => ConnEventView::WriteFailed,
            ConnEvent::Copied => ConnEventView::Copied,
            ConnEvent::CopyFailed(f) => ConnEventView::CopyFailed(*f),
            ConnEvent::Cancelled => ConnEventView::Cancelled,
        }
    }
}

/// What to do on a forwarded connection.
#[derive(Debug)]
pub enum ConnAction {
    /// Connect to the upstream.
    Connect(SocketAddr),
    /// Read exactly this many bytes from the client.
    Read(usize),
    /// Write these bytes to the upstream.
    Write(Vec<u8>),
    /// Copy the two sides into each other.
    Copy,
    /// Close both sides.
    Close(CloseReason),
}

/// The model of a [`ConnAction`].
pub enum ConnActionView {
    Connect(SocketAddr),
    Read(usize),
    Write(Seq<u8>),
    Copy,
    Close(CloseReason),
}

impl View for ConnAction {
    type V = ConnActionView;

    open spec fn view(&self) -> ConnActionView {
        match self {
            ConnAction::Connect(t) => ConnActionView::Connect(*t),
            ConnAction::Read(n) => ConnActionView::Read(*n),
            ConnAction::Write(b) => ConnActionView::Write(b@),
            ConnAction::Copy => ConnActionView::Copy,
            ConnAction::Close(r) => ConnActionView::Close(*r),
        }
    }
}

/// A forwarded connection.
#[derive(Debug)]
pub struct Connection {
    /// The client: the peer itself until an inbound header says otherwise.
    pub client: SocketAddr,
    pub target: SocketAddr,
    pub server_listen: SocketAddr,
    /// Version of the header to emit, if any.
    pub proxy_protocol: Option<ProxyProto>,
    /// Whether the previous hop announces the client in a PROXY header.
    pub expect_inbound_proxy: bool,
    pub state: ConnState,
}

/// The model of a [`Connection`].
pub struct ConnView {
    pub client: SocketAddr,
    pub target: SocketAddr,
    pub server_listen: SocketAddr,
    pub proxy_protocol: Option<ProxyProto>,
    pub expect_inbound_proxy: bool,
    pub state: ConnStateView,
}

impl View for Connection {
    type V = ConnView;

    open spec fn view(&self) -> ConnView {
        ConnView {
            client: self.client,
            target: self.target,
            server_listen: self.server_listen,
            proxy_protocol: self.proxy_protocol,
            expect_inbound_proxy: self.expect_inbound_proxy,
            state: self.state@,
        }
    }
}

/// A step of a connection: where it stands then, and what to do.
pub type ConnStep = (ConnView, ConnActionView);

/// The connection is over.
pub open spec fn closed(c: ConnView, reason: CloseReason) -> ConnStep {
    (ConnView { state: ConnStateView::Closed, ..c }, ConnActionView::Close(reason))
}

/// The bytes read while looking for a header go out next, if there are any;
/// then the two sides are copied.
pub open spec fn after_header(c: ConnView, leftover: Seq<u8>) -> ConnStep {
    if leftover.len() > 0 {
        (ConnView { state: ConnStateView::WritingLeftover, ..c }, ConnActionView::Write(leftover))
    } else {
        (ConnView { state: ConnStateView::Copying, ..c }, ConnActionView::Copy)
    }
}

/// The header for the client, where one is configured, goes out before any
/// other byte.
pub open spec fn open_upstream(c: ConnView, leftover: Seq<u8>) -> ConnStep {
    match c.proxy_protocol {
        Some(v) => (
            ConnView { state: ConnStateView::WritingHeader(leftover), ..c },
            ConnActionView::Write(proxy_header(v, c.client, c.server_listen)),
        ),
        None => after_header(c, leftover),
    }
}

/// The bytes read so far are looked at.
pub open spec fn look_at(c: ConnView, bytes: Seq<u8>) -> ConnStep {
    match parse(bytes) {
        Parsed::Short(n) => (
            ConnView { state: ConnStateView::Reading(bytes), ..c },
            ConnActionView::Read(n),
        ),
        Parsed::Plain(_) => open_upstream(c, bytes),
        Parsed::Header(_, Some(e)) => open_upstream(ConnView { client: e.client, ..c }, Seq::empty()),
        Parsed::Header(_, None) => open_upstream(c, Seq::empty()),
        Parsed::Bad(_) => closed(c, CloseReason::HeaderFailed),
    }
}

/// What follows an event. An event that does not fit where the connection
/// stands closes it.
pub open spec fn conn_step(c: ConnView, event: ConnEventView) -> ConnStep {
    match (c.state, event) {
        (_, ConnEventView::Cancelled) => closed(c, CloseReason::Cancelled),
        (ConnStateView::Connecting, ConnEventView::Connected) => if c.expect_inbound_proxy {
            look_at(c, Seq::empty())
        } else {
            open_upstream(c, Seq::empty())
        },
        (ConnStateView::Connecting, _) => closed(c, CloseReason::ConnectFailed),
        (ConnStateView::Reading(b), ConnEventView::Read(more)) => look_at(c, b + more),
        (ConnStateView::Reading(b), ConnEventView::Eof) => if b.len() == 0 {
            open_upstream(c, Seq::empty())
        } else {
            closed(c, CloseReason::HeaderFailed)
        },
        (ConnStateView::Reading(_), _) => closed(c, CloseReason::HeaderFailed),
        (ConnStateView::WritingHeader(leftover), ConnEventView::Written) => after_header(
            c,
            leftover,
        ),
        (ConnStateView::WritingHeader(_), _) => closed(c, CloseReason::HeaderWriteFailed),
        (ConnStateView::WritingLeftover, ConnEventView::Written) => after_header(
            c,
            Seq::empty(),
        ),
        (ConnStateView::WritingLeftover, _) => closed(c, CloseReason::LeftoverWriteFailed),
        (ConnStateView::Copying, ConnEventView::Copied) => closed(c, CloseReason::Finished),
        (ConnStateView::Copying, ConnEventView::CopyFailed(f)) => if f != IoFault::Other {
            closed(c, CloseReason::PeerClosed)
        } else {
            closed(c, CloseReason::CopyFailed)
        },
        (ConnStateView::Copying, _) => closed(c, CloseReason::CopyFailed),
        (ConnStateView::Closed, _) => closed(c, CloseReason::Finished),
    }
}

impl Connection {
    /// An accepted connection that is to be forwarded.
    pub fn new(
        client: SocketAddr,
        target: SocketAddr,
        server_listen: SocketAddr,
        proxy_protocol: Option<ProxyProto>,
        expect_inbound_proxy: bool,
    ) -> (r: (Connection, ConnAction))
        ensures
            r.0@ == (ConnView {
                client,
                target,
                server_listen,
                proxy_protocol,
                expect_inbound_proxy,
                state: ConnStateView::Connecting,
            }),
            r.1@ == ConnActionView::Connect(target),
    {
        let c = Connection {
            client,
            target,
            server_listen,
            proxy_protocol,
            expect_inbound_proxy,
            state: ConnState::Connecting,
        };
        (c, ConnAction::Connect(target))
    }

    fn close(&mut self, reason: CloseReason) -> (r: ConnAction)
        ensures
            (final(self)@, r@) == closed(old(self)@, reason),
    {
        self.state = ConnState::Closed;
        ConnAction::Close(reason)
    }

    fn pass_leftover(&mut self, leftover: Vec<u8>) -> (r: ConnAction)
        ensures
            (final(self)@, r@) == after_header(old(self)@, leftover@),
    {
        if leftover.len() > 0 {
            self.state = ConnState::WritingLeftover;
            ConnAction::Write(leftover)
        } else {
            self.state = ConnState::Copying;
            ConnAction::Copy
        }
    }

    fn greet_upstream(&mut self, leftover: Vec<u8>) -> (r: ConnAction)
        ensures
            (final(self)@, r@) == open_upstream(old(self)@, leftover@),
    {
        match self.proxy_protocol {
            Some(v) => {
                self.state = ConnState::WritingHeader(leftover);
                ConnAction::Write(encode_header(v, self.client, self.server_listen))
            },
            None => self.pass_leftover(leftover),
        }
    }

    fn look(&mut self, bytes: Vec<u8>) -> (r: ConnAction)
        ensures
            (final(self)@, r@) == look_at(old(self)@, bytes@),
    {
        match decode_step(bytes.as_slice()) {
            Parsed::Short(n) => {
                self.state = ConnState::Reading(bytes);
                ConnAction::Read(n)
            },
            Parsed::Plain(_) => self.greet_upstream(bytes),
            Parsed::Header(_, e) => {
                if let Some(e) = e {
                    self.client = e.client;
                }
                let none: Vec<u8> = Vec::new();
                assert(none@ =~= Seq::<u8>::empty());
                self.greet_upstream(none)
            },
            Parsed::Bad(_) => self.close(CloseReason::HeaderFailed),
        }
    }

    /// Decides what follows an event.
    pub fn step(&mut self, event: ConnEvent) -> (r: ConnAction)
        ensures
            (final(self)@, r@) == conn_step(old(self)@, event@),
    {
        let ghost before = self@;
        if let ConnEvent::Cancelled = event {
            return self.close(CloseReason::Cancelled);
        }
        let mut state = ConnState::Closed;
        core::mem::swap(&mut self.state, &mut state);
        let none: Vec<u8> = Vec::new();
        assert(none@ =~= Seq::<u8>::empty());
        match state {
            ConnState::Connecting => match event {
                ConnEvent::Connected => {
                    if self.expect_inbound_proxy {
                        self.look(none)
                    } else {
                        self.greet_upstream(none)
                    }
                },
                _ => self.close(CloseReason::ConnectFailed),
            },
            ConnState::Reading(bytes) => match event {
                ConnEvent::Read(more) => {
                    let mut all = bytes;
                    let mut more = more;
                    all.append(&mut more);
                    self.look(all)
                },
                ConnEvent::Eof => {
                    if bytes.len() == 0 {
                        self.greet_upstream(none)
                    } else {
                        self.close(CloseReason::HeaderFailed)
                    }
                },
                _ => self.close(CloseReason::HeaderFailed),
            },
            ConnState::WritingHeader(leftover) => match event {
                ConnEvent::Written => self.pass_leftover(leftover),
                _ => self.close(CloseReason::HeaderWriteFailed),
            },
            ConnState::WritingLeftover => match event {
                ConnEvent::Written => self.pass_leftover(none),
                _ => self.close(CloseReason::LeftoverWriteFailed),
            },
            ConnState::Copying => match event {
                ConnEvent::Copied => self.close(CloseReason::Finished),
                ConnEvent::CopyFailed(f) => {
                    if is_benign_close(f) {
                        self.close(CloseReason::PeerClosed)
                    } else {
                        self.close(CloseReason::CopyFailed)
                    }
                },
                _ => self.close(CloseReason::CopyFailed),
            },
            ConnState::Closed => self.close(CloseReason::Finished),
        }
    }
}

/// Law: a connection that expects no inbound header never reads from the client
/// before it copies, so that a server that speaks first is not waited for.
pub proof fn law_no_read_unless_expected(c: ConnView, event: ConnEventView)
    requires
        !c.expect_inbound_proxy,
        !(c.state is Reading),
    ensures
        !(conn_step(c, event).1 is Read),
        !(conn_step(c, event).0.state is Reading),
        conn_step(c, event).0.client == c.client,
{
}

/// Law: the first bytes that the upstream gets are the configured header, and
/// it names the client that the inbound header asserts, or the peer without
/// one.
pub proof fn law_header_comes_first(c: ConnView, bytes: Seq<u8>)
    requires
        c.proxy_protocol is Some,
        parse(bytes) is Plain || parse(bytes) is Header,
    ensures
        ({
            let client = match parse(bytes) {
                Parsed::Header(_, Some(e)) => e.client,
                _ => c.client,
            };
            look_at(c, bytes).1 == ConnActionView::Write(
                proxy_header(c.proxy_protocol->0, client, c.server_listen),
            )
        }),
{
}

/// The header that a connection owes its upstream; nothing where none is
/// configured.
pub open spec fn owed_header(c: ConnView) -> Seq<u8> {
    match c.proxy_protocol {
        Some(v) => proxy_header(v, c.client, c.server_listen),
        None => Seq::empty(),
    }
}

/// What the upstream gets from a step on before the two sides are copied, if
/// every write succeeds.
pub open spec fn written(step: ConnStep) -> Seq<u8> {
    match step.1 {
        ConnActionView::Write(b) => b + match step.0.state {
            ConnStateView::WritingHeader(leftover) => leftover,
            _ => Seq::empty(),
        },
        _ => Seq::empty(),
    }
}

/// Law: no byte of the client's stream is lost or repeated. Where what was read
/// is no header, the upstream gets all of it, behind the header that it is
/// owed; where it is one, the upstream gets nothing of it; and what comes after
/// is copied. What comes after would not have changed the outcome.
pub proof fn law_stream_is_passed_whole(c: ConnView, bytes: Seq<u8>, rest: Seq<u8>)
    requires
        parse(bytes) is Plain && parse(bytes)->Plain_0 == bytes.len() || parse(bytes) is Header
            && parse(bytes)->Header_0 == bytes.len(),
    ensures
        parse(bytes + rest) == parse(bytes),
        parse(bytes) is Plain ==> written(look_at(c, bytes)) == owed_header(c) + bytes,
        parse(bytes) is Header ==> written(look_at(c, bytes)) == owed_header(look_at(c, bytes).0),
{
    law_decision_is_stable(bytes, rest);
    lemma_parse_bounds(bytes);
    assert(owed_header(c) + bytes =~= written(look_at(c, bytes)) || parse(bytes) is Header);
    assert(owed_header(look_at(c, bytes).0) =~= written(look_at(c, bytes)) || parse(bytes) is Plain);
}

/// Law: after each write that succeeds the rest of what is owed goes out, and
/// copying starts only when nothing is.
pub proof fn law_copying_starts_when_all_is_written(c: ConnView)
    requires
        c.state is WritingHeader || c.state is WritingLeftover,
    ensures
        ({
            let next = conn_step(c, ConnEventView::Written);
            let due = match c.state {
                ConnStateView::WritingHeader(leftover) => leftover,
                _ => Seq::empty(),
            };
            &&& written(next) == due
            &&& due.len() == 0 <==> next.1 is Copy
        }),
{
    let next = conn_step(c, ConnEventView::Written);
    match c.state {
        ConnStateView::WritingHeader(leftover) => {
            assert(written(next) =~= leftover);
        },
        _ => {},
    }
}

/// Law: a connection keeps the target that it was made for, whatever the dial
/// target of its rule does meanwhile.
pub proof fn law_target_is_fixed(c: ConnView, event: ConnEventView)
    ensures
        conn_step(c, event).0.target == c.target,
        conn_step(c, event).0.server_listen == c.server_listen,
        conn_step(c, event).0.proxy_protocol == c.proxy_protocol,
        !(conn_step(c, event).1 is Connect),
{
}

/// Law: a reader that gets as many bytes as it asked for holds exactly the
/// header, or exactly the bytes to pass on, when the outcome is decided.
pub proof fn law_reading_is_exact(b: Seq<u8>, more: Seq<u8>)
    requires
        parse(b) is Short,
        more.len() == parse(b)->Short_0,
    ensures
        parse(b + more) is Plain ==> parse(b + more)->Plain_0 == (b + more).len(),
        parse(b + more) is Header ==> parse(b + more)->Header_0 == (b + more).len(),
{
    law_reader_stays_in_header(b, more);
    lemma_parse_bounds(b + more);
}

/// Law: once closed, a connection stays closed.
pub proof fn law_closed_is_final(c: ConnView, event: ConnEventView)
    requires
        c.state is Closed,
    ensures
        conn_step(c, event).0.state is Closed,
        conn_step(c, event).1 is Close,
{
}

/// How a proxy winds down.
#[derive(Clone, Copy, Debug, PartialEq, Eq, Structural)]
pub enum DrainStep {
    /// Cancel the connections at once.
    CancelNow,
    /// Let the connections finish, for up to this many milliseconds.
    WaitFor(u64),
    /// Every connection has finished.
    Done,
    /// Cancel the connections that are left and wait this long for them.
    CancelAndWait(u64),
}

/// How to wind down once no connection is accepted any more.
pub open spec fn drain_start(timeout_ms: Option<u64>) -> DrainStep {
    match timeout_ms {
        Some(t) => if t > 0 {
            DrainStep::WaitFor(t)
        } else {
            DrainStep::CancelNow
        },
        None => DrainStep::CancelNow,
    }
}

/// What follows the wait.
pub open spec fn drain_end(finished: bool) -> DrainStep {
    if finished {
        DrainStep::Done
    } else {
        DrainStep::CancelAndWait(CANCEL_GRACE_MS)
    }
}

/// Decides how to wind down once no connection is accepted any more. Without a
/// drain timeout, or with a zero one, connections are cancelled at once.
pub fn begin_drain(timeout_ms: Option<u64>) -> (r: DrainStep)
    ensures
        r == drain_start(timeout_ms),
{
    match timeout_ms {
        Some(t) => {
            if t > 0 {
                DrainStep::WaitFor(t)
            } else {
                DrainStep::CancelNow
            }
        },
        None => DrainStep::CancelNow,
    }
}

/// Decides what follows the wait: connections that outlast it are cancelled.
pub fn after_drain(finished: bool) -> (r: DrainStep)
    ensures
        r == drain_end(finished),
{
    if finished {
        DrainStep::Done
    } else {
        DrainStep::CancelAndWait(CANCEL_GRACE_MS)
    }
}

/// Law: a connection is echoed exactly where its first 32 bytes are those of a
/// token that is armed on this listener for TCP and has not lapsed. Any other
/// peeked connection is treated as if no token were armed at all: it goes to the
/// target, or is dropped where there is none.
pub proof fn law_only_an_armed_token_is_echoed(
    arms: ArmModel,
    local: SocketAddr,
    target: Option<SocketAddr>,
    now: u64,
    bytes: &[u8],
)
    ensures
        ({
            let k = arm_key(local, Protocol::Tcp);
            let step = accept_step(arms, local, target, now, AcceptEvent::Peeked(Some(bytes)));
            let plain = accept_step(ArmModel::empty(), local, target, now, AcceptEvent::Accepted);
            let armed_here = bytes@.len() >= 32 && arms.contains_key(k) && exists|i: int|
                0 <= i < arms[k].len() && (#[trigger] arms[k][i]).0 == bytes@.subrange(0, 32) && now
                    < arms[k][i].1;
            &&& step == AcceptAction::Echo <==> armed_here
            &&& !armed_here ==> step == plain
            &&& target is Some ==> plain == AcceptAction::Forward(target->0)
            &&& target is None ==> plain == AcceptAction::DropNoTarget
        }),
{
    if bytes@.len() >= 32 {
        law_only_the_armed_token_matches(
            arms,
            arm_key(local, Protocol::Tcp),
            bytes@.subrange(0, 32),
            now,
        );
    }
}

/// Law: a connection whose first bytes did not come is forwarded, or dropped
/// without a target. One is peeked at exactly while some token of this listener
/// for TCP has not lapsed.
pub proof fn law_peeking_only_while_armed(
    arms: ArmModel,
    local: SocketAddr,
    target: Option<SocketAddr>,
    now: u64,
)
    ensures
        ({
            let k = arm_key(local, Protocol::Tcp);
            let accepted = accept_step(arms, local, target, now, AcceptEvent::Accepted);
            let silent = accept_step(arms, local, target, now, AcceptEvent::Peeked(None));
            let any = arms.contains_key(k) && exists|i: int|
                0 <= i < arms[k].len() && now < (#[trigger] arms[k][i]).1;
            &&& accepted == AcceptAction::Peek <==> any
            &&& !any ==> accepted == silent
            &&& target is Some ==> silent == AcceptAction::Forward(target->0)
            &&& target is None ==> silent == AcceptAction::DropNoTarget
        }),
        accept_step(arms, local, target, now, AcceptEvent::Cancelled) == AcceptAction::Stop,
        accept_step(arms, local, target, now, AcceptEvent::AcceptFailed)
            == AcceptAction::AcceptNext,
{
    law_only_the_armed_token_matches(arms, arm_key(local, Protocol::Tcp), Seq::empty(), now);
}

/// Law: where the previous hop announces the client, the connection first waits
/// for the announcement. A header that names a client makes that client the one
/// that the upstream is told of, and nothing of the inbound header goes through.
pub proof fn law_announced_client_is_passed_on(
    c: ConnView,
    inbound: ProxyProto,
    client: SocketAddr,
    server: SocketAddr,
    got: int,
)
    requires
        addr_ip(client) is V4 && addr_ip(server) is V4 || addr_ip(client) is V6 && addr_ip(
            server,
        ) is V6,
        c.expect_inbound_proxy,
        0 <= got < proxy_header(inbound, client, server).len(),
        parse(proxy_header(inbound, client, server).subrange(0, got)) is Short,
    ensures
        ({
            let h = proxy_header(inbound, client, server);
            let start = conn_step(
                ConnView { state: ConnStateView::Connecting, ..c },
                ConnEventView::Connected,
            );
            let end = conn_step(
                ConnView { state: ConnStateView::Reading(h.subrange(0, got)), ..c },
                ConnEventView::Read(h.subrange(got, h.len() as int)),
            );
            &&& start.1 == ConnActionView::Read(1) && start.0.state == ConnStateView::Reading(
                Seq::empty(),
            )
            &&& end.0.client == addr_of(addr_ip(client), addr_port(client))
            &&& c.proxy_protocol is None ==> end.1 is Copy
            &&& c.proxy_protocol is Some ==> end.1 == ConnActionView::Write(
                proxy_header(
                    c.proxy_protocol->0,
                    addr_of(addr_ip(client), addr_port(client)),
                    c.server_listen,
                ),
            ) && end.0.state == ConnStateView::WritingHeader(Seq::empty())
        }),
{
    let h = proxy_header(inbound, client, server);
    assert(h.subrange(0, got) + h.subrange(got, h.len() as int) =~= h);
    assert(h + Seq::<u8>::empty() =~= h);
    match inbound {
        ProxyProto::V1 => law_v1_round_trip(client, server, Seq::empty()),
        ProxyProto::V2 => law_v2_round_trip(client, server, Seq::empty()),
    }
}

/// Law: where nothing is announced, the upstream gets the configured header with
/// the peer's address as its first bytes; without one the two sides are copied at
/// once.
pub proof fn law_peer_is_announced(c: ConnView)
    requires
        !c.expect_inbound_proxy,
        c.state is Connecting,
    ensures
        c.proxy_protocol is None ==> conn_step(c, ConnEventView::Connected).1 is Copy,
        c.proxy_protocol is Some ==> conn_step(c, ConnEventView::Connected).1
            == ConnActionView::Write(
            proxy_header(c.proxy_protocol->0, c.client, c.server_listen),
        ) && conn_step(c, ConnEventView::Connected).0.state == ConnStateView::WritingHeader(
            Seq::empty(),
        ),
{
}

/// Law: a client that ends before it sent anything is forwarded as a stream
/// without header; one that ends within a header, or sends a malformed one, is
/// closed, and the upstream gets no byte.
pub proof fn law_broken_header_is_closed(c: ConnView, got: Seq<u8>, more: Seq<u8>)
    requires
        c.state == ConnStateView::Reading(got),
    ensures
        got.len() > 0 ==> conn_step(c, ConnEventView::Eof).1 == ConnActionView::Close(
            CloseReason::HeaderFailed,
        ),
        got.len() == 0 && c.proxy_protocol is None ==> conn_step(c, ConnEventView::Eof).1 is Copy,
        got.len() == 0 && c.proxy_protocol is Some ==> conn_step(c, ConnEventView::Eof).1
            == ConnActionView::Write(
            proxy_header(c.proxy_protocol->0, c.client, c.server_listen),
        ),
        parse(got + more) is Bad ==> conn_step(c, ConnEventView::Read(more)).1
            == ConnActionView::Close(CloseReason::HeaderFailed),
        parse(got + more) is Short ==> conn_step(c, ConnEventView::Read(more)).1
            == ConnActionView::Read(parse(got + more)->Short_0) && conn_step(
            c,
            ConnEventView::Read(more),
        ).0.state == ConnStateView::Reading(got + more),
        conn_step(c, ConnEventView::ReadFailed).1 == ConnActionView::Close(
            CloseReason::HeaderFailed,
        ),
{
}

/// Law: whatever fails ends the connection, for the reason of the step that
/// failed; a stop ends it at any time; and a peer that goes away while the sides
/// are copied is no failure.
pub proof fn law_each_end_has_its_reason(c: ConnView, fault: IoFault)
    ensures
        conn_step(c, ConnEventView::Cancelled).1 == ConnActionView::Close(CloseReason::Cancelled),
        conn_step(c, ConnEventView::Cancelled).0.state is Closed,
        c.state is Connecting ==> conn_step(c, ConnEventView::ConnectFailed).1
            == ConnActionView::Close(CloseReason::ConnectFailed),
        c.state is WritingHeader ==> conn_step(c, ConnEventView::WriteFailed).1
            == ConnActionView::Close(CloseReason::HeaderWriteFailed),
        c.state is WritingLeftover ==> conn_step(c, ConnEventView::WriteFailed).1
            == ConnActionView::Close(CloseReason::LeftoverWriteFailed),
        c.state is Copying ==> conn_step(c, ConnEventView::Copied).1 == ConnActionView::Close(
            CloseReason::Finished,
        ),
        c.state is Copying && fault == IoFault::Other ==> conn_step(
            c,
            ConnEventView::CopyFailed(fault),
        ).1 == ConnActionView::Close(CloseReason::CopyFailed),
        c.state is Copying && fault != IoFault::Other ==> conn_step(
            c,
            ConnEventView::CopyFailed(fault),
        ).1 == ConnActionView::Close(CloseReason::PeerClosed),
{
}

/// Law: connections get the whole drain timeout where there is one, and none
/// where there is not; those that outlast it are cancelled, with some time to
/// wind down.
pub proof fn law_drain_waits_its_timeout(timeout_ms: Option<u64>, finished: bool)
    ensures
        timeout_ms is Some && timeout_ms->0 > 0 ==> drain_start(timeout_ms) == DrainStep::WaitFor(
            timeout_ms->0,
        ),
        timeout_ms is None || timeout_ms->0 == 0 ==> drain_start(timeout_ms)
            == DrainStep::CancelNow,
        drain_end(finished) == DrainStep::Done <==> finished,
        !finished ==> drain_end(finished) is CancelAndWait && drain_end(finished)->CancelAndWait_0
            > 0,
{
}

/// Law: a rule without workers is refused, and every worker gets a listener: one
/// plain one for a single worker, shared ones for several.
pub proof fn law_every_worker_has_a_listener(workers: usize)
    ensures
        listener_plan(workers) == ListenerPlan::NoWorker <==> workers == 0,
        listener_plan(workers) == ListenerPlan::Single <==> workers == 1,
        workers > 1 ==> listener_plan(workers) == ListenerPlan::Shared(workers),
{
}

/// Law: every fault by which a peer goes away is no trouble, and any other is.
pub proof fn law_peers_may_go_away(fault: IoFault)
    ensures
        peer_went(fault) <==> fault != IoFault::Other,
{
}

/// Law: a listener queues a thousand and twenty-four connections, a copy holds
/// thirty-two kibibytes, a client has a fifth of a second to show its token,
/// and what is cancelled a quarter of a second to end.
pub proof fn law_listener_limits()
    ensures
        LISTEN_BACKLOG == 1024,
        FORWARD_BUFFER_SIZE == 32 * 1024,
        CANARY_PEEK_TIMEOUT_MS * 5 == 1000,
        CANCEL_GRACE_MS * 4 == 1000,
        drain_end(false) == DrainStep::CancelAndWait(250),
{
}

} // verus!
