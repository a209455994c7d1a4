use yggdrasil::addr::{parse_v6, IpAddr, Ipv4Addr, SocketAddr};
use yggdrasil::canary::CanaryArmTable;
use yggdrasil::proxy_protocol::{encode_v1, encode_v2};
use yggdrasil::resolver::UpstreamResolver;
use yggdrasil::rule::{Protocol, ProxyProto};
use yggdrasil::tcp::{
    after_drain, begin_drain, is_benign_close, next_accept, plan_listeners, AcceptAction,
    AcceptEvent, CloseReason, ConnAction, ConnEvent, Connection, DrainStep, IoFault, ListenerPlan,
};
use yggdrasil::udp::{reap_interval_ms, FlowTable, InboundStep, OpenOutcome};

fn sa(d: u8, port: u16) -> SocketAddr {
    SocketAddr::new(IpAddr::V4(Ipv4Addr::new(10, 0, 0, d)), port)
}

#[test]
fn listeners_follow_the_worker_count() {
    assert!(matches!(plan_listeners(0), ListenerPlan::NoWorker));
    assert!(matches!(plan_listeners(1), ListenerPlan::Single));
    assert!(matches!(plan_listeners(4), ListenerPlan::Shared(4)));
}

#[test]
fn armed_listeners_peek_before_they_forward() {
    let mut arms = CanaryArmTable::new();
    let local = sa(1, 443);
    let resolver = UpstreamResolver::Static { addr: sa(2, 80) };
    let accept = |arms: &CanaryArmTable, e| next_accept(arms, local, &resolver, None, 10, e);
    assert!(matches!(accept(&arms, AcceptEvent::Accepted), AcceptAction::Forward(t) if t == sa(2, 80)));
    arms.arm_at(local, Protocol::Tcp, [7; 32], 100, 0);
    assert!(matches!(accept(&arms, AcceptEvent::Accepted), AcceptAction::Peek));
    let token = [7u8; 32];
    assert!(matches!(accept(&arms, AcceptEvent::Peeked(Some(&token))), AcceptAction::Echo));
    assert!(matches!(accept(&arms, AcceptEvent::Peeked(Some(&token[..31]))), AcceptAction::Forward(_)));
    assert!(matches!(accept(&arms, AcceptEvent::Peeked(None)), AcceptAction::Forward(_)));
    assert!(matches!(accept(&arms, AcceptEvent::AcceptFailed), AcceptAction::AcceptNext));
    assert!(matches!(accept(&arms, AcceptEvent::Cancelled), AcceptAction::Stop));
    let dynamic = UpstreamResolver::Dynamic { port: 80 };
    assert!(matches!(
        next_accept(&arms, sa(9, 1), &dynamic, None, 10, AcceptEvent::Accepted),
        AcceptAction::DropNoTarget
    ));
}

#[test]
fn plain_connections_are_copied_at_once() {
    let (mut c, a) = Connection::new(sa(3, 5), sa(2, 80), sa(1, 443), None, false);
    assert!(matches!(a, ConnAction::Connect(t) if t == sa(2, 80)));
    assert!(matches!(c.step(ConnEvent::Connected), ConnAction::Copy));
    assert!(matches!(c.step(ConnEvent::Copied), ConnAction::Close(CloseReason::Finished)));
}

#[test]
fn the_header_comes_before_the_stream() {
    let (mut c, _) = Connection::new(sa(3, 5), sa(2, 80), sa(1, 443), Some(ProxyProto::V1), false);
    match c.step(ConnEvent::Connected) {
        ConnAction::Write(b) => assert_eq!(b, encode_v1(sa(3, 5), sa(1, 443))),
        other => panic!("{other:?}"),
    }
    assert!(matches!(c.step(ConnEvent::Written), ConnAction::Copy));
}

#[test]
fn an_announced_client_is_announced_on() {
    let client = sa(77, 7777);
    let (mut c, _) = Connection::new(sa(3, 5), sa(2, 80), sa(1, 443), Some(ProxyProto::V2), true);
    let inbound = encode_v1(client, sa(1, 443));
    let mut sent = 0;
    let mut a = c.step(ConnEvent::Connected);
    loop {
        match a {
            ConnAction::Read(n) => {
                let more = inbound[sent..sent + n].to_vec();
                sent += n;
                a = c.step(ConnEvent::Read(more));
            }
            ConnAction::Write(b) => {
                assert_eq!(sent, inbound.len());
                assert_eq!(b, encode_v2(client, sa(1, 443)));
                break;
            }
            other => panic!("{other:?}"),
        }
    }
}

#[test]
fn what_was_read_is_passed_on() {
    let (mut c, _) = Connection::new(sa(3, 5), sa(2, 80), sa(1, 443), None, true);
    assert!(matches!(c.step(ConnEvent::Connected), ConnAction::Read(1)));
    match c.step(ConnEvent::Read(b"G".to_vec())) {
        ConnAction::Write(b) => assert_eq!(b, b"G"),
        other => panic!("{other:?}"),
    }
    assert!(matches!(c.step(ConnEvent::Written), ConnAction::Copy));
}

#[test]
fn connections_close_for_a_reason() {
    let new = || Connection::new(sa(3, 5), sa(2, 80), sa(1, 443), Some(ProxyProto::V1), true).0;
    let mut c = new();
    assert!(matches!(
        c.step(ConnEvent::ConnectFailed),
        ConnAction::Close(CloseReason::ConnectFailed)
    ));
    let mut c = new();
    c.step(ConnEvent::Connected);
    c.step(ConnEvent::Read(b"P".to_vec()));
    assert!(matches!(c.step(ConnEvent::Eof), ConnAction::Close(CloseReason::HeaderFailed)));
    let mut c = new();
    c.step(ConnEvent::Connected);
    assert!(matches!(c.step(ConnEvent::Eof), ConnAction::Write(_)));
    assert!(matches!(
        c.step(ConnEvent::WriteFailed),
        ConnAction::Close(CloseReason::HeaderWriteFailed)
    ));
    let mut c = new();
    assert!(matches!(c.step(ConnEvent::Cancelled), ConnAction::Close(CloseReason::Cancelled)));
    let (mut c, _) = Connection::new(sa(3, 5), sa(2, 80), sa(1, 443), None, true);
    c.step(ConnEvent::Connected);
    c.step(ConnEvent::Read(b"G".to_vec()));
    assert!(matches!(
        c.step(ConnEvent::WriteFailed),
        ConnAction::Close(CloseReason::LeftoverWriteFailed)
    ));
    for (fault, reason) in [
        (IoFault::ConnectionReset, CloseReason::PeerClosed),
        (IoFault::Other, CloseReason::CopyFailed),
    ] {
        let (mut c, _) = Connection::new(sa(3, 5), sa(2, 80), sa(1, 443), None, false);
        c.step(ConnEvent::Connected);
        assert!(matches!(c.step(ConnEvent::CopyFailed(fault)), ConnAction::Close(r) if r == reason));
    }
    assert!(is_benign_close(IoFault::BrokenPipe) && !is_benign_close(IoFault::Other));
}

#[test]
fn drains_wait_and_then_cancel() {
    assert!(matches!(begin_drain(None), DrainStep::CancelNow));
    assert!(matches!(begin_drain(Some(500)), DrainStep::WaitFor(500)));
    assert!(matches!(after_drain(true), DrainStep::Done));
    assert!(matches!(after_drain(false), DrainStep::CancelAndWait(250)));
}

#[test]
fn flows_are_opened_once_and_kept() {
    let mut t = FlowTable::with_cap(2);
    let target = Some(sa(2, 53));
    match t.handle_inbound(sa(3, 1), target, 0) {
        InboundStep::Open { bind, target } => {
            assert_eq!(bind.to_text(), "0.0.0.0:0");
            assert_eq!(target, sa(2, 53));
        }
        other => panic!("{other:?}"),
    }
    assert!(matches!(t.opened(sa(3, 1), 11, 0), OpenOutcome::Inserted));
    // A racing second socket gives way to the first.
    assert!(matches!(t.opened(sa(3, 1), 12, 0), OpenOutcome::Existing { socket: 11 }));
    assert!(matches!(t.handle_inbound(sa(3, 1), target, 5), InboundStep::Send { socket: 11 }));
    assert!(matches!(t.handle_inbound(sa(3, 2), None, 5), InboundStep::NoTarget));
    t.opened(sa(3, 2), 13, 5);
    assert!(matches!(t.handle_inbound(sa(3, 3), target, 5), InboundStep::AtCap));
    assert_eq!(t.active_flows(), 2);
    assert_eq!(t.ended(sa(3, 2)), Some(13));
    assert_eq!(t.ended(sa(3, 2)), None);
    let six = SocketAddr::new(IpAddr::V6(parse_v6("2001:db8::1").unwrap()), 53);
    match t.handle_inbound(sa(3, 4), Some(six), 5) {
        InboundStep::Open { bind, .. } => assert_eq!(bind.to_text(), "[::]:0"),
        other => panic!("{other:?}"),
    }
}

#[test]
fn idle_flows_are_swept() {
    let mut t = FlowTable::with_cap(10);
    t.opened(sa(3, 1), 1, 0);
    t.opened(sa(3, 2), 2, 0);
    t.touch(sa(3, 2), 900);
    assert_eq!(t.reap_idle(1_000, 500), vec![1]);
    assert_eq!(t.active_flows(), 1);
    assert_eq!(t.drain_all_flows(), vec![2]);
    assert_eq!(t.active_flows(), 0);
    assert_eq!(reap_interval_ms(60_000), 15_000);
    assert_eq!(reap_interval_ms(10), 100);
}

#[test]
fn a_moved_peer_drains_its_flows() {
    let mut t = FlowTable::with_cap(10);
    t.opened(sa(3, 1), 1, 0);
    let ip = |d| Some(sa(d, 0).ip());
    assert!(t.peer_ip_is(ip(9), ip(9)).is_empty());
    assert_eq!(t.active_flows(), 1);
    assert_eq!(t.peer_ip_is(ip(9), ip(8)), vec![1]);
    assert_eq!(t.active_flows(), 0);
}

#[test]
fn a_closed_connection_stays_closed() {
    let (mut c, _) = Connection::new(sa(3, 5), sa(2, 80), sa(1, 443), None, false);
    c.step(ConnEvent::Cancelled);
    assert!(matches!(c.step(ConnEvent::Connected), ConnAction::Close(_)));
    assert!(matches!(c.step(ConnEvent::Read(vec![1])), ConnAction::Close(_)));
    assert_eq!(c.target, sa(2, 80));
}
