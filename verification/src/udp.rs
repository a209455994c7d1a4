//! The flow table of a UDP rule.
//!
//! A flow pairs a client address with an upstream socket. Flows are opened on
//! demand, up to a cap, and end when they are idle for too long, when their
//! socket fails, or when the dial target changes. A target that is merely
//! confirmed leaves every flow alone.

use dashmap::DashMap;
use vstd::prelude::*;

use crate::addr::{
    addr_key, addr_of, addr_ip, addr_port, lemma_addr_key_injective, AddrKey, IpAddr, Ipv4Addr, Ipv6Addr,
    SocketAddr,
};

verus! {

/// Default cap on concurrent flows per rule.
pub const MAX_FLOWS_PER_RULE_DEFAULT: usize = 65_536;

/// Largest datagram that is read from the frontend socket.
pub const RECV_BUFFER_LEN: usize = 65_535;

/// A flow: the number of its upstream socket, and when it last carried a
/// datagram, in milliseconds.
#[derive(Clone, Copy, Debug, PartialEq, Eq, Structural)]
pub struct FlowEntry {
    pub socket: u64,
    pub last_seen_ms: u64,
}

/// The flows by client address.
pub type FlowModel = Map<AddrKey, FlowEntry>;

/// What a flow map holds.
pub uninterp spec fn flow_map(m: DashMap<AddrKey, FlowEntry>) -> FlowModel;

/// `DashMap::new`: an empty map.
#[verifier::external_body]
fn flow_map_new() -> (r: DashMap<AddrKey, FlowEntry>)
    ensures
        flow_map(r) == FlowModel::empty(),
{
    DashMap::new()
}

/// `DashMap::get`: a copy of the value under `k`, if there is one.
#[verifier::external_body]
fn flow_map_get(m: &DashMap<AddrKey, FlowEntry>, k: AddrKey) -> (r: Option<FlowEntry>)
    ensures
        r is Some <==> flow_map(*m).contains_key(k),
        r is Some ==> r->0 == flow_map(*m)[k],
{
    m.get(&k).map(|e| *e.value())
}

/// `DashMap::insert`: puts `v` under `k`, in place of what was there.
#[verifier::external_body]
fn flow_map_insert(m: &mut DashMap<AddrKey, FlowEntry>, k: AddrKey, v: FlowEntry)
    ensures
        flow_map(*final(m)) == flow_map(*old(m)).insert(k, v),
{
    m.insert(k, v);
}

/// `DashMap::remove`: takes `k` out; gives the value that was under it.
#[verifier::external_body]
fn flow_map_remove(m: &mut DashMap<AddrKey, FlowEntry>, k: AddrKey) -> (r: Option<FlowEntry>)
    ensures
        flow_map(*final(m)) == flow_map(*old(m)).remove(k),
        r is Some <==> flow_map(*old(m)).contains_key(k),
        r is Some ==> r->0 == flow_map(*old(m))[k],
{
    m.remove(&k).map(|e| e.1)
}

/// `DashMap::len`: the number of entries.
#[verifier::external_body]
fn flow_map_len(m: &DashMap<AddrKey, FlowEntry>) -> (r: usize)
    ensures
        r == flow_map(*m).dom().len(),
{
    m.len()
}

/// `DashMap::iter`: a copy of every entry, each key once, in no particular
/// order.
#[verifier::external_body]
fn flow_map_entries(m: &DashMap<AddrKey, FlowEntry>) -> (r: Vec<(AddrKey, FlowEntry)>)
    ensures
        forall|i: int|
            0 <= i < r@.len() ==> flow_map(*m).contains_key((#[trigger] r@[i]).0) && flow_map(
                *m,
            )[r@[i].0] == r@[i].1,
        forall|i: int, j: int| 0 <= i < j < r@.len() ==> r@[i].0 != r@[j].0,
        forall|k: AddrKey| #[trigger]
            flow_map(*m).contains_key(k) ==> exists|i: int| 0 <= i < r@.len() && r@[i].0 == k,
{
    m.iter().map(|e| (*e.key(), *e.value())).collect()
}

/// Milliseconds from `last` to `now`, zero where the clock has not advanced.
pub open spec fn idle_for(last: u64, now: u64) -> int {
    if now >= last {
        now - last
    } else {
        0
    }
}

/// The flow has been idle for `idle_ms` or longer.
pub open spec fn is_idle(e: FlowEntry, now: u64, idle_ms: u64) -> bool {
    idle_for(e.last_seen_ms, now) >= idle_ms
}

/// The flows that are not idle.
pub open spec fn without_idle(m: FlowModel, now: u64, idle_ms: u64) -> FlowModel {
    Map::new(
        |k: AddrKey| m.contains_key(k) && !is_idle(m[k], now, idle_ms),
        |k: AddrKey| m[k],
    )
}

/// The table after a flow carried a datagram.
pub open spec fn touched(m: FlowModel, client: SocketAddr, now: u64) -> FlowModel {
    let k = addr_key(client);
    if m.contains_key(k) {
        m.insert(k, FlowEntry { last_seen_ms: now, ..m[k] })
    } else {
        m
    }
}

/// What to do with a datagram from a client.
#[derive(Clone, Copy, Debug, PartialEq, Eq, Structural)]
pub enum InboundStep {
    /// Send it on the flow's socket.
    Send { socket: u64 },
    /// Drop it: there is no dial target yet.
    NoTarget,
    /// Drop it: the table is at its cap.
    AtCap,
    /// Open a flow: bind a socket to `bind`, connect it to `target`, report it
    /// with [`FlowTable::opened`], then send.
    Open { bind: SocketAddr, target: SocketAddr },
}

/// The wildcard address of the target's family, any port.
pub open spec fn wildcard_for(target: SocketAddr) -> SocketAddr {
    match addr_ip(target) {
        IpAddr::V4(_) => addr_of(IpAddr::V4(Ipv4Addr { a: 0, b: 0, c: 0, d: 0 }), 0),
        IpAddr::V6(_) => addr_of(
            IpAddr::V6(
                Ipv6Addr { s0: 0, s1: 0, s2: 0, s3: 0, s4: 0, s5: 0, s6: 0, s7: 0 },
            ),
            0,
        ),
    }
}

/// What to do with a datagram from a client: an existing flow comes first, then
/// the target, then the cap.
pub open spec fn inbound_step(
    m: FlowModel,
    client: SocketAddr,
    target: Option<SocketAddr>,
    max_flows: usize,
) -> InboundStep {
    let k = addr_key(client);
    if m.contains_key(k) {
        InboundStep::Send { socket: m[k].socket }
    } else {
        match target {
            None => InboundStep::NoTarget,
            Some(t) => if m.dom().len() >= max_flows {
                InboundStep::AtCap
            } else {
                InboundStep::Open { bind: wildcard_for(t), target: t }
            },
        }
    }
}

/// What became of a newly opened socket.
#[derive(Clone, Copy, Debug, PartialEq, Eq, Structural)]
pub enum OpenOutcome {
    /// It is the flow's socket now.
    Inserted,
    /// Another datagram of the client was faster: use that socket, discard the
    /// new one.
    Existing { socket: u64 },
}

/// The table after a socket was opened for a client, and what becomes of it. A
/// flow that is already there is kept.
pub open spec fn opened_step(m: FlowModel, client: SocketAddr, socket: u64, now: u64) -> (
    FlowModel,
    OpenOutcome,
) {
    let k = addr_key(client);
    if m.contains_key(k) {
        (m, OpenOutcome::Existing { socket: m[k].socket })
    } else {
        (m.insert(k, FlowEntry { socket, last_seen_ms: now }), OpenOutcome::Inserted)
    }
}

/// The table after the flow of a client ended, and the flow's socket.
pub open spec fn ended_step(m: FlowModel, client: SocketAddr) -> (FlowModel, Option<u64>) {
    let k = addr_key(client);
    (
        m.remove(k),
        if m.contains_key(k) {
            Some(m[k].socket)
        } else {
            None
        },
    )
}

/// Milliseconds between two sweeps.
pub open spec fn sweep_interval(idle_ms: u64) -> u64 {
    if idle_ms / 4 >= 100 {
        idle_ms / 4
    } else {
        100
    }
}

/// Milliseconds between two sweeps: a quarter of the idle timeout, at least
/// 100.
pub fn reap_interval_ms(idle_ms: u64) -> (r: u64)
    ensures
        r == sweep_interval(idle_ms),
{
    let q: u64 = idle_ms / 4;
    if q >= 100 {
        q
    } else {
        100
    }
}

/// The socket belongs to one of some entries of a map.
pub open spec fn socket_of(m: FlowModel, which: spec_fn(AddrKey) -> bool, socket: u64) -> bool {
    exists|k: AddrKey| #[trigger] m.contains_key(k) && which(k) && m[k].socket == socket
}

/// The sockets of some entries of a map are listed: each listed number belongs
/// to such an entry, and each such entry's number is listed.
pub open spec fn lists_sockets(
    list: Seq<u64>,
    m: FlowModel,
    which: spec_fn(AddrKey) -> bool,
) -> bool {
    &&& forall|i: int| 0 <= i < list.len() ==> socket_of(m, which, #[trigger] list[i])
    &&& forall|k: AddrKey| #[trigger]
        m.contains_key(k) && which(k) ==> list.contains(m[k].socket)
}

/// Flows by client address.
pub struct FlowTable {
    flows: DashMap<AddrKey, FlowEntry>,
    max_flows: usize,
}

impl View for FlowTable {
    type V = FlowModel;

    closed spec fn view(&self) -> FlowModel {
        flow_map(self.flows)
    }
}

/// The flows after news of the peer's address: the same address keeps them all,
/// another one ends them all.
pub open spec fn after_peer_news(
    m: FlowModel,
    before: Option<IpAddr>,
    now: Option<IpAddr>,
) -> FlowModel {
    if before == now {
        m
    } else {
        FlowModel::empty()
    }
}

impl FlowTable {
    /// The table holds finitely many flows.
    pub open spec fn wf(&self) -> bool {
        self@.dom().finite()
    }

    /// The cap on concurrent flows.
    pub closed spec fn cap(&self) -> usize {
        self.max_flows
    }

    /// An empty table with a cap.
    pub fn with_cap(max_flows: usize) -> (r: Self)
        ensures
            r.wf(),
            r@ == FlowModel::empty(),
            r.cap() == max_flows,
    {
        FlowTable { flows: flow_map_new(), max_flows }
    }

    /// Number of flows.
    pub fn active_flows(&self) -> (r: usize)
        ensures
            r == self@.dom().len(),
    {
        flow_map_len(&self.flows)
    }

    /// Decides what to do with a datagram from a client. A datagram on an
    /// existing flow marks it as seen.
    pub fn handle_inbound(
        &mut self,
        client: SocketAddr,
        target: Option<SocketAddr>,
        now: u64,
    ) -> (r: InboundStep)
        requires
            old(self).wf(),
        ensures
            final(self).wf(),
            r == inbound_step(old(self)@, client, target, old(self).cap()),
            final(self)@ == touched(old(self)@, client, now),
            final(self).cap() == old(self).cap(),
    {
        let k = client.key();
        if let Some(e) = flow_map_get(&self.flows, k) {
            flow_map_insert(&mut self.flows, k, FlowEntry { socket: e.socket, last_seen_ms: now });
            return InboundStep::Send { socket: e.socket };
        }
        let target = match target {
            Some(t) => t,
            None => {
                return InboundStep::NoTarget;
            },
        };
        if flow_map_len(&self.flows) >= self.max_flows {
            return InboundStep::AtCap;
        }
        let bind = match target.ip() {
            IpAddr::V4(_) => SocketAddr::new(IpAddr::V4(Ipv4Addr::new(0, 0, 0, 0)), 0),
            IpAddr::V6(_) => SocketAddr::new(
                IpAddr::V6(Ipv6Addr::new(0, 0, 0, 0, 0, 0, 0, 0)),
                0,
            ),
        };
        InboundStep::Open { bind, target }
    }

    /// Reports a socket that was opened for a client. A flow that is already
    /// there is kept.
    pub fn opened(&mut self, client: SocketAddr, socket: u64, now: u64) -> (r: OpenOutcome)
        requires
            old(self).wf(),
        ensures
            final(self).wf(),
            final(self).cap() == old(self).cap(),
            (final(self)@, r) == opened_step(old(self)@, client, socket, now),
    {
        let k = client.key();
        match flow_map_get(&self.flows, k) {
            Some(e) => OpenOutcome::Existing { socket: e.socket },
            None => {
                flow_map_insert(&mut self.flows, k, FlowEntry { socket, last_seen_ms: now });
                OpenOutcome::Inserted
            },
        }
    }

    /// Marks a flow as seen when a datagram went back to the client.
    pub fn touch(&mut self, client: SocketAddr, now: u64)
        requires
            old(self).wf(),
        ensures
            final(self).wf(),
            final(self)@ == touched(old(self)@, client, now),
            final(self).cap() == old(self).cap(),
    {
        let k = client.key();
        if let Some(e) = flow_map_get(&self.flows, k) {
            flow_map_insert(&mut self.flows, k, FlowEntry { socket: e.socket, last_seen_ms: now });
        }
    }

    /// Ends the flow of a client, so that its next datagram opens a fresh one.
    pub fn ended(&mut self, client: SocketAddr) -> (r: Option<u64>)
        requires
            old(self).wf(),
        ensures
            final(self).wf(),
            (final(self)@, r) == ended_step(old(self)@, client),
            final(self).cap() == old(self).cap(),
    {
        match flow_map_remove(&mut self.flows, client.key()) {
            Some(e) => Some(e.socket),
            None => None,
        }
    }

    /// Ends the idle flows. Gives their sockets.
    pub fn reap_idle(&mut self, now: u64, idle_ms: u64) -> (r: Vec<u64>)
        requires
            old(self).wf(),
        ensures
            final(self).wf(),
            final(self)@ == without_idle(old(self)@, now, idle_ms),
            final(self).cap() == old(self).cap(),
            lists_sockets(
                r@,
                old(self)@,
                |k: AddrKey| is_idle(old(self)@[k], now, idle_ms),
            ),
            r@.len() == old(self)@.dom().len() - final(self)@.dom().len(),
            forall|k: AddrKey| #[trigger]
                old(self)@.contains_key(k) && old(self)@[k].last_seen_ms <= now ==> (
                final(self)@.contains_key(k) <==> now - old(self)@[k].last_seen_ms < idle_ms),
    {
        let entries = flow_map_entries(&self.flows);
        let ghost m = self@;
        let ghost which = |k: AddrKey| is_idle(m[k], now, idle_ms);
        let mut out: Vec<u64> = Vec::new();
        let ghost cap0 = self.cap();
        proof {
            lemma_entry_count(m, entries@);
        }
        for i in 0..entries.len()
            invariant
                self.cap() == cap0,
                self@.dom().finite(),
                out@.len() + self@.dom().len() == m.dom().len(),
                which == (|k: AddrKey| is_idle(m[k], now, idle_ms)),
                forall|j: int|
                    0 <= j < entries@.len() ==> m.contains_key((#[trigger] entries@[j]).0)
                        && m[entries@[j].0] == entries@[j].1,
                forall|a: int, b: int|
                    0 <= a < b < entries@.len() ==> entries@[a].0 != entries@[b].0,
                forall|k: AddrKey| #[trigger]
                    m.contains_key(k) ==> exists|j: int|
                        0 <= j < entries@.len() && entries@[j].0 == k,
                forall|k: AddrKey| #[trigger]
                    self@.contains_key(k) <==> m.contains_key(k) && !(which(k) && exists|j: int|
                        0 <= j < i && (#[trigger] entries@[j]).0 == k),
                forall|k: AddrKey| #[trigger] self@.contains_key(k) ==> self@[k] == m[k],
                forall|j: int| 0 <= j < out@.len() ==> socket_of(m, which, #[trigger] out@[j]),
                forall|j: int|
                    0 <= j < i && which((#[trigger] entries@[j]).0) ==> out@.contains(
                        entries@[j].1.socket,
                    ),
        {
            let (k, e) = entries[i];
            let ghost before = self@;
            let ghost done = out@;
            assert(entries@[i as int].0 == k);
            if now.saturating_sub(e.last_seen_ms) >= idle_ms {
                assert(which(k));
                assert(before.contains_key(k));
                let _ = flow_map_remove(&mut self.flows, k);
                out.push(e.socket);
                proof {
                    assert(self@.dom() =~= before.dom().remove(k));
                    assert(m.contains_key(k));
                    assert(socket_of(m, which, e.socket));
                    assert(out@[done.len() as int] == e.socket);
                    assert forall|j: int|
                        0 <= j < i + 1 && which((#[trigger] entries@[j]).0) implies out@.contains(
                        entries@[j].1.socket,
                    ) by {
                        if j < i {
                            assert(done.contains(entries@[j].1.socket));
                            let q = choose|q: int|
                                0 <= q < done.len() && done[q] == entries@[j].1.socket;
                            assert(out@[q] == entries@[j].1.socket);
                        }
                    }
                    assert forall|q: AddrKey| #[trigger] self@.contains_key(q) <==> m.contains_key(q)
                        && !(which(q) && exists|j: int|
                        0 <= j < i + 1 && (#[trigger] entries@[j]).0 == q) by {
                        if q == k {
                            assert(entries@[i as int].0 == q);
                        } else {
                            assert(self@.contains_key(q) <==> before.contains_key(q));
                            if exists|j: int| 0 <= j < i + 1 && (#[trigger] entries@[j]).0 == q {
                                let j = choose|j: int|
                                    0 <= j < i + 1 && (#[trigger] entries@[j]).0 == q;
                                assert(j < i);
                            }
                        }
                    }
                }
            } else {
                proof {
                    assert(!which(k));
                    assert forall|q: AddrKey| #[trigger] self@.contains_key(q) <==> m.contains_key(q)
                        && !(which(q) && exists|j: int|
                        0 <= j < i + 1 && (#[trigger] entries@[j]).0 == q) by {
                        if q != k && exists|j: int|
                            0 <= j < i + 1 && (#[trigger] entries@[j]).0 == q {
                            let j = choose|j: int|
                                0 <= j < i + 1 && (#[trigger] entries@[j]).0 == q;
                            assert(j < i);
                        }
                    }
                }
            }
        }
        proof {
            assert(self@ =~= without_idle(m, now, idle_ms)) by {
                assert forall|k: AddrKey| self@.contains_key(k) <==> without_idle(
                    m,
                    now,
                    idle_ms,
                ).contains_key(k) by {
                    assert(self@.contains_key(k) <==> m.contains_key(k) && !(which(k) && exists|
                        j: int,
                    |
                        0 <= j < entries@.len() && (#[trigger] entries@[j]).0 == k));
                }
            }
            assert forall|k: AddrKey| #[trigger]
                m.contains_key(k) && which(k) implies out@.contains(m[k].socket) by {
                let j = choose|j: int| 0 <= j < entries@.len() && entries@[j].0 == k;
                assert(which(entries@[j].0));
            }
        }
        out
    }

    /// Ends every flow. Gives their sockets.
    pub fn drain_all_flows(&mut self) -> (r: Vec<u64>)
        requires
            old(self).wf(),
        ensures
            final(self).wf(),
            final(self)@ == FlowModel::empty(),
            final(self).cap() == old(self).cap(),
            lists_sockets(r@, old(self)@, |k: AddrKey| true),
            r@.len() == old(self)@.dom().len(),
    {
        let entries = flow_map_entries(&self.flows);
        let ghost m = self@;
        let ghost cap0 = self.cap();
        let mut out: Vec<u64> = Vec::new();
        proof {
            lemma_entry_count(m, entries@);
        }
        for i in 0..entries.len()
            invariant
                self.cap() == cap0,
                out@.len() == i,
                forall|j: int|
                    0 <= j < entries@.len() ==> m.contains_key((#[trigger] entries@[j]).0)
                        && m[entries@[j].0] == entries@[j].1,
                forall|j: int| 0 <= j < i ==> out@[j] == (#[trigger] entries@[j]).1.socket,
                forall|k: AddrKey| #[trigger]
                    self@.contains_key(k) <==> m.contains_key(k) && !(exists|j: int|
                        0 <= j < i && (#[trigger] entries@[j]).0 == k),
        {
            let (k, e) = entries[i];
            let ghost before = self@;
            let _ = flow_map_remove(&mut self.flows, k);
            out.push(e.socket);
            proof {
                assert(entries@[i as int].0 == k);
                assert forall|q: AddrKey| #[trigger] self@.contains_key(q) <==> m.contains_key(q)
                    && !(exists|j: int| 0 <= j < i + 1 && (#[trigger] entries@[j]).0 == q) by {
                    if q == k {
                        assert(entries@[i as int].0 == q);
                    } else {
                        assert(self@.contains_key(q) <==> before.contains_key(q));
                        if exists|j: int| 0 <= j < i + 1 && (#[trigger] entries@[j]).0 == q {
                            let j = choose|j: int|
                                0 <= j < i + 1 && (#[trigger] entries@[j]).0 == q;
                            assert(j < i);
                        }
                    }
                }
            }
        }
        proof {
            assert(self@ =~= FlowModel::empty()) by {
                assert forall|k: AddrKey| !self@.contains_key(k) by {
                    if m.contains_key(k) {
                        let j = choose|j: int| 0 <= j < entries@.len() && entries@[j].0 == k;
                        assert(entries@[j].0 == k);
                    }
                }
            }
            assert forall|i: int| 0 <= i < out@.len() implies socket_of(
                m,
                |k: AddrKey| true,
                #[trigger] out@[i],
            ) by {
                assert(out@[i] == entries@[i].1.socket);
                assert(m.contains_key(entries@[i].0));
            }
            assert forall|k: AddrKey| #[trigger] m.contains_key(k) implies out@.contains(
                m[k].socket,
            ) by {
                let j = choose|j: int| 0 <= j < entries@.len() && entries@[j].0 == k;
                assert(out@[j] == entries@[j].1.socket);
            }
        }
        out
    }

    /// Reacts to news of the peer's address: a new value ends every flow, the
    /// same value ends none. Gives the sockets of the flows that ended.
    pub fn peer_ip_is(&mut self, before: Option<IpAddr>, now: Option<IpAddr>) -> (r: Vec<u64>)
        requires
            old(self).wf(),
        ensures
            final(self).wf(),
            final(self).cap() == old(self).cap(),
            final(self)@ == after_peer_news(old(self)@, before, now),
            before == now ==> r@.len() == 0,
            before != now ==> lists_sockets(r@, old(self)@, |k: AddrKey| true),
            before != now ==> r@.len() == old(self)@.dom().len(),
    {
        if before == now {
            Vec::new()
        } else {
            self.drain_all_flows()
        }
    }
}

/// A list of all entries, each once, is as long as the map has keys.
proof fn lemma_entry_count(m: FlowModel, entries: Seq<(AddrKey, FlowEntry)>)
    requires
        forall|i: int| 0 <= i < entries.len() ==> m.contains_key((#[trigger] entries[i]).0),
        forall|i: int, j: int| 0 <= i < j < entries.len() ==> entries[i].0 != entries[j].0,
        forall|k: AddrKey| #[trigger]
            m.contains_key(k) ==> exists|i: int| 0 <= i < entries.len() && entries[i].0 == k,
    ensures
        m.dom().finite(),
        m.dom().len() == entries.len(),
{
    let keys = Seq::new(entries.len(), |i: int| entries[i].0);
    assert(keys.no_duplicates());
    keys.unique_seq_to_set();
    assert(m.dom() =~= keys.to_set()) by {
        assert forall|k: AddrKey| m.dom().contains(k) <==> keys.to_set().contains(k) by {
            if m.dom().contains(k) {
                assert(m.contains_key(k));
                let i = choose|i: int| 0 <= i < entries.len() && entries[i].0 == k;
                assert(keys[i] == k);
            }
            if keys.to_set().contains(k) {
                let i = choose|i: int| 0 <= i < keys.len() && keys[i] == k;
                assert(m.contains_key(entries[i].0));
            }
        }
    }
}

/// Law: news of the peer that confirms its address disturbs no flow: the next
/// datagram of every client stays on the socket it was on. News of another
/// address leaves no flow, so that every client's next datagram goes to the new
/// target.
pub proof fn law_same_peer_keeps_every_flow(
    m: FlowModel,
    before: Option<IpAddr>,
    now: Option<IpAddr>,
    client: SocketAddr,
    target: SocketAddr,
    max_flows: usize,
)
    requires
        max_flows > 0,
    ensures
        before == now ==> after_peer_news(m, before, now) == m,
        before == now && m.contains_key(addr_key(client)) ==> inbound_step(
            after_peer_news(m, before, now),
            client,
            Some(target),
            max_flows,
        ) == (InboundStep::Send { socket: m[addr_key(client)].socket }),
        before != now ==> inbound_step(
            after_peer_news(m, before, now),
            client,
            Some(target),
            max_flows,
        ) is Open,
{
}

/// Law: the table never grows beyond its cap: a flow is opened only below the
/// cap, one opening adds one flow, and nothing else adds any.
pub proof fn law_cap_is_kept(
    m: FlowModel,
    client: SocketAddr,
    target: Option<SocketAddr>,
    max_flows: usize,
    socket: u64,
    now: u64,
    idle_ms: u64,
    before: Option<IpAddr>,
    after: Option<IpAddr>,
)
    requires
        m.dom().finite(),
        m.dom().len() <= max_flows,
    ensures
        inbound_step(m, client, target, max_flows) is Open ==> !m.contains_key(addr_key(client))
            && m.insert(addr_key(client), FlowEntry { socket, last_seen_ms: now }).dom().len()
            == m.dom().len() + 1 && m.dom().len() + 1 <= max_flows,
        touched(m, client, now).dom() == m.dom(),
        m.remove(addr_key(client)).dom().len() <= m.dom().len(),
        without_idle(m, now, idle_ms).dom().len() <= m.dom().len(),
        after_peer_news(m, before, after).dom().len() <= m.dom().len(),
{
    let k = addr_key(client);
    assert(m.insert(k, FlowEntry { socket, last_seen_ms: now }).dom() =~= m.dom().insert(k));
    assert(touched(m, client, now).dom() =~= m.dom());
    assert(m.remove(k).dom() =~= m.dom().remove(k));
    vstd::set_lib::lemma_len_subset(without_idle(m, now, idle_ms).dom(), m.dom());
}

/// Law: a client's datagrams stay on one socket for as long as the flow lasts,
/// whatever the dial target does meanwhile.
pub proof fn law_flow_keeps_its_socket(
    m: FlowModel,
    client: SocketAddr,
    other: SocketAddr,
    target: Option<SocketAddr>,
    max_flows: usize,
    now: u64,
)
    requires
        m.contains_key(addr_key(client)),
    ensures
        inbound_step(touched(m, other, now), client, target, max_flows) == (InboundStep::Send {
            socket: m[addr_key(client)].socket,
        }),
{
    lemma_addr_key_injective(client, other);
}

/// Law: a flow that was just seen survives a sweep at that moment, for any
/// positive idle timeout.
pub proof fn law_seen_flow_survives_the_sweep(
    m: FlowModel,
    client: SocketAddr,
    now: u64,
    idle_ms: u64,
)
    requires
        idle_ms > 0,
        m.contains_key(addr_key(client)),
    ensures
        without_idle(touched(m, client, now), now, idle_ms).contains_key(addr_key(client)),
{
}

/// Law: a sweep goes by the idle timeout alone: a flow stays exactly where it
/// carried a datagram less than that ago, and stays as it was; nothing else is in
/// the table afterwards. A flow that was seen after the sweep began counts as
/// just seen.
pub proof fn law_sweep_ends_the_silent_flows(m: FlowModel, now: u64, idle_ms: u64, k: AddrKey)
    ensures
        m.contains_key(k) && m[k].last_seen_ms <= now ==> (without_idle(m, now, idle_ms).contains_key(
            k,
        ) <==> now - m[k].last_seen_ms < idle_ms),
        m.contains_key(k) && m[k].last_seen_ms > now ==> (without_idle(m, now, idle_ms).contains_key(
            k,
        ) <==> idle_ms > 0),
        without_idle(m, now, idle_ms).contains_key(k) ==> m.contains_key(k) && without_idle(
            m,
            now,
            idle_ms,
        )[k] == m[k],
{
}

/// Law: the sockets that a sweep gives are those of the flows that it ends: each
/// was the socket of a flow that is gone, and no gone flow's socket is missing.
pub proof fn law_swept_sockets_are_of_gone_flows(
    m: FlowModel,
    now: u64,
    idle_ms: u64,
    list: Seq<u64>,
    socket: u64,
)
    requires
        lists_sockets(list, m, |k: AddrKey| is_idle(m[k], now, idle_ms)),
    ensures
        list.contains(socket) <==> exists|k: AddrKey| #[trigger]
            m.contains_key(k) && !without_idle(m, now, idle_ms).contains_key(k) && m[k].socket
                == socket,
{
    let which = |k: AddrKey| is_idle(m[k], now, idle_ms);
    if list.contains(socket) {
        let i = choose|i: int| 0 <= i < list.len() && list[i] == socket;
        assert(socket_of(m, which, list[i]));
        let k = choose|k: AddrKey| #[trigger] m.contains_key(k) && which(k) && m[k].socket == socket;
        assert(!without_idle(m, now, idle_ms).contains_key(k));
    }
    if exists|k: AddrKey| #[trigger]
        m.contains_key(k) && !without_idle(m, now, idle_ms).contains_key(k) && m[k].socket == socket {
        let k = choose|k: AddrKey| #[trigger]
            m.contains_key(k) && !without_idle(m, now, idle_ms).contains_key(k) && m[k].socket
                == socket;
        assert(which(k));
    }
}

/// Law: where all flows end, the sockets given are those of all flows.
pub proof fn law_drained_sockets_are_of_every_flow(m: FlowModel, list: Seq<u64>, socket: u64)
    requires
        lists_sockets(list, m, |k: AddrKey| true),
    ensures
        list.contains(socket) <==> exists|k: AddrKey| #[trigger]
            m.contains_key(k) && m[k].socket == socket,
{
    let which = |k: AddrKey| true;
    if list.contains(socket) {
        let i = choose|i: int| 0 <= i < list.len() && list[i] == socket;
        assert(socket_of(m, which, list[i]));
    }
    if exists|k: AddrKey| #[trigger] m.contains_key(k) && m[k].socket == socket {
        let k = choose|k: AddrKey| #[trigger] m.contains_key(k) && m[k].socket == socket;
        assert(which(k));
    }
}

/// Law: a datagram marks its own flow as seen, and nothing else: the flow keeps
/// its socket, and every other flow is as it was.
pub proof fn law_datagram_marks_its_flow(m: FlowModel, client: SocketAddr, now: u64, k: AddrKey)
    ensures
        touched(m, client, now).contains_key(k) <==> m.contains_key(k),
        m.contains_key(k) && k != addr_key(client) ==> touched(m, client, now)[k] == m[k],
        m.contains_key(addr_key(client)) ==> touched(m, client, now)[addr_key(client)].last_seen_ms
            == now && touched(m, client, now)[addr_key(client)].socket == m[addr_key(
            client,
        )].socket,
{
}

/// Law: a known client is served whatever the target and the cap; a new client
/// needs a target, and room. Its socket is bound to any port of the wildcard
/// address of the target's family, and connected to the target.
pub proof fn law_datagram_is_sent_or_a_flow_opened(
    m: FlowModel,
    client: SocketAddr,
    target: SocketAddr,
    max_flows: usize,
)
    ensures
        m.contains_key(addr_key(client)) ==> inbound_step(m, client, None, max_flows)
            == (InboundStep::Send { socket: m[addr_key(client)].socket }) && inbound_step(
            m,
            client,
            Some(target),
            max_flows,
        ) == (InboundStep::Send { socket: m[addr_key(client)].socket }),
        !m.contains_key(addr_key(client)) ==> inbound_step(m, client, None, max_flows)
            == InboundStep::NoTarget,
        !m.contains_key(addr_key(client)) && m.dom().len() >= max_flows ==> inbound_step(
            m,
            client,
            Some(target),
            max_flows,
        ) == InboundStep::AtCap,
        !m.contains_key(addr_key(client)) && m.dom().len() < max_flows ==> ({
            let step = inbound_step(m, client, Some(target), max_flows);
            &&& step is Open
            &&& step->target == target
            &&& addr_port(step->bind) == 0
            &&& addr_ip(target) is V4 ==> addr_ip(step->bind) == IpAddr::V4(
                Ipv4Addr { a: 0, b: 0, c: 0, d: 0 },
            )
            &&& addr_ip(target) is V6 ==> addr_ip(step->bind) == IpAddr::V6(
                Ipv6Addr { s0: 0, s1: 0, s2: 0, s3: 0, s4: 0, s5: 0, s6: 0, s7: 0 },
            )
        }),
{
}

/// Law: of two sockets that were opened for one client the first stays: later
/// datagrams go there, and the second is discarded. Opening one disturbs no other
/// client, and a flow that ended is opened anew.
pub proof fn law_first_opened_socket_stays(
    m: FlowModel,
    client: SocketAddr,
    first: u64,
    second: u64,
    now: u64,
    later: u64,
    k: AddrKey,
    target: Option<SocketAddr>,
    max_flows: usize,
)
    requires
        !m.contains_key(addr_key(client)),
    ensures
        ({
            let (one, outcome) = opened_step(m, client, first, now);
            let (two, again) = opened_step(one, client, second, later);
            &&& outcome == OpenOutcome::Inserted
            &&& one.contains_key(addr_key(client)) && one[addr_key(client)].socket == first
                && one[addr_key(client)].last_seen_ms == now
            &&& k != addr_key(client) ==> (one.contains_key(k) <==> m.contains_key(k)) && (
            m.contains_key(k) ==> one[k] == m[k])
            &&& again == (OpenOutcome::Existing { socket: first })
            &&& two == one
            &&& ended_step(one, client) == (m, Some(first))
            &&& ended_step(m, client) == (m, None::<u64>)
            &&& !(inbound_step(ended_step(one, client).0, client, target, max_flows) is Send)
        }),
{
    let k0 = addr_key(client);
    let one = opened_step(m, client, first, now).0;
    assert(one.remove(k0) =~= m);
    assert(m.remove(k0) =~= m);
}

/// Law: sweeps come four times in an idle timeout, but never more often than
/// every tenth of a second.
pub proof fn law_sweeps_come_four_times_per_timeout(idle_ms: u64)
    ensures
        sweep_interval(idle_ms) >= 100,
        idle_ms >= 400 ==> 4 * sweep_interval(idle_ms) <= idle_ms < 4 * sweep_interval(idle_ms) + 4,
        idle_ms < 400 ==> sweep_interval(idle_ms) == 100,
{
}

/// Law: a rule holds sixty-four kibi flows unless told otherwise, and the
/// largest datagram there is fits the receive buffer.
pub proof fn law_flow_limits()
    ensures
        MAX_FLOWS_PER_RULE_DEFAULT == 64 * 1024,
        RECV_BUFFER_LEN == 0xffff,
{
}

} // verus!
