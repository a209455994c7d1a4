//! Interception of PROXY-v2 datagrams in front of a QUIC endpoint.
//!
//! A relay announces each new UDP flow with a standalone PROXY-v2 datagram.
//! Such datagrams are taken out of every received batch, and the client that
//! they assert is recorded under the relay's source address. Everything else
//! passes, malformed headers included.

use dashmap::DashMap;
use vstd::prelude::*;

use crate::addr::{addr_key, lemma_addr_key_injective, AddrKey, SocketAddr};
use crate::clock::{elapsed_ns, instant_now};
use crate::proxy_protocol::{datagram_endpoints, decode_v2_from_datagram, V2_SIG};

verus! {

/// Life of an entry after the last announcement, in nanoseconds (30 s).
pub const MAP_TTL: u64 = 30_000_000_000;

/// The client behind a relay address, and when it was last announced.
#[derive(Clone, Copy, Debug)]
pub struct MapEntry {
    pub real_client: SocketAddr,
    pub last_seen: u64,
}

/// The entries by relay address.
pub type InterposeModel = Map<AddrKey, MapEntry>;

/// What an interpose map holds.
pub uninterp spec fn interpose_map(m: DashMap<AddrKey, MapEntry>) -> InterposeModel;

/// `DashMap::new`: an empty map.
#[verifier::external_body]
fn interpose_map_new() -> (r: DashMap<AddrKey, MapEntry>)
    ensures
        interpose_map(r) == InterposeModel::empty(),
{
    DashMap::new()
}

/// `DashMap::get`: a copy of the value under `k`, if there is one.
#[verifier::external_body]
fn interpose_map_get(m: &DashMap<AddrKey, MapEntry>, k: AddrKey) -> (r: Option<MapEntry>)
    ensures
        r is Some <==> interpose_map(*m).contains_key(k),
        r is Some ==> r->0 == interpose_map(*m)[k],
{
    m.get(&k).map(|e| *e.value())
}

/// `DashMap::insert`: puts `v` under `k`, in place of what was there.
#[verifier::external_body]
fn interpose_map_insert(m: &mut DashMap<AddrKey, MapEntry>, k: AddrKey, v: MapEntry)
    ensures
        interpose_map(*final(m)) == interpose_map(*old(m)).insert(k, v),
{
    m.insert(k, v);
}

/// `DashMap::retain`, with [`is_fresh`] as the predicate: entries that are not
/// fresh at `now` leave the map.
#[verifier::external_body]
fn interpose_map_retain_fresh(m: &mut DashMap<AddrKey, MapEntry>, now: u64)
    ensures
        interpose_map(*final(m)) == reaped(interpose_map(*old(m)), now),
{
    m.retain(|_, e| is_fresh(e, now));
}

/// `DashMap::len`: the number of entries.
#[verifier::external_body]
fn interpose_map_len(m: &DashMap<AddrKey, MapEntry>) -> (r: usize)
    ensures
        r == interpose_map(*m).dom().len(),
{
    m.len()
}

/// Time from `earlier` to `now`, zero where the clock has not advanced.
pub open spec fn age(earlier: u64, now: u64) -> int {
    if now >= earlier {
        now - earlier
    } else {
        0
    }
}

/// The entry is no older than [`MAP_TTL`] at `now`.
pub open spec fn fresh(e: MapEntry, now: u64) -> bool {
    age(e.last_seen, now) <= MAP_TTL
}

/// The entries that are fresh at `now`.
pub open spec fn reaped(m: InterposeModel, now: u64) -> InterposeModel {
    Map::new(|k: AddrKey| m.contains_key(k) && fresh(m[k], now), |k: AddrKey| m[k])
}

/// The client behind `peer`, if it was announced recently enough.
pub open spec fn real_client(m: InterposeModel, peer: SocketAddr, now: u64) -> Option<SocketAddr> {
    let k = addr_key(peer);
    if m.contains_key(k) && fresh(m[k], now) {
        Some(m[k].real_client)
    } else {
        None
    }
}

/// The map after an announcement.
pub open spec fn announced(
    m: InterposeModel,
    peer: SocketAddr,
    client: SocketAddr,
    now: u64,
) -> InterposeModel {
    m.insert(addr_key(peer), MapEntry { real_client: client, last_seen: now })
}

/// Decides [`fresh`].
fn is_fresh(e: &MapEntry, now: u64) -> (r: bool)
    ensures
        r == fresh(*e, now),
{
    now.saturating_sub(e.last_seen) <= MAP_TTL
}

/// The positions among the first `n` datagrams that are no announcement.
pub open spec fn passing(datagrams: Seq<&[u8]>, n: int) -> Seq<usize>
    decreases n,
{
    if n <= 0 {
        Seq::empty()
    } else if datagram_endpoints(datagrams[n - 1]@) is None {
        passing(datagrams, n - 1).push((n - 1) as usize)
    } else {
        passing(datagrams, n - 1)
    }
}

/// The map after the announcements among the first `n` datagrams.
pub open spec fn absorbed(
    m: InterposeModel,
    peers: Seq<SocketAddr>,
    datagrams: Seq<&[u8]>,
    n: int,
    now: u64,
) -> InterposeModel
    decreases n,
{
    if n <= 0 {
        m
    } else {
        let before = absorbed(m, peers, datagrams, n - 1, now);
        match datagram_endpoints(datagrams[n - 1]@) {
            Some(e) => announced(before, peers[n - 1], e.client, now),
            None => before,
        }
    }
}

/// What to do after a batch went through.
#[derive(Clone, Copy, Debug, PartialEq, Eq, Structural)]
pub enum RecvStep {
    /// Surface this many datagrams.
    Ready(usize),
    /// The whole batch was announcements: poll again.
    PollAgain,
}

/// What follows a batch of `n` datagrams of which `kept` pass.
pub open spec fn recv_step(n: int, kept: int) -> RecvStep {
    if n == 0 {
        RecvStep::Ready(0)
    } else if kept > 0 {
        RecvStep::Ready(kept as usize)
    } else {
        RecvStep::PollAgain
    }
}

/// Lookup table from relay source address to real client address.
pub struct InterposeMap {
    inner: DashMap<AddrKey, MapEntry>,
    start: std::time::Instant,
}

impl View for InterposeMap {
    type V = InterposeModel;

    closed spec fn view(&self) -> InterposeModel {
        interpose_map(self.inner)
    }
}

impl InterposeMap {
    /// The table holds finitely many entries.
    pub open spec fn wf(&self) -> bool {
        self@.dom().finite()
    }

    /// An empty table.
    pub fn new() -> (r: Self)
        ensures
            r.wf(),
            r@ == InterposeModel::empty(),
    {
        InterposeMap { inner: interpose_map_new(), start: instant_now() }
    }

    /// Nanoseconds since the table was made: the clock of its entries.
    /// Nothing is promised of the count: it is whatever the clock says.
    pub fn now(&self) -> u64 {
        elapsed_ns(&self.start)
    }

    /// Records at `now` that `real_client` is behind `relay_peer`.
    pub fn upsert_at(&mut self, relay_peer: SocketAddr, real_client: SocketAddr, now: u64)
        requires
            old(self).wf(),
        ensures
            final(self).wf(),
            final(self)@ == announced(old(self)@, relay_peer, real_client, now),
    {
        let k = relay_peer.key();
        interpose_map_insert(&mut self.inner, k, MapEntry { real_client, last_seen: now });
    }

    /// The client behind `relay_peer`, unless its entry is stale at `now`.
    pub fn lookup_at(&self, relay_peer: SocketAddr, now: u64) -> (r: Option<SocketAddr>)
        ensures
            r == real_client(self@, relay_peer, now),
    {
        match interpose_map_get(&self.inner, relay_peer.key()) {
            Some(e) => {
                if is_fresh(&e, now) {
                    Some(e.real_client)
                } else {
                    None
                }
            },
            None => None,
        }
    }

    /// Evicts the entries that are stale at `now`.
    pub fn reap_at(&mut self, now: u64)
        requires
            old(self).wf(),
        ensures
            final(self).wf(),
            final(self)@ == reaped(old(self)@, now),
    {
        let ghost before = self@;
        interpose_map_retain_fresh(&mut self.inner, now);
        proof {
            vstd::set_lib::lemma_len_subset(self@.dom(), before.dom());
        }
    }

    /// Number of entries, stale ones counted.
    pub fn len(&self) -> (r: usize)
        ensures
            r == self@.dom().len(),
    {
        interpose_map_len(&self.inner)
    }

    /// Takes the announcements out of a batch. Gives the positions of the
    /// datagrams that pass, in order.
    pub fn sift_at(
        &mut self,
        peers: &[SocketAddr],
        datagrams: &[&[u8]],
        now: u64,
    ) -> (kept: Vec<usize>)
        requires
            old(self).wf(),
            peers@.len() == datagrams@.len(),
        ensures
            final(self).wf(),
            kept@ == passing(datagrams@, datagrams@.len() as int),
            final(self)@ == absorbed(
                old(self)@,
                peers@,
                datagrams@,
                datagrams@.len() as int,
                now,
            ),
    {
        let mut kept: Vec<usize> = Vec::new();
        let n: usize = datagrams.len();
        let ghost before = self@;
        assert(kept@ =~= passing(datagrams@, 0));
        for i in 0..n
            invariant
                n == datagrams@.len(),
                n == peers@.len(),
                self.wf(),
                kept@ == passing(datagrams@, i as int),
                self@ == absorbed(before, peers@, datagrams@, i as int, now),
        {
            match decode_v2_from_datagram(datagrams[i]) {
                Some(e) => {
                    self.upsert_at(peers[i], e.client, now);
                },
                None => {
                    kept.push(i);
                },
            }
        }
        kept
    }

    /// Decides what follows a batch of `n` datagrams of which `kept` pass.
    pub fn after_batch(n: usize, kept: usize) -> (r: RecvStep)
        ensures
            r == recv_step(n as int, kept as int),
    {
        if n == 0 {
            RecvStep::Ready(0)
        } else if kept > 0 {
            RecvStep::Ready(kept)
        } else {
            RecvStep::PollAgain
        }
    }

    /// Records now that `real_client` is behind `relay_peer`.
    pub fn upsert(&mut self, relay_peer: SocketAddr, real_client: SocketAddr)
        requires
            old(self).wf(),
        ensures
            final(self).wf(),
            exists|now: u64| final(self)@ == announced(old(self)@, relay_peer, real_client, now),
    {
        let now: u64 = self.now();
        self.upsert_at(relay_peer, real_client, now);
    }

    /// The client behind `relay_peer`, unless its entry is stale now.
    pub fn lookup(&self, relay_peer: SocketAddr) -> (r: Option<SocketAddr>)
        ensures
            exists|now: u64| r == real_client(self@, relay_peer, now),
    {
        let now: u64 = self.now();
        self.lookup_at(relay_peer, now)
    }

    /// Evicts the entries that are stale now.
    pub fn reap(&mut self)
        requires
            old(self).wf(),
        ensures
            final(self).wf(),
            exists|now: u64| final(self)@ == reaped(old(self)@, now),
    {
        let now: u64 = self.now();
        self.reap_at(now);
    }
}

/// Law: what was announced last for a relay address is found there for
/// [`MAP_TTL`], and no longer; other addresses are not affected.
pub proof fn law_announcement_is_found(
    m: InterposeModel,
    peer: SocketAddr,
    client: SocketAddr,
    now: u64,
    later: u64,
    other: SocketAddr,
)
    requires
        now <= later,
    ensures
        real_client(announced(m, peer, client, now), peer, later) == (if later - now <= MAP_TTL {
            Some(client)
        } else {
            None
        }),
        other != peer ==> real_client(announced(m, peer, client, now), other, later)
            == real_client(m, other, later),
{
    lemma_addr_key_injective(peer, other);
}

/// Law: eviction changes no later lookup.
pub proof fn law_reap_changes_no_later_lookup(
    m: InterposeModel,
    peer: SocketAddr,
    now: u64,
    later: u64,
)
    requires
        now <= later,
    ensures
        real_client(reaped(m, now), peer, later) == real_client(m, peer, later),
{
}

/// Law: exactly the datagrams that are no announcement pass, in their order,
/// and none moves to a later place when the batch is compacted.
pub proof fn law_sift_keeps_exactly_the_rest(datagrams: Seq<&[u8]>, n: int)
    requires
        0 <= n <= datagrams.len(),
        datagrams.len() <= usize::MAX,
    ensures
        passing(datagrams, n).len() <= n,
        forall|w: int|
            0 <= w < passing(datagrams, n).len() ==> w <= #[trigger] passing(datagrams, n)[w] < n
                && datagram_endpoints(datagrams[passing(datagrams, n)[w] as int]@) is None,
        forall|i: int, j: int|
            0 <= i < j < passing(datagrams, n).len() ==> #[trigger] passing(datagrams, n)[i]
                < #[trigger] passing(datagrams, n)[j],
        forall|r: int|
            0 <= r < n && datagram_endpoints((#[trigger] datagrams[r])@) is None ==> passing(
                datagrams,
                n,
            ).contains(r as usize),
    decreases n,
{
    if n > 0 {
        law_sift_keeps_exactly_the_rest(datagrams, n - 1);
        let p = passing(datagrams, n - 1);
        let q = passing(datagrams, n);
        assert forall|r: int|
            0 <= r < n && datagram_endpoints((#[trigger] datagrams[r])@) is None implies q.contains(
            r as usize,
        ) by {
            if r < n - 1 {
                assert(p.contains(r as usize));
                let k = choose|k: int| 0 <= k < p.len() && p[k] == r as usize;
                assert(q[k] == r as usize);
            } else {
                assert(q[q.len() - 1] == r as usize);
            }
        }
    }
}

/// Law: no QUIC packet is taken for an announcement. The second-highest bit of
/// a QUIC packet's first byte is always set.
pub proof fn law_quic_packets_pass(datagram: Seq<u8>)
    requires
        datagram.len() > 0,
        datagram[0] & 0x40 == 0x40,
    ensures
        datagram_endpoints(datagram) is None,
{
    if datagram.len() >= 12 {
        let first = datagram[0];
        assert(first & 0x40 == 0x40 ==> first != 0x0d) by (bit_vector);
        assert(datagram.subrange(0, 12)[0] == first);
        assert(V2_SIG@[0] == 0x0d);
    }
}

/// Law: a batch that held datagrams is never surfaced as an empty one.
pub proof fn law_never_ready_empty(n: int, kept: int)
    requires
        n > 0,
        0 <= kept <= usize::MAX,
    ensures
        recv_step(n, kept) != RecvStep::Ready(0),
{
}

/// Law: an entry answers for thirty seconds after it was announced, to the
/// nanosecond, and an eviction takes exactly the entries that no longer answer.
/// One that was announced after the time in question answers too.
pub proof fn law_entry_answers_for_thirty_seconds(m: InterposeModel, peer: SocketAddr, now: u64)
    ensures
        ({
            let k = addr_key(peer);
            let e = m[k];
            let answers = m.contains_key(k) && (now <= e.last_seen || now - e.last_seen
                <= 30_000_000_000);
            &&& real_client(m, peer, now) == (if answers {
                Some(e.real_client)
            } else {
                None
            })
            &&& reaped(m, now).contains_key(k) == answers
            &&& answers ==> reaped(m, now)[k] == e
        }),
{
}

/// Law: after a batch, a relay address stands for the client of the last
/// announcement that came from it; an address that announced nothing is not
/// affected.
pub proof fn law_last_announcement_counts(
    m: InterposeModel,
    peers: Seq<SocketAddr>,
    datagrams: Seq<&[u8]>,
    n: int,
    i: int,
    now: u64,
    other: SocketAddr,
)
    requires
        0 <= n <= datagrams.len(),
        peers.len() == datagrams.len(),
    ensures
        0 <= i < n && datagram_endpoints(datagrams[i]@) is Some && (forall|j: int|
            i < j < n && datagram_endpoints((#[trigger] datagrams[j])@) is Some ==> peers[j]
                != peers[i]) ==> real_client(
            absorbed(m, peers, datagrams, n, now),
            peers[i],
            now,
        ) == Some((datagram_endpoints(datagrams[i]@)->0).client),
        (forall|j: int|
            0 <= j < n && datagram_endpoints((#[trigger] datagrams[j])@) is Some ==> peers[j]
                != other) ==> real_client(absorbed(m, peers, datagrams, n, now), other, now)
            == real_client(m, other, now),
    decreases n,
{
    if n > 0 {
        law_last_announcement_counts(m, peers, datagrams, n - 1, i, now, other);
        let before = absorbed(m, peers, datagrams, n - 1, now);
        let last = datagrams[n - 1];
        if datagram_endpoints(last@) is Some {
            lemma_addr_key_injective(peers[n - 1], other);
            if 0 <= i < n - 1 {
                lemma_addr_key_injective(peers[n - 1], peers[i]);
            }
        }
    }
}

/// Law: a batch is surfaced with the datagrams that pass, an empty one as it
/// is; the socket is polled again where a batch held announcements only.
pub proof fn law_batch_is_surfaced(n: usize, kept: usize)
    requires
        kept <= n,
    ensures
        kept > 0 ==> recv_step(n as int, kept as int) == RecvStep::Ready(kept),
        n == 0 ==> recv_step(n as int, kept as int) == RecvStep::Ready(0),
        n > 0 && kept == 0 ==> recv_step(n as int, kept as int) == RecvStep::PollAgain,
{
}

} // verus!
