//! Per-rule table of armed canary tokens.
//!
//! A canary arms a token on one listener. While the arm is live, traffic that
//! opens with the token is echoed instead of forwarded. Several tokens can be
//! armed on one listener at once, and each expires on its own.

use dashmap::DashMap;
use vstd::prelude::*;

use crate::addr::{addr_key, lemma_addr_key_injective, AddrKey, SocketAddr};
use crate::clock::{elapsed_ns, instant_now};
use crate::rule::Protocol;

verus! {

/// Length of a canary token.
pub const CANARY_TOKEN_LEN: usize = 32;

/// Key of a shard: a listen address and a protocol.
pub type ArmKey = (AddrKey, u8);

/// One installed arm: a token and the time at which it lapses.
#[derive(Clone, Copy, Debug)]
pub struct ArmEntry {
    pub token: [u8; 32],
    pub expires_at: u64,
}

/// An arm as plain values: the token and the expiry.
pub type Arm = (Seq<u8>, u64);

/// The arms under each key, in order.
pub type ArmModel = Map<ArmKey, Seq<(Seq<u8>, u64)>>;

/// The sharded concurrent map of `dashmap`.
#[verifier::external_type_specification]
#[verifier::external_body]
#[verifier::reject_recursive_types(K)]
#[verifier::reject_recursive_types(V)]
#[verifier::reject_recursive_types(S)]
pub struct ExDashMap<K, V, S>(DashMap<K, V, S>);

/// What an arm map holds: for each key the arms in order, each as its token
/// and its expiry.
pub uninterp spec fn arm_map(m: DashMap<ArmKey, Vec<ArmEntry>>) -> ArmModel;

/// An arm as plain values.
pub open spec fn arm_view(e: ArmEntry) -> Arm {
    (e.token@, e.expires_at)
}

/// A list of arms as plain values.
pub open spec fn arm_views(v: Seq<ArmEntry>) -> Seq<Arm> {
    Seq::new(v.len(), |i: int| arm_view(v[i]))
}

/// `DashMap::new`: an empty map.
#[verifier::external_body]
fn arm_map_new() -> (r: DashMap<ArmKey, Vec<ArmEntry>>)
    ensures
        arm_map(r) == ArmModel::empty(),
{
    DashMap::new()
}

/// `DashMap::get`: a copy of the value under `k`, if there is one.
#[verifier::external_body]
fn arm_map_get(m: &DashMap<ArmKey, Vec<ArmEntry>>, k: ArmKey) -> (r: Option<Vec<ArmEntry>>)
    ensures
        r is Some <==> arm_map(*m).contains_key(k),
        r is Some ==> arm_views(r->0@) == arm_map(*m)[k],
{
    m.get(&k).map(|e| e.value().clone())
}

/// `DashMap::insert`: puts `v` under `k`, in place of what was there.
#[verifier::external_body]
fn arm_map_insert(m: &mut DashMap<ArmKey, Vec<ArmEntry>>, k: ArmKey, v: Vec<ArmEntry>)
    ensures
        arm_map(*final(m)) == arm_map(*old(m)).insert(k, arm_views(v@)),
{
    m.insert(k, v);
}

/// `DashMap::remove`: takes `k` and its value out.
#[verifier::external_body]
fn arm_map_remove(m: &mut DashMap<ArmKey, Vec<ArmEntry>>, k: ArmKey)
    ensures
        arm_map(*final(m)) == arm_map(*old(m)).remove(k),
{
    m.remove(&k);
}

/// `DashMap::retain`, with [`keep_live`] as the predicate: every value keeps
/// its live arms, and a key without any leaves the map.
#[verifier::external_body]
fn arm_map_retain_live(m: &mut DashMap<ArmKey, Vec<ArmEntry>>, now: u64)
    ensures
        arm_map(*final(m)) == purged(arm_map(*old(m)), now),
{
    m.retain(|_, v| keep_live(v, now));
}

/// `DashMap::iter`: a copy of every entry, each key once, in no particular
/// order.
#[verifier::external_body]
fn arm_map_entries(m: &DashMap<ArmKey, Vec<ArmEntry>>) -> (r: Vec<(ArmKey, Vec<ArmEntry>)>)
    ensures
        forall|i: int|
            0 <= i < r@.len() ==> arm_map(*m).contains_key(#[trigger] r@[i].0) && arm_map(
                *m,
            )[r@[i].0] == arm_views(r@[i].1@),
        forall|i: int, j: int| 0 <= i < j < r@.len() ==> r@[i].0 != r@[j].0,
        forall|k: ArmKey| #[trigger]
            arm_map(*m).contains_key(k) ==> exists|i: int| 0 <= i < r@.len() && r@[i].0 == k,
{
    m.iter().map(|e| (*e.key(), e.value().clone())).collect()
}

/// The arm is live at `now`.
pub open spec fn live(a: Arm, now: u64) -> bool {
    a.1 > now
}

/// The arms of `s` that are live at `now`.
pub open spec fn live_arms(s: Seq<Arm>, now: u64) -> Seq<Arm> {
    s.filter(|a: Arm| live(a, now))
}

/// The arm has another token than `token`.
pub open spec fn other_token(a: Arm, token: Seq<u8>) -> bool {
    a.0 != token
}

/// The arms of `s` with another token than `token`.
pub open spec fn other_arms(s: Seq<Arm>, token: Seq<u8>) -> Seq<Arm> {
    s.filter(|a: Arm| other_token(a, token))
}

/// The arms under `k`; none where the key is absent.
pub open spec fn arms_at(m: ArmModel, k: ArmKey) -> Seq<Arm> {
    if m.contains_key(k) {
        m[k]
    } else {
        Seq::empty()
    }
}

/// Some arm under `k` is live at `now`.
pub open spec fn armed(m: ArmModel, k: ArmKey, now: u64) -> bool {
    exists|i: int| 0 <= i < arms_at(m, k).len() && live(#[trigger] arms_at(m, k)[i], now)
}

/// An arm with exactly this token under `k` is live at `now`.
pub open spec fn matches_arm(m: ArmModel, k: ArmKey, token: Seq<u8>, now: u64) -> bool {
    exists|i: int|
        0 <= i < arms_at(m, k).len() && live(#[trigger] arms_at(m, k)[i], now) && arms_at(
            m,
            k,
        )[i].0 == token
}

/// Position of the first arm with this token; the length where there is none.
pub open spec fn token_pos(s: Seq<Arm>, token: Seq<u8>) -> int
    decreases s.len(),
{
    if s.len() == 0 || s[0].0 == token {
        0
    } else {
        1 + token_pos(s.drop_first(), token)
    }
}

/// The arms after installing one: an arm with the same token is refreshed in
/// place, any other is added at the end.
pub open spec fn with_arm(s: Seq<Arm>, token: Seq<u8>, expires: u64) -> Seq<Arm> {
    let i = token_pos(s, token);
    if 0 <= i < s.len() {
        s.update(i, (s[i].0, expires))
    } else {
        s.push((token, expires))
    }
}

/// `now + ttl`, up to the end of the clock.
pub open spec fn expiry(now: u64, ttl: u64) -> u64 {
    if now + ttl <= u64::MAX {
        (now + ttl) as u64
    } else {
        u64::MAX
    }
}

/// The table after arming `token` under `k`: lapsed arms of that key go, then
/// the token is installed.
pub open spec fn armed_model(
    m: ArmModel,
    k: ArmKey,
    token: Seq<u8>,
    ttl: u64,
    now: u64,
) -> ArmModel {
    m.insert(k, with_arm(live_arms(arms_at(m, k), now), token, expiry(now, ttl)))
}

/// The table after disarming `token` under `k`: a key without arms goes.
pub open spec fn disarmed_model(m: ArmModel, k: ArmKey, token: Seq<u8>) -> ArmModel {
    if !m.contains_key(k) {
        m
    } else if other_arms(m[k], token).len() == 0 {
        m.remove(k)
    } else {
        m.insert(k, other_arms(m[k], token))
    }
}

/// The table with only live arms and without empty keys.
pub open spec fn purged(m: ArmModel, now: u64) -> ArmModel {
    Map::new(
        |k: ArmKey| m.contains_key(k) && live_arms(m[k], now).len() > 0,
        |k: ArmKey| live_arms(m[k], now),
    )
}

/// Number of live arms over all keys.
pub open spec fn live_total(m: ArmModel, now: u64) -> nat
    decreases m.dom().len(),
{
    if m.dom().finite() && m.dom().len() > 0 {
        let k = m.dom().choose();
        live_arms(m[k], now).len() + live_total(m.remove(k), now)
    } else {
        0
    }
}

/// The key of a listener.
pub open spec fn arm_key(listen: SocketAddr, protocol: Protocol) -> ArmKey {
    (
        addr_key(listen),
        match protocol {
            Protocol::Tcp => 0u8,
            Protocol::Udp => 1u8,
            Protocol::Https => 2u8,
        },
    )
}

fn key_of(listen: SocketAddr, protocol: Protocol) -> (r: ArmKey)
    ensures
        r == arm_key(listen, protocol),
{
    let p: u8 = match protocol {
        Protocol::Tcp => 0,
        Protocol::Udp => 1,
        Protocol::Https => 2,
    };
    (listen.key(), p)
}

fn same_token(a: &[u8; 32], b: &[u8; 32]) -> (r: bool)
    ensures
        r == (a@ == b@),
{
    for i in 0..32usize
        invariant
            forall|j: int| 0 <= j < i ==> a@[j] == b@[j],
    {
        if a[i] != b[i] {
            return false;
        }
    }
    assert(a@ =~= b@);
    true
}

/// Keeps the live arms of `v`, in order; whether any is left.
fn keep_live(v: &mut Vec<ArmEntry>, now: u64) -> (r: bool)
    ensures
        arm_views(final(v)@) == live_arms(arm_views(old(v)@), now),
        r == (final(v)@.len() > 0),
{
    let mut out: Vec<ArmEntry> = Vec::new();
    let ghost p = |a: Arm| live(a, now);
    let ghost all = arm_views(v@);
    assert(arm_views(out@) =~= all.subrange(0, 0).filter(p)) by {
        reveal(Seq::filter);
    }
    let n: usize = v.len();
    for i in 0..n
        invariant
            n == v@.len(),
            all == arm_views(v@),
            p == (|a: Arm| live(a, now)),
            arm_views(out@) == all.subrange(0, i as int).filter(p),
    {
        let e: ArmEntry = v[i];
        let ghost before = out@;
        proof {
            reveal(Seq::filter);
            assert(all.subrange(0, i + 1).drop_last() =~= all.subrange(0, i as int));
            assert(all.subrange(0, i + 1).last() == arm_view(e));
        }
        if e.expires_at > now {
            out.push(e);
            assert(arm_views(out@) =~= arm_views(before).push(arm_view(e)));
        }
    }
    assert(all.subrange(0, n as int) =~= all);
    *v = out;
    v.len() > 0
}

/// Keeps the arms of `v` with another token, in order.
fn keep_others(v: &Vec<ArmEntry>, token: &[u8; 32]) -> (r: Vec<ArmEntry>)
    ensures
        arm_views(r@) == other_arms(arm_views(v@), token@),
{
    let mut out: Vec<ArmEntry> = Vec::new();
    let ghost p = |a: Arm| other_token(a, token@);
    let ghost all = arm_views(v@);
    assert(arm_views(out@) =~= all.subrange(0, 0).filter(p)) by {
        reveal(Seq::filter);
    }
    let n: usize = v.len();
    for i in 0..n
        invariant
            n == v@.len(),
            all == arm_views(v@),
            p == (|a: Arm| other_token(a, token@)),
            arm_views(out@) == all.subrange(0, i as int).filter(p),
    {
        let e: ArmEntry = v[i];
        let ghost before = out@;
        proof {
            reveal(Seq::filter);
            assert(all.subrange(0, i + 1).drop_last() =~= all.subrange(0, i as int));
            assert(all.subrange(0, i + 1).last() == arm_view(e));
        }
        if !same_token(&e.token, token) {
            out.push(e);
            assert(arm_views(out@) =~= arm_views(before).push(arm_view(e)));
        }
    }
    assert(all.subrange(0, n as int) =~= all);
    out
}

/// What [`token_pos`] returns.
proof fn lemma_token_pos(s: Seq<Arm>, token: Seq<u8>)
    ensures
        0 <= token_pos(s, token) <= s.len(),
        token_pos(s, token) < s.len() ==> s[token_pos(s, token)].0 == token,
        forall|j: int| 0 <= j < token_pos(s, token) ==> (#[trigger] s[j]).0 != token,
    decreases s.len(),
{
    if s.len() > 0 && s[0].0 != token {
        let t = s.drop_first();
        lemma_token_pos(t, token);
        assert forall|j: int| 0 <= j < token_pos(s, token) implies (#[trigger] s[j]).0 != token by {
            if j > 0 {
                assert(s[j] == t[j - 1]);
            }
        }
    }
}

/// Installs a token among `v`.
fn install(v: Vec<ArmEntry>, token: [u8; 32], expires_at: u64) -> (r: Vec<ArmEntry>)
    ensures
        arm_views(r@) == with_arm(arm_views(v@), token@, expires_at),
{
    let ghost all = arm_views(v@);
    let mut v = v;
    let mut i: usize = 0;
    while i < v.len() && !same_token(&v[i].token, &token)
        invariant
            i <= v@.len(),
            all == arm_views(v@),
            forall|j: int| 0 <= j < i ==> (#[trigger] all[j]).0 != token@,
        decreases v@.len() - i,
    {
        assert(all[i as int] == arm_view(v@[i as int]));
        i += 1;
    }
    proof {
        lemma_token_pos(all, token@);
        let p = token_pos(all, token@);
        if i < v@.len() {
            assert(all[i as int] == arm_view(v@[i as int]));
            if p < i {
                assert(all[p].0 != token@);
            } else if i < p {
                assert(all[i as int].0 != token@);
            }
        } else if p < i {
            assert(all[p].0 != token@);
        }
    }
    if i < v.len() {
        let fresh = ArmEntry { token: v[i].token, expires_at };
        let ghost before = v@;
        v[i] = fresh;
        assert(arm_views(v@) =~= all.update(i as int, (all[i as int].0, expires_at)));
    } else {
        v.push(ArmEntry { token, expires_at });
        assert(arm_views(v@) =~= all.push((token@, expires_at)));
    }
    v
}

/// Table of armed tokens, keyed by listen address and protocol.
pub struct CanaryArmTable {
    arms: DashMap<ArmKey, Vec<ArmEntry>>,
    start: std::time::Instant,
}

impl View for CanaryArmTable {
    type V = ArmModel;

    closed spec fn view(&self) -> ArmModel {
        arm_map(self.arms)
    }
}

/// Finitely many keys, none of which holds one token twice.
pub open spec fn arms_ok(m: ArmModel) -> bool {
    m.dom().finite() && tokens_distinct(m)
}

impl CanaryArmTable {
    /// The contents are in order.
    pub open spec fn wf(&self) -> bool {
        arms_ok(self@)
    }

    /// Fresh empty table.
    pub fn new() -> (r: Self)
        ensures
            r.wf(),
            r@ == ArmModel::empty(),
    {
        CanaryArmTable { arms: arm_map_new(), start: instant_now() }
    }

    /// Nanoseconds since the table was made: the clock of its expiries.
    /// Nothing is promised of the count: it is whatever the clock says.
    pub fn now(&self) -> u64 {
        elapsed_ns(&self.start)
    }

    /// Whether some arm on the listener is live at `now`.
    pub fn is_armed_at(&self, listen: SocketAddr, protocol: Protocol, now: u64) -> (r: bool)
        ensures
            r == armed(self@, arm_key(listen, protocol), now),
    {
        let k = key_of(listen, protocol);
        match arm_map_get(&self.arms, k) {
            None => false,
            Some(v) => {
                let ghost all = arms_at(self@, k);
                assert(all == arm_views(v@));
                for i in 0..v.len()
                    invariant
                        all == arm_views(v@),
                        all == arms_at(self@, k),
                        k == arm_key(listen, protocol),
                        forall|j: int| 0 <= j < i ==> !live(#[trigger] all[j], now),
                {
                    assert(all[i as int] == arm_view(v@[i as int]));
                    if v[i].expires_at > now {
                        assert(live(arms_at(self@, k)[i as int], now));
                        return true;
                    }
                }
                false
            },
        }
    }

    /// Whether an arm with exactly this token on the listener is live at `now`.
    pub fn match_token_at(
        &self,
        listen: SocketAddr,
        protocol: Protocol,
        candidate: &[u8; 32],
        now: u64,
    ) -> (r: bool)
        ensures
            r == matches_arm(self@, arm_key(listen, protocol), candidate@, now),
    {
        let k = key_of(listen, protocol);
        match arm_map_get(&self.arms, k) {
            None => false,
            Some(v) => {
                let ghost all = arms_at(self@, k);
                assert(all == arm_views(v@));
                for i in 0..v.len()
                    invariant
                        all == arm_views(v@),
                        all == arms_at(self@, k),
                        k == arm_key(listen, protocol),
                        forall|j: int|
                            0 <= j < i ==> !(live(#[trigger] all[j], now) && all[j].0
                                == candidate@),
                {
                    assert(all[i as int] == arm_view(v@[i as int]));
                    if v[i].expires_at > now && same_token(&v[i].token, candidate) {
                        assert(live(arms_at(self@, k)[i as int], now));
                        return true;
                    }
                }
                false
            },
        }
    }

    /// Installs an arm at `now` for `ttl` nanoseconds. An arm with the same
    /// token gets the new expiry.
    pub fn arm_at(
        &mut self,
        listen: SocketAddr,
        protocol: Protocol,
        token: [u8; 32],
        ttl: u64,
        now: u64,
    )
        requires
            old(self).wf(),
        ensures
            final(self).wf(),
            final(self)@ == armed_model(
                old(self)@,
                arm_key(listen, protocol),
                token@,
                ttl,
                now,
            ),
    {
        proof {
            lemma_arms_stay_ok(self@, arm_key(listen, protocol), token@, ttl, now);
        }
        let expires_at: u64 = now.saturating_add(ttl);
        let k = key_of(listen, protocol);
        let mut v: Vec<ArmEntry> = match arm_map_get(&self.arms, k) {
            Some(v) => v,
            None => Vec::new(),
        };
        proof {
            if !self@.contains_key(k) {
                assert(arm_views(v@) =~= arms_at(self@, k));
            }
        }
        keep_live(&mut v, now);
        let v = install(v, token, expires_at);
        arm_map_insert(&mut self.arms, k, v);
    }

    /// Drops the arm with this token, if there is one.
    pub fn disarm(&mut self, listen: SocketAddr, protocol: Protocol, token: &[u8; 32])
        requires
            old(self).wf(),
        ensures
            final(self).wf(),
            final(self)@ == disarmed_model(old(self)@, arm_key(listen, protocol), token@),
    {
        proof {
            lemma_arms_stay_ok(self@, arm_key(listen, protocol), token@, 0, 0);
        }
        let k = key_of(listen, protocol);
        match arm_map_get(&self.arms, k) {
            None => {},
            Some(v) => {
                let rest = keep_others(&v, token);
                assert(arm_views(rest@).len() == rest@.len());
                if rest.len() == 0 {
                    arm_map_remove(&mut self.arms, k);
                } else {
                    arm_map_insert(&mut self.arms, k, rest);
                }
            },
        }
    }

    /// Drops every lapsed arm and every key without arms.
    pub fn purge_expired_at(&mut self, now: u64)
        requires
            old(self).wf(),
        ensures
            final(self).wf(),
            final(self)@ == purged(old(self)@, now),
    {
        proof {
            lemma_purged_ok(self@, now);
        }
        arm_map_retain_live(&mut self.arms, now);
    }

    /// Number of live arms at `now` over all keys, up to `usize::MAX`.
    pub fn active_count_at(&self, now: u64) -> (r: usize)
        ensures
            r == (if live_total(self@, now) <= usize::MAX {
                live_total(self@, now)
            } else {
                usize::MAX as nat
            }),
    {
        let entries = arm_map_entries(&self.arms);
        let mut total: usize = 0;
        let ghost mut rest = self@;
        let ghost all = live_total(self@, now);
        proof {
            lemma_entries_finite(self@, entries@);
        }
        for i in 0..entries.len()
            invariant
                all == live_total(self@, now),
                rest.dom().finite(),
                forall|j: int|
                    i <= j < entries@.len() ==> rest.contains_key(#[trigger] entries@[j].0)
                        && rest[entries@[j].0] == arm_views(entries@[j].1@),
                forall|a: int, b: int|
                    0 <= a < b < entries@.len() ==> entries@[a].0 != entries@[b].0,
                forall|k: ArmKey| #[trigger]
                    rest.contains_key(k) ==> exists|j: int|
                        i <= j < entries@.len() && entries@[j].0 == k,
                total == (if all - live_total(rest, now) <= usize::MAX {
                    all - live_total(rest, now)
                } else {
                    usize::MAX as int
                }),
                live_total(rest, now) <= all,
        {
            let mut v = entries[i].1.clone();
            assert(v@ =~= entries@[i as int].1@);
            keep_live(&mut v, now);
            assert(arm_views(v@).len() == v@.len());
            proof {
                let k = entries@[i as int].0;
                lemma_total_remove(rest, k, now);
                let next = rest.remove(k);
                assert forall|q: ArmKey| #[trigger] next.contains_key(q) implies exists|j: int|
                    i + 1 <= j < entries@.len() && entries@[j].0 == q by {
                    assert(rest.contains_key(q));
                    let j = choose|j: int| i <= j < entries@.len() && entries@[j].0 == q;
                    assert(j != i);
                }
                rest = next;
            }
            total = total.saturating_add(v.len());
        }
        proof {
            assert(rest.dom() =~= Set::empty()) by {
                assert forall|k: ArmKey| !rest.dom().contains(k) by {
                    if rest.contains_key(k) {
                    }
                }
            }
        }
        total
    }

    /// Whether some arm on the listener is live now.
    pub fn is_armed(&self, listen: SocketAddr, protocol: Protocol) -> (r: bool)
        ensures
            exists|now: u64| r == armed(self@, arm_key(listen, protocol), now),
    {
        let now: u64 = self.now();
        self.is_armed_at(listen, protocol, now)
    }

    /// Whether an arm with exactly this token on the listener is live now.
    pub fn match_token(
        &self,
        listen: SocketAddr,
        protocol: Protocol,
        candidate: &[u8; 32],
    ) -> (r: bool)
        ensures
            exists|now: u64|
                r == matches_arm(self@, arm_key(listen, protocol), candidate@, now),
    {
        let now: u64 = self.now();
        self.match_token_at(listen, protocol, candidate, now)
    }

    /// Installs an arm now for `ttl` nanoseconds.
    pub fn arm(&mut self, listen: SocketAddr, protocol: Protocol, token: [u8; 32], ttl: u64)
        requires
            old(self).wf(),
        ensures
            final(self).wf(),
            exists|now: u64|
                final(self)@ == armed_model(
                    old(self)@,
                    arm_key(listen, protocol),
                    token@,
                    ttl,
                    now,
                ),
    {
        let now: u64 = self.now();
        self.arm_at(listen, protocol, token, ttl, now);
    }

    /// Drops every arm that has lapsed by now.
    pub fn purge_expired(&mut self)
        requires
            old(self).wf(),
        ensures
            final(self).wf(),
            exists|now: u64| final(self)@ == purged(old(self)@, now),
    {
        let now: u64 = self.now();
        self.purge_expired_at(now);
    }

    /// Number of arms that are live now, up to `usize::MAX`.
    pub fn active_count(&self) -> (r: usize)
        ensures
            exists|now: u64|
                r == (if live_total(self@, now) <= usize::MAX {
                    live_total(self@, now)
                } else {
                    usize::MAX as nat
                }),
    {
        let now: u64 = self.now();
        self.active_count_at(now)
    }
}

/// A map whose keys a list names has finitely many.
proof fn lemma_entries_finite(m: ArmModel, entries: Seq<(ArmKey, Vec<ArmEntry>)>)
    requires
        forall|k: ArmKey| #[trigger]
            m.contains_key(k) ==> exists|i: int| 0 <= i < entries.len() && entries[i].0 == k,
    ensures
        m.dom().finite(),
{
    let keys = Seq::new(entries.len(), |i: int| entries[i].0);
    assert forall|k: ArmKey| m.dom().contains(k) implies keys.to_set().contains(k) by {
        assert(m.contains_key(k));
        let i = choose|i: int| 0 <= i < entries.len() && entries[i].0 == k;
        assert(keys[i] == k);
    }
    vstd::seq_lib::seq_to_set_is_finite(keys);
    vstd::set_lib::lemma_len_subset(m.dom(), keys.to_set());
}

/// The total is the count under any key and the total of the rest.
proof fn lemma_total_remove(m: ArmModel, k: ArmKey, now: u64)
    requires
        m.dom().finite(),
        m.contains_key(k),
    ensures
        live_total(m, now) == live_arms(m[k], now).len() + live_total(m.remove(k), now),
    decreases m.dom().len(),
{
    let c = m.dom().choose();
    assert(m.dom().contains(k));
    assert(m.dom().len() > 0);
    if c != k {
        let mc = m.remove(c);
        let mk = m.remove(k);
        assert(mc.dom() =~= m.dom().remove(c));
        assert(mk.dom() =~= m.dom().remove(k));
        lemma_total_remove(mc, k, now);
        lemma_total_remove(mk, c, now);
        assert(mc.remove(k) =~= mk.remove(c));
    }
}

/// Law: right after arming, and until the expiry, exactly that token matches on
/// that listener; from the expiry on it no longer does.
pub proof fn law_armed_token_matches_until_expiry(
    m: ArmModel,
    k: ArmKey,
    token: Seq<u8>,
    ttl: u64,
    now: u64,
    later: u64,
)
    requires
        tokens_distinct(m),
        now <= later,
    ensures
        matches_arm(armed_model(m, k, token, ttl, now), k, token, later) <==> later < expiry(
            now,
            ttl,
        ),
        later < expiry(now, ttl) ==> armed(armed_model(m, k, token, ttl, now), k, later),
{
    let s = live_arms(arms_at(m, k), now);
    let m2 = armed_model(m, k, token, ttl, now);
    let t = with_arm(s, token, expiry(now, ttl));
    assert(arms_at(m2, k) == t);
    lemma_token_pos(s, token);
    let i = token_pos(s, token);
    assert(t[i].0 == token && t[i].1 == expiry(now, ttl));
    assert(live(arms_at(m2, k)[i], later) <==> later < expiry(now, ttl));
    lemma_filter_distinct(arms_at(m, k), |a: Arm| live(a, now));
    if matches_arm(m2, k, token, later) {
        let j = choose|j: int|
            0 <= j < arms_at(m2, k).len() && live(#[trigger] arms_at(m2, k)[j], later) && arms_at(
                m2,
                k,
            )[j].0 == token;
        if j != i {
            assert(t[j] == s[j]);
            if i < s.len() {
                assert(s[i].0 == token && s[j].0 == token);
            } else {
                assert(s[j].0 != token);
            }
        }
    }
}

/// Law: arming a token on one listener leaves every other listener as it was.
pub proof fn law_arm_leaves_other_listeners(
    m: ArmModel,
    listen: SocketAddr,
    protocol: Protocol,
    token: Seq<u8>,
    ttl: u64,
    now: u64,
    other: SocketAddr,
    other_protocol: Protocol,
)
    requires
        other != listen || other_protocol != protocol,
    ensures
        arms_at(
            armed_model(m, arm_key(listen, protocol), token, ttl, now),
            arm_key(other, other_protocol),
        ) == arms_at(m, arm_key(other, other_protocol)),
{
    lemma_addr_key_injective(listen, other);
}

/// Law: arming a token changes nothing for any other token on the listener.
pub proof fn law_arm_keeps_other_tokens(
    m: ArmModel,
    k: ArmKey,
    token: Seq<u8>,
    ttl: u64,
    now: u64,
    other: Seq<u8>,
    later: u64,
)
    requires
        other != token,
        now <= later,
    ensures
        matches_arm(armed_model(m, k, token, ttl, now), k, other, later) <==> matches_arm(
            m,
            k,
            other,
            later,
        ),
{
    let a0 = arms_at(m, k);
    let s = live_arms(a0, now);
    let m2 = armed_model(m, k, token, ttl, now);
    let t = arms_at(m2, k);
    lemma_token_pos(s, token);
    lemma_filter_members(a0, |a: Arm| live(a, now));
    let i = token_pos(s, token);
    if matches_arm(m, k, other, later) {
        let j = choose|j: int|
            0 <= j < a0.len() && live(#[trigger] arms_at(m, k)[j], later) && a0[j].0 == other;
        assert(s.contains(a0[j]));
        let q = choose|q: int| 0 <= q < s.len() && s[q] == a0[j];
        assert(t[q] == s[q]);
        assert(live(arms_at(m2, k)[q], later));
    }
    if matches_arm(m2, k, other, later) {
        let j = choose|j: int|
            0 <= j < t.len() && live(#[trigger] arms_at(m2, k)[j], later) && t[j].0 == other;
        assert(j != i);
        assert(t[j] == s[j]);
        assert(s.contains(s[j]));
        assert(a0.contains(s[j]));
        let q = choose|q: int| 0 <= q < a0.len() && a0[q] == s[j];
        assert(live(arms_at(m, k)[q], later));
    }
}

/// Law: a disarmed token matches at no time; other tokens on the listener
/// match as before.
pub proof fn law_disarmed_token_never_matches(
    m: ArmModel,
    k: ArmKey,
    token: Seq<u8>,
    other: Seq<u8>,
    later: u64,
)
    ensures
        !matches_arm(disarmed_model(m, k, token), k, token, later),
        other != token ==> (matches_arm(disarmed_model(m, k, token), k, other, later)
            <==> matches_arm(m, k, other, later)),
{
    let m2 = disarmed_model(m, k, token);
    if m.contains_key(k) {
        let a0 = m[k];
        let s = other_arms(a0, token);
        lemma_filter_members(a0, |a: Arm| other_token(a, token));
        assert(arms_at(m2, k) =~= s);
        if matches_arm(m2, k, token, later) {
            let j = choose|j: int|
                0 <= j < s.len() && live(#[trigger] arms_at(m2, k)[j], later) && arms_at(
                    m2,
                    k,
                )[j].0 == token;
            assert(s.contains(s[j]));
        }
        if other != token {
            if matches_arm(m, k, other, later) {
                let j = choose|j: int|
                    0 <= j < a0.len() && live(#[trigger] arms_at(m, k)[j], later) && a0[j].0
                        == other;
                assert(s.contains(a0[j]));
                let q = choose|q: int| 0 <= q < s.len() && s[q] == a0[j];
                assert(live(arms_at(m2, k)[q], later));
            }
            if matches_arm(m2, k, other, later) {
                let j = choose|j: int|
                    0 <= j < s.len() && live(#[trigger] arms_at(m2, k)[j], later) && arms_at(
                        m2,
                        k,
                    )[j].0 == other;
                assert(s.contains(s[j]));
                assert(a0.contains(s[j]));
                let q = choose|q: int| 0 <= q < a0.len() && a0[q] == s[j];
                assert(live(arms_at(m, k)[q], later));
            }
        }
    }
}

/// Law: a sweep changes no later answer.
pub proof fn law_purge_changes_no_later_match(
    m: ArmModel,
    k: ArmKey,
    token: Seq<u8>,
    now: u64,
    later: u64,
)
    requires
        now <= later,
    ensures
        matches_arm(purged(m, now), k, token, later) <==> matches_arm(m, k, token, later),
{
    let m2 = purged(m, now);
    if m.contains_key(k) {
        let a0 = m[k];
        let s = live_arms(a0, now);
        lemma_filter_members(a0, |a: Arm| live(a, now));
        assert(arms_at(m2, k) =~= s);
        if matches_arm(m, k, token, later) {
            let j = choose|j: int|
                0 <= j < a0.len() && live(#[trigger] arms_at(m, k)[j], later) && a0[j].0 == token;
            assert(s.contains(a0[j]));
            let q = choose|q: int| 0 <= q < s.len() && s[q] == a0[j];
            assert(live(arms_at(m2, k)[q], later));
        }
        if matches_arm(m2, k, token, later) {
            let j = choose|j: int|
                0 <= j < s.len() && live(#[trigger] arms_at(m2, k)[j], later) && arms_at(
                    m2,
                    k,
                )[j].0 == token;
            assert(s.contains(s[j]));
            assert(a0.contains(s[j]));
            let q = choose|q: int| 0 <= q < a0.len() && a0[q] == s[j];
            assert(live(arms_at(m, k)[q], later));
        }
    }
}

/// Law: a second sweep at the same time does nothing.
pub proof fn law_purge_is_idempotent(m: ArmModel, now: u64)
    ensures
        purged(purged(m, now), now) == purged(m, now),
{
    let p = purged(m, now);
    let q = purged(p, now);
    assert forall|k: ArmKey| p.contains_key(k) implies live_arms(#[trigger] p[k], now) == p[k] by {
        lemma_filter_members(m[k], |a: Arm| live(a, now));
        lemma_filter_all(p[k], now);
    }
    assert(q.dom() =~= p.dom());
    assert(q =~= p);
}

/// Filtering a list of live arms keeps it.
proof fn lemma_filter_all(s: Seq<Arm>, now: u64)
    requires
        forall|i: int| 0 <= i < s.len() ==> live(#[trigger] s[i], now),
    ensures
        live_arms(s, now) == s,
    decreases s.len(),
{
    reveal(Seq::filter);
    if s.len() > 0 {
        let t = s.drop_last();
        assert forall|i: int| 0 <= i < t.len() implies live(#[trigger] t[i], now) by {
            assert(t[i] == s[i]);
        }
        lemma_filter_all(t, now);
        assert(live(s[s.len() - 1], now));
        assert(t.push(s.last()) =~= s);
    } else {
        assert(s =~= Seq::<Arm>::empty());
    }
}

/// No key holds one token twice.
pub open spec fn tokens_distinct(m: ArmModel) -> bool {
    forall|k: ArmKey| #[trigger] m.contains_key(k) ==> distinct(m[k])
}

/// No token occurs twice in the list.
pub open spec fn distinct(s: Seq<Arm>) -> bool {
    forall|i: int, j: int| 0 <= i < j < s.len() ==> (#[trigger] s[i]).0 != (#[trigger] s[j]).0
}

/// Members of a filtered list.
proof fn lemma_filter_members(s: Seq<Arm>, p: spec_fn(Arm) -> bool)
    ensures
        forall|i: int| 0 <= i < s.len() && p(s[i]) ==> s.filter(p).contains(#[trigger] s[i]),
        forall|i: int|
            0 <= i < s.filter(p).len() ==> p(#[trigger] s.filter(p)[i]) && s.contains(
                s.filter(p)[i],
            ),
    decreases s.len(),
{
    reveal(Seq::filter);
    if s.len() > 0 {
        let t = s.drop_last();
        let f = t.filter(p);
        let g = s.filter(p);
        lemma_filter_members(t, p);
        assert forall|i: int| 0 <= i < g.len() implies p(#[trigger] g[i]) && s.contains(g[i]) by {
            if i < f.len() {
                assert(g[i] == f[i]);
                let q = choose|q: int| 0 <= q < t.len() && t[q] == f[i];
                assert(s[q] == g[i]);
            } else {
                assert(g[i] == s[s.len() - 1]);
            }
        }
        assert forall|i: int| 0 <= i < s.len() && p(s[i]) implies g.contains(#[trigger] s[i]) by {
            if i < t.len() {
                assert(t[i] == s[i]);
                let q = choose|q: int| 0 <= q < f.len() && f[q] == t[i];
                assert(g[q] == s[i]);
            } else {
                assert(g[g.len() - 1] == s[i]);
            }
        }
    }
}

/// Filtering keeps tokens distinct.
proof fn lemma_filter_distinct(s: Seq<Arm>, p: spec_fn(Arm) -> bool)
    requires
        distinct(s),
    ensures
        distinct(s.filter(p)),
    decreases s.len(),
{
    reveal(Seq::filter);
    if s.len() > 0 {
        let t = s.drop_last();
        assert forall|i: int, j: int| 0 <= i < j < t.len() implies (#[trigger] t[i]).0 != (
        #[trigger] t[j]).0 by {
            assert(t[i] == s[i] && t[j] == s[j]);
        }
        lemma_filter_distinct(t, p);
        let f = t.filter(p);
        lemma_filter_members(t, p);
        let g = s.filter(p);
        assert forall|i: int, j: int| 0 <= i < j < g.len() implies (#[trigger] g[i]).0 != (
        #[trigger] g[j]).0 by {
            if p(s.last()) && j == f.len() {
                assert(t.contains(f[i]));
                let q = choose|q: int| 0 <= q < t.len() && t[q] == f[i];
                assert(s[q].0 != s[s.len() - 1].0);
            }
        }
    }
}

/// Arming and disarming keep the contents in order.
proof fn lemma_arms_stay_ok(m: ArmModel, k: ArmKey, token: Seq<u8>, ttl: u64, now: u64)
    requires
        arms_ok(m),
    ensures
        arms_ok(armed_model(m, k, token, ttl, now)),
        arms_ok(disarmed_model(m, k, token)),
{
    law_tokens_stay_distinct(m, k, token, ttl, now);
    assert(armed_model(m, k, token, ttl, now).dom() =~= m.dom().insert(k));
    if m.contains_key(k) {
        assert(disarmed_model(m, k, token).dom().subset_of(m.dom()));
        vstd::set_lib::lemma_len_subset(disarmed_model(m, k, token).dom(), m.dom());
    }
}

/// A sweep keeps the contents in order.
proof fn lemma_purged_ok(m: ArmModel, now: u64)
    requires
        arms_ok(m),
    ensures
        arms_ok(purged(m, now)),
{
    let p = purged(m, now);
    vstd::set_lib::lemma_len_subset(p.dom(), m.dom());
    assert forall|q: ArmKey| #[trigger] p.contains_key(q) implies distinct(p[q]) by {
        assert(m.contains_key(q));
        lemma_filter_distinct(m[q], |a: Arm| live(a, now));
    }
}

/// A live arm has this token.
pub open spec fn has_live(s: Seq<Arm>, token: Seq<u8>, now: u64) -> bool {
    exists|i: int| 0 <= i < s.len() && live(#[trigger] s[i], now) && s[i].0 == token
}

/// One where the condition holds, none otherwise.
pub open spec fn one_if(b: bool) -> nat {
    if b {
        1
    } else {
        0
    }
}

/// What is live later is live now.
proof fn lemma_live_twice(s: Seq<Arm>, now: u64, later: u64)
    requires
        now <= later,
    ensures
        live_arms(live_arms(s, now), later) == live_arms(s, later),
    decreases s.len(),
{
    reveal(Seq::filter);
    if s.len() > 0 {
        let t = s.drop_last();
        lemma_live_twice(t, now, later);
        if live(s.last(), now) {
            assert(live_arms(s, now).drop_last() =~= live_arms(t, now));
        }
    }
}

/// The live arms are those with other tokens, and one with this token where
/// there is a live one.
proof fn lemma_live_split(s: Seq<Arm>, token: Seq<u8>, now: u64)
    requires
        distinct(s),
    ensures
        live_arms(s, now).len() == live_arms(other_arms(s, token), now).len() + one_if(
            has_live(s, token, now),
        ),
    decreases s.len(),
{
    reveal(Seq::filter);
    if s.len() > 0 {
        let t = s.drop_last();
        let x = s.last();
        assert forall|i: int, j: int| 0 <= i < j < t.len() implies (#[trigger] t[i]).0 != (
        #[trigger] t[j]).0 by {
            assert(t[i] == s[i] && t[j] == s[j]);
        }
        lemma_live_split(t, token, now);
        if has_live(t, token, now) {
            let i = choose|i: int| 0 <= i < t.len() && live(#[trigger] t[i], now) && t[i].0 == token;
            assert(s[i] == t[i]);
            assert(s[i].0 != s[s.len() - 1].0);
        }
        if has_live(s, token, now) {
            let i = choose|i: int| 0 <= i < s.len() && live(#[trigger] s[i], now) && s[i].0 == token;
            if i < t.len() {
                assert(t[i] == s[i]);
            }
        }
        if x.0 != token {
            assert(other_arms(s, token) =~= other_arms(t, token).push(x));
            assert(other_arms(s, token).drop_last() =~= other_arms(t, token));
        } else {
            assert(other_arms(s, token) =~= other_arms(t, token));
            if live(x, now) {
                assert(s[s.len() - 1] == x);
                assert(has_live(s, token, now));
            }
        }
    }
}

/// Changing one arm changes the number of live ones by that arm.
proof fn lemma_live_update(s: Seq<Arm>, i: int, x: Arm, now: u64)
    requires
        0 <= i < s.len(),
    ensures
        live_arms(s.update(i, x), now).len() + one_if(live(s[i], now)) == live_arms(s, now).len()
            + one_if(live(x, now)),
    decreases s.len(),
{
    reveal(Seq::filter);
    let t = s.drop_last();
    let u = s.update(i, x);
    if i < t.len() {
        lemma_live_update(t, i, x, now);
        assert(u.drop_last() =~= t.update(i, x));
        assert(u.last() == s.last());
    } else {
        assert(u.drop_last() =~= t);
        assert(u.last() == x);
    }
}

/// The live arms of a listener after arming: those with other tokens, and the
/// new one until it expires.
proof fn lemma_armed_count(s: Seq<Arm>, token: Seq<u8>, expires: u64, now: u64, later: u64)
    requires
        distinct(s),
        now <= later,
    ensures
        live_arms(with_arm(live_arms(s, now), token, expires), later).len() == live_arms(
            other_arms(s, token),
            later,
        ).len() + one_if(later < expires),
{
    let l = live_arms(s, now);
    lemma_filter_distinct(s, |a: Arm| live(a, now));
    lemma_filter_members(s, |a: Arm| live(a, now));
    lemma_token_pos(l, token);
    lemma_live_twice(s, now, later);
    lemma_live_split(s, token, later);
    let i = token_pos(l, token);
    if has_live(s, token, later) {
        let j = choose|j: int| 0 <= j < s.len() && live(#[trigger] s[j], later) && s[j].0 == token;
        assert(live(s[j], now));
        assert(l.contains(s[j]));
        let q = choose|q: int| 0 <= q < l.len() && l[q] == s[j];
        assert(l[q].0 == token);
        assert(i == q) by {
            if i < q {
                assert(l[i].0 != l[q].0);
            } else if q < i {
                assert(l[q].0 != token);
            }
        }
    }
    if i < l.len() {
        lemma_live_update(l, i, (l[i].0, expires), later);
        if live(l[i], later) {
            assert(s.contains(l[i]));
            let j = choose|j: int| 0 <= j < s.len() && s[j] == l[i];
            assert(live(s[j], later));
            assert(has_live(s, token, later));
        }
    } else {
        reveal(Seq::filter);
        assert(l.push((token, expires)).drop_last() =~= l);
    }
}

/// The total over all keys, with one key's arms replaced.
proof fn lemma_total_insert(m: ArmModel, k: ArmKey, v: Seq<Arm>, now: u64)
    requires
        m.dom().finite(),
    ensures
        live_total(m.insert(k, v), now) == live_arms(v, now).len() + live_total(m.remove(k), now),
{
    let t = m.insert(k, v);
    assert(t.dom() =~= m.dom().insert(k));
    lemma_total_remove(t, k, now);
    assert(t.remove(k) =~= m.remove(k));
}

/// Law: an armed token counts once, however often it was armed before: the live
/// arms are all the others, and this one until it expires.
pub proof fn law_armed_token_counts_once(
    m: ArmModel,
    k: ArmKey,
    token: Seq<u8>,
    ttl: u64,
    now: u64,
    later: u64,
)
    requires
        arms_ok(m),
        now <= later,
    ensures
        live_total(armed_model(m, k, token, ttl, now), later) == live_total(
            disarmed_model(m, k, token),
            later,
        ) + one_if(later < expiry(now, ttl)),
{
    let s = arms_at(m, k);
    lemma_armed_count(s, token, expiry(now, ttl), now, later);
    lemma_total_insert(m, k, with_arm(live_arms(s, now), token, expiry(now, ttl)), later);
    let others = other_arms(s, token);
    reveal(Seq::filter);
    if m.contains_key(k) {
        if others.len() == 0 {
            assert(others =~= Seq::<Arm>::empty());
        } else {
            lemma_total_insert(m, k, others, later);
        }
    } else {
        assert(m.remove(k) =~= m);
        assert(others =~= Seq::<Arm>::empty());
    }
}

/// Law: arming a live token again resets its expiry, to an earlier time too, and
/// does not count it twice; other tokens and other listeners are left alone.
pub proof fn law_rearming_resets(
    m: ArmModel,
    k: ArmKey,
    token: Seq<u8>,
    first: u64,
    start: u64,
    second: u64,
    again: u64,
    later: u64,
    other: Seq<u8>,
    elsewhere: ArmKey,
)
    requires
        arms_ok(m),
        start <= again,
        again < expiry(start, first),
        again <= later,
    ensures
        ({
            let once = armed_model(m, k, token, first, start);
            let twice = armed_model(once, k, token, second, again);
            &&& matches_arm(twice, k, token, later) <==> later < expiry(again, second)
            &&& live_total(twice, later) == live_total(disarmed_model(once, k, token), later)
                + one_if(later < expiry(again, second))
            &&& again < expiry(again, second) ==> live_total(twice, again) == live_total(
                once,
                again,
            )
            &&& other != token ==> (matches_arm(twice, k, other, later) <==> matches_arm(
                once,
                k,
                other,
                later,
            ))
            &&& elsewhere != k ==> arms_at(twice, elsewhere) == arms_at(once, elsewhere)
        }),
{
    let once = armed_model(m, k, token, first, start);
    lemma_arms_stay_ok(m, k, token, first, start);
    law_armed_token_matches_until_expiry(once, k, token, second, again, later);
    law_armed_token_counts_once(once, k, token, second, again, later);
    law_armed_token_counts_once(once, k, token, second, again, again);
    law_armed_token_matches_until_expiry(m, k, token, first, start, again);
    if other != token {
        law_arm_keeps_other_tokens(once, k, token, second, again, other, later);
    }
    // The token was live, so that the count without it is one less.
    let s = once[k];
    lemma_live_split(s, token, again);
    assert(matches_arm(once, k, token, again));
    let i = choose|i: int|
        0 <= i < arms_at(once, k).len() && live(#[trigger] arms_at(once, k)[i], again) && arms_at(
            once,
            k,
        )[i].0 == token;
    assert(live(s[i], again) && s[i].0 == token);
    assert(has_live(s, token, again));
    lemma_total_remove(once, k, again);
    let others = other_arms(s, token);
    if others.len() == 0 {
        reveal(Seq::filter);
        assert(others =~= Seq::<Arm>::empty());
    } else {
        lemma_total_insert(once, k, others, again);
    }
}

/// Law: no operation makes a listener hold one token twice.
pub proof fn law_tokens_stay_distinct(
    m: ArmModel,
    k: ArmKey,
    token: Seq<u8>,
    ttl: u64,
    now: u64,
)
    requires
        tokens_distinct(m),
    ensures
        tokens_distinct(ArmModel::empty()),
        tokens_distinct(armed_model(m, k, token, ttl, now)),
        tokens_distinct(disarmed_model(m, k, token)),
        tokens_distinct(purged(m, now)),
{
    let s = live_arms(arms_at(m, k), now);
    lemma_filter_distinct(arms_at(m, k), |a: Arm| live(a, now));
    lemma_token_pos(s, token);
    let i = token_pos(s, token);
    let t = with_arm(s, token, expiry(now, ttl));
    assert forall|a: int, b: int| 0 <= a < b < t.len() implies (#[trigger] t[a]).0 != (
    #[trigger] t[b]).0 by {
        if i < s.len() {
            assert(t[a].0 == s[a].0 && t[b].0 == s[b].0);
        } else if b == s.len() {
            assert(s[a].0 != token);
        }
    }
    lemma_filter_distinct(arms_at(m, k), |a: Arm| other_token(a, token));
    let p = purged(m, now);
    assert forall|q: ArmKey| #[trigger] p.contains_key(q) implies distinct(p[q]) by {
        assert(m.contains_key(q));
        lemma_filter_distinct(m[q], |a: Arm| live(a, now));
    }
}

/// Law: a listener is known by its whole address and its protocol.
pub proof fn law_listeners_are_told_apart(
    a: SocketAddr,
    p: Protocol,
    b: SocketAddr,
    q: Protocol,
)
    ensures
        arm_key(a, p) == arm_key(b, q) <==> a == b && p == q,
{
    lemma_addr_key_injective(a, b);
}

/// Law: a token matches exactly where one of the listener's arms holds the same
/// bytes and has not lapsed; a listener is armed exactly where one of its arms
/// has not lapsed.
pub proof fn law_only_the_armed_token_matches(m: ArmModel, k: ArmKey, token: Seq<u8>, now: u64)
    ensures
        matches_arm(m, k, token, now) <==> m.contains_key(k) && exists|i: int|
            0 <= i < m[k].len() && (#[trigger] m[k][i]).0 == token && now < m[k][i].1,
        armed(m, k, now) <==> m.contains_key(k) && exists|i: int|
            0 <= i < m[k].len() && now < (#[trigger] m[k][i]).1,
{
    if m.contains_key(k) {
        assert(arms_at(m, k) == m[k]);
        if exists|i: int| 0 <= i < m[k].len() && (#[trigger] m[k][i]).0 == token && now < m[k][i].1 {
            let i = choose|i: int|
                0 <= i < m[k].len() && (#[trigger] m[k][i]).0 == token && now < m[k][i].1;
            assert(live(arms_at(m, k)[i], now));
        }
        if exists|i: int| 0 <= i < m[k].len() && now < (#[trigger] m[k][i]).1 {
            let i = choose|i: int| 0 <= i < m[k].len() && now < (#[trigger] m[k][i]).1;
            assert(live(arms_at(m, k)[i], now));
        }
        if matches_arm(m, k, token, now) {
            let i = choose|i: int|
                0 <= i < arms_at(m, k).len() && live(#[trigger] arms_at(m, k)[i], now) && arms_at(
                    m,
                    k,
                )[i].0 == token;
            assert(m[k][i].0 == token);
        }
        if armed(m, k, now) {
            let i = choose|i: int|
                0 <= i < arms_at(m, k).len() && live(#[trigger] arms_at(m, k)[i], now);
            assert(now < m[k][i].1);
        }
    }
}

/// Law: an armed token is good for as long as it was armed for: at a later time
/// it matches exactly where less than that has passed. The last moment of the
/// clock is left out.
pub proof fn law_arm_lasts_as_long_as_asked(
    m: ArmModel,
    k: ArmKey,
    token: Seq<u8>,
    ttl: u64,
    now: u64,
    later: u64,
)
    requires
        tokens_distinct(m),
        now <= later < u64::MAX,
    ensures
        matches_arm(armed_model(m, k, token, ttl, now), k, token, later) <==> later - now < ttl,
{
    law_armed_token_matches_until_expiry(m, k, token, ttl, now, later);
}

/// Law: after a sweep no lapsed arm and no listener without arms is left, and
/// every arm that has not lapsed is.
pub proof fn law_sweep_leaves_the_live_arms(m: ArmModel, now: u64, k: ArmKey)
    ensures
        purged(m, now).contains_key(k) ==> m.contains_key(k) && purged(m, now)[k].len() > 0,
        purged(m, now).contains_key(k) ==> forall|i: int|
            0 <= i < purged(m, now)[k].len() ==> now < (#[trigger] purged(m, now)[k][i]).1
                && m[k].contains(purged(m, now)[k][i]),
        m.contains_key(k) ==> forall|i: int|
            0 <= i < m[k].len() && now < (#[trigger] m[k][i]).1 ==> purged(m, now).contains_key(k)
                && purged(m, now)[k].contains(m[k][i]),
{
    if m.contains_key(k) {
        let s = live_arms(m[k], now);
        lemma_filter_members(m[k], |a: Arm| live(a, now));
        assert forall|i: int| 0 <= i < s.len() implies now < (#[trigger] s[i]).1 && m[k].contains(
            s[i],
        ) by {
            assert(s.contains(s[i]));
        }
        assert forall|i: int| 0 <= i < m[k].len() && now < (#[trigger] m[k][i]).1 implies s.len()
            > 0 && s.contains(m[k][i]) by {
            assert(m[k].contains(m[k][i]));
            assert(s.contains(m[k][i]));
        }
    }
}

/// Law: disarming leaves no trace of the token: the listener is forgotten with
/// its last arm, and every other listener is left alone.
pub proof fn law_disarming_leaves_no_trace(m: ArmModel, k: ArmKey, token: Seq<u8>, other: ArmKey)
    ensures
        disarmed_model(m, k, token).contains_key(k) ==> disarmed_model(m, k, token)[k].len() > 0
            || !m.contains_key(k),
        disarmed_model(m, k, token).contains_key(k) ==> forall|i: int|
            0 <= i < disarmed_model(m, k, token)[k].len() ==> (#[trigger] disarmed_model(
                m,
                k,
                token,
            )[k][i]).0 != token,
        other != k ==> (disarmed_model(m, k, token).contains_key(other) <==> m.contains_key(other)),
        other != k && m.contains_key(other) ==> disarmed_model(m, k, token)[other] == m[other],
{
    if m.contains_key(k) {
        let s = other_arms(m[k], token);
        lemma_filter_members(m[k], |a: Arm| other_token(a, token));
        assert forall|i: int| 0 <= i < s.len() implies (#[trigger] s[i]).0 != token by {
            assert(s.contains(s[i]));
        }
    }
}

/// Law: the count is the number of arms that have not lapsed: one more arm adds
/// one where it has not lapsed, and none where it has.
pub proof fn law_count_is_of_arms_that_have_not_lapsed(
    m: ArmModel,
    k: ArmKey,
    s: Seq<Arm>,
    arm: Arm,
    now: u64,
)
    requires
        m.dom().finite(),
    ensures
        live_total(ArmModel::empty(), now) == 0,
        live_total(m.insert(k, Seq::empty()), now) == live_total(m.remove(k), now),
        live_total(m.insert(k, s.push(arm)), now) == live_total(m.insert(k, s), now) + (if now
            < arm.1 {
            1nat
        } else {
            0nat
        }),
{
    lemma_total_insert(m, k, Seq::empty(), now);
    lemma_total_insert(m, k, s, now);
    lemma_total_insert(m, k, s.push(arm), now);
    reveal(Seq::filter);
    assert(s.push(arm).drop_last() =~= s);
    assert(live_arms(Seq::empty(), now) =~= Seq::<Arm>::empty());
}

} // verus!
