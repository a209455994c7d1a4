//! A map keyed by text, kept in key order.

use vstd::prelude::*;
use vstd::string::*;

use crate::text::{
    lemma_text_lt_irreflexive, lemma_text_lt_total, lemma_text_lt_transitive, less, lower, same,
    text_lt,
};

verus! {

/// A map from text to `V`. Keys are distinct and held in increasing order.
pub struct StrMap<V> {
    items: Vec<(String, V)>,
}

/// Texts in strictly increasing order.
pub open spec fn increasing(s: Seq<Seq<char>>) -> bool {
    forall|i: int, j: int| 0 <= i < j < s.len() ==> text_lt(#[trigger] s[i], #[trigger] s[j])
}

/// Two lists in strictly increasing order with the same texts are the same.
pub proof fn lemma_increasing_unique(a: Seq<Seq<char>>, b: Seq<Seq<char>>)
    requires
        increasing(a),
        increasing(b),
        forall|k: Seq<char>| #[trigger] a.contains(k) <==> b.contains(k),
    ensures
        a == b,
    decreases a.len(),
{
    if a.len() == 0 {
        if b.len() > 0 {
            assert(b.contains(b[0]));
            assert(a.contains(b[0]));
        }
        assert(a =~= b);
    } else {
        let x = a.last();
        assert(a.contains(x));
        assert(b.contains(x));
        let y = b.last();
        assert(b.contains(y));
        assert(a.contains(y));
        let i = choose|i: int| 0 <= i < a.len() && a[i] == y;
        let j = choose|j: int| 0 <= j < b.len() && b[j] == x;
        if x != y {
            assert(text_lt(a[i], a[a.len() - 1]));
            assert(text_lt(b[j], b[b.len() - 1]));
            lemma_text_lt_transitive(x, y, x);
            lemma_text_lt_irreflexive(x);
        }
        let c = a.drop_last();
        let d = b.drop_last();
        assert forall|p: int, q: int| 0 <= p < q < c.len() implies text_lt(
            #[trigger] c[p],
            #[trigger] c[q],
        ) by {
            assert(text_lt(a[p], a[q]));
        }
        assert forall|p: int, q: int| 0 <= p < q < d.len() implies text_lt(
            #[trigger] d[p],
            #[trigger] d[q],
        ) by {
            assert(text_lt(b[p], b[q]));
        }
        assert forall|k: Seq<char>| #[trigger] c.contains(k) <==> d.contains(k) by {
            if c.contains(k) {
                let p = choose|p: int| 0 <= p < c.len() && c[p] == k;
                assert(a[p] == k);
                assert(text_lt(a[p], a[a.len() - 1]));
                lemma_text_lt_irreflexive(k);
                assert(a.contains(k));
                let q = choose|q: int| 0 <= q < b.len() && b[q] == k;
                assert(d[q] == k);
            }
            if d.contains(k) {
                let p = choose|p: int| 0 <= p < d.len() && d[p] == k;
                assert(b[p] == k);
                assert(text_lt(b[p], b[b.len() - 1]));
                lemma_text_lt_irreflexive(k);
                assert(b.contains(k));
                assert(a.contains(k));
                let q = choose|q: int| 0 <= q < a.len() && a[q] == k;
                assert(c[q] == k);
            }
        }
        lemma_increasing_unique(c, d);
        assert(a =~= c.push(x));
        assert(b =~= d.push(x));
    }
}

/// A list in strictly increasing order of the keys of a map is as long as the
/// map has keys.
pub proof fn lemma_increasing_len<V>(ks: Seq<Seq<char>>, m: Map<Seq<char>, V>)
    requires
        increasing(ks),
        forall|k: Seq<char>| #[trigger] ks.contains(k) <==> m.contains_key(k),
    ensures
        ks.len() == m.dom().len(),
{
    assert forall|i: int, j: int| 0 <= i < ks.len() && 0 <= j < ks.len() && i != j implies ks[i]
        != ks[j] by {
        lemma_text_lt_irreflexive(ks[i]);
        if i < j {
            assert(text_lt(ks[i], ks[j]));
        } else {
            assert(text_lt(ks[j], ks[i]));
        }
    }
    ks.unique_seq_to_set();
    assert(m.dom() =~= ks.to_set()) by {
        assert forall|k: Seq<char>| m.dom().contains(k) <==> ks.to_set().contains(k) by {
            assert(ks.contains(k) <==> m.contains_key(k));
        }
    }
}

/// Finitely many keys, all of them in lowercase.
pub open spec fn by_lowercase<V>(m: Map<Seq<char>, V>) -> bool {
    &&& m.dom().finite()
    &&& forall|k: Seq<char>| #[trigger] m.contains_key(k) ==> lower(k) == k
}

/// Putting something under a text in lowercase keeps the keys in lowercase.
pub proof fn lemma_by_lowercase<V>(m: Map<Seq<char>, V>, k: Seq<char>, v: V)
    requires
        by_lowercase(m),
    ensures
        by_lowercase(m.insert(lower(k), v)),
{
    assert(lower(lower(k)) =~= lower(k));
    assert(m.insert(lower(k), v).dom() =~= m.dom().insert(lower(k)));
}

/// Taking something out keeps the keys in lowercase.
pub proof fn lemma_lowercase_without<V>(m: Map<Seq<char>, V>, k: Seq<char>)
    requires
        by_lowercase(m),
    ensures
        by_lowercase(m.remove(lower(k))),
{
    assert(m.remove(lower(k)).dom() =~= m.dom().remove(lower(k)));
}

/// Position of `k` in `s`, or the length where it does not occur.
pub open spec fn position(s: Seq<Seq<char>>, k: Seq<char>) -> int
    decreases s.len(),
{
    if s.len() == 0 || s[0] == k {
        0
    } else {
        1 + position(s.drop_first(), k)
    }
}

proof fn lemma_position(s: Seq<Seq<char>>, k: Seq<char>)
    ensures
        0 <= position(s, k) <= s.len(),
        position(s, k) < s.len() ==> s[position(s, k)] == k,
        s.contains(k) ==> position(s, k) < s.len(),
    decreases s.len(),
{
    if s.len() > 0 && s[0] != k {
        let t = s.drop_first();
        lemma_position(t, k);
        if s.contains(k) {
            let i = choose|i: int| 0 <= i < s.len() && s[i] == k;
            assert(t[i - 1] == k);
        }
    }
}

impl<V> View for StrMap<V> {
    type V = Map<Seq<char>, V>;

    closed spec fn view(&self) -> Map<Seq<char>, V> {
        Map::new(
            |k: Seq<char>| self.keys().contains(k),
            |k: Seq<char>| self.items@[position(self.keys(), k)].1,
        )
    }
}

impl<V> StrMap<V> {
    /// The keys, in the order in which they are held.
    pub closed spec fn keys(&self) -> Seq<Seq<char>> {
        Seq::new(self.items@.len(), |i: int| self.items@[i].0@)
    }

    /// Keys are distinct and in increasing order.
    pub closed spec fn wf(&self) -> bool {
        increasing(self.keys())
    }

    /// What well-formedness says of keys and contents.
    pub proof fn lemma_keys(&self)
        requires
            self.wf(),
        ensures
            increasing(self.keys()),
            self.keys().no_duplicates(),
            forall|k: Seq<char>| self.keys().contains(k) <==> #[trigger] self@.contains_key(k),
            forall|i: int|
                0 <= i < self.keys().len() ==> self@.contains_key(#[trigger] self.keys()[i]),
            self@.dom().finite(),
            self@.dom().len() == self.keys().len(),
    {
        let ks = self.keys();
        assert forall|i: int, j: int| 0 <= i < ks.len() && 0 <= j < ks.len() && i != j implies ks[i]
            != ks[j] by {
            lemma_text_lt_irreflexive(ks[i]);
            if i < j {
                assert(text_lt(ks[i], ks[j]));
            } else {
                assert(text_lt(ks[j], ks[i]));
            }
        }
        ks.unique_seq_to_set();
        vstd::seq_lib::seq_to_set_is_finite(ks);
        assert(self@.dom() =~= ks.to_set());
    }

    /// The value held at position `i` is the one under the key there.
    proof fn lemma_at(&self, i: int)
        requires
            self.wf(),
            0 <= i < self.items@.len(),
        ensures
            self@.contains_key(self.items@[i].0@),
            self@[self.items@[i].0@] == self.items@[i].1,
    {
        self.lemma_keys();
        let ks = self.keys();
        let k = ks[i];
        lemma_position(ks, k);
        assert(ks.contains(k));
        assert(ks[position(ks, k)] == ks[i]);
    }

    /// An empty map.
    pub fn new() -> (r: Self)
        ensures
            r.wf(),
            r@ == Map::<Seq<char>, V>::empty(),
            r.keys() == Seq::<Seq<char>>::empty(),
    {
        let r = StrMap { items: Vec::new() };
        assert(r.keys() =~= Seq::<Seq<char>>::empty());
        assert(r@ =~= Map::<Seq<char>, V>::empty());
        r
    }

    /// Number of keys.
    pub fn len(&self) -> (r: usize)
        requires
            self.wf(),
        ensures
            r == self@.dom().len(),
            r == self.keys().len(),
    {
        proof {
            self.lemma_keys();
        }
        self.items.len()
    }

    /// The key at position `i`.
    pub fn key_at(&self, i: usize) -> (r: &String)
        requires
            i < self.keys().len(),
        ensures
            r@ == self.keys()[i as int],
    {
        &self.items[i].0
    }

    /// The value under the key at position `i`.
    pub fn value_at(&self, i: usize) -> (r: &V)
        requires
            self.wf(),
            i < self.keys().len(),
        ensures
            self@.contains_key(self.keys()[i as int]),
            *r == self@[self.keys()[i as int]],
    {
        proof {
            self.lemma_at(i as int);
        }
        &self.items[i].1
    }

    /// First position whose key is not below `k`.
    fn slot(&self, k: &str) -> (r: usize)
        requires
            self.wf(),
        ensures
            r <= self.items@.len(),
            forall|j: int| 0 <= j < r ==> text_lt(#[trigger] self.items@[j].0@, k@),
            forall|j: int| r <= j < self.items@.len() ==> !text_lt(#[trigger] self.items@[j].0@, k@),
    {
        let n: usize = self.items.len();
        let mut i: usize = 0;
        while i < n && less(self.items[i].0.as_str(), k)
            invariant
                i <= n,
                n == self.items@.len(),
                forall|j: int| 0 <= j < i ==> text_lt(#[trigger] self.items@[j].0@, k@),
            decreases n - i,
        {
            i += 1;
        }
        proof {
            assert forall|j: int| i <= j < n implies !text_lt(
                #[trigger] self.items@[j].0@,
                k@,
            ) by {
                if j > i && text_lt(self.items@[j].0@, k@) {
                    assert(text_lt(self.keys()[i as int], self.keys()[j]));
                    lemma_text_lt_transitive(
                        self.items@[i as int].0@,
                        self.items@[j].0@,
                        k@,
                    );
                }
            }
        }
        i
    }

    /// The position of `k`, if it is a key.
    fn find(&self, k: &str) -> (r: Option<usize>)
        requires
            self.wf(),
        ensures
            r is Some <==> self@.contains_key(k@),
            r is Some ==> r->0 < self.items@.len() && self.items@[r->0 as int].0@ == k@,
    {
        let i: usize = self.slot(k);
        proof {
            self.lemma_keys();
            if self@.contains_key(k@) {
                let j = choose|j: int| 0 <= j < self.keys().len() && self.keys()[j] == k@;
                lemma_text_lt_irreflexive(k@);
                assert(self.items@[j].0@ == k@);
                if j > i {
                    assert(text_lt(self.keys()[i as int], self.keys()[j]));
                    assert(text_lt(self.items@[i as int].0@, k@));
                }
                assert(j == i);
            }
        }
        if i < self.items.len() && same(self.items[i].0.as_str(), k) {
            proof {
                self.lemma_at(i as int);
            }
            Some(i)
        } else {
            None
        }
    }

    /// Whether `k` is a key.
    pub fn contains(&self, k: &str) -> (r: bool)
        requires
            self.wf(),
        ensures
            r == self@.contains_key(k@),
    {
        self.find(k).is_some()
    }

    /// The value under `k`.
    pub fn get(&self, k: &str) -> (r: Option<&V>)
        requires
            self.wf(),
        ensures
            r is Some <==> self@.contains_key(k@),
            r is Some ==> *r->0 == self@[k@],
    {
        match self.find(k) {
            Some(i) => {
                proof {
                    self.lemma_at(i as int);
                }
                Some(&self.items[i].1)
            },
            None => None,
        }
    }

    /// Takes `k` out; gives the value that was under it.
    pub fn remove(&mut self, k: &str) -> (r: Option<V>)
        requires
            old(self).wf(),
        ensures
            final(self).wf(),
            final(self)@ == old(self)@.remove(k@),
            r is Some <==> old(self)@.contains_key(k@),
            r is Some ==> r->0 == old(self)@[k@],
    {
        let ghost before = *self;
        match self.find(k) {
            None => {
                assert(self@.remove(k@) =~= self@);
                None
            },
            Some(i) => {
                proof {
                    self.lemma_at(i as int);
                    self.lemma_keys();
                }
                let (key, v) = self.items.remove(i);
                proof {
                    let ks = before.keys();
                    assert(self.keys() =~= ks.remove(i as int));
                    assert forall|a: int, b: int| 0 <= a < b < self.keys().len() implies text_lt(
                        #[trigger] self.keys()[a],
                        #[trigger] self.keys()[b],
                    ) by {
                        let a2 = if a < i {
                            a
                        } else {
                            a + 1
                        };
                        let b2 = if b < i {
                            b
                        } else {
                            b + 1
                        };
                        assert(self.keys()[a] == ks[a2] && self.keys()[b] == ks[b2]);
                    }
                    self.lemma_keys();
                    assert forall|q: Seq<char>| #[trigger]
                        self@.contains_key(q) <==> before@.remove(k@).contains_key(q) by {
                        if self@.contains_key(q) {
                            let j = choose|j: int| 0 <= j < self.keys().len() && self.keys()[j] == q;
                            let j2 = if j < i {
                                j
                            } else {
                                j + 1
                            };
                            assert(ks[j2] == q);
                            assert(ks[i as int] == k@);
                        }
                        if before@.remove(k@).contains_key(q) {
                            let j = choose|j: int| 0 <= j < ks.len() && ks[j] == q;
                            assert(j != i);
                            let j2 = if j < i {
                                j
                            } else {
                                j - 1
                            };
                            assert(self.keys()[j2] == q);
                        }
                    }
                    assert forall|q: Seq<char>| #[trigger] self@.contains_key(q) implies self@[q]
                        == before@[q] by {
                        let j = choose|j: int| 0 <= j < self.keys().len() && self.keys()[j] == q;
                        let j2 = if j < i {
                            j
                        } else {
                            j + 1
                        };
                        self.lemma_at(j);
                        before.lemma_at(j2);
                        assert(self.items@[j] == before.items@[j2]);
                    }
                    assert(self@ =~= before@.remove(k@));
                }
                Some(v)
            },
        }
    }

    /// Puts `v` under `k`; gives the value that was there.
    pub fn insert(&mut self, k: String, v: V) -> (r: Option<V>)
        requires
            old(self).wf(),
        ensures
            final(self).wf(),
            final(self)@ == old(self)@.insert(k@, v),
            r is Some <==> old(self)@.contains_key(k@),
            r is Some ==> r->0 == old(self)@[k@],
    {
        let ghost start = *self;
        let r = self.remove(k.as_str());
        let ghost before = *self;
        let ghost key = k@;
        let i: usize = self.slot(k.as_str());
        self.items.insert(i, (k, v));
        proof {
            let ks = before.keys();
            before.lemma_keys();
            assert(!before@.contains_key(key));
            assert(self.keys() =~= ks.insert(i as int, key));
            assert forall|a: int, b: int| 0 <= a < b < self.keys().len() implies text_lt(
                #[trigger] self.keys()[a],
                #[trigger] self.keys()[b],
            ) by {
                if a < i && b < i {
                    assert(text_lt(ks[a], ks[b]));
                } else if a < i && b == i {
                    assert(text_lt(before.items@[a].0@, key));
                } else if a < i {
                    assert(text_lt(ks[a], ks[b - 1]));
                } else if a == i {
                    assert(!text_lt(before.items@[b - 1].0@, key));
                    lemma_text_lt_total(ks[b - 1], key);
                    assert(ks.contains(ks[b - 1]));
                } else {
                    assert(text_lt(ks[a - 1], ks[b - 1]));
                }
            }
            self.lemma_keys();
            assert forall|q: Seq<char>| #[trigger] self@.contains_key(q) <==> before@.insert(
                key,
                v,
            ).contains_key(q) by {
                if self@.contains_key(q) {
                    let j = choose|j: int| 0 <= j < self.keys().len() && self.keys()[j] == q;
                    if j < i {
                        assert(ks[j] == q);
                    } else if j > i {
                        assert(ks[j - 1] == q);
                    }
                }
                if q == key {
                    assert(self.keys()[i as int] == q);
                } else if before@.contains_key(q) {
                    let j = choose|j: int| 0 <= j < ks.len() && ks[j] == q;
                    if j < i {
                        assert(self.keys()[j] == q);
                    } else {
                        assert(self.keys()[j + 1] == q);
                    }
                }
            }
            assert forall|q: Seq<char>| #[trigger] self@.contains_key(q) implies self@[q]
                == before@.insert(key, v)[q] by {
                let j = choose|j: int| 0 <= j < self.keys().len() && self.keys()[j] == q;
                self.lemma_at(j);
                if j < i {
                    before.lemma_at(j);
                } else if j > i {
                    before.lemma_at(j - 1);
                    assert(self.items@[j] == before.items@[j - 1]);
                }
            }
            assert(self@ =~= before@.insert(key, v));
            assert(self@ =~= start@.insert(key, v));
        }
        r
    }
}

} // verus!
