//! Which directories to watch for which hosts, and which hosts a change on
//! disk affects.
//!
//! Parent directories are watched rather than files, so that replacing a file
//! by renaming is seen. Hosts that share a directory share its watch. Paths are
//! compared component by component, however they are spelled.

use vstd::prelude::*;
use vstd::string::*;

use crate::certs::pem::is_listed;
use crate::path::{all_plain, parent_dir, parent_of, plain_path, plain_paths, to_plain};
use crate::strmap::{increasing, StrMap};
use crate::text::{lower, text_lt, texts, to_lower};

verus! {

/// The parent directory of a path, in its plain spelling.
pub open spec fn dir_of(path: Seq<char>) -> Option<Seq<char>> {
    match parent_of(path) {
        Some(d) => Some(plain_path(d)),
        None => None,
    }
}

/// A directory is the parent of one of the paths.
pub open spec fn is_dir_of(paths: Seq<Seq<char>>, dir: Seq<char>) -> bool {
    exists|i: int| 0 <= i < paths.len() && dir_of(#[trigger] paths[i]) == Some(dir)
}

/// The parent directories of a list of paths.
pub open spec fn dirs_of(paths: Seq<Seq<char>>) -> Set<Seq<char>> {
    Set::new(|d: Seq<char>| is_dir_of(paths, d))
}

/// The parent directories of a list of paths, each once.
fn parent_dirs(paths: &[String]) -> (r: Vec<String>)
    ensures
        texts(r@).no_duplicates(),
        forall|d: Seq<char>| #[trigger] texts(r@).contains(d) <==> is_dir_of(texts(paths@), d),
{
    let mut out: Vec<String> = Vec::new();
    let ghost all = texts(paths@);
    let n: usize = paths.len();
    for i in 0..n
        invariant
            n == paths@.len(),
            all == texts(paths@),
            texts(out@).no_duplicates(),
            forall|d: Seq<char>| #[trigger]
                texts(out@).contains(d) <==> exists|j: int|
                    0 <= j < i && dir_of(#[trigger] all[j]) == Some(d),
    {
        let ghost done = texts(out@);
        assert(all[i as int] == paths@[i as int]@);
        match parent_dir(paths[i].as_str()) {
            Some(parent) => {
                let d = to_plain(parent.as_str());
                let ghost dv = d@;
                if !is_listed(&out, d.as_str()) {
                    out.push(d);
                    proof {
                        assert(texts(out@) =~= done.push(dv));
                        assert forall|q: Seq<char>| #[trigger]
                            texts(out@).contains(q) <==> done.contains(q) || q == dv by {
                            if done.contains(q) {
                                let k = choose|k: int| 0 <= k < done.len() && done[k] == q;
                                assert(texts(out@)[k] == q);
                            }
                            if q == dv {
                                assert(texts(out@)[done.len() as int] == q);
                            }
                        }
                    }
                }
                proof {
                    assert forall|q: Seq<char>| #[trigger] texts(out@).contains(q) <==> exists|j: int|
                        0 <= j < i + 1 && dir_of(#[trigger] all[j]) == Some(q) by {
                        assert(texts(out@).contains(q) <==> done.contains(q) || q == dv);
                        if exists|j: int| 0 <= j < i + 1 && dir_of(#[trigger] all[j]) == Some(q) {
                            let j = choose|j: int|
                                0 <= j < i + 1 && dir_of(#[trigger] all[j]) == Some(q);
                            if j < i {
                                assert(done.contains(q));
                            }
                        }
                        if q == dv {
                            assert(dir_of(all[i as int]) == Some(q));
                        }
                    }
                }
            },
            None => {
                proof {
                    assert forall|q: Seq<char>| #[trigger] texts(out@).contains(q) <==> exists|j: int|
                        0 <= j < i + 1 && dir_of(#[trigger] all[j]) == Some(q) by {
                        if exists|j: int| 0 <= j < i + 1 && dir_of(#[trigger] all[j]) == Some(q) {
                            let j = choose|j: int|
                                0 <= j < i + 1 && dir_of(#[trigger] all[j]) == Some(q);
                            assert(j < i);
                        }
                    }
                }
            },
        }
    }
    out
}

/// The paths of each host, by lowercase hostname.
pub type HostPaths = Map<Seq<char>, Seq<Seq<char>>>;

/// The number of hosts that hold a watch on each directory, by the plain
/// spelling of the directory.
pub type DirCounts = Map<Seq<char>, nat>;

/// The number of hosts that hold a watch on a directory.
pub open spec fn holds(w: DirCounts, d: Seq<char>) -> nat {
    if w.contains_key(d) {
        w[d]
    } else {
        0
    }
}

/// One more, up to `usize::MAX`.
pub open spec fn up(c: nat) -> nat {
    if c < usize::MAX {
        c + 1
    } else {
        c
    }
}

/// One less, down to zero.
pub open spec fn down(c: nat) -> nat {
    if c > 0 {
        (c - 1) as nat
    } else {
        0
    }
}

/// The number of holders after some directories were taken and some released.
pub open spec fn next_count(
    w: DirCounts,
    taken: Set<Seq<char>>,
    released: Set<Seq<char>>,
    d: Seq<char>,
) -> nat {
    if taken.contains(d) {
        up(holds(w, d))
    } else if released.contains(d) {
        down(holds(w, d))
    } else {
        holds(w, d)
    }
}

/// The counts after some directories were taken and some released. A directory
/// without holder is forgotten.
pub open spec fn recount(
    w: DirCounts,
    taken: Set<Seq<char>>,
    released: Set<Seq<char>>,
) -> DirCounts {
    Map::new(
        |d: Seq<char>| next_count(w, taken, released, d) > 0,
        |d: Seq<char>| next_count(w, taken, released, d),
    )
}

/// The paths of a host; none for an unknown one.
pub open spec fn paths_at(h: HostPaths, host: Seq<char>) -> Seq<Seq<char>> {
    if h.contains_key(lower(host)) {
        h[lower(host)]
    } else {
        Seq::empty()
    }
}

/// The holders of each directory after a host was registered with its files.
pub open spec fn dirs_registered(
    h: HostPaths,
    w: DirCounts,
    host: Seq<char>,
    paths: Seq<Seq<char>>,
) -> DirCounts {
    if paths.len() == 0 {
        w
    } else {
        let prev = dirs_of(paths_at(h, host));
        let new = dirs_of(paths);
        recount(w, new.difference(prev), prev.difference(new))
    }
}

/// The holders of each directory after a host was forgotten.
pub open spec fn dirs_unregistered(h: HostPaths, w: DirCounts, host: Seq<char>) -> DirCounts {
    recount(w, Set::empty(), dirs_of(paths_at(h, host)))
}

/// A list holds exactly the directories that have a holder by `with`, and had
/// none by `without`.
pub open spec fn lists_newly_held(list: Seq<Seq<char>>, without: DirCounts, with: DirCounts) -> bool {
    forall|d: Seq<char>| #[trigger]
        list.contains(d) <==> holds(without, d) == 0 && holds(with, d) > 0
}

/// What to do with the file system after the watch list changed.
#[derive(Debug)]
pub struct WatchChange {
    /// Directories to start watching.
    pub watch: Vec<String>,
    /// Directories to stop watching.
    pub unwatch: Vec<String>,
}

/// Hosts with their paths, and directories with the number of their holders.
pub struct WatcherState {
    host_paths: StrMap<Vec<String>>,
    watched_dirs: StrMap<usize>,
}

impl WatcherState {
    /// The paths of each host.
    pub closed spec fn hosts(&self) -> HostPaths {
        self.host_paths@.map_values(|v: Vec<String>| texts(v@))
    }

    /// The number of holders of each directory.
    pub closed spec fn dirs(&self) -> DirCounts {
        self.watched_dirs@.map_values(|c: usize| c as nat)
    }

    /// Every directory that is remembered has a holder.
    pub closed spec fn wf(&self) -> bool {
        &&& self.host_paths.wf()
        &&& self.watched_dirs.wf()
        &&& forall|d: Seq<char>| #[trigger]
            self.dirs().contains_key(d) ==> 1 <= self.dirs()[d] <= usize::MAX
    }

    /// There are finitely many hosts, and finitely many directories.
    pub proof fn lemma_finite(&self)
        requires
            self.wf(),
        ensures
            self.hosts().dom().finite(),
            self.dirs().dom().finite(),
    {
        self.host_paths.lemma_keys();
        self.watched_dirs.lemma_keys();
        assert(self.hosts().dom() =~= self.host_paths@.dom());
        assert(self.dirs().dom() =~= self.watched_dirs@.dom());
    }

    /// No host.
    pub fn new() -> (r: Self)
        ensures
            r.wf(),
            r.hosts() == HostPaths::empty(),
            r.dirs() == DirCounts::empty(),
    {
        let r = WatcherState { host_paths: StrMap::new(), watched_dirs: StrMap::new() };
        assert(r.hosts() =~= HostPaths::empty());
        assert(r.dirs() =~= DirCounts::empty());
        r
    }

    /// Adds a holder to a directory; whether it is the first.
    fn take(&mut self, dir: &str) -> (first: bool)
        requires
            old(self).wf(),
        ensures
            final(self).wf(),
            final(self).hosts() == old(self).hosts(),
            final(self).dirs() == old(self).dirs().insert(dir@, up(holds(old(self).dirs(), dir@))),
            first == (holds(old(self).dirs(), dir@) == 0),
    {
        let ghost before = self.dirs();
        let c: usize = match self.watched_dirs.get(dir) {
            Some(c) => *c,
            None => 0,
        };
        assert(before.contains_key(dir@) ==> before[dir@] >= 1);
        let n: usize = c.saturating_add(1);
        let _ = self.watched_dirs.insert(dir.to_owned(), n);
        assert(self.dirs() =~= before.insert(dir@, n as nat));
        assert forall|d: Seq<char>| #[trigger] self.dirs().contains_key(d) implies 1
            <= self.dirs()[d] <= usize::MAX by {
            if d != dir@ {
                assert(before.contains_key(d));
            }
        }
        c == 0
    }

    /// Takes a holder off a directory; whether it was the last.
    fn release(&mut self, dir: &str) -> (last: bool)
        requires
            old(self).wf(),
        ensures
            final(self).wf(),
            final(self).hosts() == old(self).hosts(),
            holds(old(self).dirs(), dir@) > 1 ==> final(self).dirs() == old(self).dirs().insert(
                dir@,
                down(holds(old(self).dirs(), dir@)),
            ),
            holds(old(self).dirs(), dir@) <= 1 ==> final(self).dirs() == old(self).dirs().remove(
                dir@,
            ),
            last == (holds(old(self).dirs(), dir@) == 1),
    {
        let ghost before = self.dirs();
        let c: usize = match self.watched_dirs.get(dir) {
            Some(c) => *c,
            None => {
                assert(before.remove(dir@) =~= before);
                return false;
            },
        };
        assert(before.contains_key(dir@));
        if c == 1 {
            let _ = self.watched_dirs.remove(dir);
            assert(self.dirs() =~= before.remove(dir@));
        } else {
            let _ = self.watched_dirs.insert(dir.to_owned(), c - 1);
            assert(self.dirs() =~= before.insert(dir@, (c - 1) as nat));
        }
        assert forall|d: Seq<char>| #[trigger] self.dirs().contains_key(d) implies 1
            <= self.dirs()[d] <= usize::MAX by {
            assert(before.contains_key(d));
        }
        c == 1
    }

    /// Takes the directories of `add` that `keep` lacks. Gives those that had
    /// no holder.
    fn take_all(&mut self, add: &Vec<String>, keep: &Vec<String>) -> (r: Vec<String>)
        requires
            old(self).wf(),
            texts(add@).no_duplicates(),
        ensures
            final(self).wf(),
            final(self).hosts() == old(self).hosts(),
            forall|d: Seq<char>| #[trigger]
                holds(final(self).dirs(), d) == (if texts(add@).contains(d) && !texts(
                    keep@,
                ).contains(d) {
                    up(holds(old(self).dirs(), d))
                } else {
                    holds(old(self).dirs(), d)
                }),
            forall|d: Seq<char>| #[trigger]
                texts(r@).contains(d) <==> texts(add@).contains(d) && !texts(keep@).contains(d)
                    && holds(old(self).dirs(), d) == 0,
            texts(r@).no_duplicates(),
    {
        let mut out: Vec<String> = Vec::new();
        let ghost w0 = self.dirs();
        let ghost h0 = self.hosts();
        let ghost all = texts(add@);
        let ghost kept = texts(keep@);
        let n: usize = add.len();
        for i in 0..n
            invariant
                n == add@.len(),
                self.wf(),
                self.hosts() == h0,
                all == texts(add@),
                kept == texts(keep@),
                all.no_duplicates(),
                forall|d: Seq<char>| #[trigger]
                    holds(self.dirs(), d) == (if all.subrange(0, i as int).contains(d)
                        && !kept.contains(d) {
                        up(holds(w0, d))
                    } else {
                        holds(w0, d)
                    }),
                forall|d: Seq<char>| #[trigger]
                    texts(out@).contains(d) <==> all.subrange(0, i as int).contains(d)
                        && !kept.contains(d) && holds(w0, d) == 0,
                texts(out@).no_duplicates(),
        {
            let ghost done = texts(out@);
            let ghost wa = self.dirs();
            let ghost dv = add@[i as int]@;
            let ghost part = all.subrange(0, i as int);
            let ghost next = all.subrange(0, i + 1);
            proof {
                assert(all[i as int] == dv);
                assert(next =~= part.push(dv));
                assert forall|q: Seq<char>| #[trigger] next.contains(q) <==> part.contains(q) || q
                    == dv by {
                    if part.contains(q) {
                        let k = choose|k: int| 0 <= k < part.len() && part[k] == q;
                        assert(next[k] == q);
                    }
                    if q == dv {
                        assert(next[i as int] == q);
                    }
                }
                if part.contains(dv) {
                    let k = choose|k: int| 0 <= k < part.len() && part[k] == dv;
                    assert(all[k] == all[i as int]);
                }
                assert(holds(self.dirs(), dv) == holds(w0, dv));
            }
            if !is_listed(keep, add[i].as_str()) {
                let first = self.take(add[i].as_str());
                if first {
                    assert(!done.contains(dv));
                    out.push(add[i].clone());
                    proof {
                        assert(texts(out@) =~= done.push(dv));
                        assert forall|q: Seq<char>| #[trigger]
                            texts(out@).contains(q) <==> done.contains(q) || q == dv by {
                            if done.contains(q) {
                                let k = choose|k: int| 0 <= k < done.len() && done[k] == q;
                                assert(texts(out@)[k] == q);
                            }
                            if q == dv {
                                assert(texts(out@)[done.len() as int] == q);
                            }
                        }
                    }
                }
            }
            proof {
                assert forall|d: Seq<char>| #[trigger] holds(self.dirs(), d) == (if next.contains(d)
                    && !kept.contains(d) {
                    up(holds(w0, d))
                } else {
                    holds(w0, d)
                }) by {
                    assert(next.contains(d) <==> part.contains(d) || d == dv);
                    assert(holds(wa, d) == (if part.contains(d) && !kept.contains(d) {
                        up(holds(w0, d))
                    } else {
                        holds(w0, d)
                    }));
                    if d != dv {
                        assert(holds(self.dirs(), d) == holds(wa, d));
                    }
                }
            }
        }
        assert(all.subrange(0, n as int) =~= all);
        out
    }

    /// Releases the directories of `drop` that `keep` lacks. Gives those that
    /// have no holder left.
    fn release_all(&mut self, drop: &Vec<String>, keep: &Vec<String>) -> (r: Vec<String>)
        requires
            old(self).wf(),
            texts(drop@).no_duplicates(),
        ensures
            final(self).wf(),
            final(self).hosts() == old(self).hosts(),
            forall|d: Seq<char>| #[trigger]
                holds(final(self).dirs(), d) == (if texts(drop@).contains(d) && !texts(
                    keep@,
                ).contains(d) {
                    down(holds(old(self).dirs(), d))
                } else {
                    holds(old(self).dirs(), d)
                }),
            forall|d: Seq<char>| #[trigger]
                texts(r@).contains(d) <==> texts(drop@).contains(d) && !texts(keep@).contains(d)
                    && holds(old(self).dirs(), d) == 1,
            texts(r@).no_duplicates(),
    {
        let mut out: Vec<String> = Vec::new();
        let ghost w0 = self.dirs();
        let ghost h0 = self.hosts();
        let ghost all = texts(drop@);
        let ghost kept = texts(keep@);
        let n: usize = drop.len();
        for i in 0..n
            invariant
                n == drop@.len(),
                self.wf(),
                self.hosts() == h0,
                all == texts(drop@),
                kept == texts(keep@),
                all.no_duplicates(),
                forall|d: Seq<char>| #[trigger]
                    holds(self.dirs(), d) == (if all.subrange(0, i as int).contains(d)
                        && !kept.contains(d) {
                        down(holds(w0, d))
                    } else {
                        holds(w0, d)
                    }),
                forall|d: Seq<char>| #[trigger]
                    texts(out@).contains(d) <==> all.subrange(0, i as int).contains(d)
                        && !kept.contains(d) && holds(w0, d) == 1,
                texts(out@).no_duplicates(),
        {
            let ghost done = texts(out@);
            let ghost wa = self.dirs();
            let ghost dv = drop@[i as int]@;
            let ghost part = all.subrange(0, i as int);
            let ghost next = all.subrange(0, i + 1);
            proof {
                assert(all[i as int] == dv);
                assert(next =~= part.push(dv));
                assert forall|q: Seq<char>| #[trigger] next.contains(q) <==> part.contains(q) || q
                    == dv by {
                    if part.contains(q) {
                        let k = choose|k: int| 0 <= k < part.len() && part[k] == q;
                        assert(next[k] == q);
                    }
                    if q == dv {
                        assert(next[i as int] == q);
                    }
                }
                if part.contains(dv) {
                    let k = choose|k: int| 0 <= k < part.len() && part[k] == dv;
                    assert(all[k] == all[i as int]);
                }
                assert(holds(self.dirs(), dv) == holds(w0, dv));
            }
            if !is_listed(keep, drop[i].as_str()) {
                let last = self.release(drop[i].as_str());
                if last {
                    assert(!done.contains(dv));
                    out.push(drop[i].clone());
                    proof {
                        assert(texts(out@) =~= done.push(dv));
                        assert forall|q: Seq<char>| #[trigger]
                            texts(out@).contains(q) <==> done.contains(q) || q == dv by {
                            if done.contains(q) {
                                let k = choose|k: int| 0 <= k < done.len() && done[k] == q;
                                assert(texts(out@)[k] == q);
                            }
                            if q == dv {
                                assert(texts(out@)[done.len() as int] == q);
                            }
                        }
                    }
                }
            }
            proof {
                assert forall|d: Seq<char>| #[trigger] holds(self.dirs(), d) == (if next.contains(d)
                    && !kept.contains(d) {
                    down(holds(w0, d))
                } else {
                    holds(w0, d)
                }) by {
                    assert(next.contains(d) <==> part.contains(d) || d == dv);
                    assert(holds(wa, d) == (if part.contains(d) && !kept.contains(d) {
                        down(holds(w0, d))
                    } else {
                        holds(w0, d)
                    }));
                    if d != dv {
                        assert(holds(self.dirs(), d) == holds(wa, d));
                    }
                }
            }
        }
        assert(all.subrange(0, n as int) =~= all);
        out
    }

    /// Sets the paths of a host. Directories that it no longer needs are
    /// released, new ones are taken; a host without paths is passed over.
    pub fn register(&mut self, hostname: &str, paths: &[String]) -> (r: WatchChange)
        requires
            old(self).wf(),
        ensures
            final(self).wf(),
            texts(r.watch@).no_duplicates(),
            texts(r.unwatch@).no_duplicates(),
            final(self).dirs() == dirs_registered(
                old(self).hosts(),
                old(self).dirs(),
                hostname@,
                texts(paths@),
            ),
            lists_newly_held(texts(r.watch@), old(self).dirs(), final(self).dirs()),
            lists_newly_held(texts(r.unwatch@), final(self).dirs(), old(self).dirs()),
            paths@.len() == 0 ==> final(self).hosts() == old(self).hosts() && final(self).dirs()
                == old(self).dirs() && r.watch@.len() == 0 && r.unwatch@.len() == 0,
            paths@.len() > 0 ==> ({
                let prev = dirs_of(paths_at(old(self).hosts(), hostname@));
                let new = dirs_of(texts(paths@));
                &&& final(self).hosts() == old(self).hosts().insert(
                    lower(hostname@),
                    texts(paths@),
                )
                &&& final(self).dirs() == recount(
                    old(self).dirs(),
                    new.difference(prev),
                    prev.difference(new),
                )
                &&& forall|d: Seq<char>| #[trigger]
                    texts(r.watch@).contains(d) <==> new.difference(prev).contains(d) && holds(
                        old(self).dirs(),
                        d,
                    ) == 0
                &&& forall|d: Seq<char>| #[trigger]
                    texts(r.unwatch@).contains(d) <==> prev.difference(new).contains(d) && holds(
                        old(self).dirs(),
                        d,
                    ) == 1
            }),
    {
        assert(texts(paths@).len() == paths@.len());
        if paths.len() == 0 {
            let none = WatchChange { watch: Vec::new(), unwatch: Vec::new() };
            assert(texts(none.watch@).len() == 0 && texts(none.unwatch@).len() == 0);
            return none;
        }
        let key = to_lower(hostname);
        let ghost h0 = self.hosts();
        let ghost w0 = self.dirs();
        let empty: Vec<String> = Vec::new();
        let ghost prev_paths = paths_at(h0, hostname@);
        assert(texts(empty@) =~= Seq::<Seq<char>>::empty());
        let prev_dirs = match self.host_paths.get(key.as_str()) {
            Some(v) => parent_dirs(v.as_slice()),
            None => parent_dirs(empty.as_slice()),
        };
        let new_dirs = parent_dirs(paths);
        let watch = self.take_all(&new_dirs, &prev_dirs);
        let ghost w1 = self.dirs();
        let unwatch = self.release_all(&prev_dirs, &new_dirs);
        let ghost w2 = self.dirs();
        let mut copy: Vec<String> = Vec::new();
        for i in 0..paths.len()
            invariant
                texts(copy@) == texts(paths@).subrange(0, i as int),
        {
            let ghost done = copy@;
            copy.push(paths[i].clone());
            assert(texts(copy@) =~= texts(done).push(paths@[i as int]@));
            assert(texts(copy@) =~= texts(paths@).subrange(0, i + 1));
        }
        assert(texts(paths@).subrange(0, paths@.len() as int) =~= texts(paths@));
        let ghost cv = copy@;
        let _ = self.host_paths.insert(key, copy);
        proof {
            assert(self.hosts() =~= h0.insert(lower(hostname@), texts(paths@)));
            let prev = dirs_of(prev_paths);
            let new = dirs_of(texts(paths@));
            assert forall|d: Seq<char>| texts(prev_dirs@).contains(d) <==> prev.contains(d) by {
                assert(texts(prev_dirs@).contains(d) <==> is_dir_of(prev_paths, d));
            }
            assert forall|d: Seq<char>| texts(new_dirs@).contains(d) <==> new.contains(d) by {
                assert(texts(new_dirs@).contains(d) <==> is_dir_of(texts(paths@), d));
            }
            let t = new.difference(prev);
            let x = prev.difference(new);
            assert forall|d: Seq<char>| #[trigger] holds(w2, d) == next_count(w0, t, x, d) by {
                assert(holds(w1, d) == (if t.contains(d) {
                    up(holds(w0, d))
                } else {
                    holds(w0, d)
                }));
            }
            assert(self.dirs() == w2);
            assert(w2 =~= recount(w0, t, x)) by {
                assert forall|d: Seq<char>| w2.contains_key(d) <==> recount(w0, t, x).contains_key(
                    d,
                ) by {
                    assert(holds(w2, d) == next_count(w0, t, x, d));
                }
                assert forall|d: Seq<char>| w2.contains_key(d) implies w2[d] == recount(w0, t, x)[d]
                    by {
                    assert(holds(w2, d) == next_count(w0, t, x, d));
                }
            }
            assert forall|d: Seq<char>| #[trigger]
                texts(unwatch@).contains(d) <==> x.contains(d) && holds(w0, d) == 1 by {
                assert(texts(unwatch@).contains(d) <==> x.contains(d) && holds(w1, d) == 1);
                assert(holds(w1, d) == (if t.contains(d) {
                    up(holds(w0, d))
                } else {
                    holds(w0, d)
                }));
            }
            assert forall|d: Seq<char>| #[trigger] texts(watch@).contains(d) <==> holds(w0, d) == 0
                && holds(w2, d) > 0 by {
                assert(holds(w2, d) == next_count(w0, t, x, d));
            }
            assert forall|d: Seq<char>| #[trigger] texts(unwatch@).contains(d) <==> holds(w2, d)
                == 0 && holds(w0, d) > 0 by {
                assert(holds(w2, d) == next_count(w0, t, x, d));
            }
        }
        WatchChange { watch, unwatch }
    }

    /// Forgets a host and releases its directories; nothing happens for an
    /// unknown one. Gives the directories to stop watching.
    pub fn unregister(&mut self, hostname: &str) -> (r: Vec<String>)
        requires
            old(self).wf(),
        ensures
            final(self).wf(),
            texts(r@).no_duplicates(),
            final(self).hosts() == old(self).hosts().remove(lower(hostname@)),
            final(self).dirs() == dirs_unregistered(
                old(self).hosts(),
                old(self).dirs(),
                hostname@,
            ),
            lists_newly_held(texts(r@), final(self).dirs(), old(self).dirs()),
            final(self).dirs() == recount(
                old(self).dirs(),
                Set::empty(),
                dirs_of(paths_at(old(self).hosts(), hostname@)),
            ),
            forall|d: Seq<char>| #[trigger]
                texts(r@).contains(d) <==> dirs_of(
                    paths_at(old(self).hosts(), hostname@),
                ).contains(d) && holds(old(self).dirs(), d) == 1,
    {
        let key = to_lower(hostname);
        let ghost h0 = self.hosts();
        let ghost w0 = self.dirs();
        let ghost prev_paths = paths_at(h0, hostname@);
        let ghost x = dirs_of(prev_paths);
        let ghost none: Set<Seq<char>> = Set::empty();
        let paths = match self.host_paths.remove(key.as_str()) {
            Some(v) => v,
            None => Vec::new(),
        };
        assert(self.hosts() =~= h0.remove(lower(hostname@)));
        assert(texts(paths@) =~= prev_paths);
        assert(self.dirs() == w0);
        let prev_dirs = parent_dirs(paths.as_slice());
        let empty: Vec<String> = Vec::new();
        assert(texts(empty@) =~= Seq::<Seq<char>>::empty());
        let out = self.release_all(&prev_dirs, &empty);
        proof {
            let w2 = self.dirs();
            assert forall|d: Seq<char>| texts(prev_dirs@).contains(d) <==> x.contains(d) by {
                assert(texts(prev_dirs@).contains(d) <==> is_dir_of(prev_paths, d));
            }
            assert forall|d: Seq<char>| #[trigger] holds(w2, d) == next_count(w0, none, x, d) by {
                assert(!texts(empty@).contains(d));
            }
            assert forall|d: Seq<char>| #[trigger] texts(out@).contains(d) <==> holds(w2, d) == 0
                && holds(w0, d) > 0 by {
                assert(!texts(empty@).contains(d));
                assert(holds(w2, d) == next_count(w0, none, x, d));
            }
            assert(w2 =~= recount(w0, none, x)) by {
                assert forall|d: Seq<char>| w2.contains_key(d) <==> recount(
                    w0,
                    none,
                    x,
                ).contains_key(d) by {
                    assert(holds(w2, d) == next_count(w0, none, x, d));
                }
                assert forall|d: Seq<char>| w2.contains_key(d) implies w2[d] == recount(
                    w0,
                    none,
                    x,
                )[d] by {
                    assert(holds(w2, d) == next_count(w0, none, x, d));
                }
            }
        }
        out
    }

    /// Undoes a holder of a directory that could not be watched.
    pub fn watch_failed(&mut self, dir: &str)
        requires
            old(self).wf(),
        ensures
            final(self).wf(),
            final(self).hosts() == old(self).hosts(),
            final(self).dirs() == recount(old(self).dirs(), Set::empty(), set![plain_path(dir@)]),
    {
        let ghost w0 = self.dirs();
        let d = to_plain(dir);
        let _ = self.release(d.as_str());
        proof {
            let none: Set<Seq<char>> = Set::empty();
            let w2 = self.dirs();
            let x = set![plain_path(dir@)];
            assert forall|d: Seq<char>| #[trigger] w0.contains_key(d) implies w0[d] >= 1 by {}
            assert(w2 =~= recount(w0, none, x));
        }
    }

    /// Number of hosts.
    pub fn host_count(&self) -> (r: usize)
        requires
            self.wf(),
        ensures
            r == self.hosts().dom().len(),
            self.hosts().dom().finite(),
    {
        proof {
            self.lemma_finite();
        }
        assert(self.hosts().dom() =~= self.host_paths@.dom());
        self.host_paths.len()
    }

    /// The hosts one of whose files is among the changed paths, in increasing
    /// order.
    pub fn affected(&self, changed: &Vec<String>) -> (r: Vec<String>)
        requires
            self.wf(),
        ensures
            increasing(texts(r@)),
            forall|h: Seq<char>| #[trigger]
                texts(r@).contains(h) <==> is_affected(self.hosts(), h, texts(changed@)),
    {
        let mut out: Vec<String> = Vec::new();
        let plain = all_plain(changed);
        let n: usize = self.host_paths.len();
        let ghost ks = self.host_paths.keys();
        let ghost hs = self.hosts();
        let ghost ch = texts(changed@);
        let ghost mut from: Seq<int> = Seq::empty();
        proof {
            self.host_paths.lemma_keys();
        }
        for i in 0..n
            invariant
                self.wf(),
                ks == self.host_paths.keys(),
                hs == self.hosts(),
                ch == texts(changed@),
                texts(plain@) == plain_paths(ch),
                n == ks.len(),
                increasing(ks),
                from.len() == out@.len(),
                forall|j: int| 0 <= j < from.len() ==> 0 <= #[trigger] from[j] < i,
                forall|j: int| 0 <= j < from.len() ==> texts(out@)[j] == ks[#[trigger] from[j]],
                forall|a: int, b: int|
                    0 <= a < b < from.len() ==> #[trigger] from[a] < #[trigger] from[b],
                forall|h: Seq<char>| #[trigger]
                    texts(out@).contains(h) <==> exists|j: int|
                        0 <= j < i && #[trigger] ks[j] == h && is_affected(hs, h, ch),
        {
            let v = self.host_paths.value_at(i);
            let ghost key = ks[i as int];
            let ghost done = texts(out@);
            assert(hs.contains_key(key) && hs[key] == texts(v@));
            let hit = any_among(v, &plain);
            assert(hit == is_affected(hs, key, ch));
            if hit {
                out.push(self.host_paths.key_at(i).clone());
                proof {
                    assert(texts(out@) =~= done.push(key));
                    from = from.push(i as int);
                    assert forall|q: Seq<char>| #[trigger]
                        texts(out@).contains(q) <==> done.contains(q) || q == key by {
                        if done.contains(q) {
                            let k = choose|k: int| 0 <= k < done.len() && done[k] == q;
                            assert(texts(out@)[k] == q);
                        }
                        if q == key {
                            assert(texts(out@)[done.len() as int] == q);
                        }
                    }
                }
            }
            proof {
                assert forall|h: Seq<char>| #[trigger] texts(out@).contains(h) <==> exists|j: int|
                    0 <= j < i + 1 && #[trigger] ks[j] == h && is_affected(hs, h, ch) by {
                    if exists|j: int|
                        0 <= j < i + 1 && #[trigger] ks[j] == h && is_affected(hs, h, ch) {
                        let j = choose|j: int|
                            0 <= j < i + 1 && #[trigger] ks[j] == h && is_affected(hs, h, ch);
                        if j < i {
                            assert(done.contains(h));
                        } else {
                            assert(h == key);
                        }
                    }
                    if texts(out@).contains(h) {
                        if done.contains(h) {
                            let j = choose|j: int|
                                0 <= j < i && #[trigger] ks[j] == h && is_affected(hs, h, ch);
                            assert(ks[j] == h);
                        } else {
                            assert(ks[i as int] == h);
                        }
                    }
                }
            }
        }
        proof {
            assert forall|a: int, b: int| 0 <= a < b < texts(out@).len() implies text_lt(
                #[trigger] texts(out@)[a],
                #[trigger] texts(out@)[b],
            ) by {
                assert(texts(out@)[a] == ks[from[a]] && texts(out@)[b] == ks[from[b]]);
            }
            assert forall|h: Seq<char>| #[trigger] texts(out@).contains(h) <==> is_affected(
                hs,
                h,
                ch,
            ) by {
                if is_affected(hs, h, ch) {
                    assert(self.host_paths@.contains_key(h));
                    assert(ks.contains(h));
                    let j = choose|j: int| 0 <= j < ks.len() && ks[j] == h;
                    assert(ks[j] == h);
                }
            }
        }
        out
    }
}

/// One of the host's files is among the changed paths.
pub open spec fn is_affected(h: HostPaths, host: Seq<char>, changed: Seq<Seq<char>>) -> bool {
    h.contains_key(host) && exists|i: int|
        0 <= i < h[host].len() && plain_paths(changed).contains(plain_path(#[trigger] h[host][i]))
}

/// Law: a change of a host's file affects the host, however the two paths are
/// spelled.
pub proof fn law_spelling_does_not_matter(
    h: HostPaths,
    host: Seq<char>,
    changed: Seq<Seq<char>>,
    i: int,
    j: int,
)
    requires
        h.contains_key(host),
        0 <= i < h[host].len(),
        0 <= j < changed.len(),
        plain_path(h[host][i]) == plain_path(changed[j]),
    ensures
        is_affected(h, host, changed),
{
    assert(plain_paths(changed)[j] == plain_path(h[host][i]));
}

/// Whether one of the paths has its plain spelling among `plain`.
fn any_among(paths: &Vec<String>, plain: &Vec<String>) -> (r: bool)
    ensures
        r == exists|i: int|
            0 <= i < paths@.len() && texts(plain@).contains(
                plain_path(#[trigger] texts(paths@)[i]),
            ),
{
    for i in 0..paths.len()
        invariant
            forall|j: int|
                0 <= j < i ==> !texts(plain@).contains(plain_path(#[trigger] texts(paths@)[j])),
    {
        let p = to_plain(paths[i].as_str());
        assert(p@ == plain_path(texts(paths@)[i as int]));
        if is_listed(plain, p.as_str()) {
            return true;
        }
    }
    false
}

/// The hosts that have a file in a directory.
pub open spec fn hosts_in(h: HostPaths, d: Seq<char>) -> Set<Seq<char>> {
    h.dom().filter(|k: Seq<char>| is_dir_of(h[k], d))
}

/// Each directory is held exactly once by each host with a file in it.
pub open spec fn balanced(h: HostPaths, w: DirCounts) -> bool {
    forall|d: Seq<char>| #[trigger] holds(w, d) == hosts_in(h, d).len()
}

/// Law: as long as every watch succeeds, a directory is watched exactly while
/// some registered host has a file in it, however often hosts are registered
/// anew.
pub proof fn law_watches_follow_hosts(
    h: HostPaths,
    w: DirCounts,
    host: Seq<char>,
    paths: Seq<Seq<char>>,
)
    requires
        h.dom().finite(),
        h.dom().len() < usize::MAX,
        balanced(h, w),
    ensures
        balanced(
            h.insert(lower(host), paths),
            recount(
                w,
                dirs_of(paths).difference(dirs_of(paths_at(h, host))),
                dirs_of(paths_at(h, host)).difference(dirs_of(paths)),
            ),
        ),
        balanced(
            h.remove(lower(host)),
            recount(w, Set::empty(), dirs_of(paths_at(h, host))),
        ),
{
    let k = lower(host);
    let prev = paths_at(h, host);
    let h1 = h.insert(k, paths);
    let h2 = h.remove(k);
    let t = dirs_of(paths).difference(dirs_of(prev));
    let x = dirs_of(prev).difference(dirs_of(paths));
    let none: Set<Seq<char>> = Set::empty();
    assert forall|d: Seq<char>| #[trigger] holds(recount(w, t, x), d) == hosts_in(h1, d).len() by {
        let s = hosts_in(h, d);
        let s1 = hosts_in(h1, d);
        assert(s.len() <= h.dom().len()) by {
            vstd::set_lib::lemma_len_subset(s, h.dom());
        }
        assert(holds(w, d) == s.len());
        assert(s.contains(k) <==> is_dir_of(prev, d));
        if is_dir_of(paths, d) {
            assert(s1 =~= s.insert(k));
        } else {
            assert(s1 =~= s.remove(k));
        }
    }
    assert forall|d: Seq<char>| #[trigger] holds(recount(w, none, dirs_of(prev)), d) == hosts_in(
        h2,
        d,
    ).len() by {
        let s = hosts_in(h, d);
        assert(holds(w, d) == s.len());
        assert(s.contains(k) <==> is_dir_of(prev, d));
        assert(hosts_in(h2, d) =~= s.remove(k));
    }
}

/// Law: a host is affected only by a change of one of its own files.
pub proof fn law_other_files_affect_no_host(
    h: HostPaths,
    host: Seq<char>,
    changed: Seq<Seq<char>>,
)
    requires
        h.contains_key(host),
        forall|i: int, j: int|
            0 <= i < h[host].len() && 0 <= j < changed.len() ==> plain_path(
                #[trigger] h[host][i],
            ) != plain_path(#[trigger] changed[j]),
    ensures
        !is_affected(h, host, changed),
{
    if is_affected(h, host, changed) {
        let i = choose|i: int|
            0 <= i < h[host].len() && plain_paths(changed).contains(
                plain_path(#[trigger] h[host][i]),
            );
        let j = choose|j: int|
            0 <= j < changed.len() && plain_paths(changed)[j] == plain_path(h[host][i]);
        assert(plain_paths(changed)[j] == plain_path(changed[j]));
    }
}

/// Law: each directory that is taken gets one holder more, each that is
/// released loses one, and one that has none left is forgotten; the rest stay
/// as they were.
pub proof fn law_holders_are_counted(
    w: DirCounts,
    taken: Set<Seq<char>>,
    released: Set<Seq<char>>,
    d: Seq<char>,
)
    requires
        w.contains_key(d) ==> 0 < w[d] < usize::MAX,
        !(taken.contains(d) && released.contains(d)),
    ensures
        ({
            let t = recount(w, taken, released);
            &&& taken.contains(d) ==> t.contains_key(d) && t[d] == (if w.contains_key(d) {
                w[d] + 1
            } else {
                1
            })
            &&& released.contains(d) ==> t.contains_key(d) == (w.contains_key(d) && w[d] > 1)
            &&& released.contains(d) && t.contains_key(d) ==> t[d] == w[d] - 1
            &&& !taken.contains(d) && !released.contains(d) ==> t.contains_key(d)
                == w.contains_key(d) && (w.contains_key(d) ==> t[d] == w[d])
        }),
{
}

/// Law: a holder of a directory that could not be watched leaves the counts as
/// they were before it came.
pub proof fn law_failed_watch_is_undone(w: DirCounts, d: Seq<char>)
    requires
        forall|e: Seq<char>| #[trigger] w.contains_key(e) ==> 0 < w[e] < usize::MAX,
    ensures
        recount(recount(w, set![d], Set::empty()), Set::empty(), set![d]) == w,
{
    let once = recount(w, set![d], Set::empty());
    let twice = recount(once, Set::empty(), set![d]);
    assert forall|e: Seq<char>| twice.contains_key(e) == w.contains_key(e) by {
        assert(holds(once, e) == next_count(w, set![d], Set::empty(), e));
        assert(w.contains_key(e) ==> w[e] > 0);
    }
    assert forall|e: Seq<char>| w.contains_key(e) implies twice[e] == w[e] by {
        assert(holds(once, e) == next_count(w, set![d], Set::empty(), e));
    }
    assert(twice =~= w);
}

/// Law: the directories that some files lie in are the parents of their paths,
/// in plain spelling; a path without a parent lies in none.
pub proof fn law_files_lie_in_their_parents(paths: Seq<Seq<char>>, i: int, d: Seq<char>)
    ensures
        0 <= i < paths.len() && parent_of(paths[i]) is Some ==> dirs_of(paths).contains(
            plain_path(parent_of(paths[i])->0),
        ),
        (forall|j: int|
            0 <= j < paths.len() && parent_of(#[trigger] paths[j]) is Some ==> plain_path(
                parent_of(paths[j])->0,
            ) != d) ==> !dirs_of(paths).contains(d),
{
    if 0 <= i < paths.len() && parent_of(paths[i]) is Some {
        let e = plain_path(parent_of(paths[i])->0);
        assert(dir_of(paths[i]) == Some(e));
        assert(is_dir_of(paths, e));
    }
}

/// Law: a host's files are found under its name in whatever case, and a host
/// that is not registered has none.
pub proof fn law_hosts_are_found_in_any_case(h: HostPaths, host: Seq<char>, paths: Seq<Seq<char>>)
    ensures
        paths_at(h.insert(lower(host), paths), host) == paths,
        paths_at(h.insert(lower(host), paths), lower(host)) == paths,
        paths_at(h.remove(lower(host)), host).len() == 0,
{
    assert(lower(lower(host)) =~= lower(host));
}

/// Law: as long as every directory is held once by each host with a file in
/// it, registering a host with files and forgetting one keep it so; a host
/// that is registered without files changes nothing.
pub proof fn law_registered_hosts_hold_their_directories(
    h: HostPaths,
    w: DirCounts,
    host: Seq<char>,
    paths: Seq<Seq<char>>,
)
    requires
        h.dom().finite(),
        h.dom().len() < usize::MAX,
        balanced(h, w),
    ensures
        paths.len() > 0 ==> balanced(
            h.insert(lower(host), paths),
            dirs_registered(h, w, host, paths),
        ),
        paths.len() == 0 ==> dirs_registered(h, w, host, paths) == w,
        balanced(h.remove(lower(host)), dirs_unregistered(h, w, host)),
{
    law_watches_follow_hosts(h, w, host, paths);
}

/// Law: the directories that are reported are those whose count left zero, or
/// came back to it.
pub proof fn law_reported_directories_changed_hands(
    list: Seq<Seq<char>>,
    without: DirCounts,
    with: DirCounts,
    d: Seq<char>,
)
    requires
        lists_newly_held(list, without, with),
    ensures
        !without.contains_key(d) && with.contains_key(d) && with[d] > 0 ==> list.contains(d),
        without.contains_key(d) && without[d] > 0 ==> !list.contains(d),
        !with.contains_key(d) ==> !list.contains(d),
{
}

} // verus!
