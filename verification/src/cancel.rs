//! Cooperative cancellation: one settable flag per reading session,
//! shared by every operation that carries the same key, polled at
//! checkpoints. The registry bounds its own memory: entries idle past a
//! ten-minute TTL are dropped on every access, and a hard cap evicts the
//! oldest-touched entries first.
use vstd::prelude::*;

use crate::text::str_eq;

verus! {

/// Entries idle longer than this many seconds are dropped.
pub const CANCEL_TTL_SECS: i64 = 600;

/// The registry never keeps more than this many entries.
pub const CANCEL_MAX_ENTRIES: usize = 512;

/// One session's cancellation state.
struct CancelEntry {
    key: String,
    flag: bool,
    touched: i64,
}

/// The registry of cancellation flags, keyed by session key.
pub struct CancelRegistry {
    entries: Vec<CancelEntry>,
}

/// An entry touched recently enough to survive the TTL trim at `now`.
pub open spec fn fresh_entry(now: int, e: (Seq<char>, bool, int)) -> bool {
    now - e.2 <= CANCEL_TTL_SECS as int
}

/// The entries of `view` that survive the TTL trim at `now`, in order.
pub open spec fn fresh_entries(view: Seq<(Seq<char>, bool, int)>, now: int) -> Seq<
    (Seq<char>, bool, int),
>
    decreases view.len(),
{
    if view.len() == 0 {
        Seq::empty()
    } else {
        let rest = fresh_entries(view.drop_last(), now);
        if fresh_entry(now, view.last()) {
            rest.push(view.last())
        } else {
            rest
        }
    }
}

/// Every entry of `view` was touched at `t` or later.
pub open spec fn all_touched_at_or_after(view: Seq<(Seq<char>, bool, int)>, t: int) -> bool {
    forall|i: int| 0 <= i < view.len() ==> (#[trigger] view[i]).2 >= t
}

/// The TTL trim never grows the registry.
pub proof fn lemma_fresh_entries_len(view: Seq<(Seq<char>, bool, int)>, now: int)
    ensures
        fresh_entries(view, now).len() <= view.len(),
    decreases view.len(),
{
    if view.len() > 0 {
        lemma_fresh_entries_len(view.drop_last(), now);
    }
}

/// Every entry within the TTL survives the trim.
pub proof fn lemma_fresh_entries_contains(view: Seq<(Seq<char>, bool, int)>, now: int, j: int)
    requires
        0 <= j < view.len(),
        fresh_entry(now, view[j]),
    ensures
        fresh_entries(view, now).contains(view[j]),
    decreases view.len(),
{
    let out = fresh_entries(view, now);
    if j == view.len() - 1 {
        assert(out[out.len() - 1] == view[j]);
    } else {
        lemma_fresh_entries_contains(view.drop_last(), now, j);
        let rest = fresh_entries(view.drop_last(), now);
        let i = choose|i: int| 0 <= i < rest.len() && rest[i] == view.drop_last()[j];
        assert(out[i] == view[j]);
    }
}

impl CancelRegistry {
    /// The registry's contents: key, flag and last-touch time of each
    /// entry, in storage order.
    pub closed spec fn entries_view(&self) -> Seq<(Seq<char>, bool, int)> {
        self.entries@.map_values(|e: CancelEntry| (e.key@, e.flag, e.touched as int))
    }

    /// Every key occurs at most once.
    pub open spec fn wf(&self) -> bool {
        forall|i: int, j: int|
            0 <= i < j < self.entries_view().len() ==> (#[trigger] self.entries_view()[i]).0 != (
            #[trigger] self.entries_view()[j]).0
    }

    /// The entry stored for `key`, if any.
    pub open spec fn lookup(&self, key: Seq<char>) -> Option<(bool, int)> {
        if exists|i: int|
            0 <= i < self.entries_view().len() && (#[trigger] self.entries_view()[i]).0 == key {
            let i = choose|i: int|
                0 <= i < self.entries_view().len() && (#[trigger] self.entries_view()[i]).0
                    == key;
            Option::Some((self.entries_view()[i].1, self.entries_view()[i].2))
        } else {
            Option::None
        }
    }

    /// The flag for `key` is present and set.
    pub open spec fn spec_is_cancelled(&self, key: Seq<char>) -> bool {
        match self.lookup(key) {
            Option::Some((flag, _)) => flag,
            Option::None => false,
        }
    }

    /// An empty registry.
    pub fn new() -> (r: CancelRegistry)
        ensures
            r.wf(),
            r.entries_view().len() == 0,
    {
        let r = CancelRegistry { entries: Vec::new() };
        assert(r.entries_view() =~= Seq::<(Seq<char>, bool, int)>::empty());
        r
    }

    fn find_index(&self, key: &str) -> (r: Option<usize>)
        ensures
            match r {
                Some(i) => i < self.entries_view().len() && self.entries_view()[i as int].0
                    == key@,
                None => forall|i: int|
                    0 <= i < self.entries_view().len() ==> (#[trigger] self.entries_view()[i]).0
                        != key@,
            },
    {
        let n = self.entries.len();
        let mut i: usize = 0;
        while i < n
            invariant
                n == self.entries@.len(),
                0 <= i <= n,
                forall|k: int| 0 <= k < i ==> (#[trigger] self.entries@[k]).key@ != key@,
            decreases n - i,
        {
            if str_eq(self.entries[i].key.as_str(), key) {
                assert(self.entries_view()[i as int].0 == key@);
                return Some(i);
            }
            i = i + 1;
        }
        proof {
            assert forall|k: int|
                0 <= k < self.entries_view().len() implies (#[trigger] self.entries_view()[k]).0
                != key@ by {
                assert(self.entries@[k].key@ != key@);
            }
        }
        None
    }

    /// Whether the session behind `key` has been cancelled. The read
    /// leaves the registry untouched.
    pub fn is_cancelled(&self, key: &str) -> (r: bool)
        requires
            self.wf(),
        ensures
            r == self.spec_is_cancelled(key@),
    {
        match self.find_index(key) {
            Some(i) => {
                proof {
                    let j = choose|j: int|
                        0 <= j < self.entries_view().len() && (#[trigger] self.entries_view()[
                        j]).0 == key@;
                    if j != i as int {
                        assert(false);
                    }
                }
                self.entries[i].flag
            },
            None => false,
        }
    }

    /// Whether the registry currently holds an entry for `key`.
    pub fn has_session(&self, key: &str) -> (r: bool)
        requires
            self.wf(),
        ensures
            r == (self.lookup(key@) is Some),
    {
        match self.find_index(key) {
            Some(i) => {
                proof {
                    self.lemma_lookup_at(key@, i as int);
                }
                true
            },
            None => {
                proof {
                    if self.lookup(key@) is Some {
                        let j = choose|j: int|
                            0 <= j < self.entries_view().len() && (
                            #[trigger] self.entries_view()[j]).0 == key@;
                        assert(self.entries_view()[j].0 != key@);
                    }
                }
                false
            },
        }
    }

    /// Drop entries idle past the TTL, then enforce the cap by evicting
    /// the oldest-touched entries until at most the cap remain. Exactly
    /// the fresh entries survive, unchanged and in order, up to the cap;
    /// past the cap, whatever is evicted is no newer than anything kept.
    pub fn cleanup(&mut self, now: i64)
        requires
            old(self).wf(),
        ensures
            final(self).wf(),
            final(self).entries_view().len() <= CANCEL_MAX_ENTRIES as int,
            forall|i: int|
                0 <= i < final(self).entries_view().len() ==> old(self).entries_view().contains(
                    #[trigger] final(self).entries_view()[i],
                ),
            forall|i: int|
                0 <= i < final(self).entries_view().len() ==> now - (
                #[trigger] final(self).entries_view()[i]).2 <= CANCEL_TTL_SECS as int,
            ({
                let keepable = fresh_entries(old(self).entries_view(), now as int);
                &&& final(self).entries_view().len() == (if keepable.len()
                    <= CANCEL_MAX_ENTRIES as int {
                    keepable.len() as int
                } else {
                    CANCEL_MAX_ENTRIES as int
                })
                &&& keepable.len() <= CANCEL_MAX_ENTRIES as int ==> final(self).entries_view()
                    == keepable
            }),
            forall|j: int, i: int|
                0 <= j < old(self).entries_view().len() && fresh_entry(
                    now as int,
                    #[trigger] old(self).entries_view()[j],
                ) && !final(self).entries_view().contains(old(self).entries_view()[j]) && 0 <= i
                    < final(self).entries_view().len() ==> (
                #[trigger] final(self).entries_view()[i]).2 >= old(self).entries_view()[j].2,
    {
        let ghost orig_entries = self.entries@;
        let ghost orig_view = self.entries_view();
        let n = self.entries.len();
        let mut kept: Vec<CancelEntry> = Vec::new();
        let ghost mut src: Seq<int> = Seq::empty();
        let mut idx: usize = 0;
        proof {
            assert forall|j1: int, j2: int|
                0 <= j1 < j2 < n implies (#[trigger] orig_entries[j1]).key@ != (
            #[trigger] orig_entries[j2]).key@ by {
                assert(orig_view[j1].0 == orig_entries[j1].key@);
                assert(orig_view[j2].0 == orig_entries[j2].key@);
            }
            assert(orig_view.take(0) =~= Seq::<(Seq<char>, bool, int)>::empty());
            assert(kept@.map_values(|e: CancelEntry| (e.key@, e.flag, e.touched as int))
                =~= fresh_entries(orig_view.take(0), now as int));
        }
        while idx < n
            invariant
                n == orig_entries.len(),
                self.entries@ == orig_entries,
                orig_view == orig_entries.map_values(
                    |e: CancelEntry| (e.key@, e.flag, e.touched as int),
                ),
                0 <= idx <= n,
                kept@.map_values(|e: CancelEntry| (e.key@, e.flag, e.touched as int))
                    == fresh_entries(orig_view.take(idx as int), now as int),
                src.len() == kept@.len(),
                forall|i: int| 0 <= i < src.len() ==> 0 <= #[trigger] src[i] < idx,
                forall|i1: int, i2: int| 0 <= i1 < i2 < src.len() ==> src[i1] < src[i2],
                forall|i: int|
                    0 <= i < kept@.len() ==> #[trigger] kept@[i].key@ == orig_entries[src[i]].key@
                        && kept@[i].flag == orig_entries[src[i]].flag && kept@[i].touched
                        == orig_entries[src[i]].touched,
                forall|i: int|
                    0 <= i < kept@.len() ==> now - (#[trigger] kept@[i]).touched as int
                        <= CANCEL_TTL_SECS as int,
                forall|j1: int, j2: int|
                    0 <= j1 < j2 < n ==> (#[trigger] orig_entries[j1]).key@ != (
                    #[trigger] orig_entries[j2]).key@,
            decreases n - idx,
        {
            let e = &self.entries[idx];
            proof {
                let t = orig_view.take(idx + 1);
                assert(t.drop_last() =~= orig_view.take(idx as int));
                assert(t.last() == orig_view[idx as int]);
            }
            if (now as i128) - (e.touched as i128) <= CANCEL_TTL_SECS as i128 {
                let item = CancelEntry { key: e.key.clone(), flag: e.flag, touched: e.touched };
                kept.push(item);
                proof {
                    src = src.push(idx as int);
                    assert(fresh_entry(now as int, orig_view[idx as int]));
                    assert(kept@.map_values(|x: CancelEntry| (x.key@, x.flag, x.touched as int))
                        =~= fresh_entries(orig_view.take(idx as int), now as int).push(
                        orig_view[idx as int],
                    ));
                }
            } else {
                proof {
                    assert(!fresh_entry(now as int, orig_view[idx as int]));
                }
            }
            idx = idx + 1;
        }
        proof {
            assert(orig_view.take(n as int) =~= orig_view);
        }
        self.entries = kept;
        let ghost mid_view = self.entries_view();
        proof {
            assert(mid_view == fresh_entries(orig_view, now as int));
        }
        while self.entries.len() > CANCEL_MAX_ENTRIES
            invariant
                n == orig_entries.len(),
                orig_view == orig_entries.map_values(
                    |e: CancelEntry| (e.key@, e.flag, e.touched as int),
                ),
                mid_view == fresh_entries(orig_view, now as int),
                src.len() == self.entries@.len(),
                forall|i: int| 0 <= i < src.len() ==> 0 <= #[trigger] src[i] < n,
                forall|i1: int, i2: int| 0 <= i1 < i2 < src.len() ==> src[i1] < src[i2],
                forall|i: int|
                    0 <= i < self.entries@.len() ==> #[trigger] self.entries@[i].key@
                        == orig_entries[src[i]].key@ && self.entries@[i].flag
                        == orig_entries[src[i]].flag && self.entries@[i].touched
                        == orig_entries[src[i]].touched,
                forall|i: int|
                    0 <= i < self.entries@.len() ==> now - (
                    #[trigger] self.entries@[i]).touched as int <= CANCEL_TTL_SECS as int,
                forall|j1: int, j2: int|
                    0 <= j1 < j2 < n ==> (#[trigger] orig_entries[j1]).key@ != (
                    #[trigger] orig_entries[j2]).key@,
                forall|i: int|
                    0 <= i < self.entries_view().len() ==> mid_view.contains(
                        #[trigger] self.entries_view()[i],
                    ),
                forall|x: (Seq<char>, bool, int)|
                    #[trigger] mid_view.contains(x) && !self.entries_view().contains(x)
                        ==> all_touched_at_or_after(self.entries_view(), x.2),
                mid_view.len() <= CANCEL_MAX_ENTRIES as int ==> self.entries_view() == mid_view,
                mid_view.len() > CANCEL_MAX_ENTRIES as int ==> self.entries@.len()
                    >= CANCEL_MAX_ENTRIES,
            decreases self.entries@.len(),
        {
            proof {
                if mid_view.len() <= CANCEL_MAX_ENTRIES as int {
                    assert(self.entries_view().len() == self.entries@.len());
                    assert(false);
                }
            }
            let m = self.entries.len();
            let mut oldest: usize = 0;
            let mut k: usize = 1;
            while k < m
                invariant
                    m == self.entries@.len(),
                    0 < m,
                    0 <= oldest < m,
                    1 <= k <= m,
                    forall|i: int|
                        0 <= i < k ==> (#[trigger] self.entries@[i]).touched
                            >= self.entries@[oldest as int].touched,
                decreases m - k,
            {
                if self.entries[k].touched < self.entries[oldest].touched {
                    oldest = k;
                }
                k = k + 1;
            }
            let ghost cur_pre = self.entries_view();
            let ghost victim = cur_pre[oldest as int];
            proof {
                assert forall|i: int|
                    0 <= i < cur_pre.len() implies (#[trigger] cur_pre[i]).2 >= victim.2 by {
                    assert(cur_pre[i].2 == self.entries@[i].touched as int);
                }
            }
            let _removed = self.entries.remove(oldest);
            proof {
                src = src.remove(oldest as int);
                let cur = self.entries_view();
                assert(cur =~= cur_pre.remove(oldest as int));
                cur_pre.remove_ensures(oldest as int);
                assert forall|i: int|
                    0 <= i < cur.len() implies mid_view.contains(#[trigger] cur[i]) by {
                    if i < oldest {
                        assert(cur[i] == cur_pre[i]);
                    } else {
                        assert(cur[i] == cur_pre[i + 1]);
                    }
                }
                assert forall|x: (Seq<char>, bool, int)|
                    #[trigger] mid_view.contains(x) && !cur.contains(x) implies
                    all_touched_at_or_after(cur, x.2) by {
                    if cur_pre.contains(x) {
                        let kk = choose|kk: int| 0 <= kk < cur_pre.len() && cur_pre[kk] == x;
                        if kk != oldest {
                            if kk < oldest {
                                assert(cur[kk] == cur_pre[kk]);
                            } else {
                                assert(cur[kk - 1] == cur_pre[kk]);
                            }
                            assert(cur.contains(x));
                            assert(false);
                        }
                        assert(x.2 == victim.2);
                        assert forall|i: int|
                            0 <= i < cur.len() implies (#[trigger] cur[i]).2 >= x.2 by {
                            if i < oldest {
                                assert(cur[i] == cur_pre[i]);
                            } else {
                                assert(cur[i] == cur_pre[i + 1]);
                            }
                        }
                    } else {
                        assert(all_touched_at_or_after(cur_pre, x.2));
                        assert forall|i: int|
                            0 <= i < cur.len() implies (#[trigger] cur[i]).2 >= x.2 by {
                            if i < oldest {
                                assert(cur[i] == cur_pre[i]);
                            } else {
                                assert(cur[i] == cur_pre[i + 1]);
                            }
                            assert(cur_pre.contains(cur[i])) by {
                                if i < oldest {
                                    assert(cur_pre[i] == cur[i]);
                                } else {
                                    assert(cur_pre[i + 1] == cur[i]);
                                }
                            }
                        }
                    }
                }
            }
        }
        proof {
            assert(orig_view == old(self).entries_view());
            assert forall|i: int|
                0 <= i < self.entries_view().len() implies old(self).entries_view().contains(
                #[trigger] self.entries_view()[i],
            ) by {
                let j = src[i];
                assert(self.entries_view()[i] == (self.entries@[i].key@, self.entries@[i].flag,
                self.entries@[i].touched as int));
                assert(orig_view[j] == (orig_entries[j].key@, orig_entries[j].flag,
                orig_entries[j].touched as int));
                assert(orig_view[j] == self.entries_view()[i]);
            }
            assert forall|i1: int, j1: int|
                0 <= i1 < j1 < self.entries_view().len() implies (
            #[trigger] self.entries_view()[i1]).0 != (#[trigger] self.entries_view()[j1]).0 by {
                assert(self.entries@[i1].key@ == orig_entries[src[i1]].key@);
                assert(self.entries@[j1].key@ == orig_entries[src[j1]].key@);
                assert(src[i1] < src[j1]);
            }
            assert forall|i: int|
                0 <= i < self.entries_view().len() implies now - (
            #[trigger] self.entries_view()[i]).2 <= CANCEL_TTL_SECS as int by {
                assert(now - self.entries@[i].touched as int <= CANCEL_TTL_SECS as int);
            }
            let keepable = fresh_entries(orig_view, now as int);
            if keepable.len() <= CANCEL_MAX_ENTRIES as int {
                assert(self.entries_view() == mid_view);
            } else {
                assert(self.entries@.len() >= CANCEL_MAX_ENTRIES);
                assert(self.entries@.len() <= CANCEL_MAX_ENTRIES);
            }
            assert forall|j: int, i: int|
                0 <= j < orig_view.len() && fresh_entry(now as int, #[trigger] orig_view[j])
                    && !self.entries_view().contains(orig_view[j]) && 0 <= i
                    < self.entries_view().len() implies (
            #[trigger] self.entries_view()[i]).2 >= orig_view[j].2 by {
                lemma_fresh_entries_contains(orig_view, now as int, j);
                assert(mid_view.contains(orig_view[j]));
                assert(all_touched_at_or_after(self.entries_view(), orig_view[j].2));
            }
        }
    }

    /// Two registries where every entry of `b` appears in `a` agree on
    /// every key `b` still holds.
    proof fn lemma_subset_lookup(a: &CancelRegistry, b: &CancelRegistry, k: Seq<char>)
        requires
            a.wf(),
            b.wf(),
            forall|i: int|
                0 <= i < b.entries_view().len() ==> a.entries_view().contains(
                    #[trigger] b.entries_view()[i],
                ),
            b.lookup(k) is Some,
        ensures
            a.lookup(k) is Some,
            a.lookup(k)->Some_0.0 == b.lookup(k)->Some_0.0,
            a.lookup(k)->Some_0.1 == b.lookup(k)->Some_0.1,
    {
        let i = choose|i: int|
            0 <= i < b.entries_view().len() && (#[trigger] b.entries_view()[i]).0 == k;
        b.lemma_lookup_at(k, i);
        assert(a.entries_view().contains(b.entries_view()[i]));
        let j = choose|j: int|
            0 <= j < a.entries_view().len() && a.entries_view()[j] == b.entries_view()[i];
        a.lemma_lookup_at(k, j);
    }

    /// Trim the registry, then fetch (creating if needed) the flag for
    /// `key`, touching its entry at `now`. A live entry under the cap
    /// keeps its flag — a cancelled session stays cancelled; a new or
    /// expired entry starts clear; the flag comes back set only if the
    /// session was already cancelled. No other surviving key's flag
    /// changes.
    pub fn token_for(&mut self, key: &str, now: i64) -> (r: bool)
        requires
            old(self).wf(),
        ensures
            final(self).wf(),
            final(self).lookup(key@) == Option::Some((r, now as int)),
            r ==> old(self).spec_is_cancelled(key@),
            old(self).lookup(key@) is Some && now - old(self).lookup(key@)->Some_0.1
                <= CANCEL_TTL_SECS as int && old(self).entries_view().len()
                <= CANCEL_MAX_ENTRIES as int ==> r == old(self).lookup(key@)->Some_0.0,
            forall|k: Seq<char>|
                k != key@ && (#[trigger] final(self).lookup(k)) is Some ==> old(self).lookup(k)
                    is Some && final(self).lookup(k)->Some_0.0 == old(self).lookup(
                    k,
                )->Some_0.0,
    {
        self.cleanup(now);
        let ghost mid = *self;
        let r = self.upsert(key, now, false);
        proof {
            if r {
                Self::lemma_subset_lookup(old(self), &mid, key@);
            }
            if old(self).lookup(key@) is Some && now - old(self).lookup(key@)->Some_0.1
                <= CANCEL_TTL_SECS as int && old(self).entries_view().len()
                <= CANCEL_MAX_ENTRIES as int {
                let f = old(self).lookup(key@)->Some_0.0;
                let t = old(self).lookup(key@)->Some_0.1;
                let j = choose|j: int|
                    0 <= j < old(self).entries_view().len() && (#[trigger] old(
                        self,
                    ).entries_view()[j]).0 == key@;
                old(self).lemma_lookup_at(key@, j);
                assert(old(self).entries_view()[j].1 == f);
                assert(old(self).entries_view()[j].2 == t);
                assert(fresh_entry(now as int, old(self).entries_view()[j]));
                lemma_fresh_entries_len(old(self).entries_view(), now as int);
                assert(mid.entries_view() == fresh_entries(
                    old(self).entries_view(),
                    now as int,
                ));
                lemma_fresh_entries_contains(old(self).entries_view(), now as int, j);
                assert(mid.entries_view().contains(old(self).entries_view()[j]));
                let i = choose|i: int|
                    0 <= i < mid.entries_view().len() && mid.entries_view()[i] == old(
                        self,
                    ).entries_view()[j];
                mid.lemma_lookup_at(key@, i);
                assert(mid.lookup(key@) == Option::Some((f, t)));
            }
            assert forall|k: Seq<char>|
                k != key@ && (#[trigger] self.lookup(k)) is Some implies old(self).lookup(k)
                is Some && self.lookup(k)->Some_0.0 == old(self).lookup(k)->Some_0.0 by {
                Self::lemma_subset_lookup(old(self), &mid, k);
            }
        }
        r
    }

    /// Trim the registry, then set the cancellation flag for `key`,
    /// touching its entry at `now`. Afterwards the session reads as
    /// cancelled; no other surviving key's flag changes.
    pub fn cancel(&mut self, key: &str, now: i64)
        requires
            old(self).wf(),
        ensures
            final(self).wf(),
            final(self).spec_is_cancelled(key@),
            final(self).lookup(key@) == Option::Some((true, now as int)),
            forall|k: Seq<char>|
                k != key@ && (#[trigger] final(self).lookup(k)) is Some ==> old(self).lookup(k)
                    is Some && final(self).lookup(k)->Some_0.0 == old(self).lookup(
                    k,
                )->Some_0.0,
    {
        self.cleanup(now);
        let ghost mid = *self;
        let _ = self.upsert(key, now, true);
        proof {
            assert forall|k: Seq<char>|
                k != key@ && (#[trigger] self.lookup(k)) is Some implies old(self).lookup(k)
                is Some && self.lookup(k)->Some_0.0 == old(self).lookup(k)->Some_0.0 by {
                Self::lemma_subset_lookup(old(self), &mid, k);
            }
        }
    }

    /// Insert or touch `key` at `now`; `set` forces the flag on. Returns
    /// the flag's value after the update.
    fn upsert(&mut self, key: &str, now: i64, set: bool) -> (r: bool)
        requires
            old(self).wf(),
        ensures
            final(self).wf(),
            final(self).lookup(key@) == Option::Some((r, now as int)),
            r == (set || (match old(self).lookup(key@) {
                Option::Some((flag, _)) => flag,
                Option::None => false,
            })),
            forall|k: Seq<char>|
                k != key@ && (#[trigger] final(self).lookup(k)) is Some ==> old(self).lookup(k)
                    is Some && final(self).lookup(k)->Some_0.0 == old(self).lookup(
                    k,
                )->Some_0.0,
    {
        let ghost pre = *self;
        match self.find_index(key) {
            Some(i) => {
                proof {
                    let j = choose|j: int|
                        0 <= j < pre.entries_view().len() && (#[trigger] pre.entries_view()[j]).0
                            == key@;
                    if j != i as int {
                        assert(false);
                    }
                }
                let new_flag = set || self.entries[i].flag;
                let new_key = self.entries[i].key.clone();
                let updated = CancelEntry { key: new_key, flag: new_flag, touched: now };
                self.entries.set(i, updated);
                proof {
                    assert forall|i1: int, j1: int|
                        0 <= i1 < j1 < self.entries_view().len() implies (
                    #[trigger] self.entries_view()[i1]).0 != (
                    #[trigger] self.entries_view()[j1]).0 by {
                        assert(self.entries_view()[i1].0 == self.entries@[i1].key@);
                        assert(self.entries_view()[j1].0 == self.entries@[j1].key@);
                        assert(pre.entries_view()[i1].0 == pre.entries@[i1].key@);
                        assert(pre.entries_view()[j1].0 == pre.entries@[j1].key@);
                        assert(self.entries@[i1].key@ == pre.entries@[i1].key@);
                        assert(self.entries@[j1].key@ == pre.entries@[j1].key@);
                        assert(pre.entries_view()[i1].0 != pre.entries_view()[j1].0);
                    }
                    self.lemma_lookup_at(key@, i as int);
                    assert forall|k: Seq<char>|
                        k != key@ && (#[trigger] self.lookup(k)) is Some implies pre.lookup(
                        k,
                    ) is Some && self.lookup(k)->Some_0.0 == pre.lookup(k)->Some_0.0 by {
                        let j = choose|j: int|
                            0 <= j < self.entries_view().len() && (#[trigger] self.entries_view()[
                            j]).0 == k;
                        assert(pre.entries_view()[j].0 == k);
                        pre.lemma_lookup_at(k, j);
                        self.lemma_lookup_at(k, j);
                    }
                }
                new_flag
            },
            None => {
                let item = CancelEntry { key: key.to_owned(), flag: set, touched: now };
                self.entries.push(item);
                proof {
                    let m = self.entries_view().len();
                    assert(self.entries_view()[m - 1].0 == key@);
                    assert forall|i1: int, j1: int|
                        0 <= i1 < j1 < self.entries_view().len() implies (
                    #[trigger] self.entries_view()[i1]).0 != (
                    #[trigger] self.entries_view()[j1]).0 by {
                        if j1 < m - 1 {
                            assert(pre.entries_view()[i1].0 != pre.entries_view()[j1].0);
                        } else {
                            assert(pre.entries_view()[i1].0 != key@);
                        }
                    }
                    self.lemma_lookup_at(key@, m - 1);
                    assert forall|k: Seq<char>|
                        k != key@ && (#[trigger] self.lookup(k)) is Some implies pre.lookup(
                        k,
                    ) is Some && self.lookup(k)->Some_0.0 == pre.lookup(k)->Some_0.0 by {
                        let j = choose|j: int|
                            0 <= j < self.entries_view().len() && (#[trigger] self.entries_view()[
                            j]).0 == k;
                        assert(j < m - 1);
                        assert(pre.entries_view()[j].0 == k);
                        pre.lemma_lookup_at(k, j);
                        self.lemma_lookup_at(k, j);
                    }
                }
                set
            },
        }
    }

    /// In a well-formed registry, an index holding `key` decides the
    /// lookup.
    proof fn lemma_lookup_at(&self, key: Seq<char>, i: int)
        requires
            self.wf(),
            0 <= i < self.entries_view().len(),
            self.entries_view()[i].0 == key,
        ensures
            self.lookup(key) == Option::Some(
                (self.entries_view()[i].1, self.entries_view()[i].2),
            ),
    {
        let j = choose|j: int|
            0 <= j < self.entries_view().len() && (#[trigger] self.entries_view()[j]).0 == key;
        if j != i {
            assert(false);
        }
    }
}

} // verus!
