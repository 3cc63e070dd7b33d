//! The mirror pool: normalized candidate origins plus a rotation cursor.
//! Requests walk the pool starting at the cursor and wrap once around;
//! the router pins the cursor to whichever mirror last succeeded.
use vstd::prelude::*;

use crate::text::{
    contains_sub, drop_while_end, first_sub_at, lemma_first_sub_unique, starts_with_spec,
    str_find_sub, str_starts_with, str_trim, str_trim_end_char, sub_at, trim_spec,
};

verus! {

/// The normalization every configured or discovered base goes through:
/// trim, reject empties, default the scheme to `https://`, and drop
/// trailing slashes.
pub open spec fn normalize_api_base_spec(s: Seq<char>) -> Option<Seq<char>> {
    let raw = trim_spec(s);
    if raw.len() == 0 {
        Option::None
    } else {
        let with_scheme = if starts_with_spec(raw, "http://"@) || starts_with_spec(
            raw,
            "https://"@,
        ) {
            raw
        } else {
            "https://"@.add(raw)
        };
        Option::Some(drop_while_end(with_scheme, |c: char| c == '/'))
    }
}

/// Normalizes one base: trims it, adds `https://` when no scheme is
/// given, and strips trailing slashes. Empty input yields `None`.
pub fn normalize_api_base(input: &str) -> (r: Option<String>)
    ensures
        r is Some <==> normalize_api_base_spec(input@) is Some,
        r is Some ==> r->Some_0@ == normalize_api_base_spec(input@)->Some_0,
{
    let raw = str_trim(input);
    if raw.as_str().unicode_len() == 0 {
        assert(trim_spec(input@).len() == 0);
        return None;
    }
    let with_scheme = if str_starts_with(raw.as_str(), "http://") || str_starts_with(
        raw.as_str(),
        "https://",
    ) {
        raw
    } else {
        let mut t = String::new();
        t.append("https://");
        t.append(raw.as_str());
        assert(t@ =~= "https://"@.add(trim_spec(input@)));
        t
    };
    Some(str_trim_end_char(with_scheme.as_str(), '/'))
}

/// A character that ends the origin part of a URL: the start of a
/// path, fragment or query.
pub open spec fn is_origin_end(c: char) -> bool {
    c == '/' || c == '#' || c == '?'
}

/// Cutting a normalized base down to its origin: everything from the
/// first `/`, `#` or `?` past the scheme separator goes.
pub open spec fn api_root_spec(norm: Seq<char>) -> Seq<char> {
    if contains_sub(norm, "://"@) {
        let i = choose|i: int| first_sub_at(norm, "://"@, i);
        let rest = norm.subrange(i + 3, norm.len() as int);
        if exists|j: int| 0 <= j < rest.len() && is_origin_end(rest[j]) {
            let j = choose|j: int|
                0 <= j < rest.len() && is_origin_end(rest[j]) && forall|k: int|
                    0 <= k < j ==> !is_origin_end(rest[k]);
            norm.subrange(0, i).add("://"@).add(rest.subrange(0, j))
        } else {
            norm
        }
    } else {
        norm
    }
}

/// The position of the first path, fragment or query character.
fn str_find_origin_end(s: &str) -> (r: Option<usize>)
    ensures
        match r {
            Some(i) => i < s@.len() && is_origin_end(s@[i as int]) && forall|k: int|
                0 <= k < i ==> !is_origin_end(s@[k]),
            None => forall|k: int| 0 <= k < s@.len() ==> !is_origin_end(s@[k]),
        },
{
    let n = s.unicode_len();
    let mut i: usize = 0;
    while i < n
        invariant
            n == s@.len(),
            0 <= i <= n,
            forall|k: int| 0 <= k < i ==> !is_origin_end(s@[k]),
        decreases n - i,
    {
        let c = s.get_char(i);
        if c == '/' || c == '#' || c == '?' {
            return Some(i);
        }
        i = i + 1;
    }
    None
}

/// `normalize_api_base` followed by the cut to origin.
pub open spec fn normalize_api_base_root_spec(s: Seq<char>) -> Option<Seq<char>> {
    match normalize_api_base_spec(s) {
        Option::None => Option::None,
        Option::Some(n) => Option::Some(api_root_spec(n)),
    }
}

/// Normalizes one base and strips any path, fragment or query, keeping
/// only `scheme://host[:port]`.
pub fn normalize_api_base_root(input: &str) -> (r: Option<String>)
    ensures
        r is Some <==> normalize_api_base_root_spec(input@) is Some,
        r is Some ==> r->Some_0@ == normalize_api_base_root_spec(input@)->Some_0,
{
    let normalized = match normalize_api_base(input) {
        Some(n) => n,
        None => {
            return None;
        },
    };
    let norm_str = normalized.as_str();
    let n = norm_str.unicode_len();
    let sep = "://";
    match str_find_sub(norm_str, sep) {
        Some(pos) => {
            proof {
                reveal_strlit("://");
                assert(first_sub_at(normalized@, "://"@, pos as int));
                let i = choose|i: int| first_sub_at(normalized@, "://"@, i);
                lemma_first_sub_unique(normalized@, "://"@, i, pos as int);
            }
            let rest = norm_str.substring_char(pos + 3, n);
            match str_find_origin_end(rest) {
                Some(cut) => {
                    proof {
                        let ghost rest_s = normalized@.subrange(pos + 3, n as int);
                        assert(is_origin_end(rest_s[cut as int]));
                        let j = choose|j: int|
                            0 <= j < rest_s.len() && is_origin_end(rest_s[j]) && forall|k: int|
                                0 <= k < j ==> !is_origin_end(rest_s[k]);
                        if j < cut {
                            assert(is_origin_end(rest_s[j]));
                            assert(false);
                        }
                        if cut < j {
                            assert(!is_origin_end(rest_s[cut as int]));
                            assert(false);
                        }
                    }
                    let prefix = norm_str.substring_char(0, pos);
                    let host = rest.substring_char(0, cut);
                    let mut out = prefix.to_owned();
                    out.append(sep);
                    out.append(host);
                    assert(out@ =~= api_root_spec(normalized@));
                    Some(out)
                },
                None => {
                    proof {
                        let ghost rest_s = normalized@.subrange(pos + 3, n as int);
                        if exists|j: int| 0 <= j < rest_s.len() && is_origin_end(rest_s[j]) {
                            let j = choose|j: int|
                                0 <= j < rest_s.len() && is_origin_end(rest_s[j]);
                            assert(!is_origin_end(rest_s[j]));
                        }
                    }
                    Some(normalized)
                },
            }
        },
        None => {
            proof {
                reveal_strlit("://");
                assert(!contains_sub(normalized@, "://"@)) by {
                    if contains_sub(normalized@, "://"@) {
                        let i = choose|i: int| sub_at(normalized@, "://"@, i);
                        assert(sub_at(normalized@, "://"@, i));
                    }
                }
            }
            Some(normalized)
        },
    }
}

/// The mirror pool: an ordered, deduplicated list of candidate origins
/// and a rotation cursor. The pool refuses to become empty once seeded:
/// committing an empty list is a no-op.
pub struct MirrorPool {
    bases: Vec<String>,
    cursor: usize,
}

impl MirrorPool {
    /// The bases as character sequences, in pool order.
    pub closed spec fn bases_view(&self) -> Seq<Seq<char>> {
        self.bases@.map_values(|s: String| s@)
    }

    /// The raw rotation cursor; candidate order starts at
    /// `cursor % bases.len()`.
    pub closed spec fn cursor_view(&self) -> int {
        self.cursor as int
    }

    /// A pool seeded from an initial list, cursor at the start.
    pub fn new(initial: Vec<String>) -> (r: MirrorPool)
        ensures
            r.bases_view() == initial@.map_values(|s: String| s@),
            r.cursor_view() == 0,
    {
        MirrorPool { bases: initial, cursor: 0 }
    }

    /// How many bases the pool holds.
    pub fn len(&self) -> (r: usize)
        ensures
            r == self.bases_view().len(),
    {
        self.bases.len()
    }

    /// A copy of the base list, in pool order.
    pub fn get_api_bases(&self) -> (r: Vec<String>)
        ensures
            r@.map_values(|s: String| s@) == self.bases_view(),
    {
        let mut out: Vec<String> = Vec::new();
        let n = self.bases.len();
        let mut i: usize = 0;
        while i < n
            invariant
                n == self.bases@.len(),
                0 <= i <= n,
                out@.len() == i,
                forall|k: int| 0 <= k < i ==> out@[k]@ == self.bases@[k]@,
            decreases n - i,
        {
            let item = self.bases[i].clone();
            out.push(item);
            i = i + 1;
        }
        assert(out@.map_values(|s: String| s@) =~= self.bases_view());
        out
    }

    /// Replace the pool with a new list and reset the cursor — unless the
    /// list is empty, which leaves the pool untouched.
    pub fn set_api_bases(&mut self, list: Vec<String>)
        ensures
            list@.len() == 0 ==> final(self).bases_view() == old(self).bases_view() && final(self).cursor_view() == old(self).cursor_view(),
            list@.len() > 0 ==> final(self).bases_view() == list@.map_values(|s: String| s@) && final(self).cursor_view() == 0,
    {
        if list.len() == 0 {
            return;
        }
        self.bases = list;
        self.cursor = 0;
    }

    /// Commit a freshly discovered list: a no-op on an empty list, else
    /// the pool is replaced and the result says the caller should persist
    /// the list.
    pub fn update_api_domain_cache(&mut self, list: Vec<String>) -> (persisted: bool)
        ensures
            persisted == (list@.len() > 0),
            list@.len() == 0 ==> final(self).bases_view() == old(self).bases_view() && final(self).cursor_view() == old(self).cursor_view(),
            list@.len() > 0 ==> final(self).bases_view() == list@.map_values(|s: String| s@) && final(self).cursor_view() == 0,
    {
        if list.len() == 0 {
            return false;
        }
        self.set_api_bases(list);
        true
    }

    /// Pin the cursor to the mirror that just answered, so the next
    /// request starts there.
    pub fn pin(&mut self, idx: usize)
        ensures
            final(self).bases_view() == old(self).bases_view(),
            final(self).cursor_view() == idx as int,
    {
        self.cursor = idx;
    }

    /// Where candidate `k` of a walk starting at `start` lands, in a pool
    /// of `len` bases.
    pub open spec fn rotated_index(start: int, k: int, len: int) -> int {
        if start + k < len {
            start + k
        } else {
            start + k - len
        }
    }

    /// The current base: the one the cursor points at, if any.
    pub fn current_api_base(&self) -> (r: Option<String>)
        ensures
            r is Some <==> self.bases_view().len() > 0,
            r is Some ==> r->Some_0@ == self.bases_view()[self.cursor_view() % (
            self.bases_view().len() as int)],
    {
        let n = self.bases.len();
        if n == 0 {
            return None;
        }
        let idx = self.cursor % n;
        Some(self.bases[idx].clone())
    }

    /// The full candidate walk: every base exactly once, starting at the
    /// cursor and wrapping around, each with its pool index.
    pub fn api_base_candidates(&self) -> (r: Vec<(usize, String)>)
        ensures
            r@.len() == self.bases_view().len(),
            ({
                let len = self.bases_view().len() as int;
                len > 0 ==> {
                    let start = self.cursor_view() % len;
                    forall|k: int| 0 <= k < len ==> (#[trigger] r@[k]).0 as int
                        == Self::rotated_index(start, k, len) && r@[k].1@ == self.bases_view()[
                        Self::rotated_index(start, k, len)]
                }
            }),
    {
        let n = self.bases.len();
        let mut out: Vec<(usize, String)> = Vec::new();
        if n == 0 {
            return out;
        }
        let start = self.cursor % n;
        let ghost len = self.bases_view().len() as int;
        let mut offset: usize = 0;
        while offset < n
            invariant
                n == self.bases@.len(),
                n > 0,
                start == self.cursor_view() % (n as int),
                0 <= start < n,
                0 <= offset <= n,
                out@.len() == offset,
                forall|k: int| 0 <= k < offset ==> (#[trigger] out@[k]).0 as int
                    == Self::rotated_index(start as int, k, n as int) && out@[k].1@
                    == self.bases_view()[Self::rotated_index(start as int, k, n as int)],
            decreases n - offset,
        {
            let idx = if offset < n - start {
                start + offset
            } else {
                offset - (n - start)
            };
            let base = self.bases[idx].clone();
            out.push((idx, base));
            offset = offset + 1;
        }
        out
    }
}

/// Some step `k` of a walk starting at `start` lands on pool index `idx`.
pub open spec fn walk_hits(start: int, len: int, idx: int) -> bool {
    exists|k: int| 0 <= k < len && #[trigger] MirrorPool::rotated_index(start, k, len) == idx
}

/// The candidate walk is a permutation: starting at the cursor it visits
/// every known base exactly once before any repeat could happen. Stated
/// over the index form `rotated_index`: the walk is injective over one
/// round, and every pool index is hit.
pub proof fn lemma_candidates_cover_all(start: int, len: int)
    requires
        0 <= start < len,
    ensures
        forall|k1: int, k2: int|
            0 <= k1 < len && 0 <= k2 < len && k1 != k2 ==> #[trigger] MirrorPool::rotated_index(
                start,
                k1,
                len,
            ) != #[trigger] MirrorPool::rotated_index(start, k2, len),
        forall|idx: int| 0 <= idx < len ==> #[trigger] walk_hits(start, len, idx),
{
    assert forall|idx: int| 0 <= idx < len implies #[trigger] walk_hits(start, len, idx) by {
        let k = if idx >= start {
            idx - start
        } else {
            idx + len - start
        };
        assert(0 <= k < len);
        assert(MirrorPool::rotated_index(start, k, len) == idx);
    }
}

} // verus!
