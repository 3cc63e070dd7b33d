//! The retrieval cache's bookkeeping: content-addressed file names for
//! materialized pages and covers, path-component sanitizing, the
//! size-based eviction plan, and the statistics snapshot. The file
//! system itself is the caller's; existence of a hash-named file is the
//! sole proof of "already materialized".
use vstd::prelude::*;

use crate::CoreError;
use crate::cancel::CancelRegistry;
use crate::digest::{md5_hex, md5_hex_of};
use crate::router::ci_eq;
use crate::text::{dec_of_int, i64_to_dec, push_char};

verus! {

/// Characters allowed in a cache path component.
pub open spec fn is_safe_path_char(c: char) -> bool {
    (48 <= (c as u32) && (c as u32) <= 57) || (97 <= (c as u32) && (c as u32) <= 122) || (65 <= (
    c as u32) && (c as u32) <= 90) || c == '-' || c == '_' || c == '.'
}

/// A component with everything unsafe filtered out, `unknown` when
/// nothing is left.
pub open spec fn sanitize_spec(s: Seq<char>) -> Seq<char> {
    let kept = s.filter(|c: char| is_safe_path_char(c));
    if kept.len() == 0 {
        "unknown"@
    } else {
        kept
    }
}

fn char_is_safe(c: char) -> (r: bool)
    ensures
        r == is_safe_path_char(c),
{
    let u = c as u32;
    (48 <= u && u <= 57) || (97 <= u && u <= 122) || (65 <= u && u <= 90) || c == '-' || c == '_'
        || c == '.'
}

/// Keeps only ASCII alphanumerics, `-`, `_` and `.`; an empty result
/// becomes `unknown`.
pub fn sanitize_path_component(s: &str) -> (r: String)
    ensures
        r@ == sanitize_spec(s@),
{
    let ghost p = |c: char| is_safe_path_char(c);
    let n = s.unicode_len();
    let mut out = String::new();
    let mut i: usize = 0;
    assert(out@ =~= s@.take(0).filter(p));
    while i < n
        invariant
            n == s@.len(),
            0 <= i <= n,
            p == (|c: char| is_safe_path_char(c)),
            out@ == s@.take(i as int).filter(p),
        decreases n - i,
    {
        let c = s.get_char(i);
        proof {
            let t = s@.take(i + 1);
            assert(t.drop_last() =~= s@.take(i as int));
            assert(t.last() == s@[i as int]);
            reveal_with_fuel(Seq::filter, 2);
        }
        if char_is_safe(c) {
            push_char(&mut out, c);
        }
        i = i + 1;
    }
    assert(s@.take(n as int) =~= s@);
    if out.as_str().unicode_len() == 0 {
        let u = "unknown";
        return u.to_owned();
    }
    out
}

/// The content hash a materialized page is filed under:
/// `md5(url ‖ "|" ‖ segmentation)`.
pub open spec fn read_cache_key_spec(url: Seq<char>, num: int) -> Seq<char> {
    md5_hex_of(url.add("|"@).add(dec_of_int(num)))
}

/// Computes the page cache key for one `(url, segmentation)` pair.
pub fn read_cache_key(url: &str, num: i64) -> (r: String)
    ensures
        r@ == read_cache_key_spec(url@, num as int),
{
    let mut src = url.to_owned();
    src.append("|");
    let d = i64_to_dec(num);
    src.append(d.as_str());
    assert(src@ =~= url@.add("|"@).add(dec_of_int(num as int)));
    md5_hex(src.as_str())
}

/// The two file names a materialized page may live under: the key with
/// `.png` and with `.jpg`.
pub fn read_cache_file_names(url: &str, num: i64) -> (r: (String, String))
    ensures
        r.0@ == read_cache_key_spec(url@, num as int).add(".png"@),
        r.1@ == read_cache_key_spec(url@, num as int).add(".jpg"@),
{
    let key = read_cache_key(url, num);
    let mut png = key.clone();
    png.append(".png");
    let mut jpg = key;
    jpg.append(".jpg");
    (png, jpg)
}

/// The text before the first occurrence of `c`, or all of it.
pub open spec fn before_char_spec(s: Seq<char>, c: char) -> Seq<char> {
    if s.contains(c) {
        let i = choose|i: int|
            0 <= i < s.len() && s[i] == c && forall|k: int| 0 <= k < i ==> s[k] != c;
        s.take(i)
    } else {
        s
    }
}

/// Cuts `s` at the first occurrence of `c`.
pub fn str_before_char(s: &str, c: char) -> (r: String)
    ensures
        r@ == before_char_spec(s@, c),
{
    let n = s.unicode_len();
    match crate::text::str_find_char(s, c) {
        Some(i) => {
            proof {
                assert(s@.contains(c)) by {
                    assert(s@[i as int] == c);
                }
                let j = choose|j: int|
                    0 <= j < s@.len() && s@[j] == c && forall|k: int| 0 <= k < j ==> s@[k] != c;
                if j < i as int {
                    assert(s@[j] == c);
                    assert(false);
                }
                if (i as int) < j {
                    assert(s@[i as int] != c);
                    assert(false);
                }
            }
            let piece = s.substring_char(0, i);
            piece.to_owned()
        },
        None => {
            proof {
                if s@.contains(c) {
                    let j = choose|j: int| 0 <= j < s@.len() && s@[j] == c;
                    assert(s@[j] == c);
                }
            }
            s.to_owned()
        },
    }
}

/// The position of the last occurrence of `c`, if any.
fn str_rfind_char(s: &str, c: char) -> (r: Option<usize>)
    ensures
        match r {
            Some(i) => i < s@.len() && s@[i as int] == c && forall|k: int|
                i < k < s@.len() ==> s@[k] != c,
            None => forall|k: int| 0 <= k < s@.len() ==> s@[k] != c,
        },
{
    let n = s.unicode_len();
    let mut j: usize = n;
    while j > 0
        invariant
            n == s@.len(),
            0 <= j <= n,
            forall|k: int| j <= k < n ==> s@[k] != c,
        decreases j,
    {
        if s.get_char(j - 1) == c {
            return Some(j - 1);
        }
        j = j - 1;
    }
    None
}

/// The file-name part of a URL path: everything after the last `/`.
pub open spec fn last_segment_spec(s: Seq<char>) -> Seq<char> {
    if s.contains('/') {
        let i = choose|i: int|
            0 <= i < s.len() && s[i] == '/' && forall|k: int| i < k < s.len() ==> s[k] != '/';
        s.skip(i + 1)
    } else {
        s
    }
}

/// The extension of a file name: what follows the final `.`, provided
/// that dot is not the leading character. `None` without such a dot.
pub open spec fn extension_spec(name: Seq<char>) -> Option<Seq<char>> {
    if name.contains('.') {
        let j = choose|j: int|
            0 <= j < name.len() && name[j] == '.' && forall|k: int|
                j < k < name.len() ==> name[k] != '.';
        if j > 0 {
            Option::Some(name.skip(j + 1))
        } else {
            Option::None
        }
    } else {
        Option::None
    }
}

proof fn lemma_last_occurrence_unique(s: Seq<char>, c: char, i: int, j: int)
    requires
        0 <= i < s.len(),
        s[i] == c,
        forall|k: int| i < k < s.len() ==> s[k] != c,
        0 <= j < s.len(),
        s[j] == c,
        forall|k: int| j < k < s.len() ==> s[k] != c,
    ensures
        i == j,
{
    if i < j {
        assert(s[j] != c);
    }
    if j < i {
        assert(s[i] != c);
    }
}

/// The extension of the file-name part of `s`, as a fresh string.
pub fn str_extension(s: &str) -> (r: Option<String>)
    ensures
        ({
            let e = extension_spec(last_segment_spec(s@));
            match r {
                Some(x) => e is Some && x@ == e->Some_0,
                None => e is None,
            }
        }),
{
    let n = s.unicode_len();
    let seg_start: usize = match str_rfind_char(s, '/') {
        Some(i) => {
            proof {
                assert(s@.contains('/')) by {
                    assert(s@[i as int] == '/');
                }
                let j = choose|j: int|
                    0 <= j < s@.len() && s@[j] == '/' && forall|k: int|
                        j < k < s@.len() ==> s@[k] != '/';
                lemma_last_occurrence_unique(s@, '/', i as int, j);
            }
            i + 1
        },
        None => {
            proof {
                if s@.contains('/') {
                    let j = choose|j: int| 0 <= j < s@.len() && s@[j] == '/';
                    assert(s@[j] == '/');
                }
            }
            0
        },
    };
    let seg = s.substring_char(seg_start, n);
    let ghost segv = last_segment_spec(s@);
    assert(seg@ =~= segv);
    match str_rfind_char(seg, '.') {
        Some(j) => {
            proof {
                assert(segv.contains('.')) by {
                    assert(segv[j as int] == '.');
                }
                let jj = choose|jj: int|
                    0 <= jj < segv.len() && segv[jj] == '.' && forall|k: int|
                        jj < k < segv.len() ==> segv[k] != '.';
                lemma_last_occurrence_unique(segv, '.', j as int, jj);
            }
            if j == 0 {
                return None;
            }
            let m = seg.unicode_len();
            let piece = seg.substring_char(j + 1, m);
            assert(piece@ =~= segv.skip(j + 1));
            Some(piece.to_owned())
        },
        None => {
            proof {
                if segv.contains('.') {
                    let jj = choose|jj: int| 0 <= jj < segv.len() && segv[jj] == '.';
                    assert(segv[jj] == '.');
                }
            }
            None
        },
    }
}

/// The cover cache file name: the hash of the full URL, with the URL's
/// own (sanitized) extension, `jpg` when it has none.
pub open spec fn cover_file_name_spec(url: Seq<char>) -> Seq<char> {
    let clean = before_char_spec(before_char_spec(url, '#'), '?');
    let ext = match extension_spec(last_segment_spec(clean)) {
        Option::None => "jpg"@,
        Option::Some(e) => sanitize_spec(e),
    };
    md5_hex_of(url).add("."@).add(ext)
}

/// Computes the file name a cover image is cached under.
pub fn cover_cache_file_name(url: &str) -> (r: String)
    ensures
        r@ == cover_file_name_spec(url@),
{
    let no_frag = str_before_char(url, '#');
    let clean = str_before_char(no_frag.as_str(), '?');
    let ext = match str_extension(clean.as_str()) {
        None => {
            let j = "jpg";
            j.to_owned()
        },
        Some(e) => sanitize_path_component(e.as_str()),
    };
    let mut out = md5_hex(url);
    out.append(".");
    out.append(ext.as_str());
    assert(out@ =~= cover_file_name_spec(url@));
    out
}

/// A sequence of characters equals a lowercase word up to ASCII case.
pub open spec fn ci_seq_eq(s: Seq<char>, word: Seq<char>) -> bool {
    s.len() == word.len() && forall|i: int| 0 <= i < s.len() ==> ci_eq(s[i], word[i])
}

fn str_ci_eq(s: &str, word: &str) -> (r: bool)
    ensures
        r == ci_seq_eq(s@, word@),
{
    let n = s.unicode_len();
    let m = word.unicode_len();
    if n != m {
        return false;
    }
    let mut i: usize = 0;
    while i < n
        invariant
            n == s@.len(),
            n == word@.len(),
            0 <= i <= n,
            forall|k: int| 0 <= k < i ==> ci_eq(s@[k], word@[k]),
        decreases n - i,
    {
        let a = s.get_char(i) as u32;
        let b = word.get_char(i) as u32;
        if !(a == b || (65 <= a && a <= 90 && a + 32 == b)) {
            return false;
        }
        i = i + 1;
    }
    true
}

/// The MIME type served for a cached file, by its extension (matched
/// without regard to ASCII case).
pub open spec fn mime_for_path_spec(path: Seq<char>) -> Seq<char> {
    match extension_spec(last_segment_spec(path)) {
        Option::None => "application/octet-stream"@,
        Option::Some(e) => {
            if ci_seq_eq(e, "png"@) {
                "image/png"@
            } else if ci_seq_eq(e, "jpg"@) || ci_seq_eq(e, "jpeg"@) {
                "image/jpeg"@
            } else if ci_seq_eq(e, "webp"@) {
                "image/webp"@
            } else {
                "application/octet-stream"@
            }
        },
    }
}

/// The MIME type for a cached file path.
pub fn mime_from_path(path: &str) -> (r: &'static str)
    ensures
        r@ == mime_for_path_spec(path@),
{
    match str_extension(path) {
        None => "application/octet-stream",
        Some(e) => {
            if str_ci_eq(e.as_str(), "png") {
                "image/png"
            } else if str_ci_eq(e.as_str(), "jpg") || str_ci_eq(e.as_str(), "jpeg") {
                "image/jpeg"
            } else if str_ci_eq(e.as_str(), "webp") {
                "image/webp"
            } else {
                "application/octet-stream"
            }
        },
    }
}

/// What one scanned per-comic cache directory reports.
pub struct CacheDirStat {
    /// The comic id the directory is named after.
    pub aid: String,
    /// Total bytes under the directory.
    pub bytes: u64,
    /// The newest modification time under it, in milliseconds.
    pub newest_ms: i64,
}

/// The aggregate statistics snapshot over the page cache.
pub struct ReadCacheStats {
    pub total_bytes: u64,
    pub total_files: u64,
    pub total_comics: u64,
}

/// The clamped sum of a sequence of naturals.
pub open spec fn sat_sum(s: Seq<int>) -> int
    decreases s.len(),
{
    if s.len() == 0 {
        0
    } else {
        let rest = sat_sum(s.drop_last());
        let total = rest + s.last();
        if total > u64::MAX {
            u64::MAX as int
        } else {
            total
        }
    }
}

/// Aggregates per-comic scans into the statistics snapshot: directories
/// with no files do not count, and the sums saturate.
pub fn read_cache_summary(per_dir: &Vec<(String, u64, u64)>) -> (r: ReadCacheStats)
    ensures
        r.total_files as int == sat_sum(
            per_dir@.map_values(|d: (String, u64, u64)| d.1 as int),
        ),
        r.total_bytes as int == sat_sum(
            per_dir@.map_values(|d: (String, u64, u64)| d.2 as int),
        ),
        r.total_comics as int == per_dir@.filter(|d: (String, u64, u64)| d.1 > 0).len(),
{
    let ghost files_seq = per_dir@.map_values(|d: (String, u64, u64)| d.1 as int);
    let ghost bytes_seq = per_dir@.map_values(|d: (String, u64, u64)| d.2 as int);
    let ghost pf = |d: (String, u64, u64)| d.1 > 0;
    let mut total_files: u64 = 0;
    let mut total_bytes: u64 = 0;
    let mut total_comics: u64 = 0;
    let n = per_dir.len();
    let mut i: usize = 0;
    assert(per_dir@.take(0).map_values(|d: (String, u64, u64)| d.1 as int) =~= files_seq.take(0));
    assert(per_dir@.take(0).filter(pf) =~= Seq::<(String, u64, u64)>::empty());
    while i < n
        invariant
            n == per_dir@.len(),
            0 <= i <= n,
            files_seq == per_dir@.map_values(|d: (String, u64, u64)| d.1 as int),
            bytes_seq == per_dir@.map_values(|d: (String, u64, u64)| d.2 as int),
            pf == (|d: (String, u64, u64)| d.1 > 0),
            total_files as int == sat_sum(files_seq.take(i as int)),
            total_bytes as int == sat_sum(bytes_seq.take(i as int)),
            total_comics as int == per_dir@.take(i as int).filter(pf).len(),
            total_comics <= i,
        decreases n - i,
    {
        let files = per_dir[i].1;
        let bytes = per_dir[i].2;
        proof {
            let tf = files_seq.take(i + 1);
            assert(tf.drop_last() =~= files_seq.take(i as int));
            assert(tf.last() == files_seq[i as int]);
            let tb = bytes_seq.take(i + 1);
            assert(tb.drop_last() =~= bytes_seq.take(i as int));
            assert(tb.last() == bytes_seq[i as int]);
            let tp = per_dir@.take(i + 1);
            assert(tp.drop_last() =~= per_dir@.take(i as int));
            assert(tp.last() == per_dir@[i as int]);
            reveal_with_fuel(Seq::filter, 2);
        }
        total_files = total_files.saturating_add(files);
        total_bytes = total_bytes.saturating_add(bytes);
        if files > 0 {
            total_comics = total_comics + 1;
        }
        i = i + 1;
    }
    assert(files_seq.take(n as int) =~= files_seq);
    assert(bytes_seq.take(n as int) =~= bytes_seq);
    assert(per_dir@.take(n as int) =~= per_dir@);
    ReadCacheStats { total_bytes, total_files, total_comics }
}

/// The sum of the byte counts of scanned directories.
pub open spec fn total_bytes_of(s: Seq<(Seq<char>, int, int)>) -> int
    decreases s.len(),
{
    if s.len() == 0 {
        0
    } else {
        total_bytes_of(s.drop_last()) + s.last().1
    }
}

/// The view of one scanned directory: id, bytes, newest-touch time.
pub open spec fn dir_view(d: CacheDirStat) -> (Seq<char>, int, int) {
    (d.aid@, d.bytes as int, d.newest_ms as int)
}

/// The cancellation checkpoint guarding a materialize operation: with
/// a session key whose flag is set, nothing further happens — in
/// particular no file is written; without a key, or with a clear flag,
/// the operation proceeds.
pub fn materialize_guard(registry: &CancelRegistry, key: Option<&str>) -> (r: Result<
    (),
    CoreError,
>)
    requires
        registry.wf(),
    ensures
        r is Err <==> (key is Some && registry.spec_is_cancelled(key->Some_0@)),
        r is Err ==> r->Err_0 is Cancelled,
{
    match key {
        Some(k) => {
            if registry.is_cancelled(k) {
                Err(CoreError::Cancelled)
            } else {
                Ok(())
            }
        },
        None => Ok(()),
    }
}

/// `d` is one of the scanned directories.
pub open spec fn is_an_entry(d: CacheDirStat, entries: Seq<CacheDirStat>) -> bool {
    exists|j: int| 0 <= j < entries.len() && d == #[trigger] entries[j]
}

/// All scanned directories carry distinct ids.
pub open spec fn distinct_aids(s: Seq<CacheDirStat>) -> bool {
    forall|i: int, j: int|
        0 <= i < j < s.len() ==> (#[trigger] s[i]).aid@ != (#[trigger] s[j]).aid@
}

/// No id occurs on both sides.
pub open spec fn disjoint_aids(a: Seq<CacheDirStat>, b: Seq<CacheDirStat>) -> bool {
    forall|i: int, j: int|
        0 <= i < a.len() && 0 <= j < b.len() ==> (#[trigger] a[i]).aid@ != (#[trigger] b[j]).aid@
}

/// The total bytes of a list of scanned directories.
pub open spec fn sum_dir_bytes(s: Seq<CacheDirStat>) -> int
    decreases s.len(),
{
    if s.len() == 0 {
        0
    } else {
        sum_dir_bytes(s.drop_last()) + s.last().bytes as int
    }
}

/// A prefix never outweighs the whole list.
proof fn lemma_sum_take_le(s: Seq<CacheDirStat>, i: int)
    requires
        0 <= i <= s.len(),
    ensures
        sum_dir_bytes(s.take(i)) <= sum_dir_bytes(s),
    decreases s.len(),
{
    if i < s.len() {
        assert(s.drop_last().take(i) =~= s.take(i));
        lemma_sum_take_le(s.drop_last(), i);
    } else {
        assert(s.take(i) =~= s);
    }
}

/// Removing one directory removes exactly its bytes from the total.
proof fn lemma_sum_remove(s: Seq<CacheDirStat>, i: int)
    requires
        0 <= i < s.len(),
    ensures
        sum_dir_bytes(s.remove(i)) == sum_dir_bytes(s) - s[i].bytes as int,
    decreases s.len(),
{
    if i == s.len() - 1 {
        assert(s.remove(i) =~= s.drop_last());
    } else {
        assert(s.remove(i).drop_last() =~= s.drop_last().remove(i));
        assert(s.remove(i).last() == s.last());
        lemma_sum_remove(s.drop_last(), i);
    }
}

/// Plans a size-based cleanup: while the cache exceeds `max_bytes`,
/// whole per-comic directories are marked for eviction, oldest
/// newest-touch time first, until what remains fits. Returns the
/// directories to evict, in eviction order, and the survivors in their
/// original order: together a rearrangement of the input, everything
/// evicted no newer than anything kept, the survivors within the
/// budget, and nothing evicted once the remainder fits.
pub fn cache_eviction_plan(entries: Vec<CacheDirStat>, max_bytes: u64) -> (r: (
    Vec<CacheDirStat>,
    Vec<CacheDirStat>,
))
    ensures
        r.0@.len() + r.1@.len() == entries@.len(),
        forall|k: int| 0 <= k < r.0@.len() ==> #[trigger] is_an_entry(r.0@[k], entries@),
        forall|k: int| 0 <= k < r.1@.len() ==> #[trigger] is_an_entry(r.1@[k], entries@),
        distinct_aids(entries@) ==> distinct_aids(r.0@) && distinct_aids(r.1@) && disjoint_aids(
            r.0@,
            r.1@,
        ),
        forall|i: int, j: int|
            0 <= i < r.0@.len() && 0 <= j < r.1@.len() ==> (#[trigger] r.0@[i]).newest_ms <= (
            #[trigger] r.1@[j]).newest_ms,
        forall|i1: int, i2: int|
            0 <= i1 < i2 < r.0@.len() ==> (#[trigger] r.0@[i1]).newest_ms <= (
            #[trigger] r.0@[i2]).newest_ms,
        sum_dir_bytes(entries@) <= u64::MAX as int ==> sum_dir_bytes(r.1@) <= max_bytes as int,
        sum_dir_bytes(entries@) <= u64::MAX as int && r.0@.len() > 0 ==> sum_dir_bytes(r.1@)
            + r.0@.last().bytes as int > max_bytes as int,
        r.0@.len() == 0 <==> sat_sum(entries@.map_values(|d: CacheDirStat| d.bytes as int))
            <= max_bytes as int,
{
    let mut remaining = entries;
    let mut plan: Vec<CacheDirStat> = Vec::new();
    let ghost orig = remaining@;
    let ghost bytes_seq = orig.map_values(|d: CacheDirStat| d.bytes as int);
    let ghost in_budget = sum_dir_bytes(orig) <= u64::MAX as int;
    let ghost mut rem_src: Seq<int> = Seq::new(orig.len(), |i: int| i);
    let ghost mut plan_src: Seq<int> = Seq::empty();
    let mut total: u64 = 0;
    let n = remaining.len();
    let mut i: usize = 0;
    assert(bytes_seq.take(0) =~= Seq::<int>::empty());
    assert(orig.take(0) =~= Seq::<CacheDirStat>::empty());
    while i < n
        invariant
            n == remaining@.len(),
            remaining@ == orig,
            bytes_seq == orig.map_values(|d: CacheDirStat| d.bytes as int),
            in_budget == (sum_dir_bytes(orig) <= u64::MAX as int),
            0 <= i <= n,
            total as int == sat_sum(bytes_seq.take(i as int)),
            in_budget ==> total as int == sum_dir_bytes(orig.take(i as int)),
        decreases n - i,
    {
        proof {
            let t = bytes_seq.take(i + 1);
            assert(t.drop_last() =~= bytes_seq.take(i as int));
            assert(t.last() == bytes_seq[i as int]);
            let u = orig.take(i + 1);
            assert(u.drop_last() =~= orig.take(i as int));
            assert(u.last() == orig[i as int]);
            if in_budget {
                lemma_sum_take_le(orig, i + 1);
            }
        }
        total = total.saturating_add(remaining[i].bytes);
        i = i + 1;
    }
    assert(bytes_seq.take(n as int) =~= bytes_seq);
    assert(orig.take(n as int) =~= orig);
    let fits = total <= max_bytes;
    while total > max_bytes && remaining.len() > 0
        invariant
            in_budget == (sum_dir_bytes(orig) <= u64::MAX as int),
            fits ==> total <= max_bytes,
            fits ==> plan@.len() == 0,
            !fits ==> (total <= max_bytes ==> plan@.len() > 0),
            rem_src.len() == remaining@.len(),
            plan_src.len() == plan@.len(),
            remaining@.len() + plan@.len() == orig.len(),
            forall|k: int|
                0 <= k < rem_src.len() ==> 0 <= #[trigger] rem_src[k] < orig.len()
                    && remaining@[k] == orig[rem_src[k]],
            forall|k1: int, k2: int| 0 <= k1 < k2 < rem_src.len() ==> rem_src[k1] < rem_src[k2],
            forall|k: int|
                0 <= k < plan_src.len() ==> 0 <= #[trigger] plan_src[k] < orig.len() && plan@[k]
                    == orig[plan_src[k]],
            forall|k1: int, k2: int|
                0 <= k1 < k2 < plan_src.len() ==> #[trigger] plan_src[k1]
                    != #[trigger] plan_src[k2],
            forall|a: int, b: int|
                0 <= a < plan_src.len() && 0 <= b < rem_src.len() ==> #[trigger] plan_src[a]
                    != #[trigger] rem_src[b],
            forall|p: int, c: int|
                0 <= p < plan@.len() && 0 <= c < remaining@.len() ==> (
                #[trigger] plan@[p]).newest_ms <= (#[trigger] remaining@[c]).newest_ms,
            forall|i1: int, i2: int|
                0 <= i1 < i2 < plan@.len() ==> (#[trigger] plan@[i1]).newest_ms <= (
                #[trigger] plan@[i2]).newest_ms,
            in_budget ==> total as int == sum_dir_bytes(remaining@),
            in_budget ==> (plan@.len() > 0 ==> sum_dir_bytes(remaining@)
                + plan@.last().bytes as int > max_bytes as int),
        decreases remaining@.len(),
    {
        let m = remaining.len();
        let mut oldest: usize = 0;
        let mut k: usize = 1;
        while k < m
            invariant
                m == remaining@.len(),
                0 < m,
                0 <= oldest < m,
                1 <= k <= m,
                forall|x: int|
                    0 <= x < k ==> (#[trigger] remaining@[x]).newest_ms
                        >= remaining@[oldest as int].newest_ms,
            decreases m - k,
        {
            if remaining[k].newest_ms < remaining[oldest].newest_ms {
                oldest = k;
            }
            k = k + 1;
        }
        let ghost rem_pre = remaining@;
        let ghost widx = rem_src[oldest as int];
        let victim = remaining.remove(oldest);
        proof {
            rem_src = rem_src.remove(oldest as int);
            rem_pre.remove_ensures(oldest as int);
            assert(remaining@ =~= rem_pre.remove(oldest as int));
            if in_budget {
                lemma_sum_remove(rem_pre, oldest as int);
            }
        }
        let removed_bytes = victim.bytes;
        proof {
            if in_budget {
                assert(sum_dir_bytes(remaining@) >= 0) by {
                    lemma_sum_nonneg(remaining@);
                }
                assert(removed_bytes <= total);
            }
        }
        let new_total = if removed_bytes > total {
            0
        } else {
            total - removed_bytes
        };
        total = new_total;
        proof {
            plan_src = plan_src.push(widx);
        }
        plan.push(victim);
    }
    proof {
        assert(orig == entries@);
        if !fits {
            if remaining@.len() == 0 {
                assert(sat_sum(bytes_seq.take(0)) == 0);
                assert(bytes_seq.len() > 0) by {
                    if bytes_seq.len() == 0 {
                        assert(bytes_seq.take(0) =~= bytes_seq);
                    }
                }
                assert(plan@.len() == orig.len());
            }
            assert(plan@.len() > 0);
        }
        assert forall|kk: int|
            0 <= kk < plan@.len() implies #[trigger] is_an_entry(plan@[kk], entries@) by {
            let j = plan_src[kk];
            assert(plan@[kk] == entries@[j]);
        }
        assert forall|kk: int|
            0 <= kk < remaining@.len() implies #[trigger] is_an_entry(remaining@[kk], entries@)
            by {
            let j = rem_src[kk];
            assert(remaining@[kk] == entries@[j]);
        }
        if distinct_aids(entries@) {
            assert forall|i1: int, i2: int|
                0 <= i1 < i2 < plan@.len() implies (#[trigger] plan@[i1]).aid@ != (
            #[trigger] plan@[i2]).aid@ by {
                let a = plan_src[i1];
                let b = plan_src[i2];
                if a < b {
                    assert(entries@[a].aid@ != entries@[b].aid@);
                } else {
                    assert(entries@[b].aid@ != entries@[a].aid@);
                }
            }
            assert forall|i1: int, i2: int|
                0 <= i1 < i2 < remaining@.len() implies (#[trigger] remaining@[i1]).aid@ != (
            #[trigger] remaining@[i2]).aid@ by {
                let a = rem_src[i1];
                let b = rem_src[i2];
                assert(entries@[a].aid@ != entries@[b].aid@);
            }
            assert forall|i1: int, i2: int|
                0 <= i1 < plan@.len() && 0 <= i2 < remaining@.len() implies (
            #[trigger] plan@[i1]).aid@ != (#[trigger] remaining@[i2]).aid@ by {
                let a = plan_src[i1];
                let b = rem_src[i2];
                if a < b {
                    assert(entries@[a].aid@ != entries@[b].aid@);
                } else {
                    assert(entries@[b].aid@ != entries@[a].aid@);
                }
            }
        }
        if in_budget {
            if remaining@.len() == 0 {
                assert(sum_dir_bytes(remaining@) == 0);
            }
        }
    }
    (plan, remaining)
}

/// Directory totals are never negative.
proof fn lemma_sum_nonneg(s: Seq<CacheDirStat>)
    ensures
        sum_dir_bytes(s) >= 0,
    decreases s.len(),
{
    if s.len() > 0 {
        lemma_sum_nonneg(s.drop_last());
    }
}

} // verus!
