//! Character-level string utilities that the rest of the library builds on:
//! prefix tests, substring search, trimming, and decimal rendering of
//! integers, each against an exact sequence-level specification.
use vstd::prelude::*;

verus! {

/// The whitespace characters this library trims from the ends of input.
pub open spec fn is_trim_ws(c: char) -> bool {
    c == ' ' || c == '\t' || c == '\n' || c == '\r' || c == '\u{b}' || c == '\u{c}'
}

/// Executable twin of `is_trim_ws`.
pub fn char_is_trim_ws(c: char) -> (r: bool)
    ensures
        r == is_trim_ws(c),
{
    c == ' ' || c == '\t' || c == '\n' || c == '\r' || c == '\u{b}' || c == '\u{c}'
}

/// The longest suffix of `s` that does not start with a character
/// satisfying `p`.
pub open spec fn drop_while(s: Seq<char>, p: spec_fn(char) -> bool) -> Seq<char>
    decreases s.len(),
{
    if s.len() > 0 && p(s[0]) {
        drop_while(s.drop_first(), p)
    } else {
        s
    }
}

/// The longest prefix of `s` that does not end with a character
/// satisfying `p`.
pub open spec fn drop_while_end(s: Seq<char>, p: spec_fn(char) -> bool) -> Seq<char>
    decreases s.len(),
{
    if s.len() > 0 && p(s.last()) {
        drop_while_end(s.drop_last(), p)
    } else {
        s
    }
}

/// If every character before position `i` satisfies `p` and the one at `i`
/// (if any) does not, then `drop_while` keeps exactly the tail from `i`.
pub proof fn lemma_drop_while_at(s: Seq<char>, p: spec_fn(char) -> bool, i: int)
    requires
        0 <= i <= s.len(),
        forall|k: int| 0 <= k < i ==> p(s[k]),
        i == s.len() || !p(s[i]),
    ensures
        drop_while(s, p) == s.subrange(i, s.len() as int),
    decreases i,
{
    if i == 0 {
        assert(s.subrange(0, s.len() as int) =~= s);
    } else {
        let t = s.drop_first();
        assert(p(s[0]));
        assert(forall|k: int| 0 <= k < i - 1 ==> p(t[k]));
        lemma_drop_while_at(t, p, i - 1);
        assert(t.subrange(i - 1, t.len() as int) =~= s.subrange(i, s.len() as int));
    }
}

/// If every character from position `j` on satisfies `p` and the one just
/// before `j` (if any) does not, then `drop_while_end` keeps exactly the
/// prefix up to `j`.
pub proof fn lemma_drop_while_end_at(s: Seq<char>, p: spec_fn(char) -> bool, j: int)
    requires
        0 <= j <= s.len(),
        forall|k: int| j <= k < s.len() ==> p(s[k]),
        j == 0 || !p(s[j - 1]),
    ensures
        drop_while_end(s, p) == s.subrange(0, j),
    decreases s.len() - j,
{
    if j == s.len() {
        assert(s.subrange(0, s.len() as int) =~= s);
        if s.len() > 0 {
            assert(!p(s.last()));
        }
    } else {
        let t = s.drop_last();
        assert(p(s.last()));
        assert(forall|k: int| j <= k < t.len() ==> p(t[k]));
        lemma_drop_while_end_at(t, p, j);
        assert(t.subrange(0, j) =~= s.subrange(0, j));
    }
}

/// Whitespace trimmed from both ends, the model of `str_trim`.
pub open spec fn trim_spec(s: Seq<char>) -> Seq<char> {
    drop_while_end(drop_while(s, |c: char| is_trim_ws(c)), |c: char| is_trim_ws(c))
}

/// A copy of `s` with the `is_trim_ws` characters removed from both ends.
pub fn str_trim(s: &str) -> (r: String)
    ensures
        r@ == trim_spec(s@),
{
    let ghost p = |c: char| is_trim_ws(c);
    let n = s.unicode_len();
    let mut start: usize = 0;
    while start < n && char_is_trim_ws(s.get_char(start))
        invariant
            n == s@.len(),
            0 <= start <= n,
            forall|k: int| 0 <= k < start ==> is_trim_ws(s@[k]),
        decreases n - start,
    {
        start = start + 1;
    }
    proof {
        assert(forall|k: int| 0 <= k < start ==> p(s@[k]));
        lemma_drop_while_at(s@, p, start as int);
    }
    let ghost mid = s@.subrange(start as int, n as int);
    let mut end: usize = n;
    while end > start && char_is_trim_ws(s.get_char(end - 1))
        invariant
            n == s@.len(),
            start <= end <= n,
            forall|k: int| end <= k < n ==> is_trim_ws(s@[k]),
        decreases end,
    {
        end = end - 1;
    }
    proof {
        assert(forall|k: int| end - start <= k < mid.len() ==> p(mid[k]));
        if end > start {
            assert(mid[end - start - 1] == s@[end - 1]);
        }
        lemma_drop_while_end_at(mid, p, end - start);
        assert(mid.subrange(0, end - start) =~= s@.subrange(start as int, end as int));
    }
    let piece = s.substring_char(start, end);
    piece.to_owned()
}

/// A copy of `s` with every trailing occurrence of `c` removed.
pub fn str_trim_end_char(s: &str, c: char) -> (r: String)
    ensures
        r@ == drop_while_end(s@, |x: char| x == c),
{
    let ghost p = |x: char| x == c;
    let n = s.unicode_len();
    let mut end: usize = n;
    while end > 0 && s.get_char(end - 1) == c
        invariant
            n == s@.len(),
            0 <= end <= n,
            forall|k: int| end <= k < n ==> s@[k] == c,
        decreases end,
    {
        end = end - 1;
    }
    proof {
        assert(forall|k: int| end <= k < s@.len() ==> p(s@[k]));
        lemma_drop_while_end_at(s@, p, end as int);
    }
    let piece = s.substring_char(0, end);
    piece.to_owned()
}

/// A copy of `s` with every leading occurrence of `c` removed.
pub fn str_trim_start_char(s: &str, c: char) -> (r: String)
    ensures
        r@ == drop_while(s@, |x: char| x == c),
{
    let ghost p = |x: char| x == c;
    let n = s.unicode_len();
    let mut start: usize = 0;
    while start < n && s.get_char(start) == c
        invariant
            n == s@.len(),
            0 <= start <= n,
            forall|k: int| 0 <= k < start ==> s@[k] == c,
        decreases n - start,
    {
        start = start + 1;
    }
    proof {
        assert(forall|k: int| 0 <= k < start ==> p(s@[k]));
        lemma_drop_while_at(s@, p, start as int);
    }
    let piece = s.substring_char(start, n);
    piece.to_owned()
}

/// `p` is a prefix of `s`.
pub open spec fn starts_with_spec(s: Seq<char>, p: Seq<char>) -> bool {
    p.len() <= s.len() && forall|i: int| 0 <= i < p.len() ==> s[i] == p[i]
}

/// Whether `s` starts with the characters of `p`.
pub fn str_starts_with(s: &str, p: &str) -> (r: bool)
    ensures
        r == starts_with_spec(s@, p@),
{
    let n = s.unicode_len();
    let m = p.unicode_len();
    if m > n {
        return false;
    }
    let mut i: usize = 0;
    loop
        invariant
            n == s@.len(),
            m == p@.len(),
            m <= n,
            0 <= i <= m,
            forall|k: int| 0 <= k < i ==> s@[k] == p@[k],
        decreases m - i,
    {
        if i >= m {
            return true;
        }
        if s.get_char(i) != p.get_char(i) {
            return false;
        }
        i = i + 1;
    }
}

/// The characters of `needle` occur in `s` at position `i`.
pub open spec fn sub_at(s: Seq<char>, needle: Seq<char>, i: int) -> bool {
    0 <= i && i + needle.len() <= s.len() && forall|j: int|
        0 <= j < needle.len() ==> s[i + j] == needle[j]
}

/// `needle` occurs somewhere in `s`.
pub open spec fn contains_sub(s: Seq<char>, needle: Seq<char>) -> bool {
    exists|i: int| sub_at(s, needle, i)
}

/// The position of the first occurrence of `needle` in `s`, if any.
pub fn str_find_sub(s: &str, needle: &str) -> (r: Option<usize>)
    ensures
        match r {
            Some(i) => sub_at(s@, needle@, i as int) && forall|k: int|
                0 <= k < i ==> !sub_at(s@, needle@, k),
            None => forall|k: int| !sub_at(s@, needle@, k),
        },
{
    let n = s.unicode_len();
    let m = needle.unicode_len();
    if m > n {
        assert(forall|k: int| sub_at(s@, needle@, k) ==> k + m <= n);
        return None;
    }
    let mut i: usize = 0;
    loop
        invariant
            n == s@.len(),
            m == needle@.len(),
            m <= n,
            0 <= i <= n - m + 1,
            forall|k: int| 0 <= k < i ==> !sub_at(s@, needle@, k),
        decreases n - m + 1 - i,
    {
        if i > n - m {
            assert(forall|k: int| sub_at(s@, needle@, k) ==> 0 <= k <= n - m);
            return None;
        }
        let mut j: usize = 0;
        while j < m && s.get_char(i + j) == needle.get_char(j)
            invariant
                n == s@.len(),
                m == needle@.len(),
                0 <= i <= n - m,
                0 <= j <= m,
                forall|l: int| 0 <= l < j ==> s@[i + l] == needle@[l],
            decreases m - j,
        {
            j = j + 1;
        }
        if j == m {
            return Some(i);
        }
        assert(s@[i + j] != needle@[j as int]);
        assert(!sub_at(s@, needle@, i as int));
        i = i + 1;
    }
}

/// `needle` occurs at `i` in `s` and nowhere earlier.
pub open spec fn first_sub_at(s: Seq<char>, needle: Seq<char>, i: int) -> bool {
    sub_at(s, needle, i) && forall|k: int| 0 <= k < i ==> !sub_at(s, needle, k)
}

/// A first occurrence is unique.
pub proof fn lemma_first_sub_unique(s: Seq<char>, needle: Seq<char>, i: int, j: int)
    requires
        first_sub_at(s, needle, i),
        first_sub_at(s, needle, j),
    ensures
        i == j,
{
    if i < j {
        assert(!sub_at(s, needle, i));
    }
    if j < i {
        assert(!sub_at(s, needle, j));
    }
}

/// The position of the first occurrence of the character `c` in `s`.
pub fn str_find_char(s: &str, c: char) -> (r: Option<usize>)
    ensures
        match r {
            Some(i) => i < s@.len() && s@[i as int] == c && forall|k: int|
                0 <= k < i ==> s@[k] != c,
            None => forall|k: int| 0 <= k < s@.len() ==> s@[k] != c,
        },
{
    let n = s.unicode_len();
    let mut i: usize = 0;
    while i < n
        invariant
            n == s@.len(),
            0 <= i <= n,
            forall|k: int| 0 <= k < i ==> s@[k] != c,
        decreases n - i,
    {
        if s.get_char(i) == c {
            return Some(i);
        }
        i = i + 1;
    }
    None
}

/// Whether `needle` occurs in `s`.
pub fn str_contains_sub(s: &str, needle: &str) -> (r: bool)
    ensures
        r == contains_sub(s@, needle@),
{
    match str_find_sub(s, needle) {
        Some(i) => {
            assert(sub_at(s@, needle@, i as int));
            true
        },
        None => false,
    }
}

/// Whether two string slices hold the same characters.
pub fn str_eq(s: &str, t: &str) -> (r: bool)
    ensures
        r == (s@ == t@),
{
    let n = s.unicode_len();
    let m = t.unicode_len();
    if n != m {
        return false;
    }
    let mut i: usize = 0;
    loop
        invariant
            n == s@.len(),
            n == t@.len(),
            0 <= i <= n,
            forall|k: int| 0 <= k < i ==> s@[k] == t@[k],
        decreases n - i,
    {
        if i >= n {
            assert(s@ =~= t@);
            return true;
        }
        if s.get_char(i) != t.get_char(i) {
            return false;
        }
        i = i + 1;
    }
}

/// A decimal digit character.
pub open spec fn is_digit_char(c: char) -> bool {
    48 <= (c as u32) && (c as u32) <= 57
}

/// The numeric value of a digit run, most significant first.
pub open spec fn digits_val(s: Seq<char>) -> int
    decreases s.len(),
{
    if s.len() == 0 {
        0
    } else {
        digits_val(s.drop_last()) * 10 + ((s.last() as u32) as int - 48)
    }
}

/// Digit runs are non-negative.
pub proof fn lemma_digits_val_nonneg(s: Seq<char>)
    requires
        forall|k: int| 0 <= k < s.len() ==> is_digit_char(s[k]),
    ensures
        digits_val(s) >= 0,
    decreases s.len(),
{
    if s.len() > 0 {
        lemma_digits_val_nonneg(s.drop_last());
        assert(is_digit_char(s.last()));
    }
}

/// Extending a digit run never shrinks its value.
pub proof fn lemma_digits_val_mono(s: Seq<char>, i: int, j: int)
    requires
        forall|k: int| 0 <= k < s.len() ==> is_digit_char(s[k]),
        0 <= i <= j <= s.len(),
    ensures
        digits_val(s.subrange(0, i)) <= digits_val(s.subrange(0, j)),
    decreases j - i,
{
    if i < j {
        lemma_digits_val_mono(s, i, j - 1);
        let t = s.subrange(0, j);
        assert(t.drop_last() =~= s.subrange(0, j - 1));
        lemma_digits_val_nonneg(s.subrange(0, j - 1));
        assert(forall|k: int| 0 <= k < t.len() ==> is_digit_char(t[k]));
        assert(is_digit_char(t.last()));
    }
}

/// Every character is a decimal digit.
pub open spec fn all_digit_chars(s: Seq<char>) -> bool {
    forall|k: int| 0 <= k < s.len() ==> is_digit_char(s[k])
}

/// What parsing a decimal integer accepts: an optional sign, then one or
/// more digits, the value in `i64` range.
pub open spec fn parse_i64_spec(s: Seq<char>) -> Option<int> {
    let neg = s.len() > 0 && s[0] == '-';
    let ds = if s.len() > 0 && (s[0] == '+' || s[0] == '-') {
        s.drop_first()
    } else {
        s
    };
    if ds.len() == 0 || !all_digit_chars(ds) {
        Option::None
    } else {
        let v = if neg {
            -digits_val(ds)
        } else {
            digits_val(ds)
        };
        if i64::MIN <= v <= i64::MAX {
            Option::Some(v)
        } else {
            Option::None
        }
    }
}

/// Parses a decimal `i64` the way `str::parse` reads one: an optional
/// sign, then digits only, rejecting empty runs and out-of-range values.
pub fn parse_i64(s: &str) -> (r: Option<i64>)
    ensures
        r is Some <==> parse_i64_spec(s@) is Some,
        r is Some ==> r->Some_0 as int == parse_i64_spec(s@)->Some_0,
{
    let n = s.unicode_len();
    let mut neg = false;
    let mut start: usize = 0;
    if n > 0 {
        let c0 = s.get_char(0);
        if c0 == '+' || c0 == '-' {
            neg = c0 == '-';
            start = 1;
        }
    }
    let ghost ds = if s@.len() > 0 && (s@[0] == '+' || s@[0] == '-') {
        s@.drop_first()
    } else {
        s@
    };
    proof {
        assert(ds =~= s@.subrange(start as int, n as int));
    }
    if start >= n {
        assert(ds.len() == 0);
        return None;
    }
    let mut j: usize = start;
    while j < n
        invariant
            n == s@.len(),
            start <= j <= n,
            start <= 1,
            ds == s@.subrange(start as int, n as int),
            ds == (if s@.len() > 0 && (s@[0] == '+' || s@[0] == '-') {
                s@.drop_first()
            } else {
                s@
            }),
            forall|k: int| 0 <= k < j - start ==> is_digit_char(ds[k]),
        decreases n - j,
    {
        let u = s.get_char(j) as u32;
        assert(ds[j - start] == s@[j as int]);
        if !(48 <= u && u <= 57) {
            proof {
                assert(0 <= j - start < ds.len() && !is_digit_char(ds[j - start]));
                assert(!all_digit_chars(ds));
            }
            return None;
        }
        assert(is_digit_char(ds[j - start]));
        j = j + 1;
    }
    assert(all_digit_chars(ds));
    let mut mag: u64 = 0;
    let mut i: usize = start;
    while i < n
        invariant
            n == s@.len(),
            start <= i <= n,
            start < n,
            neg == (s@.len() > 0 && s@[0] == '-'),
            ds == s@.subrange(start as int, n as int),
            ds == (if s@.len() > 0 && (s@[0] == '+' || s@[0] == '-') {
                s@.drop_first()
            } else {
                s@
            }),
            all_digit_chars(ds),
            mag as int == digits_val(ds.subrange(0, i - start)),
        decreases n - i,
    {
        let c = s.get_char(i);
        proof {
            assert(ds[i - start] == s@[i as int]);
            assert(is_digit_char(ds[i - start]));
        }
        let d: u64 = (c as u32 as u64) - 48;
        assert(d <= 9);
        let ghost next = ds.subrange(0, i + 1 - start);
        proof {
            assert(next.drop_last() =~= ds.subrange(0, i as int - start));
            assert(next.last() == ds[i - start]);
            assert(ds[i - start] == s@[i as int]);
        }
        let stepped = match mag.checked_mul(10) {
            Some(m) => m.checked_add(d),
            None => None,
        };
        match stepped {
            Some(m) => {
                mag = m;
            },
            None => {
                proof {
                    assert(digits_val(next) == (mag as int) * 10 + d);
                    assert(digits_val(next) > u64::MAX);
                    lemma_digits_val_mono(ds, i + 1 - start, ds.len() as int);
                    assert(ds.subrange(0, ds.len() as int) =~= ds);
                    assert(digits_val(ds) > i64::MAX);
                    assert(-digits_val(ds) < i64::MIN);
                }
                return None;
            },
        }
        i = i + 1;
    }
    assert(ds.subrange(0, ds.len() as int) =~= ds);
    assert(mag as int == digits_val(ds));
    if neg {
        if mag > 9223372036854775808u64 {
            return None;
        }
        if mag == 9223372036854775808u64 {
            return Some(i64::MIN);
        }
        Some(-(mag as i64))
    } else {
        if mag > 9223372036854775807u64 {
            return None;
        }
        Some(mag as i64)
    }
}

/// Relies on `String::push`: appends one character at the end.
#[verifier::external_body]
pub(crate) fn push_char(s: &mut String, c: char)
    ensures
        final(s)@ == old(s)@.push(c),
{
    s.push(c);
}

/// The decimal digit character for `d`.
pub open spec fn dec_digit(d: int) -> char {
    if d == 0 {
        '0'
    } else if d == 1 {
        '1'
    } else if d == 2 {
        '2'
    } else if d == 3 {
        '3'
    } else if d == 4 {
        '4'
    } else if d == 5 {
        '5'
    } else if d == 6 {
        '6'
    } else if d == 7 {
        '7'
    } else if d == 8 {
        '8'
    } else {
        '9'
    }
}

/// The usual decimal rendering of a non-negative integer, no sign and no
/// leading zeros (a single `'0'` for zero).
pub open spec fn dec_of_nat(n: int) -> Seq<char>
    decreases n,
{
    if n < 10 {
        seq![dec_digit(n)]
    } else {
        dec_of_nat(n / 10).push(dec_digit(n % 10))
    }
}

/// The decimal rendering of an integer, `'-'`-prefixed when negative.
pub open spec fn dec_of_int(n: int) -> Seq<char> {
    if n < 0 {
        seq!['-'].add(dec_of_nat(-n))
    } else {
        dec_of_nat(n)
    }
}

fn dec_digit_char(d: u64) -> (c: char)
    requires
        d < 10,
    ensures
        c == dec_digit(d as int),
{
    match d {
        0 => '0',
        1 => '1',
        2 => '2',
        3 => '3',
        4 => '4',
        5 => '5',
        6 => '6',
        7 => '7',
        8 => '8',
        _ => '9',
    }
}

/// Decimal rendering of a `u64`.
pub fn u64_to_dec(n: u64) -> (r: String)
    ensures
        r@ == dec_of_nat(n as int),
    decreases n,
{
    if n < 10 {
        let mut s = String::new();
        push_char(&mut s, dec_digit_char(n));
        assert(s@ =~= seq![dec_digit(n as int)]);
        s
    } else {
        let mut s = u64_to_dec(n / 10);
        push_char(&mut s, dec_digit_char(n % 10));
        s
    }
}

/// Decimal rendering of an `i64`, with a leading minus sign if negative.
pub fn i64_to_dec(n: i64) -> (r: String)
    ensures
        r@ == dec_of_int(n as int),
{
    if n >= 0 {
        u64_to_dec(n as u64)
    } else {
        let mag: u64 = ((-(n + 1)) as u64) + 1;
        assert(mag == -(n as int));
        let mut s = String::new();
        push_char(&mut s, '-');
        let tail = u64_to_dec(mag);
        s.append(tail.as_str());
        assert(s@ =~= seq!['-'].add(dec_of_nat(-(n as int))));
        s
    }
}

} // verus!
