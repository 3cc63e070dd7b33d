//! Mirror discovery: a remote document, separately encrypted, lists the
//! currently valid origins. A response may carry leading non-ASCII noise;
//! after decoding, a structured `Server` field is preferred and the raw
//! text is the fallback, every entry normalized to an origin and
//! deduplicated. The same normalize-and-merge fold seeds the pool at
//! startup from cache, configuration, environment and defaults.
use vstd::prelude::*;

use crate::codec::decode_domain_chars;
use crate::codec::decode_domain_server_payload;
use crate::mirror::{normalize_api_base_root, normalize_api_base_root_spec};
use crate::text::{drop_while, is_trim_ws, lemma_drop_while_at, push_char, str_eq};

verus! {

/// Characters that separate bare hostnames in a mirror list.
pub open spec fn is_sep(c: char) -> bool {
    c == ',' || is_trim_ws(c)
}

fn char_is_sep(c: char) -> (r: bool)
    ensures
        r == is_sep(c),
{
    c == ',' || c == ' ' || c == '\t' || c == '\n' || c == '\r' || c == '\u{b}' || c == '\u{c}'
}

/// The tokens of `s` from position `i` on, with `cur` the partial token
/// already read: maximal runs of non-separator characters.
pub open spec fn tokens_acc(s: Seq<char>, i: int, cur: Seq<char>) -> Seq<Seq<char>>
    decreases s.len() - i,
{
    if i < 0 || i >= s.len() {
        if cur.len() > 0 {
            seq![cur]
        } else {
            Seq::empty()
        }
    } else if is_sep(s[i]) {
        if cur.len() > 0 {
            seq![cur].add(tokens_acc(s, i + 1, Seq::empty()))
        } else {
            tokens_acc(s, i + 1, Seq::empty())
        }
    } else {
        tokens_acc(s, i + 1, cur.push(s[i]))
    }
}

/// The comma-or-whitespace-separated tokens of `s`.
pub open spec fn tokens_of(s: Seq<char>) -> Seq<Seq<char>> {
    tokens_acc(s, 0, Seq::empty())
}

/// Splits `s` into its comma-or-whitespace-separated tokens.
pub fn split_tokens(s: &str) -> (r: Vec<String>)
    ensures
        r@.map_values(|x: String| x@) == tokens_of(s@),
{
    let n = s.unicode_len();
    let mut out: Vec<String> = Vec::new();
    let mut cur = String::new();
    let mut i: usize = 0;
    while i < n
        invariant
            n == s@.len(),
            0 <= i <= n,
            tokens_of(s@) == out@.map_values(|x: String| x@).add(tokens_acc(s@, i as int, cur@)),
        decreases n - i,
    {
        let c = s.get_char(i);
        if char_is_sep(c) {
            if cur.as_str().unicode_len() == 0 {
                proof {
                    assert(cur@ =~= Seq::<char>::empty());
                }
            }
            if cur.as_str().unicode_len() > 0 {
                proof {
                    assert(out@.push(cur).map_values(|x: String| x@) =~= out@.map_values(
                        |x: String| x@,
                    ).push(cur@));
                    assert(out@.map_values(|x: String| x@).add(
                        seq![cur@].add(tokens_acc(s@, i + 1, Seq::empty())),
                    ) =~= out@.map_values(|x: String| x@).push(cur@).add(
                        tokens_acc(s@, i + 1, Seq::empty()),
                    ));
                }
                out.push(cur);
                cur = String::new();
            }
        } else {
            push_char(&mut cur, c);
        }
        i = i + 1;
    }
    if cur.as_str().unicode_len() > 0 {
        proof {
            assert(out@.push(cur).map_values(|x: String| x@) =~= out@.map_values(
                |x: String| x@,
            ).push(cur@));
            assert(out@.map_values(|x: String| x@).add(seq![cur@]) =~= out@.map_values(
                |x: String| x@,
            ).push(cur@));
        }
        out.push(cur);
    } else {
        assert(out@.map_values(|x: String| x@).add(Seq::empty()) =~= out@.map_values(
            |x: String| x@,
        ));
    }
    out
}

/// One step of the merge: normalize a candidate to an origin; keep it if
/// it is new, in arrival order.
pub open spec fn norm_step(acc: Seq<Seq<char>>, item: Seq<char>) -> Seq<Seq<char>> {
    match normalize_api_base_root_spec(item) {
        Option::None => acc,
        Option::Some(v) => if acc.contains(v) {
            acc
        } else {
            acc.push(v)
        },
    }
}

/// The merge fold over a list of candidates.
pub open spec fn add_bases(init: Seq<Seq<char>>, items: Seq<Seq<char>>) -> Seq<Seq<char>> {
    items.fold_left(init, |acc: Seq<Seq<char>>, t: Seq<char>| norm_step(acc, t))
}

/// The merge fold over optional candidates (absent entries are skipped).
pub open spec fn add_opt_bases(init: Seq<Seq<char>>, items: Seq<Option<Seq<char>>>) -> Seq<
    Seq<char>,
> {
    items.fold_left(
        init,
        |acc: Seq<Seq<char>>, o: Option<Seq<char>>|
            match o {
                Option::None => acc,
                Option::Some(t) => norm_step(acc, t),
            },
    )
}

/// Whether the list already holds this exact text.
fn vec_contains_str(v: &Vec<String>, s: &str) -> (r: bool)
    ensures
        r == v@.map_values(|x: String| x@).contains(s@),
{
    let n = v.len();
    let mut i: usize = 0;
    while i < n
        invariant
            n == v@.len(),
            0 <= i <= n,
            forall|k: int| 0 <= k < i ==> (#[trigger] v@[k])@ != s@,
        decreases n - i,
    {
        if str_eq(v[i].as_str(), s) {
            assert(v@.map_values(|x: String| x@)[i as int] == s@);
            return true;
        }
        i = i + 1;
    }
    proof {
        let m = v@.map_values(|x: String| x@);
        assert forall|k: int| 0 <= k < m.len() implies m[k] != s@ by {
            assert(v@[k]@ != s@);
        }
    }
    false
}

/// Normalize one candidate and append it if it is new.
fn push_normalized(out: &mut Vec<String>, item: &str)
    ensures
        final(out)@.map_values(|x: String| x@) == norm_step(
            old(out)@.map_values(|x: String| x@),
            item@,
        ),
{
    match normalize_api_base_root(item) {
        Some(v) => {
            if !vec_contains_str(out, v.as_str()) {
                proof {
                    assert(out@.push(v).map_values(|x: String| x@) =~= out@.map_values(
                        |x: String| x@,
                    ).push(v@));
                }
                out.push(v);
            }
        },
        None => {},
    }
}

/// Normalize and merge a whole list of candidates into `out`.
#[verifier::rlimit(30)]
fn add_normalized_items(out: &mut Vec<String>, items: &Vec<String>)
    ensures
        final(out)@.map_values(|x: String| x@) == add_bases(
            old(out)@.map_values(|x: String| x@),
            items@.map_values(|x: String| x@),
        ),
{
    let ghost items_v = items@.map_values(|x: String| x@);
    let ghost f = |acc: Seq<Seq<char>>, t: Seq<char>| norm_step(acc, t);
    let n = items.len();
    let mut i: usize = 0;
    while i < n
        invariant
            n == items@.len(),
            0 <= i <= n,
            items_v == items@.map_values(|x: String| x@),
            f == (|acc: Seq<Seq<char>>, t: Seq<char>| norm_step(acc, t)),
            out@.map_values(|x: String| x@) == items_v.take(i as int).fold_left(
                old(out)@.map_values(|x: String| x@),
                f,
            ),
        decreases n - i,
    {
        push_normalized(out, items[i].as_str());
        proof {
            let t = items_v.take(i + 1);
            assert(t.drop_last() =~= items_v.take(i as int));
            assert(t.last() == items_v[i as int]);
        }
        i = i + 1;
    }
    assert(items_v.take(n as int) =~= items_v);
}

/// Parse a raw mirror list: tokenize on commas and whitespace, normalize
/// each token to an origin, and deduplicate keeping first positions.
pub fn parse_api_domain_list(text: &str) -> (r: Vec<String>)
    ensures
        r@.map_values(|x: String| x@) == add_bases(Seq::empty(), tokens_of(text@)),
{
    let toks = split_tokens(text);
    let mut out: Vec<String> = Vec::new();
    assert(out@.map_values(|x: String| x@) =~= Seq::<Seq<char>>::empty());
    add_normalized_items(&mut out, &toks);
    out
}

/// Normalize and deduplicate a list already split into items, as a
/// cached or configured list is.
pub fn normalize_base_list(items: &Vec<String>) -> (r: Vec<String>)
    ensures
        r@.map_values(|x: String| x@) == add_bases(
            Seq::empty(),
            items@.map_values(|x: String| x@),
        ),
{
    let mut out: Vec<String> = Vec::new();
    assert(out@.map_values(|x: String| x@) =~= Seq::<Seq<char>>::empty());
    add_normalized_items(&mut out, items);
    out
}

/// A character in the ASCII range.
pub open spec fn is_ascii_char(c: char) -> bool {
    (c as u32) < 128
}

/// Leading non-ASCII noise removed — unless nothing in the text is
/// ASCII, in which case the text stays as it is.
pub open spec fn strip_leading_spec(s: Seq<char>) -> Seq<char> {
    if exists|k: int| 0 <= k < s.len() && is_ascii_char(s[k]) {
        drop_while(s, |c: char| !is_ascii_char(c))
    } else {
        s
    }
}

fn char_is_ascii(c: char) -> (r: bool)
    ensures
        r == is_ascii_char(c),
{
    (c as u32) < 128
}

/// Strips the leading non-ASCII noise some discovery responses carry.
pub fn strip_leading_non_ascii(text: &str) -> (r: &str)
    ensures
        r@ == strip_leading_spec(text@),
{
    let ghost p = |c: char| !is_ascii_char(c);
    let n = text.unicode_len();
    let mut i: usize = 0;
    while i < n && !char_is_ascii(text.get_char(i))
        invariant
            n == text@.len(),
            0 <= i <= n,
            forall|k: int| 0 <= k < i ==> !is_ascii_char(text@[k]),
        decreases n - i,
    {
        i = i + 1;
    }
    if i < n {
        proof {
            assert(is_ascii_char(text@[i as int]));
            assert(forall|k: int| 0 <= k < i ==> p(text@[k]));
            lemma_drop_while_at(text@, p, i as int);
        }
        text.substring_char(i, n)
    } else {
        assert(forall|k: int| 0 <= k < text@.len() ==> !is_ascii_char(text@[k]));
        text
    }
}

/// The shape of the `Server` field of a decoded discovery document, at
/// the specification level.
pub enum ServerFieldView {
    /// No parsable document, no `Server` field, or one of another type.
    Absent,
    /// One delimited string of hostnames.
    Text(Seq<char>),
    /// An array; entries that are not strings are absent.
    List(Seq<Option<Seq<char>>>),
}

/// The shape of the `Server` field of a decoded discovery document.
pub enum ServerField {
    /// No parsable document, no `Server` field, or one of another type.
    Absent,
    /// One delimited string of hostnames.
    Text(String),
    /// An array; entries that are not strings are `None`.
    List(Vec<Option<String>>),
}

/// The specification-level value of a `ServerField`.
pub open spec fn server_field_view(f: ServerField) -> ServerFieldView {
    match f {
        ServerField::Absent => ServerFieldView::Absent,
        ServerField::Text(s) => ServerFieldView::Text(s@),
        ServerField::List(v) => ServerFieldView::List(
            v@.map_values(
                |o: Option<String>|
                    match o {
                        Option::None => Option::<Seq<char>>::None,
                        Option::Some(x) => Option::Some(x@),
                    },
            ),
        ),
    }
}

/// What the `Server` field of the JSON document in a decoded discovery
/// payload holds: a function of the payload text alone.
pub uninterp spec fn server_field_of(s: Seq<char>) -> ServerFieldView;

/// Relies on `serde_json::from_str`, `serde_json::Value::get` and the
/// `Value` variants: the `Server` field of the parsed document is a
/// function of the payload text alone. An unparsable document, a missing
/// field or one that is neither array nor string all read as `Absent`;
/// array entries that are not strings read as absent entries.
#[verifier::external_body]
fn extract_server_field(payload: &str) -> (r: ServerField)
    ensures
        server_field_view(r) == server_field_of(payload@),
{
    let v: serde_json::Value = match serde_json::from_str(payload) {
        Ok(v) => v,
        Err(_) => return ServerField::Absent,
    };
    match v.get("Server") {
        Some(serde_json::Value::Array(items)) => ServerField::List(
            items.iter().map(|x| x.as_str().map(|t| t.to_string())).collect(),
        ),
        Some(serde_json::Value::String(s)) => ServerField::Text(s.clone()),
        _ => ServerField::Absent,
    }
}

/// The mirror list a decoded discovery document yields: the `Server`
/// array or string when present, each entry normalized and deduplicated;
/// nothing otherwise.
pub open spec fn payload_list_spec(s: Seq<char>) -> Seq<Seq<char>> {
    match server_field_of(s) {
        ServerFieldView::Absent => Seq::empty(),
        ServerFieldView::Text(t) => add_bases(Seq::empty(), tokens_of(t)),
        ServerFieldView::List(items) => add_opt_bases(Seq::empty(), items),
    }
}

/// Extracts the mirror list from a decoded discovery document:
/// a structured `Server` field first — an array of strings or one
/// delimited string — normalized to origins and deduplicated.
pub fn parse_api_domain_payload(payload: &str) -> (r: Vec<String>)
    ensures
        r@.map_values(|x: String| x@) == payload_list_spec(payload@),
{
    match extract_server_field(payload) {
        ServerField::Absent => {
            let out: Vec<String> = Vec::new();
            assert(out@.map_values(|x: String| x@) =~= Seq::<Seq<char>>::empty());
            out
        },
        ServerField::Text(t) => parse_api_domain_list(t.as_str()),
        ServerField::List(v) => {
            let ghost items_v = v@.map_values(
                |o: Option<String>|
                    match o {
                        Option::None => Option::<Seq<char>>::None,
                        Option::Some(x) => Option::Some(x@),
                    },
            );
            let ghost f = |acc: Seq<Seq<char>>, o: Option<Seq<char>>|
                match o {
                    Option::None => acc,
                    Option::Some(t) => norm_step(acc, t),
                };
            let mut out: Vec<String> = Vec::new();
            assert(out@.map_values(|x: String| x@) =~= Seq::<Seq<char>>::empty());
            let n = v.len();
            let mut i: usize = 0;
            while i < n
                invariant
                    n == v@.len(),
                    0 <= i <= n,
                    items_v == v@.map_values(
                        |o: Option<String>|
                            match o {
                                Option::None => Option::<Seq<char>>::None,
                                Option::Some(x) => Option::Some(x@),
                            },
                    ),
                    f == (|acc: Seq<Seq<char>>, o: Option<Seq<char>>|
                    match o {
                        Option::None => acc,
                        Option::Some(t) => norm_step(acc, t),
                    }),
                    out@.map_values(|x: String| x@) == items_v.take(i as int).fold_left(
                        Seq::<Seq<char>>::empty(),
                        f,
                    ),
                decreases n - i,
            {
                match &v[i] {
                    Some(x) => {
                        push_normalized(&mut out, x.as_str());
                    },
                    None => {},
                }
                proof {
                    let t = items_v.take(i + 1);
                    assert(t.drop_last() =~= items_v.take(i as int));
                    assert(t.last() == items_v[i as int]);
                }
                i = i + 1;
            }
            assert(items_v.take(n as int) =~= items_v);
            out
        },
    }
}

/// The mirror list one discovery response yields: strip leading noise,
/// decode the encrypted payload and read its `Server` field; where that
/// gives nothing, fall back to reading the stripped text itself as a
/// delimited list.
pub open spec fn discovery_list_spec(body: Seq<char>, secret: Seq<char>) -> Seq<Seq<char>> {
    let cleaned = strip_leading_spec(body);
    let from_payload = match decode_domain_chars(cleaned, secret) {
        Option::None => Seq::<Seq<char>>::empty(),
        Option::Some(txt) => payload_list_spec(txt),
    };
    if from_payload.len() > 0 {
        from_payload
    } else {
        add_bases(Seq::empty(), tokens_of(cleaned))
    }
}

/// Processes one discovery response body into a mirror list. An empty
/// result means this response gave nothing and the next discovery URL
/// should be tried.
pub fn process_discovery_response(body: &str, secret: &str) -> (r: Vec<String>)
    ensures
        r@.map_values(|x: String| x@) == discovery_list_spec(body@, secret@),
{
    let cleaned = strip_leading_non_ascii(body);
    let list = match decode_domain_server_payload(cleaned, secret) {
        Ok(decoded) => parse_api_domain_payload(decoded.as_str()),
        Err(_) => {
            let empty_list: Vec<String> = Vec::new();
            assert(empty_list@.map_values(|x: String| x@) =~= Seq::<Seq<char>>::empty());
            empty_list
        },
    };
    if list.len() > 0 {
        return list;
    }
    assert(list@.map_values(|x: String| x@).len() == 0);
    parse_api_domain_list(cleaned)
}

/// The seeding precedence of the pool at startup: previously discovered
/// cache, then explicit configuration, then the environment list; if all
/// that is empty, a single override, then the built-in defaults, then
/// the hard-coded fallback base.
pub open spec fn seed_spec(
    cached: Seq<Seq<char>>,
    config: Seq<Seq<char>>,
    env_list: Option<Seq<char>>,
    env_single: Option<Seq<char>>,
    defaults: Seq<Seq<char>>,
    fallback: Seq<char>,
) -> Seq<Seq<char>> {
    let s1 = add_bases(Seq::empty(), cached);
    let s2 = add_bases(s1, config);
    let s3 = match env_list {
        Option::None => s2,
        Option::Some(e) => add_bases(s2, tokens_of(e)),
    };
    let s4 = if s3.len() == 0 {
        match env_single {
            Option::None => s3,
            Option::Some(x) => norm_step(s3, x),
        }
    } else {
        s3
    };
    let s5 = if s4.len() == 0 {
        add_bases(s4, defaults)
    } else {
        s4
    };
    if s5.len() == 0 {
        norm_step(s5, fallback)
    } else {
        s5
    }
}

/// Builds the initial base list by the seeding precedence. The caller
/// hands in what it read from cache, configuration and environment;
/// everything is normalized to origins and deduplicated in order.
pub fn load_api_base_list(
    cached: &Vec<String>,
    config_list: &Vec<String>,
    env_list: Option<&str>,
    env_single: Option<&str>,
    default_list: &Vec<String>,
    fallback: &str,
) -> (r: Vec<String>)
    ensures
        r@.map_values(|x: String| x@) == seed_spec(
            cached@.map_values(|x: String| x@),
            config_list@.map_values(|x: String| x@),
            match env_list {
                Option::None => Option::<Seq<char>>::None,
                Option::Some(e) => Option::Some(e@),
            },
            match env_single {
                Option::None => Option::<Seq<char>>::None,
                Option::Some(x) => Option::Some(x@),
            },
            default_list@.map_values(|x: String| x@),
            fallback@,
        ),
{
    let mut out: Vec<String> = Vec::new();
    assert(out@.map_values(|x: String| x@) =~= Seq::<Seq<char>>::empty());
    add_normalized_items(&mut out, cached);
    add_normalized_items(&mut out, config_list);
    match env_list {
        Some(e) => {
            let toks = split_tokens(e);
            add_normalized_items(&mut out, &toks);
        },
        None => {},
    }
    if out.len() == 0 {
        assert(out@.map_values(|x: String| x@).len() == 0);
        match env_single {
            Some(x) => {
                push_normalized(&mut out, x);
            },
            None => {},
        }
    }
    if out.len() == 0 {
        assert(out@.map_values(|x: String| x@).len() == 0);
        add_normalized_items(&mut out, default_list);
    }
    if out.len() == 0 {
        assert(out@.map_values(|x: String| x@).len() == 0);
        push_normalized(&mut out, fallback);
    }
    out
}

} // verus!
