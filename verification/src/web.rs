//! The web-form side flows: reading the toast message out of an HTML
//! answer, deciding a form submission's outcome, and rewriting a mail
//! verification link onto the configured web base.
use vstd::prelude::*;

use crate::CoreError;
use crate::text::{
    contains_sub, dec_of_nat, drop_while_end, first_sub_at, lemma_first_sub_unique,
    starts_with_spec, str_eq, str_find_sub, str_starts_with, str_trim, str_trim_end_char, sub_at,
    trim_spec, u64_to_dec,
};
use crate::cache::before_char_spec;
use crate::cache::str_before_char;

verus! {

/// The text between `needle` and the next `")` after it, if both occur.
pub open spec fn toastr_msg_spec(html: Seq<char>, needle: Seq<char>) -> Option<Seq<char>> {
    if contains_sub(html, needle) {
        let i = choose|i: int| first_sub_at(html, needle, i);
        let tail = html.skip(i + needle.len());
        if contains_sub(tail, "\")"@) {
            let j = choose|j: int| first_sub_at(tail, "\")"@, j);
            Option::Some(tail.take(j))
        } else {
            Option::None
        }
    } else {
        Option::None
    }
}

fn find_toastr_msg(html: &str, needle: &str) -> (r: Option<String>)
    ensures
        r is Some <==> toastr_msg_spec(html@, needle@) is Some,
        r is Some ==> r->Some_0@ == toastr_msg_spec(html@, needle@)->Some_0,
{
    let n = html.unicode_len();
    let close = "\")";
    match str_find_sub(html, needle) {
        Some(i) => {
            proof {
                assert(first_sub_at(html@, needle@, i as int));
                let ii = choose|ii: int| first_sub_at(html@, needle@, ii);
                lemma_first_sub_unique(html@, needle@, ii, i as int);
            }
            let start = i + needle.unicode_len();
            let tail = html.substring_char(start, n);
            let ghost tailv = html@.skip(i + needle@.len());
            assert(tail@ =~= tailv);
            match str_find_sub(tail, close) {
                Some(j) => {
                    proof {
                        assert(first_sub_at(tailv, "\")"@, j as int));
                        let jj = choose|jj: int| first_sub_at(tailv, "\")"@, jj);
                        lemma_first_sub_unique(tailv, "\")"@, jj, j as int);
                    }
                    let piece = tail.substring_char(0, j);
                    assert(piece@ =~= tailv.take(j as int));
                    Some(piece.to_owned())
                },
                None => {
                    proof {
                        if contains_sub(tailv, "\")"@) {
                            let jj = choose|jj: int| sub_at(tailv, "\")"@, jj);
                            assert(sub_at(tailv, "\")"@, jj));
                        }
                    }
                    None
                },
            }
        },
        None => {
            proof {
                if contains_sub(html@, needle@) {
                    let ii = choose|ii: int| sub_at(html@, needle@, ii);
                    assert(sub_at(html@, needle@, ii));
                }
            }
            None
        },
    }
}

/// What the toast parser reports for an HTML answer: the success
/// message when a success toast is complete, else the error toast's
/// message, else failure with an empty message.
pub open spec fn toastr_spec(html: Seq<char>) -> (bool, Seq<char>) {
    match toastr_msg_spec(html, "toastr['success'](\""@) {
        Option::Some(m) => (true, m),
        Option::None => match toastr_msg_spec(html, "toastr['error'](\""@) {
            Option::Some(m) => (false, m),
            Option::None => (false, Seq::empty()),
        },
    }
}

/// Reads the toast message out of an HTML answer.
pub fn parse_toastr_message(html: &str) -> (r: (bool, String))
    ensures
        r.0 == toastr_spec(html@).0,
        r.1@ == toastr_spec(html@).1,
{
    match find_toastr_msg(html, "toastr['success'](\"") {
        Some(m) => (true, m),
        None => {
            match find_toastr_msg(html, "toastr['error'](\"") {
                Some(m) => (false, m),
                None => {
                    let empty = String::new();
                    (false, empty)
                },
            }
        },
    }
}

/// What a form submission comes to: a success toast wins; an empty
/// message on a redirect counts as success; an empty message on any
/// other non-OK status is an error carrying the status; otherwise the
/// toast's failure message stands.
pub open spec fn form_outcome_spec(
    status: int,
    ok: bool,
    msg: Seq<char>,
    err_prefix: Seq<char>,
) -> Result<(bool, Seq<char>), Seq<char>> {
    if ok {
        Result::Ok((true, msg))
    } else if 300 <= status <= 399 && msg.len() == 0 {
        Result::Ok((true, Seq::empty()))
    } else if status != 200 && msg.len() == 0 {
        Result::Err(err_prefix.add(dec_of_nat(status)))
    } else {
        Result::Ok((false, msg))
    }
}

/// Decides a form submission's outcome from its status and parsed toast.
pub fn form_outcome(status: u16, ok: bool, msg: String, err_prefix: &str) -> (r: Result<
    (bool, String),
    CoreError,
>)
    ensures
        ({
            let spec = form_outcome_spec(status as int, ok, msg@, err_prefix@);
            match r {
                Result::Ok((b, m)) => spec is Ok && b == spec->Ok_0.0 && m@ == spec->Ok_0.1,
                Result::Err(e) => spec is Err && (e matches CoreError::Application {
                    http_status,
                    api_code,
                    message,
                } && http_status == status && api_code == 0 && message@ == spec->Err_0),
            }
        }),
{
    if ok {
        return Ok((true, msg));
    }
    let is_redirect = 300 <= status && status <= 399;
    let empty_msg = msg.as_str().unicode_len() == 0;
    if is_redirect && empty_msg {
        let e = String::new();
        return Ok((true, e));
    }
    if status != 200 && empty_msg {
        let mut m = err_prefix.to_owned();
        let d = u64_to_dec(status as u64);
        m.append(d.as_str());
        assert(m@ =~= err_prefix@.add(dec_of_nat(status as int)));
        return Err(CoreError::Application { http_status: status, api_code: 0, message: m });
    }
    Ok((false, msg))
}

/// The fallback web base when a caller supplies none: the override when
/// it is a usable absolute URL, else the given default.
pub open spec fn web_base_spec(web_base: Option<Seq<char>>, fallback: Seq<char>) -> Seq<char> {
    match web_base {
        Option::Some(raw) => {
            let t = trim_spec(raw);
            if t.len() > 0 && (starts_with_spec(t, "http://"@) || starts_with_spec(
                t,
                "https://"@,
            )) {
                drop_while_end(t, |c: char| c == '/')
            } else {
                fallback
            }
        },
        Option::None => fallback,
    }
}

/// Picks the web base: a caller override when it is an absolute URL,
/// else the fallback.
pub fn web_base_from_opt(web_base: Option<&str>, fallback: &str) -> (r: String)
    ensures
        r@ == web_base_spec(
            match web_base {
                Option::None => Option::<Seq<char>>::None,
                Option::Some(w) => Option::Some(w@),
            },
            fallback@,
        ),
{
    match web_base {
        Some(raw) => {
            let t = str_trim(raw);
            if t.as_str().unicode_len() > 0 && (str_starts_with(t.as_str(), "http://")
                || str_starts_with(t.as_str(), "https://")) {
                str_trim_end_char(t.as_str(), '/')
            } else {
                fallback.to_owned()
            }
        },
        None => fallback.to_owned(),
    }
}

/// Where a text match occurs first, scanning from `pos`, `-1` when it
/// never does.
pub open spec fn replace_from(s: Seq<char>, from: Seq<char>, to: Seq<char>, pos: int) -> Seq<char>
    decreases s.len() - pos,
{
    if from.len() == 0 || pos < 0 || pos >= s.len() {
        s.skip(pos)
    } else if pos + from.len() <= s.len() && sub_at(s, from, pos) {
        to.add(replace_from(s, from, to, pos + from.len()))
    } else {
        seq![s[pos]].add(replace_from(s, from, to, pos + 1))
    }
}

/// Every occurrence of `from` replaced by `to`, scanning left to right.
pub open spec fn replace_all_spec(s: Seq<char>, from: Seq<char>, to: Seq<char>) -> Seq<char> {
    replace_from(s, from, to, 0)
}

fn str_match_at(s: &str, from: &str, pos: usize) -> (r: bool)
    requires
        pos <= s@.len(),
    ensures
        r == (pos + from@.len() <= s@.len() && sub_at(s@, from@, pos as int)),
{
    let n = s.unicode_len();
    let m = from.unicode_len();
    if m > n - pos {
        return false;
    }
    let mut j: usize = 0;
    while j < m && s.get_char(pos + j) == from.get_char(j)
        invariant
            n == s@.len(),
            m == from@.len(),
            pos + m <= n,
            0 <= j <= m,
            forall|l: int| 0 <= l < j ==> s@[pos + l] == from@[l],
        decreases m - j,
    {
        j = j + 1;
    }
    if j == m {
        assert(sub_at(s@, from@, pos as int));
        true
    } else {
        assert(s@[pos + j] != from@[j as int]);
        false
    }
}

/// Replaces every occurrence of `from` in `s` by `to`.
pub fn str_replace_all(s: &str, from: &str, to: &str) -> (r: String)
    ensures
        r@ == replace_all_spec(s@, from@, to@),
{
    let n = s.unicode_len();
    let flen = from.unicode_len();
    let mut out = String::new();
    let mut pos: usize = 0;
    if flen == 0 {
        let whole = s.to_owned();
        assert(whole@ =~= replace_all_spec(s@, from@, to@)) by {
            assert(s@.skip(0) =~= s@);
        }
        return whole;
    }
    assert(out@.add(replace_from(s@, from@, to@, 0)) =~= replace_from(s@, from@, to@, 0));
    while pos < n
        invariant
            n == s@.len(),
            flen == from@.len(),
            flen >= 1,
            0 <= pos <= n,
            out@.add(replace_from(s@, from@, to@, pos as int)) == replace_all_spec(
                s@,
                from@,
                to@,
            ),
        decreases n - pos,
    {
        if str_match_at(s, from, pos) {
            out.append(to);
            proof {
                assert(out@.add(replace_from(s@, from@, to@, pos + flen)) =~= replace_all_spec(
                    s@,
                    from@,
                    to@,
                ));
            }
            pos = pos + flen;
        } else {
            let c = s.get_char(pos);
            crate::text::push_char(&mut out, c);
            proof {
                assert(out@.add(replace_from(s@, from@, to@, pos + 1)) =~= replace_all_spec(
                    s@,
                    from@,
                    to@,
                ));
            }
            pos = pos + 1;
        }
    }
    assert(replace_from(s@, from@, to@, n as int) =~= Seq::<char>::empty()) by {
        assert(s@.skip(n as int) =~= Seq::<char>::empty());
    }
    assert(out@ =~= replace_all_spec(s@, from@, to@));
    out
}

/// The host part of an absolute URL: what stands between the scheme
/// separator and the next slash. Empty without a scheme separator.
pub open spec fn host_of_spec(s: Seq<char>) -> Seq<char> {
    if contains_sub(s, "://"@) {
        let i = choose|i: int| first_sub_at(s, "://"@, i);
        before_char_spec(s.skip(i + 3), '/')
    } else {
        Seq::empty()
    }
}

/// Extracts the host of an absolute URL, or the empty string.
pub fn host_of(s: &str) -> (r: String)
    ensures
        r@ == host_of_spec(s@),
{
    let n = s.unicode_len();
    match str_find_sub(s, "://") {
        Some(i) => {
            proof {
                reveal_strlit("://");
                assert(first_sub_at(s@, "://"@, i as int));
                let ii = choose|ii: int| first_sub_at(s@, "://"@, ii);
                lemma_first_sub_unique(s@, "://"@, ii, i as int);
            }
            let rest = s.substring_char(i + 3, n);
            assert(rest@ =~= s@.skip(i + 3));
            str_before_char(rest, '/')
        },
        None => {
            proof {
                reveal_strlit("://");
                if contains_sub(s@, "://"@) {
                    let ii = choose|ii: int| sub_at(s@, "://"@, ii);
                    assert(sub_at(s@, "://"@, ii));
                }
            }
            String::new()
        },
    }
}

/// The mail verification link moved onto the configured web base: when
/// both the link and the base name a host and they differ, every
/// occurrence of the link's host is replaced by the base's.
pub open spec fn normalize_verify_spec(input: Seq<char>, base: Seq<char>) -> Seq<char> {
    let t = trim_spec(input);
    if t.len() == 0 {
        Seq::empty()
    } else {
        let base_host = host_of_spec(base);
        if base_host.len() == 0 {
            t
        } else {
            let in_host = host_of_spec(t);
            if in_host.len() > 0 && in_host != base_host {
                replace_all_spec(t, in_host, base_host)
            } else {
                t
            }
        }
    }
}

/// Rewrites a verification link onto the given web base.
pub fn normalize_verify_url(input: &str, base: &str) -> (r: String)
    ensures
        r@ == normalize_verify_spec(input@, base@),
{
    let t = str_trim(input);
    if t.as_str().unicode_len() == 0 {
        return String::new();
    }
    let base_host = host_of(base);
    if base_host.as_str().unicode_len() == 0 {
        return t;
    }
    let in_host = host_of(t.as_str());
    if in_host.as_str().unicode_len() > 0 && !str_eq(in_host.as_str(), base_host.as_str()) {
        str_replace_all(t.as_str(), in_host.as_str(), base_host.as_str())
    } else {
        t
    }
}

} // verus!
