//! Request URL construction: every variant joins a normalized base and a
//! path the same way, and the search endpoint percent-encodes its query
//! terms.
use vstd::prelude::*;

use crate::text::{
    drop_while, drop_while_end, parse_i64, parse_i64_spec, push_char, str_trim,
    str_trim_end_char, str_trim_start_char, trim_spec, i64_to_dec, dec_of_int,
};

verus! {

/// A byte percent-encoding passes through unchanged: ASCII
/// alphanumerics and `-`, `.`, `_`, `~`.
pub open spec fn is_unreserved_byte(b: u8) -> bool {
    (48 <= b && b <= 57) || (65 <= b && b <= 90) || (97 <= b && b <= 122) || b == 45 || b == 46
        || b == 95 || b == 126
}

/// The uppercase hexadecimal digit character for `d`.
pub open spec fn upper_hex_digit(d: int) -> char {
    if d == 0 {
        '0'
    } else if d == 1 {
        '1'
    } else if d == 2 {
        '2'
    } else if d == 3 {
        '3'
    } else if d == 4 {
        '4'
    } else if d == 5 {
        '5'
    } else if d == 6 {
        '6'
    } else if d == 7 {
        '7'
    } else if d == 8 {
        '8'
    } else if d == 9 {
        '9'
    } else if d == 10 {
        'A'
    } else if d == 11 {
        'B'
    } else if d == 12 {
        'C'
    } else if d == 13 {
        'D'
    } else if d == 14 {
        'E'
    } else {
        'F'
    }
}

/// One byte percent-encoded: itself when unreserved, else `%` and two
/// uppercase hex digits.
pub open spec fn percent_byte(b: u8) -> Seq<char> {
    if is_unreserved_byte(b) {
        seq![b as char]
    } else {
        seq!['%', upper_hex_digit(b as int / 16), upper_hex_digit(b as int % 16)]
    }
}

/// A text percent-encoded: every byte of its UTF-8 form mapped through
/// `percent_byte`.
pub open spec fn percent_encode_spec(s: Seq<char>) -> Seq<char> {
    vstd::utf8::encode_utf8(s).flat_map(|b: u8| percent_byte(b))
}

/// Relies on `urlencoding::encode`: every byte of the UTF-8 encoding
/// except ASCII alphanumerics and `-`, `.`, `_`, `~` becomes `%` and
/// two uppercase hex digits.
#[verifier::external_body]
pub(crate) fn url_encode(s: &str) -> (r: String)
    ensures
        r@ == percent_encode_spec(s@),
{
    urlencoding::encode(s).into_owned()
}

/// A base with trailing slashes dropped.
pub open spec fn base_spec(base: Seq<char>) -> Seq<char> {
    drop_while_end(base, |c: char| c == '/')
}

/// A path with leading slashes dropped.
pub open spec fn path_spec(path: Seq<char>) -> Seq<char> {
    drop_while(path, |c: char| c == '/')
}

/// The paged GET URL: `base/path/?page=N`.
pub fn build_page_url(base: &str, path: &str, page: &str) -> (r: String)
    ensures
        r@ == base_spec(base@).add("/"@).add(path_spec(path@)).add("/?page="@).add(page@),
{
    let mut out = str_trim_end_char(base, '/');
    out.append("/");
    let p = str_trim_start_char(path, '/');
    out.append(p.as_str());
    out.append("/?page=");
    out.append(page);
    assert(out@ =~= base_spec(base@).add("/"@).add(path_spec(path@)).add("/?page="@).add(page@));
    out
}

/// The query-string GET URL: `base/path`, then `/?query` when a
/// nonempty query is given (a slash is appended first unless one is
/// already there).
pub open spec fn query_url_spec(base: Seq<char>, path: Seq<char>, query: Option<Seq<char>>) -> Seq<
    char,
> {
    let stem = base_spec(base).add("/"@).add(path_spec(path));
    match query {
        Option::None => stem,
        Option::Some(q) => {
            if q.len() == 0 {
                stem
            } else {
                let with_slash = if stem.len() > 0 && stem.last() == '/' {
                    stem
                } else {
                    stem.add("/"@)
                };
                with_slash.add("?"@).add(q)
            }
        },
    }
}

/// Builds the query-string GET URL.
pub fn build_query_url(base: &str, path: &str, query: Option<&str>) -> (r: String)
    ensures
        r@ == query_url_spec(
            base@,
            path@,
            match query {
                Option::None => Option::<Seq<char>>::None,
                Option::Some(q) => Option::Some(q@),
            },
        ),
{
    let mut out = str_trim_end_char(base, '/');
    out.append("/");
    let p = str_trim_start_char(path, '/');
    out.append(p.as_str());
    let ghost stem = base_spec(base@).add("/"@).add(path_spec(path@));
    assert(out@ =~= stem);
    match query {
        Some(q) => {
            if q.unicode_len() > 0 {
                let n = out.as_str().unicode_len();
                assert(n == stem.len());
                let ends_with_slash = n > 0 && out.as_str().get_char(n - 1) == '/';
                if !ends_with_slash {
                    out.append("/");
                    assert(out@ =~= stem.add("/"@));
                }
                out.append("?");
                out.append(q);
                assert(out@ =~= query_url_spec(base@, path@, Option::Some(q@)));
            }
        },
        None => {},
    }
    out
}

/// The POST URL: `base/path`.
pub fn build_post_url(base: &str, path: &str) -> (r: String)
    ensures
        r@ == base_spec(base@).add("/"@).add(path_spec(path@)),
{
    let mut out = str_trim_end_char(base, '/');
    out.append("/");
    let p = str_trim_start_char(path, '/');
    out.append(p.as_str());
    assert(out@ =~= base_spec(base@).add("/"@).add(path_spec(path@)));
    out
}

/// The album URL: `base/album/?comicName=&id=ID`.
pub fn build_album_url(base: &str, id: &str) -> (r: String)
    ensures
        r@ == base_spec(base@).add("/album/?comicName=&id="@).add(id@),
{
    let mut out = str_trim_end_char(base, '/');
    out.append("/album/?comicName=&id=");
    out.append(id);
    assert(out@ =~= base_spec(base@).add("/album/?comicName=&id="@).add(id@));
    out
}

/// The chapter URL: `base/chapter/?comicName=&skip=&id=ID`.
pub fn build_chapter_url(base: &str, id: &str) -> (r: String)
    ensures
        r@ == base_spec(base@).add("/chapter/?comicName=&skip=&id="@).add(id@),
{
    let mut out = str_trim_end_char(base, '/');
    out.append("/chapter/?comicName=&skip=&id=");
    out.append(id);
    assert(out@ =~= base_spec(base@).add("/chapter/?comicName=&skip=&id="@).add(id@));
    out
}

/// The chapter view template URL carrying the scramble threshold.
pub fn build_scramble_url(base: &str, id: &str) -> (r: String)
    ensures
        r@ == base_spec(base@).add("/chapter_view_template/?id="@).add(id@).add(
            "&mode=vertical&page=0&app_img_shunt=NaN"@,
        ),
{
    let mut out = str_trim_end_char(base, '/');
    out.append("/chapter_view_template/?id=");
    out.append(id);
    out.append("&mode=vertical&page=0&app_img_shunt=NaN");
    assert(out@ =~= base_spec(base@).add("/chapter_view_template/?id="@).add(id@).add(
        "&mode=vertical&page=0&app_img_shunt=NaN"@,
    ));
    out
}

/// The favourites URL: `base/favorite/?page=P&folder_id=F&o=S`.
pub fn build_favorites_url(base: &str, page: &str, folder_id: &str, sort: &str) -> (r: String)
    ensures
        r@ == base_spec(base@).add("/favorite/?page="@).add(page@).add("&folder_id="@).add(
            folder_id@,
        ).add("&o="@).add(sort@),
{
    let mut out = str_trim_end_char(base, '/');
    out.append("/favorite/?page=");
    out.append(page);
    out.append("&folder_id=");
    out.append(folder_id);
    out.append("&o=");
    out.append(sort);
    assert(out@ =~= base_spec(base@).add("/favorite/?page="@).add(page@).add("&folder_id="@).add(
        folder_id@,
    ).add("&o="@).add(sort@));
    out
}

/// The search URL: query and sort percent-encoded, and a `page`
/// parameter appended when the trimmed page is neither empty nor `1`.
pub open spec fn search_url_spec(
    base: Seq<char>,
    query: Seq<char>,
    sort: Seq<char>,
    page: Seq<char>,
) -> Seq<char> {
    let stem = base_spec(base).add("/search/?search_query="@).add(percent_encode_spec(query)).add(
        "&o="@,
    ).add(percent_encode_spec(sort));
    let pt = trim_spec(page);
    if pt != "1"@ && pt.len() > 0 {
        stem.add("&page="@).add(percent_encode_spec(pt))
    } else {
        stem
    }
}

/// Builds the search URL.
pub fn build_search_url(base: &str, search_query: &str, sort: &str, page: &str) -> (r: String)
    ensures
        r@ == search_url_spec(base@, search_query@, sort@, page@),
{
    let mut out = str_trim_end_char(base, '/');
    out.append("/search/?search_query=");
    let eq = url_encode(search_query);
    out.append(eq.as_str());
    out.append("&o=");
    let es = url_encode(sort);
    out.append(es.as_str());
    let ghost stem = base_spec(base@).add("/search/?search_query="@).add(
        percent_encode_spec(search_query@),
    ).add("&o="@).add(percent_encode_spec(sort@));
    assert(out@ =~= stem);
    let pt = str_trim(page);
    if !crate::text::str_eq(pt.as_str(), "1") && pt.as_str().unicode_len() > 0 {
        out.append("&page=");
        let ep = url_encode(pt.as_str());
        out.append(ep.as_str());
        assert(out@ =~= stem.add("&page="@).add(percent_encode_spec(trim_spec(page@))));
    }
    out
}

/// The category filter query: `page=P` only past the first page, then
/// the sort as `o=` and the category as `c=`, joined with `&`. `None`
/// when nothing applies.
pub open spec fn category_query_spec(
    category: Seq<char>,
    page: Seq<char>,
    sort: Seq<char>,
) -> Option<Seq<char>> {
    let parts = {
        let p0 = Seq::<Seq<char>>::empty();
        let p1 = match parse_i64_spec(page) {
            Option::Some(p) => if p > 1 {
                p0.push("page="@.add(dec_of_int(p)))
            } else {
                p0
            },
            Option::None => p0,
        };
        let p2 = if trim_spec(sort).len() > 0 {
            p1.push("o="@.add(sort))
        } else {
            p1
        };
        if trim_spec(category).len() > 0 {
            p2.push("c="@.add(category))
        } else {
            p2
        }
    };
    if parts.len() == 0 {
        Option::None
    } else if parts.len() == 1 {
        Option::Some(parts[0])
    } else if parts.len() == 2 {
        Option::Some(parts[0].add("&"@).add(parts[1]))
    } else {
        Option::Some(parts[0].add("&"@).add(parts[1]).add("&"@).add(parts[2]))
    }
}

/// Builds the category filter query string.
pub fn build_category_query(category: &str, page: &str, sort: &str) -> (r: Option<String>)
    ensures
        r is Some <==> category_query_spec(category@, page@, sort@) is Some,
        r is Some ==> r->Some_0@ == category_query_spec(category@, page@, sort@)->Some_0,
{
    let mut parts: Vec<String> = Vec::new();
    let ghost p0 = Seq::<Seq<char>>::empty();
    assert(parts@.map_values(|x: String| x@) =~= p0);
    match parse_i64(page) {
        Some(p) => {
            if p > 1 {
                let mut item = String::new();
                item.append("page=");
                let d = i64_to_dec(p);
                item.append(d.as_str());
                assert(item@ =~= "page="@.add(dec_of_int(p as int)));
                proof {
                    assert(parts@.push(item).map_values(|x: String| x@) =~= parts@.map_values(
                        |x: String| x@,
                    ).push(item@));
                }
                parts.push(item);
            }
        },
        None => {},
    }
    let st = str_trim(sort);
    if st.as_str().unicode_len() > 0 {
        let mut item = String::new();
        item.append("o=");
        item.append(sort);
        assert(item@ =~= "o="@.add(sort@));
        proof {
            assert(parts@.push(item).map_values(|x: String| x@) =~= parts@.map_values(
                |x: String| x@,
            ).push(item@));
        }
        parts.push(item);
    }
    let ct = str_trim(category);
    if ct.as_str().unicode_len() > 0 {
        let mut item = String::new();
        item.append("c=");
        item.append(category);
        assert(item@ =~= "c="@.add(category@));
        proof {
            assert(parts@.push(item).map_values(|x: String| x@) =~= parts@.map_values(
                |x: String| x@,
            ).push(item@));
        }
        parts.push(item);
    }
    if parts.len() == 0 {
        return None;
    }
    let mut out = String::new();
    out.append(parts[0].as_str());
    if parts.len() >= 2 {
        out.append("&");
        out.append(parts[1].as_str());
    }
    if parts.len() >= 3 {
        out.append("&");
        out.append(parts[2].as_str());
    }
    proof {
        let pv = parts@.map_values(|x: String| x@);
        if parts@.len() == 1 {
            assert(out@ =~= pv[0]);
        } else if parts@.len() == 2 {
            assert(out@ =~= pv[0].add("&"@).add(pv[1]));
        } else {
            assert(out@ =~= pv[0].add("&"@).add(pv[1]).add("&"@).add(pv[2]));
        }
    }
    Some(out)
}

} // verus!
