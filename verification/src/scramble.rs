//! The scrambling parameters: which chapter view template declares the
//! scramble threshold, and the deterministic segmentation count that
//! decides how many bands an image was shuffled into. The count must
//! reproduce the remote service's formula exactly — an off-by-one
//! modulus or threshold silently corrupts every page above it.
use vstd::prelude::*;

use crate::CoreError;
use crate::digest::{md5_hex, md5_hex_of};
use crate::text::{
    dec_of_int, digits_val, first_sub_at, i64_to_dec, is_digit_char, lemma_digits_val_mono,
    lemma_digits_val_nonneg, str_find_sub, sub_at,
};

verus! {

/// Where the digit run that starts at `i` ends.
pub open spec fn digit_run_end(s: Seq<char>, i: int) -> int
    decreases s.len() - i,
{
    if i < 0 || i >= s.len() || !is_digit_char(s[i]) {
        i
    } else {
        digit_run_end(s, i + 1)
    }
}

proof fn lemma_digit_run_end(s: Seq<char>, i: int)
    requires
        0 <= i <= s.len(),
    ensures
        i <= digit_run_end(s, i) <= s.len(),
        forall|k: int| i <= k < digit_run_end(s, i) ==> is_digit_char(s[k]),
        digit_run_end(s, i) == s.len() || !is_digit_char(s[digit_run_end(s, i)]),
    decreases s.len() - i,
{
    if i < s.len() && is_digit_char(s[i]) {
        lemma_digit_run_end(s, i + 1);
    }
}

/// Reads the maximal digit run starting at character `start` as an
/// `i64`. `None` when the run is empty or its value does not fit.
fn char_is_digit(c: char) -> (r: bool)
    ensures
        r == is_digit_char(c),
{
    let u = c as u32;
    48 <= u && u <= 57
}

fn parse_digit_run(s: &str, start: usize) -> (r: Option<i64>)
    requires
        start <= s@.len(),
    ensures
        ({
            let e = digit_run_end(s@, start as int);
            let v = digits_val(s@.subrange(start as int, e));
            match r {
                Some(x) => e > start && v <= i64::MAX && x as int == v,
                None => e == start || v > i64::MAX,
            }
        }),
{
    proof {
        lemma_digit_run_end(s@, start as int);
    }
    let ghost e = digit_run_end(s@, start as int);
    let n = s.unicode_len();
    let mut j: usize = start;
    let mut val: i64 = 0;
    while j < n && char_is_digit(s.get_char(j))
        invariant
            n == s@.len(),
            e == digit_run_end(s@, start as int),
            start <= e <= n,
            forall|k: int| start <= k < e ==> is_digit_char(s@[k]),
            e == n || !is_digit_char(s@[e]),
            start <= j <= e,
            val as int == digits_val(s@.subrange(start as int, j as int)),
            val >= 0,
        decreases n - j,
    {
        proof {
            if (j as int) == e {
                assert(!is_digit_char(s@[e]));
                assert(false);
            }
        }
        let c = s.get_char(j);
        let d: i64 = ((c as u32) as i64) - 48;
        assert(0 <= d <= 9);
        let ghost next = s@.subrange(start as int, j + 1);
        proof {
            assert(next.drop_last() =~= s@.subrange(start as int, j as int));
            assert(next.last() == s@[j as int]);
        }
        if val > (i64::MAX - d) / 10 {
            proof {
                let run = s@.subrange(start as int, e);
                assert(forall|k: int| 0 <= k < run.len() ==> is_digit_char(run[k]));
                assert(digits_val(next) == (val as int) * 10 + d);
                assert(digits_val(next) > i64::MAX);
                lemma_digits_val_mono(run, j + 1 - start, e - start);
                assert(run.subrange(0, j + 1 - start) =~= next);
                assert(run.subrange(0, e - start) =~= run);
            }
            return None;
        }
        val = val * 10 + d;
        j = j + 1;
    }
    proof {
        if (j as int) < e {
            assert(is_digit_char(s@[j as int]));
            assert(false);
        }
    }
    if j == start {
        return None;
    }
    Some(val)
}

/// What the chapter view template declares as the scramble threshold:
/// the digit run after the marker text, when present and in range.
pub open spec fn parse_scramble_spec(text: Seq<char>) -> Option<int> {
    let needle = "var scramble_id = "@;
    if exists|i: int| sub_at(text, needle, i) {
        let i = choose|i: int| first_sub_at(text, needle, i);
        let start = i + needle.len();
        let e = digit_run_end(text, start);
        let v = digits_val(text.subrange(start, e));
        if e == start || v > i64::MAX {
            Option::None
        } else {
            Option::Some(v)
        }
    } else {
        Option::None
    }
}

/// Finds `var scramble_id = <digits>` in a chapter view template.
pub fn parse_scramble_id(text: &str) -> (r: Option<i64>)
    ensures
        r is Some <==> parse_scramble_spec(text@) is Some,
        r is Some ==> r->Some_0 as int == parse_scramble_spec(text@)->Some_0,
{
    let needle = "var scramble_id = ";
    proof {
        reveal_strlit("var scramble_id = ");
    }
    let total = text.unicode_len();
    match str_find_sub(text, needle) {
        Some(pos) => {
            proof {
                assert(first_sub_at(text@, needle@, pos as int));
                let i = choose|i: int| first_sub_at(text@, needle@, i);
                crate::text::lemma_first_sub_unique(text@, needle@, i, pos as int);
            }
            assert(pos + needle@.len() <= total);
            let start = pos + needle.unicode_len();
            parse_digit_run(text, start)
        },
        None => {
            proof {
                if exists|i: int| sub_at(text@, needle@, i) {
                    let i = choose|i: int| sub_at(text@, needle@, i);
                    assert(sub_at(text@, needle@, i));
                }
            }
            None
        },
    }
}

/// The scramble threshold assumed when a template carries no marker.
pub fn default_scramble_id() -> (r: i64)
    ensures
        r == 220980,
{
    220980
}

/// The threshold for a template body: the declared value, or the default
/// where none parses.
pub fn scramble_id_from_body(text: &str) -> (r: i64)
    ensures
        parse_scramble_spec(text@) is Some ==> r as int == parse_scramble_spec(text@)->Some_0,
        parse_scramble_spec(text@) is None ==> r == 220980,
{
    match parse_scramble_id(text) {
        Some(v) => v,
        None => default_scramble_id(),
    }
}

/// The segmentation count formula: zero below the chapter's scramble
/// threshold, the legacy constant below the old-content bound, and
/// otherwise two plus twice the last hex digit's character code modulo
/// eight (new content) or ten (older content).
pub open spec fn segmentation_spec(eps_id: int, scramble_id: int, name: Seq<char>) -> int {
    if eps_id < scramble_id {
        0
    } else if eps_id < 268850 {
        10
    } else {
        let digest = md5_hex_of(dec_of_int(eps_id).add(name));
        let last = (digest.last() as u32) as int;
        if eps_id > 421926 {
            (last % 8) * 2 + 2
        } else {
            (last % 10) * 2 + 2
        }
    }
}

/// The number of horizontal bands a page image was shuffled into,
/// derived deterministically from the chapter id and the picture name.
pub fn get_segmentation_num(eps_id: i64, scramble_id: i64, picture_name: &str) -> (r: i64)
    ensures
        r as int == segmentation_spec(eps_id as int, scramble_id as int, picture_name@),
{
    if eps_id < scramble_id {
        return 0;
    }
    if eps_id < 268850 {
        return 10;
    }
    let mut src = i64_to_dec(eps_id);
    src.append(picture_name);
    let digest = md5_hex(src.as_str());
    let last_char = digest.as_str().get_char(31);
    assert(digest@.last() == digest@[31]);
    let last: i64 = (last_char as u32) as i64;
    if eps_id > 421926 {
        (last % 8) * 2 + 2
    } else {
        (last % 10) * 2 + 2
    }
}

/// The segmentation formula by cases: zero for ids below the threshold,
/// the constant ten for old content, and an even value between 2 and 16
/// (newest content) or 2 and 20 (older content) otherwise — the same
/// value for the same id and name, whoever computes it.
pub proof fn lemma_segmentation_cases(eps_id: int, scramble_id: int, name: Seq<char>)
    ensures
        eps_id < scramble_id ==> segmentation_spec(eps_id, scramble_id, name) == 0,
        scramble_id <= eps_id < 268850 ==> segmentation_spec(eps_id, scramble_id, name) == 10,
        scramble_id <= eps_id && 268850 <= eps_id && eps_id > 421926 ==> 2 <= segmentation_spec(
            eps_id,
            scramble_id,
            name,
        ) <= 16 && segmentation_spec(eps_id, scramble_id, name) % 2 == 0,
        scramble_id <= eps_id && 268850 <= eps_id <= 421926 ==> 2 <= segmentation_spec(
            eps_id,
            scramble_id,
            name,
        ) <= 20 && segmentation_spec(eps_id, scramble_id, name) % 2 == 0,
{
    if eps_id >= 268850 && eps_id >= scramble_id {
        let digest = md5_hex_of(dec_of_int(eps_id).add(name));
        let last = (digest.last() as u32) as int;
        assert(0 <= last % 8 < 8);
        assert(0 <= last % 10 < 10);
        assert(((last % 8) * 2 + 2) % 2 == 0) by (nonlinear_arith);
        assert(((last % 10) * 2 + 2) % 2 == 0) by (nonlinear_arith);
    }
}

/// Parses one chapter id and maps every picture name to its segmentation
/// count. Fails exactly where the id is not a decimal integer.
pub fn api_segmentation_nums(eps_id: &str, scramble_id: i64, picture_names: &Vec<String>) -> (r:
    Result<Vec<i64>, CoreError>)
    ensures
        r is Ok <==> crate::text::parse_i64_spec(eps_id@) is Some,
        r is Ok ==> ({
            let eps = crate::text::parse_i64_spec(eps_id@)->Some_0;
            let out = r->Ok_0;
            out@.len() == picture_names@.len() && forall|k: int|
                0 <= k < out@.len() ==> (#[trigger] out@[k]) as int == segmentation_spec(
                    eps,
                    scramble_id as int,
                    picture_names@[k]@,
                )
        }),
        r is Err ==> r->Err_0 is Decode,
{
    let eps = match crate::text::parse_i64(eps_id) {
        Some(v) => v,
        None => {
            let m = "invalid eps_id";
            return Err(CoreError::Decode { message: m.to_owned() });
        },
    };
    let n = picture_names.len();
    let mut out: Vec<i64> = Vec::new();
    let mut i: usize = 0;
    while i < n
        invariant
            n == picture_names@.len(),
            0 <= i <= n,
            eps as int == crate::text::parse_i64_spec(eps_id@)->Some_0,
            out@.len() == i,
            forall|k: int| 0 <= k < i ==> (#[trigger] out@[k]) as int == segmentation_spec(
                eps as int,
                scramble_id as int,
                picture_names@[k]@,
            ),
        decreases n - i,
    {
        let v = get_segmentation_num(eps, scramble_id, picture_names[i].as_str());
        out.push(v);
        i = i + 1;
    }
    Ok(out)
}

} // verus!
