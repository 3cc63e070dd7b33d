//! The retrieval router: one logical request walks the mirror pool from
//! the pinned cursor, classifying each attempt — transport failures and
//! transient server answers move on to the next mirror, an application
//! rejection or a decode failure ends the request at once, and the first
//! success pins the cursor to the mirror that answered.
use vstd::prelude::*;

use crate::CoreError;
use crate::codec::{decode_resp_chars, decode_resp_data};
use crate::mirror::MirrorPool;
use crate::text::{dec_of_int, dec_of_nat, i64_to_dec, u64_to_dec};
use vstd::utf8::{decode_utf8, valid_utf8};

verus! {

/// HTTP statuses worth retrying on another mirror: the one gateway
/// challenge status and the whole server-error class.
pub open spec fn retry_status_spec(status: int) -> bool {
    status == 403 || (500 <= status <= 599)
}

/// Whether an HTTP status should send the request to the next mirror.
pub fn should_retry_status(status: u16) -> (r: bool)
    ensures
        r == retry_status_spec(status as int),
{
    status == 403 || (500 <= status && status <= 599)
}

/// Whether a transport error should send the request to the next
/// mirror: timeouts and connection failures are mirror problems.
pub fn should_retry_error(is_timeout: bool, is_connect: bool) -> (r: bool)
    ensures
        r == (is_timeout || is_connect),
{
    is_timeout || is_connect
}

/// `a` matches `b` ignoring ASCII case, for a lowercase `b`.
pub open spec fn ci_eq(a: char, b: char) -> bool {
    a == b || (65 <= (a as u32) <= 90 && (a as u32) + 32 == (b as u32))
}

/// `needle` occurs at `i` in `s` up to ASCII case.
pub open spec fn ci_sub_at(s: Seq<char>, needle: Seq<char>, i: int) -> bool {
    0 <= i && i + needle.len() <= s.len() && forall|j: int|
        0 <= j < needle.len() ==> ci_eq(s[i + j], needle[j])
}

/// `needle` occurs in `s` up to ASCII case.
pub open spec fn ci_contains(s: Seq<char>, needle: Seq<char>) -> bool {
    exists|i: int| ci_sub_at(s, needle, i)
}

fn ci_char_eq(a: char, b: char) -> (r: bool)
    ensures
        r == ci_eq(a, b),
{
    let au = a as u32;
    let bu = b as u32;
    au == bu || (65 <= au && au <= 90 && au + 32 == bu)
}

/// Whether `needle` occurs in `s` ignoring ASCII case.
pub fn str_ci_contains(s: &str, needle: &str) -> (r: bool)
    ensures
        r == ci_contains(s@, needle@),
{
    let n = s.unicode_len();
    let m = needle.unicode_len();
    if m > n {
        assert(forall|k: int| ci_sub_at(s@, needle@, k) ==> k + m <= n);
        return false;
    }
    let mut i: usize = 0;
    loop
        invariant
            n == s@.len(),
            m == needle@.len(),
            m <= n,
            0 <= i <= n - m + 1,
            forall|k: int| 0 <= k < i ==> !ci_sub_at(s@, needle@, k),
        decreases n - m + 1 - i,
    {
        if i > n - m {
            assert(forall|k: int| ci_sub_at(s@, needle@, k) ==> 0 <= k <= n - m);
            return false;
        }
        let mut j: usize = 0;
        while j < m && ci_char_eq(s.get_char(i + j), needle.get_char(j))
            invariant
                n == s@.len(),
                m == needle@.len(),
                0 <= i <= n - m,
                0 <= j <= m,
                forall|l: int| 0 <= l < j ==> ci_eq(s@[i + l], needle@[l]),
            decreases m - j,
        {
            j = j + 1;
        }
        if j == m {
            assert(ci_sub_at(s@, needle@, i as int));
            return true;
        }
        assert(!ci_eq(s@[i + j], needle@[j as int]));
        assert(!ci_sub_at(s@, needle@, i as int));
        i = i + 1;
    }
}

/// The known wrong-domain fingerprints, matched case-insensitively: a
/// generic 404 page, a default web-server page, an edge-proxy challenge
/// page.
pub open spec fn body_fingerprint_spec(s: Seq<char>) -> bool {
    ci_contains(s, "404 not found"@) || ci_contains(s, "apache server"@) || ci_contains(
        s,
        "cloudflare"@,
    )
}

/// Whether a response body sample marks a stale or hijacked domain.
pub fn should_retry_body(text: &str) -> (r: bool)
    ensures
        r == body_fingerprint_spec(text@),
{
    str_ci_contains(text, "404 not found") || str_ci_contains(text, "apache server")
        || str_ci_contains(text, "cloudflare")
}

/// The composite error text the router reports for an application-level
/// rejection: HTTP status, API code and the server's message.
pub fn api_error(status: u16, api_code: i64, msg: &str) -> (r: String)
    ensures
        r@ == "HTTP_STATUS="@.add(dec_of_nat(status as int)).add(";API_CODE="@).add(
            dec_of_int(api_code as int),
        ).add(";"@).add(msg@),
{
    let mut out = String::new();
    out.append("HTTP_STATUS=");
    let s = u64_to_dec(status as u64);
    out.append(s.as_str());
    out.append(";API_CODE=");
    let c = i64_to_dec(api_code);
    out.append(c.as_str());
    out.append(";");
    out.append(msg);
    assert(out@ =~= "HTTP_STATUS="@.add(dec_of_nat(status as int)).add(";API_CODE="@).add(
        dec_of_int(api_code as int),
    ).add(";"@).add(msg@));
    out
}

/// The cookie header line for a cookie list: `k=v` pairs joined by `; `.
pub open spec fn cookie_header_spec(cs: Seq<(Seq<char>, Seq<char>)>) -> Seq<char>
    decreases cs.len(),
{
    if cs.len() == 0 {
        Seq::empty()
    } else if cs.len() == 1 {
        cs[0].0.add("="@).add(cs[0].1)
    } else {
        cookie_header_spec(cs.drop_last()).add("; "@).add(cs.last().0).add("="@).add(cs.last().1)
    }
}

/// Renders a cookie list as one `Cookie:` header value.
pub fn cookie_header(cookies: &Vec<(String, String)>) -> (r: String)
    ensures
        r@ == cookie_header_spec(
            cookies@.map_values(|kv: (String, String)| (kv.0@, kv.1@)),
        ),
{
    let ghost cs = cookies@.map_values(|kv: (String, String)| (kv.0@, kv.1@));
    let mut out = String::new();
    let n = cookies.len();
    let mut i: usize = 0;
    assert(out@ =~= cookie_header_spec(cs.take(0)));
    while i < n
        invariant
            n == cookies@.len(),
            0 <= i <= n,
            cs == cookies@.map_values(|kv: (String, String)| (kv.0@, kv.1@)),
            out@ == cookie_header_spec(cs.take(i as int)),
        decreases n - i,
    {
        if i > 0 {
            out.append("; ");
        }
        out.append(cookies[i].0.as_str());
        out.append("=");
        out.append(cookies[i].1.as_str());
        proof {
            let t = cs.take(i + 1);
            assert(t.drop_last() =~= cs.take(i as int));
            assert(t.last() == cs[i as int]);
            if i == 0 {
                assert(out@ =~= cookie_header_spec(t));
            } else {
                assert(out@ =~= cookie_header_spec(t));
            }
        }
        i = i + 1;
    }
    assert(cs.take(n as int) =~= cs);
    out
}

/// The per-request token: the digest of the decimal timestamp and the
/// token secret.
pub fn request_token(ts: i64, token_secret: &str) -> (r: String)
    ensures
        r@ == crate::digest::md5_hex_of(dec_of_int(ts as int).add(token_secret@)),
{
    let mut src = i64_to_dec(ts);
    src.append(token_secret);
    crate::digest::md5_hex(src.as_str())
}

/// The `tokenparam` header value: decimal timestamp, a comma, and the
/// protocol version string.
pub fn token_param(ts: i64, header_ver: &str) -> (r: String)
    ensures
        r@ == dec_of_int(ts as int).add(","@).add(header_ver@),
{
    let mut out = i64_to_dec(ts);
    out.append(",");
    out.append(header_ver);
    assert(out@ =~= dec_of_int(ts as int).add(","@).add(header_ver@));
    out
}

/// What the UTF-8-lossy reading of a byte sequence yields; on valid
/// UTF-8 it is exactly the decoding.
pub uninterp spec fn utf8_lossy_of(b: Seq<u8>) -> Seq<char>;

/// Relies on `String::from_utf8_lossy`: the reading is a function of
/// the bytes alone, and valid UTF-8 comes through unchanged.
#[verifier::external_body]
pub(crate) fn utf8_lossy(bytes: &[u8]) -> (r: String)
    ensures
        r@ == utf8_lossy_of(bytes@),
        valid_utf8(bytes@) ==> r@ == decode_utf8(bytes@),
{
    String::from_utf8_lossy(bytes).into_owned()
}

/// The envelope fields of a response body, when it parses as a JSON
/// document of the expected shape: status code, the two message fields
/// (empty when absent), and the payload when it is a string.
pub uninterp spec fn envelope_of(b: Seq<u8>) -> Option<
    (int, Seq<char>, Seq<char>, Option<Seq<char>>),
>;

/// One parsed envelope: `{code, errorMsg, message, data}`.
pub struct Envelope {
    pub code: i64,
    pub error_msg: String,
    pub message: String,
    pub data: Option<String>,
}

impl Envelope {
    /// The envelope's fields at the specification level.
    pub open spec fn view_tuple(&self) -> (int, Seq<char>, Seq<char>, Option<Seq<char>>) {
        (
            self.code as int,
            self.error_msg@,
            self.message@,
            match self.data {
                Option::None => Option::<Seq<char>>::None,
                Option::Some(ref s) => Option::Some(s@),
            },
        )
    }
}

/// Relies on `serde_json::from_slice` into `serde_json::Value` and the
/// `Value` accessors: whether a body parses to an envelope, and to which
/// fields, is a function of the bytes alone. A missing or non-integer
/// `code` or an unparsable document fails; absent message fields read as
/// empty; a non-string `data` reads as absent.
#[verifier::external_body]
pub(crate) fn parse_envelope(bytes: &[u8]) -> (r: Result<Envelope, String>)
    ensures
        r is Ok <==> envelope_of(bytes@) is Some,
        r is Ok ==> r->Ok_0.view_tuple() == envelope_of(bytes@)->Some_0,
{
    let v: serde_json::Value = serde_json::from_slice(bytes)
        .map_err(|e| format!("invalid json response: {e}"))?;
    let code = v.get("code").and_then(serde_json::Value::as_i64)
        .ok_or_else(|| "invalid json response: missing code".to_string())?;
    let error_msg = v.get("errorMsg").and_then(serde_json::Value::as_str)
        .unwrap_or("").to_string();
    let message = v.get("message").and_then(serde_json::Value::as_str)
        .unwrap_or("").to_string();
    let data = v.get("data").and_then(serde_json::Value::as_str).map(|s| s.to_string());
    Ok(Envelope { code, error_msg, message, data })
}

/// The server-supplied message surfaced for a non-200 envelope: the
/// error field, else the message field, else a rendered fallback.
pub open spec fn app_reject_message(
    t: (int, Seq<char>, Seq<char>, Option<Seq<char>>),
    status: int,
) -> Seq<char> {
    if t.1.len() > 0 {
        t.1
    } else if t.2.len() > 0 {
        t.2
    } else {
        "request failed, code="@.add(dec_of_int(t.0)).add(", http_status="@).add(
            dec_of_nat(status),
        )
    }
}

/// One step of the router's classification.
pub enum RouterStep {
    /// A transient answer: move on to the next mirror.
    RetryTransient { message: String },
    /// A terminal outcome: stop and surface the error.
    Terminal { error: CoreError },
    /// A decoded payload: pin the cursor and return it.
    Success { payload: String },
}

/// The first `limit` characters of `s`.
pub open spec fn take_chars(s: Seq<char>, limit: int) -> Seq<char> {
    if s.len() <= limit {
        s
    } else {
        s.take(limit)
    }
}

fn str_prefix_chars(s: &str, limit: usize) -> (r: String)
    ensures
        r@ == take_chars(s@, limit as int),
{
    let n = s.unicode_len();
    if n <= limit {
        s.to_owned()
    } else {
        let piece = s.substring_char(0, limit);
        piece.to_owned()
    }
}

/// What the router decides for one received response, given whether
/// another candidate remains. The whole classification: retryable
/// status, wrong-domain fingerprint in the first 300 characters,
/// envelope shape, application rejection, and payload decode.
pub open spec fn response_step_spec(
    status: int,
    body: Seq<u8>,
    ts: int,
    secret: Seq<char>,
    has_more: bool,
    r: RouterStep,
) -> bool {
    let succ = 200 <= status <= 299;
    let preview = take_chars(utf8_lossy_of(body), 300);
    if !succ && retry_status_spec(status) && has_more {
        r is RetryTransient
    } else if body_fingerprint_spec(preview) && has_more {
        r is RetryTransient
    } else {
        match envelope_of(body) {
            Option::None => r matches RouterStep::Terminal { error } && error is Decode,
            Option::Some(t) => {
                if t.0 != 200 {
                    r matches RouterStep::Terminal { error } && (error matches
                    CoreError::Application { http_status, api_code, message } && http_status as int
                        == status && api_code as int == t.0 && message@ == app_reject_message(
                        t,
                        status,
                    ))
                } else {
                    match t.3 {
                        Option::None => r matches RouterStep::Terminal { error } && error
                            is Decode,
                        Option::Some(data_txt) => match decode_resp_chars(data_txt, ts, secret) {
                            Option::None => r matches RouterStep::Terminal { error } && error
                                is Decode,
                            Option::Some(plain) => r matches RouterStep::Success { payload }
                                && payload@ == plain,
                        },
                    }
                }
            },
        }
    }
}

/// Classifies one received response: retry on a retryable status or a
/// wrong-domain body fingerprint while mirrors remain; otherwise parse
/// the envelope, surface a non-200 code as an application rejection, and
/// decrypt the payload.
pub fn process_response(status: u16, body: &[u8], ts: i64, secret: &str, has_more: bool) -> (r:
    RouterStep)
    ensures
        response_step_spec(status as int, body@, ts as int, secret@, has_more, r),
{
    let succ = 200 <= status && status <= 299;
    if !succ && should_retry_status(status) && has_more {
        let m = "http status retryable";
        return RouterStep::RetryTransient { message: m.to_owned() };
    }
    let lossy = utf8_lossy(body);
    let preview = str_prefix_chars(lossy.as_str(), 300);
    if should_retry_body(preview.as_str()) && has_more {
        let m = "body indicates invalid domain";
        return RouterStep::RetryTransient { message: m.to_owned() };
    }
    let env = match parse_envelope(body) {
        Ok(e) => e,
        Err(message) => {
            return RouterStep::Terminal { error: CoreError::Decode { message } };
        },
    };
    if env.code != 200 {
        let message = if env.error_msg.as_str().unicode_len() > 0 {
            env.error_msg
        } else if env.message.as_str().unicode_len() > 0 {
            env.message
        } else {
            let mut m = String::new();
            m.append("request failed, code=");
            let c = i64_to_dec(env.code);
            m.append(c.as_str());
            m.append(", http_status=");
            let s = u64_to_dec(status as u64);
            m.append(s.as_str());
            assert(m@ =~= "request failed, code="@.add(dec_of_int(env.code as int)).add(
                ", http_status="@,
            ).add(dec_of_nat(status as int)));
            m
        };
        return RouterStep::Terminal {
            error: CoreError::Application { http_status: status, api_code: env.code, message },
        };
    }
    let data_txt = match env.data {
        Some(d) => d,
        None => {
            let m = "unexpected data type";
            return RouterStep::Terminal {
                error: CoreError::Decode { message: m.to_owned() },
            };
        },
    };
    match decode_resp_data(data_txt.as_str(), ts, secret) {
        Ok(payload) => RouterStep::Success { payload },
        Err(error) => RouterStep::Terminal { error },
    }
}

/// What the application hands the router after one network attempt.
pub enum AttemptOutcome {
    /// The request never completed; `retryable` says whether it was a
    /// timeout or connection failure.
    TransportFailure { retryable: bool, message: String },
    /// The mirror answered with a status and a body.
    GotResponse { status: u16, body: Vec<u8> },
}

/// The verdict a router step dictates: retries continue the walk,
/// terminal errors and successes end it with the matching result.
pub open spec fn step_matches_verdict(step: RouterStep, v: StepVerdict) -> bool {
    match step {
        RouterStep::RetryTransient { .. } => v is Continue,
        RouterStep::Terminal { error } => v matches StepVerdict::Done { result }
            && result matches Result::Err(e) && e == error,
        RouterStep::Success { payload } => v matches StepVerdict::Done { result }
            && result matches Result::Ok(p) && p == payload,
    }
}

/// What the caller should do after a step.
pub enum StepVerdict {
    /// Try the next candidate.
    Continue,
    /// The request is over.
    Done { result: Result<String, CoreError> },
}

/// One logical request walking the mirror candidates in rotation order.
pub struct FailoverSession {
    candidates: Vec<(usize, String)>,
    pos: usize,
}

impl FailoverSession {
    /// The candidate walk this session follows.
    pub closed spec fn candidates_view(&self) -> Seq<(int, Seq<char>)> {
        self.candidates@.map_values(|c: (usize, String)| (c.0 as int, c.1@))
    }

    /// How far along the walk the session is.
    pub closed spec fn pos_view(&self) -> int {
        self.pos as int
    }

    /// A session over the given candidate walk, starting at its head.
    pub fn new(candidates: Vec<(usize, String)>) -> (r: FailoverSession)
        ensures
            r.candidates_view() == candidates@.map_values(|c: (usize, String)| (c.0 as int, c.1@)),
            r.pos_view() == 0,
    {
        FailoverSession { candidates, pos: 0 }
    }

    /// The candidate to try now, if any remain.
    pub fn current(&self) -> (r: Option<(usize, String)>)
        ensures
            r is Some <==> self.pos_view() < self.candidates_view().len(),
            r is Some ==> r->Some_0.0 as int == self.candidates_view()[self.pos_view()].0
                && r->Some_0.1@ == self.candidates_view()[self.pos_view()].1,
    {
        if self.pos < self.candidates.len() {
            let c = &self.candidates[self.pos];
            Some((c.0, c.1.clone()))
        } else {
            None
        }
    }

    /// Feed the outcome of one attempt. A retryable failure with
    /// candidates left advances the walk; a success pins the pool's
    /// cursor to the mirror that answered; everything else ends the
    /// request with its classified error.
    pub fn step(
        &mut self,
        pool: &mut MirrorPool,
        outcome: AttemptOutcome,
        ts: i64,
        secret: &str,
    ) -> (v: StepVerdict)
        requires
            old(self).pos_view() < old(self).candidates_view().len(),
        ensures
            final(self).candidates_view() == old(self).candidates_view(),
            v is Continue ==> final(self).pos_view() == old(self).pos_view() + 1 && final(self).pos_view() < final(self).candidates_view().len() && *final(pool) == *old(pool),
            v matches StepVerdict::Done { result } ==> final(self).pos_view() == old(self).pos_view(),
            v matches StepVerdict::Done { result } && result is Ok ==> final(pool).bases_view()
                == old(pool).bases_view() && final(pool).cursor_view() == old(self).candidates_view()[old(self).pos_view()].0,
            v matches StepVerdict::Done { result } && result is Err ==> *final(pool) == *old(pool),
            outcome matches AttemptOutcome::TransportFailure { retryable, message } ==> (if (
                retryable && old(self).pos_view() + 1 < old(self).candidates_view().len()) {
                v is Continue
            } else {
                v matches StepVerdict::Done { result } && result matches Result::Err(e) && (
                e matches CoreError::Transport { message: m } && m@ == message@)
            }),
            outcome matches AttemptOutcome::GotResponse { status, body } ==> (exists|
                step: RouterStep,
            |
                #[trigger] step_matches_verdict(step, v) && response_step_spec(
                    status as int,
                    body@,
                    ts as int,
                    secret@,
                    old(self).pos_view() + 1 < old(self).candidates_view().len(),
                    step,
                )),
    {
        let len = self.candidates.len();
        let has_more = self.pos < len - 1;
        match outcome {
            AttemptOutcome::TransportFailure { retryable, message } => {
                if retryable && has_more {
                    self.pos = self.pos + 1;
                    StepVerdict::Continue
                } else {
                    StepVerdict::Done {
                        result: Err(CoreError::Transport { message }),
                    }
                }
            },
            AttemptOutcome::GotResponse { status, body } => {
                let step = process_response(status, body.as_slice(), ts, secret, has_more);
                let ghost gstep = step;
                proof {
                    assert(response_step_spec(
                        status as int,
                        body@,
                        ts as int,
                        secret@,
                        has_more,
                        gstep,
                    ));
                }
                let verdict = match step {
                    RouterStep::RetryTransient { message: _m } => {
                        proof {
                            if !has_more {
                                assert(false);
                            }
                        }
                        self.pos = self.pos + 1;
                        StepVerdict::Continue
                    },
                    RouterStep::Terminal { error } => StepVerdict::Done { result: Err(error) },
                    RouterStep::Success { payload } => {
                        let idx = self.candidates[self.pos].0;
                        pool.pin(idx);
                        StepVerdict::Done { result: Ok(payload) }
                    },
                };
                proof {
                    assert(step_matches_verdict(gstep, verdict));
                }
                verdict
            },
        }
    }
}

} // verus!
