//! Base64 transport coding of the encrypted payloads, behind trusted
//! wrappers whose results are named functions of their inputs.
use vstd::prelude::*;

use base64::Engine as _;

verus! {

/// What base64 standard-alphabet decoding yields for a character
/// sequence: `None` exactly where the input is rejected.
pub uninterp spec fn b64_std_decode_of(s: Seq<char>) -> Option<Seq<u8>>;

/// What base64 URL-safe-alphabet decoding yields for a character
/// sequence: `None` exactly where the input is rejected.
pub uninterp spec fn b64_url_decode_of(s: Seq<char>) -> Option<Seq<u8>>;

/// What base64 standard-alphabet encoding (with padding) yields for a
/// byte sequence.
pub uninterp spec fn b64_std_encode_of(b: Seq<u8>) -> Seq<char>;

/// Relies on `base64::engine::general_purpose::STANDARD.decode`: whether
/// it succeeds, and what it returns, depend on the input alone.
#[verifier::external_body]
pub(crate) fn b64_std_decode(s: &str) -> (r: Result<Vec<u8>, String>)
    ensures
        r is Ok <==> b64_std_decode_of(s@) is Some,
        r is Ok ==> r->Ok_0@ == b64_std_decode_of(s@)->Some_0,
{
    base64::engine::general_purpose::STANDARD
        .decode(s.as_bytes())
        .map_err(|e| format!("base64 decode failed: {e}"))
}

/// Relies on `base64::engine::general_purpose::URL_SAFE.decode`: whether
/// it succeeds, and what it returns, depend on the input alone.
#[verifier::external_body]
pub(crate) fn b64_url_decode(s: &str) -> (r: Result<Vec<u8>, String>)
    ensures
        r is Ok <==> b64_url_decode_of(s@) is Some,
        r is Ok ==> r->Ok_0@ == b64_url_decode_of(s@)->Some_0,
{
    base64::engine::general_purpose::URL_SAFE
        .decode(s.as_bytes())
        .map_err(|e| format!("base64 decode failed: {e}"))
}

/// Relies on `base64::engine::general_purpose::STANDARD.encode`: the
/// encoding is a function of the input bytes alone, and empty input
/// encodes to the empty string.
#[verifier::external_body]
pub(crate) fn b64_std_encode(b: &[u8]) -> (r: String)
    ensures
        r@ == b64_std_encode_of(b@),
        b@.len() == 0 ==> r@.len() == 0,
{
    base64::engine::general_purpose::STANDARD.encode(b)
}

} // verus!
