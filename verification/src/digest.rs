//! The one-way digest the remote protocol keys everything on: per-request
//! tokens, envelope keys, segmentation choices and cache file names all go
//! through the same lowercase-hex rendering of an MD5 digest.
use vstd::prelude::*;

verus! {

/// The lowercase hexadecimal rendering of the MD5 digest of the UTF-8
/// bytes of a character sequence. A fixed function of its input alone;
/// nothing else is assumed of it.
pub uninterp spec fn md5_hex_of(s: Seq<char>) -> Seq<char>;

/// A lowercase hexadecimal digit.
pub open spec fn is_lower_hex_digit(c: char) -> bool {
    ('0' <= c && c <= '9') || ('a' <= c && c <= 'f')
}

/// Relies on `md5::compute` and the `LowerHex` rendering of its digest:
/// a 16-byte digest printed as 32 lowercase hex digits, a function of the
/// input bytes alone.
#[verifier::external_body]
pub(crate) fn md5_hex(s: &str) -> (r: String)
    ensures
        r@ == md5_hex_of(s@),
        r@.len() == 32,
        forall|i: int| 0 <= i < r@.len() ==> is_lower_hex_digit(r@[i]),
{
    format!("{:x}", md5::compute(s.as_bytes()))
}

} // verus!
