//! The envelope codec: every API payload arrives base64-coded and
//! AES-256-ECB encrypted under a key derived from the request timestamp
//! and a shared secret. Decoding decrypts, strips the permissive
//! trailing-byte padding, and checks that a JSON-shaped UTF-8 text came
//! out. The mirror-discovery payload reuses the same cipher with a fixed
//! secret and tolerates missing base64 padding.
use vstd::prelude::*;

use crate::CoreError;
use cipher::KeyInit as _;
use crate::b64::{b64_std_decode, b64_std_decode_of, b64_url_decode, b64_url_decode_of};
use crate::digest::{is_lower_hex_digit, md5_hex, md5_hex_of};
use crate::text::{
    drop_while, lemma_drop_while_at, dec_of_int, i64_to_dec, push_char, trim_spec, str_trim,
};
use vstd::utf8::{
    decode_utf8, encode_utf8, is_ascii_chars, is_ascii_chars_encode_utf8, valid_utf8,
};

verus! {

/// The raw AES-256-ECB decryption (no padding handling) of `ct` under
/// `key`: a function of the two inputs alone, defined where the key is
/// 32 bytes and the ciphertext consists of whole 16-byte blocks (the
/// empty ciphertext decrypts to the empty buffer).
pub uninterp spec fn aes256_ecb_dec_of(key: Seq<u8>, ct: Seq<u8>) -> Seq<u8>;

/// Relies on `ecb::Decryptor::<aes::Aes256>` through `cipher`'s
/// `KeyInit::new_from_slice` and `decrypt_padded_b2b::<NoPadding>`:
/// initialization fails exactly on a key that is not 32 bytes, and
/// decryption fails exactly on a ciphertext that is not whole 16-byte
/// blocks — `NoPadding` accepts zero blocks, so the empty ciphertext
/// comes back as the empty buffer, and otherwise the full decrypted
/// buffer is returned.
#[verifier::external_body]
pub(crate) fn aes256_ecb_decrypt(key: &[u8], ct: &[u8]) -> (r: Result<Vec<u8>, String>)
    ensures
        r is Ok <==> (key@.len() == 32 && ct@.len() % 16 == 0),
        r is Ok ==> r->Ok_0@ == aes256_ecb_dec_of(key@, ct@) && r->Ok_0@.len() == ct@.len(),
{
    let dec = ecb::Decryptor::<aes::Aes256>::new_from_slice(key)
        .map_err(|e| format!("cipher init failed: {e}"))?;
    let mut buf = vec![0u8; ct.len()];
    let pt = cipher::BlockModeDecrypt::decrypt_padded_b2b::<cipher::block_padding::NoPadding>(
        dec, ct, &mut buf,
    )
        .map_err(|e| format!("decrypt failed: {e}"))?;
    Ok(pt.to_vec())
}

/// Relies on `String::from_utf8`: succeeds exactly on valid UTF-8 and
/// yields its decoding.
#[verifier::external_body]
pub(crate) fn bytes_to_utf8(b: Vec<u8>) -> (r: Result<String, String>)
    ensures
        r is Ok <==> valid_utf8(b@),
        r is Ok ==> r->Ok_0@ == decode_utf8(b@),
{
    String::from_utf8(b).map_err(|e| format!("utf8 decode failed: {e}"))
}

/// The permissive padding strip: the trailing byte is read as a length
/// counter and that many bytes (everything, if it says more than there
/// is) are cut off the end. No check that the padding is well-formed —
/// the remote service's is not always.
pub open spec fn unpad_spec(s: Seq<u8>) -> Seq<u8> {
    if s.len() == 0 {
        s
    } else if s.last() as int > s.len() {
        Seq::empty()
    } else {
        s.take(s.len() - s.last() as int)
    }
}

/// Strips block padding permissively, for wire compatibility with the
/// service's own loosely-typed clients: trust the final byte as a
/// count, saturating at zero.
pub fn unpad_like_python(mut data: Vec<u8>) -> (r: Vec<u8>)
    ensures
        r@ == unpad_spec(data@),
{
    let ghost orig = data@;
    if data.len() == 0 {
        return data;
    }
    let pad = data[data.len() - 1] as usize;
    let new_len = if pad > data.len() {
        0
    } else {
        data.len() - pad
    };
    data.truncate(new_len);
    assert(data@ =~= unpad_spec(orig)) by {
        assert(orig.last() == orig[orig.len() - 1]);
    }
    data
}

/// An uppercase or lowercase hexadecimal digit character for `d`.
pub open spec fn hex_digit(d: int) -> char {
    if d == 0 {
        '0'
    } else if d == 1 {
        '1'
    } else if d == 2 {
        '2'
    } else if d == 3 {
        '3'
    } else if d == 4 {
        '4'
    } else if d == 5 {
        '5'
    } else if d == 6 {
        '6'
    } else if d == 7 {
        '7'
    } else if d == 8 {
        '8'
    } else if d == 9 {
        '9'
    } else if d == 10 {
        'a'
    } else if d == 11 {
        'b'
    } else if d == 12 {
        'c'
    } else if d == 13 {
        'd'
    } else if d == 14 {
        'e'
    } else {
        'f'
    }
}

/// Two lowercase hex digits for one byte.
pub open spec fn hex_pair(b: u8) -> Seq<char> {
    seq![hex_digit(b as int / 16), hex_digit(b as int % 16)]
}

/// Hex pairs of a byte sequence joined with single spaces.
pub open spec fn hex_preview_join(s: Seq<u8>) -> Seq<char>
    decreases s.len(),
{
    if s.len() == 0 {
        Seq::empty()
    } else if s.len() == 1 {
        hex_pair(s[0])
    } else {
        hex_preview_join(s.drop_last()).add(seq![' ']).add(hex_pair(s.last()))
    }
}

fn hex_digit_char(d: u8) -> (c: char)
    requires
        d < 16,
    ensures
        c == hex_digit(d as int),
{
    match d {
        0 => '0',
        1 => '1',
        2 => '2',
        3 => '3',
        4 => '4',
        5 => '5',
        6 => '6',
        7 => '7',
        8 => '8',
        9 => '9',
        10 => 'a',
        11 => 'b',
        12 => 'c',
        13 => 'd',
        14 => 'e',
        _ => 'f',
    }
}

/// Space-separated lowercase hex of at most the first `limit` bytes.
pub fn preview_bytes_hex(bytes: &[u8], limit: usize) -> (r: String)
    ensures
        ({
            let n = if bytes@.len() <= limit as int { bytes@.len() as int } else { limit as int };
            r@ == hex_preview_join(bytes@.take(n))
        }),
{
    let n = if bytes.len() < limit {
        bytes.len()
    } else {
        limit
    };
    let mut out = String::new();
    let mut i: usize = 0;
    while i < n
        invariant
            n <= bytes@.len(),
            0 <= i <= n,
            out@ == hex_preview_join(bytes@.take(i as int)),
        decreases n - i,
    {
        if i > 0 {
            push_char(&mut out, ' ');
        }
        let b = bytes[i];
        push_char(&mut out, hex_digit_char(b / 16));
        push_char(&mut out, hex_digit_char(b % 16));
        proof {
            let t = bytes@.take(i + 1);
            assert(t.drop_last() =~= bytes@.take(i as int));
            assert(t.last() == bytes@[i as int]);
            if i == 0 {
                assert(out@ =~= hex_preview_join(t));
            } else {
                assert(out@ =~= hex_preview_join(t));
            }
        }
        i = i + 1;
    }
    out
}

/// The characters the JSON shape test skips over before looking at the
/// first significant one.
pub open spec fn is_json_lead_ws(c: char) -> bool {
    c == '\u{0}' || c == ' ' || c == '\n' || c == '\r' || c == '\t'
}

/// After skipping leading NUL and whitespace characters, the text starts
/// with `{` or `[`.
pub open spec fn json_like(s: Seq<char>) -> bool {
    let t = drop_while(s, |c: char| is_json_lead_ws(c));
    t.len() > 0 && (t[0] == '{' || t[0] == '[')
}

fn char_is_json_lead_ws(c: char) -> (r: bool)
    ensures
        r == is_json_lead_ws(c),
{
    c == '\u{0}' || c == ' ' || c == '\n' || c == '\r' || c == '\t'
}

/// Whether decoded text looks like a JSON document: `{` or `[` first,
/// ignoring leading NUL and whitespace.
pub fn looks_like_json_utf8(s: &str) -> (r: bool)
    ensures
        r == json_like(s@),
{
    let ghost p = |c: char| is_json_lead_ws(c);
    let n = s.unicode_len();
    let mut i: usize = 0;
    while i < n && char_is_json_lead_ws(s.get_char(i))
        invariant
            n == s@.len(),
            0 <= i <= n,
            forall|k: int| 0 <= k < i ==> is_json_lead_ws(s@[k]),
        decreases n - i,
    {
        i = i + 1;
    }
    proof {
        assert(forall|k: int| 0 <= k < i ==> p(s@[k]));
        lemma_drop_while_at(s@, p, i as int);
    }
    if i >= n {
        return false;
    }
    let c = s.get_char(i);
    c == '{' || c == '['
}

/// The key material for the envelope cipher: the hex digest of the
/// decimal timestamp concatenated with the shared secret, as bytes.
pub open spec fn envelope_key_bytes(ts: int, secret: Seq<char>) -> Seq<u8> {
    encode_utf8(md5_hex_of(dec_of_int(ts).add(secret)))
}

/// What decoding one envelope payload yields: `None` exactly where the
/// decode fails — bad base64, a ciphertext that is not whole nonempty
/// blocks, plaintext that is not UTF-8, or text that is not JSON-shaped.
pub open spec fn decode_resp_chars(data_b64: Seq<char>, ts: int, secret: Seq<char>) -> Option<
    Seq<char>,
> {
    let key = envelope_key_bytes(ts, secret);
    match b64_std_decode_of(data_b64) {
        Option::None => Option::None,
        Option::Some(ct) => {
            if ct.len() % 16 != 0 {
                Option::None
            } else {
                let plain = unpad_spec(aes256_ecb_dec_of(key, ct));
                if !valid_utf8(plain) {
                    Option::None
                } else {
                    let txt = decode_utf8(plain);
                    if json_like(txt) {
                        Option::Some(txt)
                    } else {
                        Option::None
                    }
                }
            }
        },
    }
}

proof fn lemma_hex_chars_ascii(s: Seq<char>)
    requires
        forall|i: int| 0 <= i < s.len() ==> is_lower_hex_digit(s[i]),
    ensures
        is_ascii_chars(s),
        encode_utf8(s).len() == s.len(),
{
    assert forall|i: int| 0 <= i < s.len() implies '\0' <= #[trigger] s[i] <= '\u{7f}' by {
        assert(is_lower_hex_digit(s[i]));
    }
    is_ascii_chars_encode_utf8(s);
}

/// Decode one envelope payload: derive the key from the timestamp and
/// secret, base64-decode, decrypt, strip the permissive padding, and
/// insist on JSON-shaped UTF-8. Fails with a decode error exactly where
/// `decode_resp_chars` is `None`.
pub fn decode_resp_data(data_b64: &str, ts: i64, secret: &str) -> (r: Result<String, CoreError>)
    ensures
        r is Ok <==> decode_resp_chars(data_b64@, ts as int, secret@) is Some,
        r is Ok ==> r->Ok_0@ == decode_resp_chars(data_b64@, ts as int, secret@)->Some_0,
        r is Err ==> r->Err_0 is Decode,
{
    let mut key_src = i64_to_dec(ts);
    key_src.append(secret);
    let key_hex = md5_hex(key_src.as_str());
    proof {
        lemma_hex_chars_ascii(key_hex@);
    }
    let key_bytes = key_hex.as_str().as_bytes_vec();
    assert(key_bytes@ == envelope_key_bytes(ts as int, secret@));
    assert(key_bytes@.len() == 32);

    let ct = match b64_std_decode(data_b64) {
        Ok(v) => v,
        Err(message) => {
            return Err(CoreError::Decode { message });
        },
    };
    let padded = match aes256_ecb_decrypt(key_bytes.as_slice(), ct.as_slice()) {
        Ok(v) => v,
        Err(message) => {
            return Err(CoreError::Decode { message });
        },
    };
    let plain = unpad_like_python(padded);
    let text = match bytes_to_utf8(plain) {
        Ok(v) => v,
        Err(message) => {
            return Err(CoreError::Decode { message });
        },
    };
    if !looks_like_json_utf8(text.as_str()) {
        return Err(CoreError::Decode { message: decode_not_json_message() });
    }
    Ok(text)
}

/// The decode error cases the envelope codec owes its callers: a
/// well-formed ciphertext whose decryption is not UTF-8 fails, and so
/// does UTF-8 plaintext that is not JSON-shaped after the leading skip.
pub proof fn lemma_decode_rejects_bad_plaintext(data_b64: Seq<char>, ts: int, secret: Seq<char>)
    ensures
        (match b64_std_decode_of(data_b64) {
            Option::Some(ct) => ct.len() % 16 == 0 && !valid_utf8(
                unpad_spec(aes256_ecb_dec_of(envelope_key_bytes(ts, secret), ct)),
            ),
            Option::None => false,
        }) ==> decode_resp_chars(data_b64, ts, secret) is None,
        (match b64_std_decode_of(data_b64) {
            Option::Some(ct) => ct.len() % 16 == 0 && valid_utf8(
                unpad_spec(aes256_ecb_dec_of(envelope_key_bytes(ts, secret), ct)),
            ) && !json_like(
                decode_utf8(unpad_spec(aes256_ecb_dec_of(envelope_key_bytes(ts, secret), ct))),
            ),
            Option::None => false,
        }) ==> decode_resp_chars(data_b64, ts, secret) is None,
{
}

/// The fixed message for a decrypted text that is not JSON-shaped.
pub fn decode_not_json_message() -> (r: String)
    ensures
        r@ == "decoded text is not json-like"@,
{
    let m = "decoded text is not json-like";
    m.to_owned()
}

/// `s` right-padded with `=` to a multiple of four characters, the
/// tolerance the discovery payload needs.
pub open spec fn pad_b64_spec(s: Seq<char>) -> Seq<char> {
    if s.len() % 4 == 0 {
        s
    } else {
        s.add(Seq::new((4 - s.len() % 4) as nat, |i: int| '='))
    }
}

/// Right-pads a base64 text with `=` to a multiple of four characters.
pub fn pad_b64(s: &str) -> (r: String)
    ensures
        r@ == pad_b64_spec(s@),
{
    let n = s.unicode_len();
    let mut out = s.to_owned();
    if n % 4 == 0 {
        return out;
    }
    let k = 4 - n % 4;
    let mut j: usize = 0;
    while j < k
        invariant
            n == s@.len(),
            n % 4 != 0,
            k == 4 - n % 4,
            0 <= j <= k,
            out@ == s@.add(Seq::new(j as nat, |i: int| '=')),
        decreases k - j,
    {
        push_char(&mut out, '=');
        proof {
            assert(out@ =~= s@.add(Seq::new((j + 1) as nat, |i: int| '=')));
        }
        j = j + 1;
    }
    assert(out@ == pad_b64_spec(s@));
    out
}

/// What decoding the mirror-discovery payload yields: trim, pad the
/// base64 text, try the standard then the URL-safe alphabet, decrypt
/// under the digest of the fixed discovery secret, strip padding, and
/// decode UTF-8. No JSON shape check here.
pub open spec fn decode_domain_chars(data_b64: Seq<char>, secret: Seq<char>) -> Option<Seq<char>> {
    let t = pad_b64_spec(trim_spec(data_b64));
    let key = encode_utf8(md5_hex_of(secret));
    let ct_opt = if b64_std_decode_of(t) is Some {
        b64_std_decode_of(t)
    } else {
        b64_url_decode_of(t)
    };
    match ct_opt {
        Option::None => Option::None,
        Option::Some(ct) => {
            if ct.len() % 16 != 0 {
                Option::None
            } else {
                let plain = unpad_spec(aes256_ecb_dec_of(key, ct));
                if valid_utf8(plain) {
                    Option::Some(decode_utf8(plain))
                } else {
                    Option::None
                }
            }
        },
    }
}

/// Decode the separately encrypted mirror-discovery payload.
pub fn decode_domain_server_payload(data_b64: &str, secret: &str) -> (r: Result<
    String,
    CoreError,
>)
    ensures
        r is Ok <==> decode_domain_chars(data_b64@, secret@) is Some,
        r is Ok ==> r->Ok_0@ == decode_domain_chars(data_b64@, secret@)->Some_0,
        r is Err ==> r->Err_0 is Decode,
{
    let key_hex = md5_hex(secret);
    proof {
        lemma_hex_chars_ascii(key_hex@);
    }
    let key_bytes = key_hex.as_str().as_bytes_vec();
    assert(key_bytes@.len() == 32);

    let trimmed = str_trim(data_b64);
    let padded_text = pad_b64(trimmed.as_str());

    let ct = match b64_std_decode(padded_text.as_str()) {
        Ok(v) => v,
        Err(_) => {
            match b64_url_decode(padded_text.as_str()) {
                Ok(v) => v,
                Err(message) => {
                    return Err(CoreError::Decode { message });
                },
            }
        },
    };
    let padded = match aes256_ecb_decrypt(key_bytes.as_slice(), ct.as_slice()) {
        Ok(v) => v,
        Err(message) => {
            return Err(CoreError::Decode { message });
        },
    };
    let plain = unpad_like_python(padded);
    match bytes_to_utf8(plain) {
        Ok(v) => Ok(v),
        Err(message) => Err(CoreError::Decode { message }),
    }
}

} // verus!
