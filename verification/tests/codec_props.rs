use base64::Engine as _;
use cipher::{BlockModeEncrypt, KeyInit};
use jmcore::codec::{
    decode_domain_server_payload, decode_resp_data, looks_like_json_utf8, preview_bytes_hex,
    unpad_like_python,
};
use jmcore::CoreError;

type Aes256EcbEnc = ecb::Encryptor<aes::Aes256>;

fn md5_hex_str(s: &str) -> String {
    format!("{:x}", md5::compute(s.as_bytes()))
}

fn aes_encrypt_pkcs7(key: &[u8], plain: &[u8]) -> Vec<u8> {
    let padded_len = (plain.len() / 16 + 1) * 16;
    let mut buf = vec![0u8; padded_len];
    let enc = Aes256EcbEnc::new_from_slice(key).unwrap();
    enc.encrypt_padded_b2b::<cipher::block_padding::Pkcs7>(plain, &mut buf)
        .unwrap();
    buf
}

fn make_envelope_payload(plain: &str, ts: i64, secret: &str) -> String {
    let key = md5_hex_str(&format!("{ts}{secret}")).into_bytes();
    let ct = aes_encrypt_pkcs7(&key, plain.as_bytes());
    base64::engine::general_purpose::STANDARD.encode(ct)
}

#[test]
fn envelope_round_trip() {
    let ts = 1700000000i64;
    let secret = "185Hcomic3PAPP7R";
    let payload = make_envelope_payload("{\"list\":[1,2,3]}", ts, secret);
    let out = decode_resp_data(&payload, ts, secret).unwrap();
    assert_eq!(out, "{\"list\":[1,2,3]}");
}

#[test]
fn envelope_rejects_bad_base64() {
    let r = decode_resp_data("!!!not-base64!!!", 1, "s");
    assert!(matches!(r, Err(CoreError::Decode { .. })));
}

#[test]
fn envelope_rejects_non_utf8_plaintext() {
    let ts = 5i64;
    let secret = "185Hcomic3PAPP7R";
    let key = md5_hex_str(&format!("{ts}{secret}")).into_bytes();
    // One block that decrypts to essentially random (non-UTF-8) bytes:
    // encrypt invalid UTF-8 so the decryption is exactly those bytes.
    let bad: Vec<u8> = vec![0xff, 0xfe, 0x80, 0x81, 0xc0, 0xc1, 0xf8, 0xff, 1, 2, 3, 4, 5, 6, 7];
    let ct = aes_encrypt_pkcs7(&key, &bad);
    let b64 = base64::engine::general_purpose::STANDARD.encode(ct);
    let r = decode_resp_data(&b64, ts, secret);
    assert!(matches!(r, Err(CoreError::Decode { .. })));
}

#[test]
fn envelope_rejects_non_json_plaintext() {
    let ts = 6i64;
    let secret = "185Hcomic3PAPP7R";
    let payload = make_envelope_payload("plain text, not json", ts, secret);
    let r = decode_resp_data(&payload, ts, secret);
    assert!(matches!(r, Err(CoreError::Decode { .. })));
}

#[test]
fn envelope_key_is_timestamp_sensitive() {
    let secret = "185Hcomic3PAPP7R";
    let payload = make_envelope_payload("{\"a\":1}", 100, secret);
    // Decoding under another timestamp derives another key; the bytes
    // will not decrypt to JSON-shaped UTF-8.
    let r = decode_resp_data(&payload, 101, secret);
    assert!(r.is_err());
}

#[test]
fn permissive_unpad_trusts_final_byte() {
    // A strict PKCS7 check would reject this: padding bytes disagree.
    assert_eq!(unpad_like_python(vec![10, 20, 30, 9, 7, 3]), vec![10, 20, 30]);
    // The counter saying more than there is truncates to nothing.
    assert_eq!(unpad_like_python(vec![1, 2, 200]), Vec::<u8>::new());
    assert_eq!(unpad_like_python(Vec::new()), Vec::<u8>::new());
}

#[test]
fn empty_payload_decodes_to_empty_text() {
    // An empty base64 payload is an empty ciphertext: zero blocks
    // decrypt to the empty buffer, so the discovery decode yields the
    // empty text, while the envelope decode rejects it as not
    // JSON-shaped.
    let out = decode_domain_server_payload("", "diosfjckwpqpdfjkvnqQjsik").unwrap();
    assert_eq!(out, "");
    let r = decode_resp_data("", 1, "185Hcomic3PAPP7R");
    assert!(matches!(r, Err(CoreError::Decode { .. })));
}

#[test]
fn json_shape_check() {
    assert!(looks_like_json_utf8("{\"a\":1}"));
    assert!(looks_like_json_utf8("\u{0}  \n\t[1,2]"));
    assert!(!looks_like_json_utf8("hello {"));
    assert!(!looks_like_json_utf8(""));
}

#[test]
fn hex_preview_formats_spaced_pairs() {
    assert_eq!(preview_bytes_hex(&[0x00, 0xab, 0x0f], 10), "00 ab 0f");
    assert_eq!(preview_bytes_hex(&[0x12, 0x34, 0x56], 2), "12 34");
    assert_eq!(preview_bytes_hex(&[], 4), "");
}

#[test]
fn domain_payload_round_trip_with_missing_padding() {
    let secret = "diosfjckwpqpdfjkvnqQjsik";
    let key = md5_hex_str(secret).into_bytes();
    let plain = "{\"Server\":[\"a.example\",\"b.example\"]}";
    let ct = aes_encrypt_pkcs7(&key, plain.as_bytes());
    let mut b64 = base64::engine::general_purpose::STANDARD.encode(ct);
    // The discovery payload may arrive without its base64 padding.
    while b64.ends_with('=') {
        b64.pop();
    }
    let out = decode_domain_server_payload(&b64, secret).unwrap();
    assert_eq!(out, plain);
}
