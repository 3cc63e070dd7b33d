use base64::Engine as _;
use cipher::{BlockModeEncrypt, KeyInit};
use jmcore::config::{api_domain_cache_path, config_path, current_socks_proxy, AppConfig};
use jmcore::discovery::{
    load_api_base_list, normalize_base_list, parse_api_domain_list, parse_api_domain_payload,
    process_discovery_response, split_tokens, strip_leading_non_ascii,
};
use jmcore::web::{
    form_outcome, host_of, normalize_verify_url, parse_toastr_message, str_replace_all,
    web_base_from_opt,
};

#[test]
fn toastr_messages() {
    let ok_html = "<script>toastr['success'](\"Welcome back\")</script>";
    assert_eq!(parse_toastr_message(ok_html), (true, "Welcome back".to_string()));
    let err_html = "<script>toastr['error'](\"Wrong captcha\")</script>";
    assert_eq!(parse_toastr_message(err_html), (false, "Wrong captcha".to_string()));
    assert_eq!(parse_toastr_message("<html></html>"), (false, String::new()));
    // The success needle wins even when the closing it finds belongs to
    // a later toast: everything up to that closing is the message.
    let broken = "toastr['success'](\"unterminated... toastr['error'](\"real one\")";
    assert_eq!(
        parse_toastr_message(broken),
        (true, "unterminated... toastr['error'](\"real one".to_string())
    );
}

#[test]
fn form_outcomes() {
    assert_eq!(
        form_outcome(200, true, "done".to_string(), "signup http status ").unwrap(),
        (true, "done".to_string())
    );
    assert_eq!(
        form_outcome(302, false, String::new(), "signup http status ").unwrap(),
        (true, String::new())
    );
    let err = form_outcome(500, false, String::new(), "signup http status ");
    match err {
        Err(jmcore::CoreError::Application { message, .. }) => {
            assert_eq!(message, "signup http status 500");
        },
        other => panic!("expected an error, got {other:?}"),
    }
    assert_eq!(
        form_outcome(200, false, "no".to_string(), "p").unwrap(),
        (false, "no".to_string())
    );
}

#[test]
fn verify_url_moves_host() {
    let base = "https://web.example/whatever";
    assert_eq!(host_of(base), "web.example");
    assert_eq!(
        normalize_verify_url(" https://old.example/confirm/abc?x=1 ", base),
        "https://web.example/confirm/abc?x=1"
    );
    // Same host: untouched. No host in the input: untouched.
    assert_eq!(
        normalize_verify_url("https://web.example/ok", base),
        "https://web.example/ok"
    );
    assert_eq!(normalize_verify_url("relative/path", base), "relative/path");
    assert_eq!(normalize_verify_url("   ", base), "");
}

#[test]
fn replace_all_replaces_every_occurrence() {
    assert_eq!(str_replace_all("a.b a.b", "a.b", "X"), "X X");
    assert_eq!(str_replace_all("aaa", "aa", "b"), "ba");
    assert_eq!(str_replace_all("abc", "", "z"), "abc");
}

#[test]
fn web_base_fallback() {
    assert_eq!(
        web_base_from_opt(Some(" https://w.example/ "), "https://fallback.example"),
        "https://w.example"
    );
    assert_eq!(
        web_base_from_opt(Some("not-a-url"), "https://fallback.example"),
        "https://fallback.example"
    );
    assert_eq!(web_base_from_opt(None, "https://fallback.example"), "https://fallback.example");
}

#[test]
fn token_splitting_and_lists() {
    let toks = split_tokens("a.example, b.example\nc.example\t d.example");
    assert_eq!(toks, vec!["a.example", "b.example", "c.example", "d.example"]);
    let list = parse_api_domain_list("a.example, a.example b.example/path");
    assert_eq!(list, vec!["https://a.example", "https://b.example"]);
}

#[test]
fn payload_prefers_server_field() {
    let arr = "{\"Server\":[\"s1.example\",\"s2.example\",\"s1.example\"]}";
    assert_eq!(
        parse_api_domain_payload(arr),
        vec!["https://s1.example", "https://s2.example"]
    );
    let text = "{\"Server\":\"t1.example,t2.example\"}";
    assert_eq!(
        parse_api_domain_payload(text),
        vec!["https://t1.example", "https://t2.example"]
    );
    assert_eq!(parse_api_domain_payload("{\"Other\":1}"), Vec::<String>::new());
    assert_eq!(parse_api_domain_payload("not json"), Vec::<String>::new());
}

#[test]
fn discovery_response_end_to_end() {
    let secret = "diosfjckwpqpdfjkvnqQjsik";
    let key = format!("{:x}", md5::compute(secret.as_bytes())).into_bytes();
    let plain = "{\"Server\":[\"m1.example\",\"m2.example\"]}";
    let padded_len = (plain.len() / 16 + 1) * 16;
    let mut buf = vec![0u8; padded_len];
    ecb::Encryptor::<aes::Aes256>::new_from_slice(&key)
        .unwrap()
        .encrypt_padded_b2b::<cipher::block_padding::Pkcs7>(plain.as_bytes(), &mut buf)
        .unwrap();
    let b64 = base64::engine::general_purpose::STANDARD.encode(buf);
    // Some responses carry leading non-ASCII noise.
    let body = format!("\u{feff}\u{fffd}{b64}");
    let list = process_discovery_response(&body, secret);
    assert_eq!(list, vec!["https://m1.example", "https://m2.example"]);
    // An undecodable body falls back to a bare-hostname reading.
    let fallback = process_discovery_response("x1.example x2.example", secret);
    assert_eq!(fallback, vec!["https://x1.example", "https://x2.example"]);
}

#[test]
fn noise_stripping() {
    assert_eq!(strip_leading_non_ascii("\u{feff}\u{4e2d}abc"), "abc");
    assert_eq!(strip_leading_non_ascii("abc"), "abc");
    assert_eq!(strip_leading_non_ascii("\u{4e2d}\u{6587}"), "\u{4e2d}\u{6587}");
}

#[test]
fn seeding_precedence() {
    let cached = vec!["cached.example".to_string()];
    let config = vec!["conf.example".to_string()];
    let empty: Vec<String> = Vec::new();
    // Cache first, then config, deduplicated.
    let seeded = load_api_base_list(&cached, &config, None, None, &empty, "fb.example");
    assert_eq!(seeded, vec!["https://cached.example", "https://conf.example"]);
    // Nothing configured: the default list.
    let defaults = vec!["def.example".to_string()];
    let seeded2 = load_api_base_list(&empty, &empty, None, None, &defaults, "fb.example");
    assert_eq!(seeded2, vec!["https://def.example"]);
    // Nothing at all: the hard-coded fallback.
    let seeded3 = load_api_base_list(&empty, &empty, None, None, &empty, "fb.example");
    assert_eq!(seeded3, vec!["https://fb.example"]);
    // A single override only applies when everything above is empty.
    let seeded4 = load_api_base_list(&empty, &empty, None, Some("one.example"), &empty, "fb");
    assert_eq!(seeded4, vec!["https://one.example"]);
    let norm = normalize_base_list(&vec!["a.example/".to_string(), "a.example".to_string()]);
    assert_eq!(norm, vec!["https://a.example"]);
}

#[test]
fn config_document_paths() {
    assert_eq!(config_path("/data"), "/data/config.json");
    assert_eq!(api_domain_cache_path("/data"), "/data/api-domain-list.json");
    let mut cfg = AppConfig::new();
    assert!(current_socks_proxy(&cfg).is_none());
    cfg.socks_proxy = Some("socks5://127.0.0.1:9050".to_string());
    assert_eq!(current_socks_proxy(&cfg), Some("socks5://127.0.0.1:9050".to_string()));
}
