use jmcore::mirror::{normalize_api_base, normalize_api_base_root, MirrorPool};
use jmcore::text::{i64_to_dec, parse_i64, str_contains_sub, str_find_sub, str_trim, u64_to_dec};

#[test]
fn trim_strips_both_ends() {
    assert_eq!(str_trim("  hello \t\r\n"), "hello");
    assert_eq!(str_trim(""), "");
    assert_eq!(str_trim(" \t "), "");
    assert_eq!(str_trim("inner space kept"), "inner space kept");
}

#[test]
fn decimal_rendering() {
    assert_eq!(u64_to_dec(0), "0");
    assert_eq!(u64_to_dec(421926), "421926");
    assert_eq!(i64_to_dec(-17), "-17");
    assert_eq!(i64_to_dec(i64::MIN), "-9223372036854775808");
    assert_eq!(i64_to_dec(i64::MAX), "9223372036854775807");
}

#[test]
fn decimal_parsing() {
    assert_eq!(parse_i64("268850"), Some(268850));
    assert_eq!(parse_i64("-42"), Some(-42));
    assert_eq!(parse_i64("+7"), Some(7));
    assert_eq!(parse_i64(""), None);
    assert_eq!(parse_i64("-"), None);
    assert_eq!(parse_i64("12a"), None);
    assert_eq!(parse_i64("9223372036854775807"), Some(i64::MAX));
    assert_eq!(parse_i64("-9223372036854775808"), Some(i64::MIN));
    assert_eq!(parse_i64("9223372036854775808"), None);
}

#[test]
fn substring_search() {
    assert_eq!(str_find_sub("abcabc", "bc"), Some(1));
    assert_eq!(str_find_sub("abc", "zz"), None);
    assert!(str_contains_sub("var scramble_id = 220980;", "var scramble_id = "));
}

#[test]
fn normalization_adds_scheme_and_strips_slashes() {
    assert_eq!(normalize_api_base(" www.example.com "), Some("https://www.example.com".to_string()));
    assert_eq!(
        normalize_api_base("http://a.example/"),
        Some("http://a.example".to_string())
    );
    assert_eq!(normalize_api_base("   "), None);
}

#[test]
fn normalization_cuts_to_origin() {
    assert_eq!(
        normalize_api_base_root("https://host.example/path/deep?q=1"),
        Some("https://host.example".to_string())
    );
    assert_eq!(
        normalize_api_base_root("host.example/path"),
        Some("https://host.example".to_string())
    );
    assert_eq!(
        normalize_api_base_root("https://host.example"),
        Some("https://host.example".to_string())
    );
    // A fragment or query with no slash before it is stripped too: the
    // origin is scheme and host alone.
    assert_eq!(
        normalize_api_base_root("https://host.example#frag"),
        Some("https://host.example".to_string())
    );
    assert_eq!(
        normalize_api_base_root("https://host.example?q=1"),
        Some("https://host.example".to_string())
    );
}

#[test]
fn candidates_start_at_cursor_and_visit_all_once() {
    let bases = vec![
        "https://a.example".to_string(),
        "https://b.example".to_string(),
        "https://c.example".to_string(),
    ];
    let mut pool = MirrorPool::new(bases);
    pool.pin(1);
    let cs = pool.api_base_candidates();
    assert_eq!(cs.len(), 3);
    assert_eq!(cs[0].0, 1);
    assert_eq!(cs[0].1, "https://b.example");
    assert_eq!(cs[1].0, 2);
    assert_eq!(cs[2].0, 0);
    let mut seen = vec![false, false, false];
    for (idx, _) in &cs {
        assert!(!seen[*idx]);
        seen[*idx] = true;
    }
    assert!(seen.iter().all(|s| *s));
}

#[test]
fn empty_commit_keeps_pool() {
    let mut pool = MirrorPool::new(vec!["https://a.example".to_string()]);
    let changed = pool.update_api_domain_cache(Vec::new());
    assert!(!changed);
    assert_eq!(pool.get_api_bases(), vec!["https://a.example".to_string()]);
    let changed2 = pool.update_api_domain_cache(vec!["https://b.example".to_string()]);
    assert!(changed2);
    assert_eq!(pool.current_api_base(), Some("https://b.example".to_string()));
}
