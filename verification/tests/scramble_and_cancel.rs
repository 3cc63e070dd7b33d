use jmcore::cache::materialize_guard;
use jmcore::cancel::CancelRegistry;
use jmcore::scramble::{
    api_segmentation_nums, get_segmentation_num, parse_scramble_id, scramble_id_from_body,
};
use jmcore::CoreError;

#[test]
fn segmentation_below_threshold_is_zero() {
    assert_eq!(get_segmentation_num(100, 220980, "00001.webp"), 0);
    assert_eq!(get_segmentation_num(220979, 220980, "x"), 0);
}

#[test]
fn segmentation_legacy_constant() {
    assert_eq!(get_segmentation_num(220980, 220980, "00001.webp"), 10);
    assert_eq!(get_segmentation_num(268849, 1, "anything"), 10);
}

#[test]
fn segmentation_modern_ranges() {
    for id in [268850i64, 300000, 421926] {
        let n = get_segmentation_num(id, 1, "00001.webp");
        assert!((2..=20).contains(&n), "id={id} gave {n}");
        assert_eq!(n % 2, 0);
    }
    for id in [421927i64, 500000, 1000000] {
        let n = get_segmentation_num(id, 1, "00001.webp");
        assert!((2..=16).contains(&n), "id={id} gave {n}");
        assert_eq!(n % 2, 0);
    }
}

#[test]
fn segmentation_is_deterministic() {
    let a = get_segmentation_num(433300, 220980, "00007.webp");
    let b = get_segmentation_num(433300, 220980, "00007.webp");
    assert_eq!(a, b);
    // The known formula: 2 + 2 * (ord(last hex digit of md5(id ++ name)) % 8).
    let digest = format!("{:x}", md5::compute("43330000007.webp".as_bytes()));
    let last = *digest.as_bytes().last().unwrap() as i64;
    assert_eq!(a, last % 8 * 2 + 2);
}

#[test]
fn scramble_id_parses_from_template() {
    let html = "<script>var scramble_id = 220980; var x = 1;</script>";
    assert_eq!(parse_scramble_id(html), Some(220980));
    assert_eq!(parse_scramble_id("no marker here"), None);
    assert_eq!(parse_scramble_id("var scramble_id = ;"), None);
    assert_eq!(scramble_id_from_body("nothing"), 220980);
    assert_eq!(scramble_id_from_body("var scramble_id = 7 "), 7);
}

#[test]
fn segmentation_nums_maps_names() {
    let names = vec!["a.webp".to_string(), "b.webp".to_string()];
    let out = api_segmentation_nums("100", 220980, &names).unwrap();
    assert_eq!(out, vec![0, 0]);
    let err = api_segmentation_nums("not-a-number", 220980, &names);
    assert!(matches!(err, Err(CoreError::Decode { .. })));
}

#[test]
fn cancellation_set_before_materialize_blocks_it() {
    let mut reg = CancelRegistry::new();
    reg.cancel("session-1", 1000);
    let r = materialize_guard(&reg, Some("session-1"));
    assert!(matches!(r, Err(CoreError::Cancelled)));
    // Another session is unaffected, and no key means no cancellation.
    assert!(materialize_guard(&reg, Some("session-2")).is_ok());
    assert!(materialize_guard(&reg, None).is_ok());
}

#[test]
fn token_keeps_flag_until_expiry() {
    let mut reg = CancelRegistry::new();
    let t0 = reg.token_for("k", 1000);
    assert!(!t0);
    reg.cancel("k", 1001);
    assert!(reg.is_cancelled("k"));
    // Within the TTL the flag survives a trim, and fetching the token
    // again sees it set.
    reg.cleanup(1100);
    assert!(reg.is_cancelled("k"));
    assert!(reg.token_for("k", 1200));
    // Idle past ten minutes (after its last touch), the entry is dropped.
    reg.cleanup(1200 + 601);
    assert!(!reg.is_cancelled("k"));
}

#[test]
fn registry_caps_entries_oldest_first() {
    let mut reg = CancelRegistry::new();
    for i in 0..600u32 {
        let key = format!("key-{i}");
        let _ = reg.token_for(&key, 1000 + i as i64);
    }
    reg.cleanup(1700);
    // The cap holds, and the newest-touched keys survive.
    assert!(!reg.is_cancelled("key-0"));
    reg.cancel("key-599", 1701);
    assert!(reg.is_cancelled("key-599"));
}
