use jmcore::cache::{
    cache_eviction_plan, cover_cache_file_name, mime_from_path, read_cache_file_names,
    read_cache_key, read_cache_summary, sanitize_path_component, CacheDirStat,
};
use jmcore::urls::{
    build_album_url, build_category_query, build_page_url, build_post_url, build_query_url,
    build_search_url,
};

#[test]
fn sanitize_keeps_safe_characters() {
    assert_eq!(sanitize_path_component("ab-12_X.png"), "ab-12_X.png");
    assert_eq!(sanitize_path_component("../../etc/passwd"), "....etcpasswd");
    assert_eq!(sanitize_path_component("///"), "unknown");
    assert_eq!(sanitize_path_component(""), "unknown");
}

#[test]
fn materialize_key_is_deterministic_per_pair() {
    let url = "https://x/img.jpg";
    let a = read_cache_key(url, 4);
    let b = read_cache_key(url, 4);
    // Two concurrent first-time requests compute the same hash path, so
    // at most one file can exist under it.
    assert_eq!(a, b);
    assert_eq!(a, format!("{:x}", md5::compute("https://x/img.jpg|4".as_bytes())));
    assert_ne!(a, read_cache_key(url, 5));
    let (png, jpg) = read_cache_file_names(url, 4);
    assert_eq!(png, format!("{a}.png"));
    assert_eq!(jpg, format!("{a}.jpg"));
}

#[test]
fn cover_file_name_uses_url_hash_and_extension() {
    let name = cover_cache_file_name("https://img.example/covers/a01.webp?x=1#frag");
    let hash = format!("{:x}", md5::compute("https://img.example/covers/a01.webp?x=1#frag"));
    assert_eq!(name, format!("{hash}.webp"));
    let bare = cover_cache_file_name("https://img.example/noext");
    let bare_hash = format!("{:x}", md5::compute("https://img.example/noext"));
    assert_eq!(bare, format!("{bare_hash}.jpg"));
}

#[test]
fn mime_from_cached_path() {
    assert_eq!(mime_from_path("/cache/read/1/abc.png"), "image/png");
    assert_eq!(mime_from_path("/cache/read/1/abc.JPG"), "image/jpeg");
    assert_eq!(mime_from_path("c.jpeg"), "image/jpeg");
    assert_eq!(mime_from_path("c.webp"), "image/webp");
    assert_eq!(mime_from_path("c.txt"), "application/octet-stream");
    assert_eq!(mime_from_path("noext"), "application/octet-stream");
}

#[test]
fn eviction_removes_oldest_until_fit() {
    let entries = vec![
        CacheDirStat { aid: "a".to_string(), bytes: 100, newest_ms: 30 },
        CacheDirStat { aid: "b".to_string(), bytes: 100, newest_ms: 10 },
        CacheDirStat { aid: "c".to_string(), bytes: 100, newest_ms: 20 },
    ];
    let (evicted, kept) = cache_eviction_plan(entries, 150);
    let evicted_aids: Vec<String> = evicted.iter().map(|d| d.aid.clone()).collect();
    assert_eq!(evicted_aids, vec!["b".to_string(), "c".to_string()]);
    let kept_aids: Vec<String> = kept.iter().map(|d| d.aid.clone()).collect();
    assert_eq!(kept_aids, vec!["a".to_string()]);
    let (nothing, all_kept) = cache_eviction_plan(
        vec![CacheDirStat { aid: "a".to_string(), bytes: 10, newest_ms: 1 }],
        100,
    );
    assert!(nothing.is_empty());
    assert_eq!(all_kept.len(), 1);
}

#[test]
fn summary_counts_only_nonempty_dirs() {
    let per_dir = vec![
        ("1".to_string(), 3u64, 300u64),
        ("2".to_string(), 0u64, 0u64),
        ("3".to_string(), 2u64, 200u64),
    ];
    let stats = read_cache_summary(&per_dir);
    assert_eq!(stats.total_files, 5);
    assert_eq!(stats.total_bytes, 500);
    assert_eq!(stats.total_comics, 2);
}

#[test]
fn url_builders() {
    assert_eq!(
        build_page_url("https://m1.example/", "/latest", "3"),
        "https://m1.example/latest/?page=3"
    );
    assert_eq!(
        build_query_url("https://m1.example", "daily", Some("user_id=9")),
        "https://m1.example/daily/?user_id=9"
    );
    assert_eq!(
        build_query_url("https://m1.example", "categories", None),
        "https://m1.example/categories"
    );
    assert_eq!(build_post_url("https://m1.example//", "favorite"), "https://m1.example/favorite");
    assert_eq!(
        build_album_url("https://m1.example", "123"),
        "https://m1.example/album/?comicName=&id=123"
    );
}

#[test]
fn search_url_encodes_terms() {
    let url = build_search_url("https://m1.example", "tag a+b", "mr", "2");
    assert_eq!(
        url,
        "https://m1.example/search/?search_query=tag%20a%2Bb&o=mr&page=2"
    );
    let first_page = build_search_url("https://m1.example", "q", "", "1");
    assert_eq!(first_page, "https://m1.example/search/?search_query=q&o=");
}

#[test]
fn category_query_parts() {
    assert_eq!(
        build_category_query("doujin", "3", "mv"),
        Some("page=3&o=mv&c=doujin".to_string())
    );
    assert_eq!(build_category_query("", "1", ""), None);
    assert_eq!(build_category_query("", "2", ""), Some("page=2".to_string()));
    assert_eq!(build_category_query("cat", "x", ""), Some("c=cat".to_string()));
}
