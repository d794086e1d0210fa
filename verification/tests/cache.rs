use pledge::cache::lfu::{CacheInner, CachedResponse, Entry};
use pledge::clock::Moment;
use std::sync::Arc;

fn helper_get_data_length(entry: &Entry) -> u64 {
    let row_desc_len = entry.data.row_desc.as_ref().map_or(0, Vec::len);
    let param_desc_len = entry.data.param_desc.as_ref().map_or(0, Vec::len);
    entry.data.data.len() as u64 + row_desc_len as u64 + param_desc_len as u64
}

fn helper_overhead(key: &str) -> u64 {
    let entry = Entry {
        data: Arc::new(CachedResponse {
            data: vec![1],
            row_desc: None,
            param_desc: None,
        }),
        counter: 0,
        expires_at: Moment { secs: 0, nanos: 0 },
    };
    entry.get_size(key) - helper_get_data_length(&entry)
}

fn helper_response(data: Vec<u8>) -> Arc<CachedResponse> {
    Arc::new(CachedResponse {
        data,
        row_desc: None,
        param_desc: None,
    })
}

fn helper_create_1mb_entry_data(key: &str) -> Arc<CachedResponse> {
    let one_mb_in_bytes: u64 = 1_048_576;
    helper_response(helper_create_vector(one_mb_in_bytes - helper_overhead(key)))
}

fn helper_create_custom_size_entry_data(key: &str, total_bytes_size: u64) -> Arc<CachedResponse> {
    let overhead = helper_overhead(key);
    if total_bytes_size as i64 - overhead as i64 <= 0 {
        panic!("the total size is lower than the overhead");
    }
    helper_response(helper_create_vector(total_bytes_size - overhead))
}

fn helper_create_vector(size: u64) -> Vec<u8> {
    (0..size).map(|_| 255).collect()
}

fn helper_insert_entry(
    key: &str,
    data: Arc<CachedResponse>,
    expires_in: u64,
    inner: &mut CacheInner,
) {
    let expires_at = inner.now().plus_secs(expires_in);
    inner.insert(key.to_string(), data, expires_at);
}

fn helper_counter(inner: &CacheInner, key: &str) -> u64 {
    inner.entries.get(key).unwrap().counter
}

#[test]
fn test_new_cache_is_empty() {
    let inner = CacheInner::new(10 * 1024 * 1024);
    assert_eq!(inner.entries.len(), 0);
}

#[test]
fn test_insert_and_get() {
    let mut inner = CacheInner::new(10 * 1024 * 1024);
    let expires_at = inner.now().plus_secs(60);
    inner.insert(
        "key1".to_string(),
        Arc::new(CachedResponse {
            data: b"value1".to_vec(),
            param_desc: None,
            row_desc: None,
        }),
        expires_at,
    );

    let result = inner.get("key1");
    assert_eq!(
        result,
        (
            Some(Arc::new(CachedResponse {
                data: b"value1".to_vec(),
                row_desc: None,
                param_desc: None
            })),
            false
        )
    );
}

#[test]
fn test_get_nonexistent_key() {
    let mut inner = CacheInner::new(10 * 1024 * 1024);
    assert_eq!(inner.get("missing"), (None, false));
}

#[test]
fn test_remove() {
    let mut inner = CacheInner::new(10 * 1024 * 1024);
    helper_insert_entry("key1", helper_response(b"value1".to_vec()), 60, &mut inner);

    inner.remove("key1");

    assert_eq!(inner.get("key1"), (None, false));
    assert_eq!(inner.entries.len(), 0);
}

#[test]
fn test_insert_duplicate_key_updates_value() {
    let mut inner = CacheInner::new(10 * 1024 * 1024);
    helper_insert_entry("key1", helper_response(b"value1".to_vec()), 60, &mut inner);
    helper_insert_entry("key1", helper_response(b"updated".to_vec()), 60, &mut inner);

    assert_eq!(
        inner.get("key1"),
        (Some(helper_response(b"updated".to_vec())), false)
    );
    assert_eq!(inner.entries.len(), 1);
}

#[test]
fn test_evict_lfu_empty_cache() {
    let mut inner = CacheInner::new(10 * 1024 * 1024);
    inner.evict_lfu(); // should not panic
    assert_eq!(inner.entries.len(), 0);
}

#[test]
fn test_remove_nonexistent_key() {
    let mut cache = CacheInner::new(10 * 1024 * 1024);
    cache.remove("ghost"); // should not panic
}

#[test]
fn test_full_cache_evicts_non_accessed() {
    let mut inner = CacheInner::new(4 * 1024 * 1024);

    helper_insert_entry("key1", helper_create_1mb_entry_data("key1"), 60, &mut inner);
    helper_insert_entry("key2", helper_create_1mb_entry_data("key2"), 60, &mut inner);
    helper_insert_entry("key3", helper_create_1mb_entry_data("key3"), 60, &mut inner);
    helper_insert_entry("key4", helper_create_1mb_entry_data("key4"), 60, &mut inner);

    inner.get("key2");
    for _ in 0..10 {
        inner.get("key3");
        inner.get("key4");
    }
    helper_insert_entry("key5", helper_create_1mb_entry_data("key5"), 60, &mut inner);

    assert_eq!(inner.entries.len(), 4);
    assert_eq!(inner.entries.get("key1").is_none(), true);
    assert_eq!(inner.entries.get("key2").is_some(), true);
    assert_eq!(inner.entries.get("key3").is_some(), true);
    assert_eq!(inner.entries.get("key4").is_some(), true);
    assert_eq!(inner.entries.get("key5").is_some(), true);
}

#[test]
fn test_counter_increment() {
    let mut inner = CacheInner::new(1 * 1024 * 1024);
    helper_insert_entry("key1", helper_response(vec![1]), 60, &mut inner);

    assert_eq!(helper_counter(&inner, "key1"), 1);

    for _ in 1..5 {
        inner.get("key1");
    }
    assert_eq!(helper_counter(&inner, "key1"), 5);

    for _ in 5..100 {
        inner.get("key1");
    }
    assert_eq!(helper_counter(&inner, "key1"), 100);
    for _ in 100..1027 {
        inner.get("key1");
    }
    assert_eq!(helper_counter(&inner, "key1"), 1027);
}

#[test]
fn test_reinsert_preserves_counter() {
    let mut inner = CacheInner::new(1 * 1024 * 1024);
    helper_insert_entry("key1", helper_response(vec![1]), 60, &mut inner);

    assert_eq!(helper_counter(&inner, "key1"), 1);

    for _ in 1..5 {
        inner.get("key1");
    }
    assert_eq!(helper_counter(&inner, "key1"), 5);

    helper_insert_entry("key1", helper_response(vec![1, 2]), 60, &mut inner);
    assert_eq!(helper_counter(&inner, "key1"), 5);
}

#[test]
fn test_evict_equal_frequencies() {
    let mut inner = CacheInner::new(1 * 1024 * 1024);

    for i in 0..500 {
        helper_insert_entry(
            format!("key{}", i).as_str(),
            helper_response(vec![1]),
            60,
            &mut inner,
        );
    }
    assert_eq!(inner.entries.len(), 500);

    for i in 0..500 {
        inner.evict_lfu();
        assert_eq!(inner.entries.len(), 500 - (i + 1));
    }
    assert_eq!(inner.entries.len(), 0);
}

#[test]
fn test_evict_gradual_frequencies() {
    let mut inner = CacheInner::new(1 * 1024 * 1024);
    helper_insert_entry("key1", helper_response(vec![1]), 60, &mut inner);
    helper_insert_entry("key2", helper_response(vec![1]), 60, &mut inner);
    helper_insert_entry("key3", helper_response(vec![1]), 60, &mut inner);
    helper_insert_entry("key4", helper_response(vec![1]), 60, &mut inner);
    helper_insert_entry("key5", helper_response(vec![1]), 60, &mut inner);

    for _ in 0..1 {
        inner.get("key2");
    }
    for _ in 0..2 {
        inner.get("key3");
    }
    for _ in 0..3 {
        inner.get("key4");
    }
    for _ in 0..4 {
        inner.get("key5");
    }

    for i in 1..5 {
        assert_eq!(helper_counter(&inner, format!("key{}", i).as_str()), i);
    }

    inner.evict_lfu();
    assert_eq!(inner.entries.contains_key("key1"), false);
    for i in 2..5 {
        assert_eq!(
            inner.entries.contains_key(format!("key{}", i).as_str()),
            true
        );
    }

    inner.evict_lfu();
    assert_eq!(inner.entries.contains_key("key2"), false);
    for i in 3..5 {
        assert_eq!(
            inner.entries.contains_key(format!("key{}", i).as_str()),
            true
        );
    }

    inner.evict_lfu();
    assert_eq!(inner.entries.contains_key("key3"), false);
    for i in 4..5 {
        assert_eq!(
            inner.entries.contains_key(format!("key{}", i).as_str()),
            true
        );
    }

    inner.evict_lfu();
    assert_eq!(inner.entries.contains_key("key4"), false);
    assert_eq!(inner.entries.contains_key("key5"), true);
}

#[test]
fn test_current_size_bytes_adjusts_correctly() {
    let mut inner = CacheInner::new(10 * 1024 * 1024);

    assert_eq!(inner.current_size_bytes, 0);

    helper_insert_entry(
        "key1",
        helper_create_custom_size_entry_data("key1", 500),
        60,
        &mut inner,
    );

    assert_eq!(inner.current_size_bytes, 500);

    helper_insert_entry(
        "key2",
        helper_create_custom_size_entry_data("key2", 33),
        60,
        &mut inner,
    );
    assert_eq!(inner.current_size_bytes, 533);

    helper_insert_entry(
        "key3",
        helper_create_custom_size_entry_data("key3", 10_000_000),
        60,
        &mut inner,
    );
    assert_eq!(inner.current_size_bytes, 10_000_533);

    helper_insert_entry(
        "key4",
        helper_create_custom_size_entry_data("key4", 122),
        60,
        &mut inner,
    );
    assert_eq!(inner.current_size_bytes, 10_000_655);

    let rest = inner.max_size_bytes - (10_000_655);
    helper_insert_entry(
        "key5",
        helper_create_custom_size_entry_data("key5", rest),
        60,
        &mut inner,
    );
    assert_eq!(inner.current_size_bytes, inner.max_size_bytes);

    inner.get("key1");
    inner.get("key2");
    inner.get("key3");
    inner.get("key5");

    helper_insert_entry(
        "key6",
        helper_create_custom_size_entry_data("key6", 61), // half of key4, which makes room for it
        60,
        &mut inner,
    );

    assert_eq!(inner.current_size_bytes, inner.max_size_bytes - 61);

    inner.remove("key1");
    assert_eq!(inner.current_size_bytes, inner.max_size_bytes - 561);

    inner.remove("key3");
    assert_eq!(inner.current_size_bytes, inner.max_size_bytes - 10_000_561);

    inner.evict_lfu();
    assert_eq!(inner.current_size_bytes, inner.max_size_bytes - 10_000_622);

    inner.remove("key2");
    assert_eq!(inner.current_size_bytes, inner.max_size_bytes - 10_000_655);
}
