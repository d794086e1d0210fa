use pledge::cache::lfu::{Cache, CacheInner, CachedResponse, Entry};
use pledge::clock::{Clock, Moment};
use std::sync::Arc;

fn response(data: &[u8]) -> CachedResponse {
    CachedResponse {
        data: data.to_vec(),
        row_desc: None,
        param_desc: None,
    }
}

fn at(secs: u64) -> Moment {
    Moment { secs, nanos: 0 }
}

#[test]
fn entry_expires_after_its_ttl() {
    let mut inner = CacheInner::new(10 * 1024 * 1024);
    inner.insert("key1".to_string(), Arc::new(response(b"value1")), at(10).plus_secs(1));

    assert_eq!(inner.get_at("key1", at(10)), (Some(Arc::new(response(b"value1"))), false));
    assert_eq!(inner.get_at("key1", at(11)), (Some(Arc::new(response(b"value1"))), false));
    assert_eq!(inner.get_at("key1", at(12)), (None, true));
    assert_eq!(inner.entries.len(), 1);
    inner.remove_if_expired_at("key1", at(11));
    assert_eq!(inner.entries.len(), 1);
    inner.remove_if_expired_at("key1", at(12));
    assert_eq!(inner.entries.len(), 0);
    assert_eq!(inner.current_size_bytes, 0);
}

#[test]
fn nothing_expires_before_the_clock_gets_there() {
    let mut inner = CacheInner::new(1024);
    let expires_at = inner.now().plus_secs(60);
    inner.insert("key1".to_string(), Arc::new(response(b"value1")), expires_at);
    inner.remove_if_expired("key1");
    inner.remove_if_expired("missing");
    assert_eq!(inner.get("key1"), (Some(Arc::new(response(b"value1"))), false));
}

#[test]
fn moments_are_ordered_by_seconds_and_nanoseconds() {
    let one = Moment { secs: 1, nanos: 5 };
    assert!(one.is_before(&Moment { secs: 1, nanos: 6 }));
    assert!(one.is_before(&Moment { secs: 2, nanos: 0 }));
    assert!(!one.is_before(&one));
    assert!(!one.is_before(&Moment { secs: 0, nanos: 9 }));
    assert_eq!(one.plus_secs(3), Moment { secs: 4, nanos: 5 });
    assert_eq!(one.plus_secs(u64::MAX), Moment { secs: u64::MAX, nanos: 5 });
}

#[test]
fn clock_does_not_run_backwards() {
    let clock = Clock::start();
    let first = clock.now();
    let copy = clock;
    let second = copy.now();
    assert!(!second.is_before(&first));
    assert!(first.secs < 60);
    assert!(second.nanos < 1_000_000_000);
}

#[test]
fn size_counts_every_part() {
    let entry = Entry {
        data: Arc::new(CachedResponse {
            data: vec![1; 10],
            row_desc: Some(vec![2; 7]),
            param_desc: Some(vec![3; 5]),
        }),
        expires_at: at(0),
        counter: 1,
    };
    let bare = Entry {
        data: Arc::new(response(b"")),
        expires_at: at(0),
        counter: 1,
    };
    assert_eq!(entry.get_size("kä"), bare.get_size("") + 10 + 7 + 5 + 3);
    assert_eq!(bare.get_size(""), 24);
    assert_eq!(std::mem::size_of::<Moment>(), 16);
    assert_eq!(std::mem::size_of::<std::time::Instant>(), 16);
}

#[test]
fn what_is_larger_than_the_shard_changes_nothing() {
    let mut inner = CacheInner::new(100);
    inner.insert("key1".to_string(), Arc::new(response(b"value1")), at(60));
    let before = inner.current_size_bytes;
    inner.insert("key2".to_string(), Arc::new(response(&[0; 200])), at(60));
    inner.insert("key1".to_string(), Arc::new(response(&[0; 200])), at(60));
    assert_eq!(inner.current_size_bytes, before);
    assert_eq!(inner.get_at("key1", at(0)), (Some(Arc::new(response(b"value1"))), false));
    assert_eq!(inner.get_at("key2", at(0)), (None, false));
}

#[test]
fn what_is_driven_out_was_used_least() {
    let overhead = 4 + 24;
    let mut inner = CacheInner::new(3 * (overhead + 10));
    for key in ["key1", "key2", "key3"] {
        inner.insert(key.to_string(), Arc::new(response(&[7; 10])), at(60));
    }
    inner.get_at("key1", at(0));
    inner.get_at("key1", at(0));
    inner.get_at("key2", at(0));
    // Room for two: the ones used once and twice go, the one used three times stays.
    inner.insert("key4".to_string(), Arc::new(response(&vec![7; overhead as usize + 20])), at(60));
    assert!(inner.entries.contains_key("key1"));
    assert!(!inner.entries.contains_key("key2"));
    assert!(!inner.entries.contains_key("key3"));
    assert!(inner.entries.contains_key("key4"));
    assert_eq!(inner.current_size_bytes, inner.max_size_bytes);
}

#[test]
fn of_equally_used_entries_the_oldest_goes_first() {
    let mut inner = CacheInner::new(1024);
    for key in ["b", "a", "c"] {
        inner.insert(key.to_string(), Arc::new(response(b"x")), at(60));
    }
    inner.evict_lfu();
    assert!(!inner.entries.contains_key("b"));
    inner.evict_lfu();
    assert!(!inner.entries.contains_key("a"));
    assert!(inner.entries.contains_key("c"));
}

#[test]
fn a_new_entry_that_fits_drives_nothing_out() {
    let mut inner = CacheInner::new(1024);
    inner.insert("key1".to_string(), Arc::new(response(b"one")), at(60));
    inner.insert("key2".to_string(), Arc::new(response(b"two")), at(60));
    assert_eq!(inner.entries.len(), 2);
    inner.remove("key1");
    assert_eq!(inner.get_at("key1", at(0)), (None, false));
    assert_eq!(inner.get_at("key2", at(0)), (Some(Arc::new(response(b"two"))), false));
}

#[test]
fn responses_tell_what_they_hold() {
    let mut r = response(b"");
    assert!(!r.has_data());
    assert!(!r.has_row_desc());
    assert!(!r.has_param_desc());
    r.data.push(1);
    r.row_desc = Some(vec![]);
    r.param_desc = Some(vec![]);
    assert!(r.has_data());
    assert!(r.has_row_desc());
    assert!(r.has_param_desc());
}

#[test]
fn sharded_cache_keeps_each_key_in_its_own_shard() {
    let mut cache = Cache::new(1, 7);
    assert_eq!(cache.inner.len(), 7);
    assert_eq!(cache.inner[0].max_size_bytes, 1024 * 1024 / 7);
    for i in 0..100 {
        cache.insert(format!("key{}", i), response(&[i as u8]), at(60));
    }
    assert_eq!(cache.entry_count(), 100);
    let mut used = 0;
    for i in 0..100 {
        let key = format!("key{}", i);
        let home = cache.get_cache_shard_key(&key);
        for shard in 0..7 {
            assert_eq!(cache.inner[shard].entries.contains_key(&key), shard == home);
        }
        assert_eq!(cache.get_at(&key, at(0)), Some(Arc::new(response(&[i as u8]))));
        used += 1 + key.len() as u64 + 24;
    }
    assert_eq!(cache.cache_size_bytes(), used);
    let shards: Vec<usize> = (0..100)
        .map(|i| cache.get_cache_shard_key(&format!("key{}", i)))
        .collect();
    assert!(shards.iter().any(|shard| *shard != shards[0]));
}

#[test]
fn sharded_cache_drops_what_has_expired() {
    let mut cache = Cache::new(1, 3);
    cache.insert("key1".to_string(), response(b"value1"), at(5));
    cache.insert("key2".to_string(), response(b"value2"), at(50));
    assert_eq!(cache.get_at("key1", at(6)), None);
    assert_eq!(cache.entry_count(), 1);
    assert_eq!(cache.get_at("key2", at(6)), Some(Arc::new(response(b"value2"))));
    cache.remove("key2");
    assert_eq!(cache.get_at("key2", at(6)), None);
    assert_eq!(cache.entry_count(), 0);
    assert_eq!(cache.cache_size_bytes(), 0);
}

#[test]
fn sharded_cache_reads_its_clock() {
    let mut cache = Cache::new(10, 6);
    let expires_at = cache.now().plus_secs(60);
    for i in 0..100 {
        cache.insert(format!("key{}", i), response(&[i as u8]), expires_at);
    }
    for i in 0..100 {
        assert_eq!(
            cache.get(&format!("key{}", i)),
            Some(Arc::new(response(&[i as u8])))
        );
    }
}

#[test]
fn cache_never_outgrows_its_size() {
    let mut cache = Cache::new(1, 4);
    for i in 0..200 {
        cache.insert(format!("key{}", i), response(&vec![i as u8; 20_000]), at(60));
        assert!(cache.cache_size_bytes() <= 1024 * 1024);
    }
    assert!(cache.entry_count() < 200);
    let newest = "key199";
    assert_eq!(cache.get_at(newest, at(0)), Some(Arc::new(response(&[199; 20_000]))));
}

#[test]
fn inserting_touches_no_other_shard() {
    let mut cache = Cache::new(1, 5);
    for i in 0..50 {
        cache.insert(format!("key{}", i), response(&[1; 30_000]), at(60));
    }
    let home = cache.get_cache_shard_key("another");
    let before: Vec<u64> = cache.inner.iter().map(|shard| shard.current_size_bytes).collect();
    cache.insert("another".to_string(), response(&[1; 150_000]), at(60));
    for shard in 0..5 {
        if shard != home {
            assert_eq!(cache.inner[shard].current_size_bytes, before[shard]);
        }
    }
}

#[test]
fn shard_expires_entries_by_its_own_clock() {
    let mut inner = CacheInner::new(1024);
    let expires_at = inner.now();
    inner.insert("key1".to_string(), Arc::new(response(b"value1")), expires_at);
    while !expires_at.is_before(&inner.now()) {}
    assert_eq!(inner.get("key1"), (None, true));
    assert_eq!(inner.entries.len(), 1);
    inner.remove_if_expired("key1");
    assert_eq!(inner.entries.len(), 0);
}

#[test]
fn sharded_cache_expires_entries_by_its_own_clock() {
    let mut cache = Cache::new(1, 3);
    let expires_at = cache.now();
    let later = expires_at.plus_secs(60);
    cache.insert("key1".to_string(), response(b"value1"), expires_at);
    cache.insert("key2".to_string(), response(b"value2"), later);
    while !expires_at.is_before(&cache.now()) {}
    for shard in cache.inner.iter() {
        assert!(expires_at.is_before(&shard.now()));
        assert!(shard.now().is_before(&later));
    }
    assert_eq!(cache.get("key1"), None);
    assert_eq!(cache.get("key2"), Some(Arc::new(response(b"value2"))));
    assert_eq!(cache.entry_count(), 1);
}
