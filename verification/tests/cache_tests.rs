use rust_pokedex::cache::{reap_loop, Cache};
use rust_pokedex::clock::now;
use rust_pokedex::store::{CacheEntry, CacheStore};

fn data_of(cache: &Cache, key: &str) -> Option<String> {
    cache.get_cache(key).map(|entry| entry.data)
}

#[test]
fn get_on_an_empty_cache_misses() {
    let cache = Cache::new(30);
    assert!(cache.get_cache("https://example.test/a").is_none());
    assert_eq!(cache.len(), 0);
}

#[test]
fn miss_then_hit() {
    let mut cache = Cache::new(30);
    assert!(cache.get_cache("k").is_none());
    cache.add_cache_at("k", "v", 7);
    let entry = cache.get_cache("k").unwrap();
    assert_eq!(entry.data, "v");
    assert_eq!(entry.created_at, 7);
    assert_eq!(cache.len(), 1);
}

#[test]
fn first_writer_wins() {
    let mut cache = Cache::new(30);
    cache.add_cache_at("k", "first", 10);
    cache.add_cache_at("k", "second", 20);
    let entry = cache.get_cache("k").unwrap();
    assert_eq!(entry.data, "first");
    assert_eq!(entry.created_at, 10);
    assert_eq!(cache.len(), 1);
}

#[test]
fn later_insert_does_not_extend_an_entrys_life() {
    let mut cache = Cache::new(10);
    cache.add_cache_at("k", "first", 0);
    cache.add_cache_at("k", "second", 9);
    let trace = cache.reap_at(11);
    assert_eq!(trace.len(), 1);
    assert!(cache.get_cache("k").is_none());
}

#[test]
fn puts_with_distinct_keys_are_all_retrievable() {
    let mut cache = Cache::new(1000);
    for i in 0..50u128 {
        cache.add_cache_at(&format!("key-{}", i), &format!("value-{}", i), i);
    }
    assert_eq!(cache.len(), 50);
    for i in 0..50u128 {
        let entry = cache.get_cache(&format!("key-{}", i)).unwrap();
        assert_eq!(entry.data, format!("value-{}", i));
        assert_eq!(entry.created_at, i);
    }
}

#[test]
fn puts_with_distinct_keys_in_reverse_order_are_all_retrievable() {
    let mut cache = Cache::new(1000);
    for i in (0..50u128).rev() {
        cache.add_cache_at(&format!("key-{}", i), &format!("value-{}", i), i);
    }
    for i in 0..50u128 {
        assert_eq!(data_of(&cache, &format!("key-{}", i)), Some(format!("value-{}", i)));
    }
}

#[test]
fn puts_with_the_same_key_retain_exactly_the_first() {
    let mut cache = Cache::new(1000);
    for i in 0..20u128 {
        cache.add_cache_at("shared", &format!("value-{}", i), 100 + i);
    }
    assert_eq!(cache.len(), 1);
    let entry = cache.get_cache("shared").unwrap();
    assert_eq!(entry.data, "value-0");
    assert_eq!(entry.created_at, 100);
}

#[test]
fn sweep_spares_an_entry_inserted_just_before() {
    let mut cache = Cache::new(30);
    cache.add_cache_at("fresh", "body", 500);
    let trace = cache.reap_at(500);
    assert!(trace.is_empty());
    assert_eq!(data_of(&cache, "fresh"), Some("body".to_string()));
}

#[test]
fn sweep_keeps_an_entry_whose_age_equals_the_ttl() {
    let mut cache = Cache::new(30);
    cache.add_cache_at("k", "body", 100);
    let trace = cache.reap_at(130);
    assert!(trace.is_empty());
    assert!(cache.get_cache("k").is_some());
}

#[test]
fn sweep_evicts_an_entry_one_tick_past_the_ttl() {
    let mut cache = Cache::new(30);
    cache.add_cache_at("k", "body", 100);
    let trace = cache.reap_at(131);
    assert_eq!(trace.len(), 1);
    assert_eq!(trace[0].key, "k");
    assert_eq!(trace[0].remaining, 0);
    assert!(cache.get_cache("k").is_none());
    assert_eq!(cache.len(), 0);
}

#[test]
fn sweep_with_a_clock_that_went_backwards_evicts_nothing() {
    let mut cache = Cache::new(0);
    cache.add_cache_at("k", "body", 1_000);
    let trace = cache.reap_at(10);
    assert!(trace.is_empty());
    assert_eq!(data_of(&cache, "k"), Some("body".to_string()));
}

#[test]
fn an_expired_entry_is_still_a_hit_until_it_is_swept() {
    let mut cache = Cache::new(5);
    cache.add_cache_at("k", "body", 0);
    assert_eq!(data_of(&cache, "k"), Some("body".to_string()));
    cache.add_cache_at("other", "x", 1_000);
    assert_eq!(data_of(&cache, "k"), Some("body".to_string()));
}

#[test]
fn sweep_reports_each_eviction_with_the_entries_left() {
    let mut cache = Cache::new(10);
    cache.add_cache_at("old-1", "a", 0);
    cache.add_cache_at("young", "b", 95);
    cache.add_cache_at("old-2", "c", 5);
    cache.add_cache_at("old-3", "d", 89);
    let trace = cache.reap_at(100);
    let keys: Vec<&str> = trace.iter().map(|e| e.key.as_str()).collect();
    assert_eq!(keys, vec!["old-1", "old-2", "old-3"]);
    let remaining: Vec<usize> = trace.iter().map(|e| e.remaining).collect();
    assert_eq!(remaining, vec![3, 2, 1]);
    assert_eq!(cache.len(), 1);
    assert_eq!(data_of(&cache, "young"), Some("b".to_string()));
}

#[test]
fn sweep_of_an_empty_cache_reports_nothing() {
    let mut cache = Cache::new(10);
    assert!(cache.reap_at(1_000_000).is_empty());
    assert_eq!(cache.len(), 0);
}

#[test]
fn removing_an_absent_key_changes_nothing() {
    let mut cache = Cache::new(30);
    cache.add_cache_at("kept", "body", 1);
    cache.remove("absent");
    assert_eq!(cache.len(), 1);
    assert_eq!(data_of(&cache, "kept"), Some("body".to_string()));
    cache.remove("absent");
    assert_eq!(cache.len(), 1);
}

#[test]
fn removing_a_key_twice_is_removing_it_once() {
    let mut cache = Cache::new(30);
    cache.add_cache_at("a", "1", 1);
    cache.add_cache_at("b", "2", 2);
    cache.remove("a");
    assert!(cache.get_cache("a").is_none());
    assert_eq!(cache.len(), 1);
    cache.remove("a");
    assert_eq!(cache.len(), 1);
    assert_eq!(data_of(&cache, "b"), Some("2".to_string()));
}

#[test]
fn a_removed_key_can_be_inserted_again() {
    let mut cache = Cache::new(30);
    cache.add_cache_at("a", "old", 1);
    cache.remove("a");
    cache.add_cache_at("a", "new", 9);
    let entry = cache.get_cache("a").unwrap();
    assert_eq!(entry.data, "new");
    assert_eq!(entry.created_at, 9);
}

#[test]
fn end_to_end_with_a_ttl_of_two_units() {
    let mut cache = Cache::new(2);
    assert_eq!(cache.sweep_period(), 1);
    cache.add_cache_at("A", "x", 0);
    // one unit later the reaper has swept once
    cache.reap_at(1);
    assert_eq!(data_of(&cache, "A"), Some("x".to_string()));
    // two more units, three in all: it has swept at 2 and at 3
    cache.reap_at(2);
    cache.reap_at(3);
    assert!(cache.get_cache("A").is_none());
}

#[test]
fn an_entry_is_evicted_within_one_and_a_half_ttl() {
    let ttl: u128 = 10;
    let mut cache = Cache::new(ttl);
    let period = cache.sweep_period();
    assert_eq!(period, 5);
    let inserted_at: u128 = 3;
    cache.add_cache_at("k", "body", inserted_at);
    let mut sweep_at = period;
    let mut evicted_at = None;
    while sweep_at <= inserted_at + ttl + period {
        let trace = cache.reap_at(sweep_at);
        if !trace.is_empty() {
            evicted_at = Some(sweep_at);
            break;
        }
        sweep_at += period;
    }
    assert_eq!(evicted_at, Some(15));
    assert!(cache.get_cache("k").is_none());
}

#[test]
fn sweep_period_is_half_the_ttl() {
    assert_eq!(Cache::new(30_000_000_000).sweep_period(), 15_000_000_000);
    assert_eq!(Cache::new(5).sweep_period(), 2);
    assert_eq!(Cache::new(1).sweep_period(), 0);
    assert_eq!(Cache::new(0).sweep_period(), 0);
    assert_eq!(Cache::new(30_000_000_000).interval(), 30_000_000_000);
}

#[test]
fn entry_age_and_expiry() {
    let entry = CacheEntry { created_at: 100, data: "body".to_string() };
    assert_eq!(entry.age(100), Some(0));
    assert_eq!(entry.age(142), Some(42));
    assert_eq!(entry.age(99), None);
    assert!(!entry.is_expired(130, 30));
    assert!(entry.is_expired(131, 30));
    assert!(!entry.is_expired(0, 0));
    assert!(!entry.is_expired(100, 0));
    assert!(entry.is_expired(101, 0));
    assert!(!entry.is_expired(u128::MAX, u128::MAX));
    let copy = entry.clone();
    assert_eq!(copy.created_at, 100);
    assert_eq!(copy.data, "body");
}

#[test]
fn timestamps_near_the_end_of_the_range_do_not_overflow() {
    let mut cache = Cache::new(u128::MAX);
    cache.add_cache_at("k", "body", u128::MAX - 1);
    assert!(cache.reap_at(u128::MAX).is_empty());
    let mut short = Cache::new(1);
    short.add_cache_at("k", "body", u128::MAX - 2);
    assert!(short.reap_at(u128::MAX - 1).is_empty());
    assert_eq!(short.reap_at(u128::MAX).len(), 1);
}

#[test]
fn add_cache_stamps_the_entry_with_the_clock() {
    let before = now();
    let mut cache = Cache::new(3_600_000_000_000);
    cache.add_cache("https://example.test/a", "body");
    let after = now();
    let entry = cache.get_cache("https://example.test/a").unwrap();
    assert_eq!(entry.data, "body");
    // the clock of this machine is set later than the year 2001
    assert!(entry.created_at > 1_000_000_000_000_000_000);
    assert!(before <= after || entry.created_at > 0);
    cache.add_cache("https://example.test/a", "other");
    assert_eq!(data_of(&cache, "https://example.test/a"), Some("body".to_string()));
    assert_eq!(cache.len(), 1);
}

#[test]
fn reap_loop_spares_what_was_just_added() {
    let mut cache = Cache::new(3_600_000_000_000);
    cache.add_cache("fresh", "body");
    let trace = reap_loop(&mut cache);
    assert!(trace.is_empty());
    assert_eq!(data_of(&cache, "fresh"), Some("body".to_string()));
}

#[test]
fn reap_loop_evicts_what_is_long_expired() {
    let mut cache = Cache::new(1_000);
    cache.add_cache_at("ancient", "body", 1);
    cache.add_cache("fresh", "body");
    let trace = reap_loop(&mut cache);
    assert_eq!(trace.len(), 1);
    assert_eq!(trace[0].key, "ancient");
    assert_eq!(trace[0].remaining, 1);
    assert!(cache.get_cache("ancient").is_none());
}

#[test]
fn store_insert_get_remove_len() {
    let mut store = CacheStore::new();
    assert_eq!(store.len(), 0);
    assert!(store.get("a").is_none());
    store.insert("a", "1", 10);
    store.insert("b", "2", 20);
    store.insert("a", "3", 30);
    assert_eq!(store.len(), 2);
    let a = store.get("a").unwrap();
    assert_eq!((a.created_at, a.data.as_str()), (10, "1"));
    let b = store.get("b").unwrap();
    assert_eq!((b.created_at, b.data.as_str()), (20, "2"));
    store.remove("a");
    assert!(store.get("a").is_none());
    assert_eq!(store.len(), 1);
    store.remove("missing");
    assert_eq!(store.len(), 1);
}

#[test]
fn store_sweep_keeps_the_order_of_the_survivors() {
    let mut store = CacheStore::new();
    store.insert("a", "1", 0);
    store.insert("b", "2", 50);
    store.insert("c", "3", 1);
    store.insert("d", "4", 60);
    let trace = store.sweep(100, 50);
    assert_eq!(trace.len(), 2);
    assert_eq!((trace[0].key.as_str(), trace[0].remaining), ("a", 3));
    assert_eq!((trace[1].key.as_str(), trace[1].remaining), ("c", 2));
    assert_eq!(store.len(), 2);
    assert_eq!(store.get("b").unwrap().data, "2");
    assert_eq!(store.get("d").unwrap().data, "4");
    let trace = store.sweep(111, 50);
    assert_eq!((trace[0].key.as_str(), trace[0].remaining), ("b", 1));
    assert_eq!((trace[1].key.as_str(), trace[1].remaining), ("d", 0));
    assert_eq!(store.len(), 0);
}

#[test]
fn keys_are_compared_exactly() {
    let mut cache = Cache::new(30);
    cache.add_cache_at("Key", "upper", 1);
    cache.add_cache_at("key", "lower", 2);
    cache.add_cache_at("", "empty", 3);
    assert_eq!(cache.len(), 3);
    assert_eq!(data_of(&cache, "Key"), Some("upper".to_string()));
    assert_eq!(data_of(&cache, "key"), Some("lower".to_string()));
    assert_eq!(data_of(&cache, ""), Some("empty".to_string()));
    assert!(cache.get_cache("key ").is_none());
}

#[test]
fn the_cache_module_names_the_entry() {
    let entry: rust_pokedex::cache::CacheEntry = CacheEntry { created_at: 1, data: String::new() };
    assert_eq!(entry.age(1), Some(0));
}

#[test]
fn get_cached_gives_the_payload() {
    let mut cache = Cache::new(30);
    assert_eq!(cache.get_cached("k"), None);
    cache.add_cache_at("k", "v", 1);
    assert_eq!(cache.get_cached("k"), Some("v".to_string()));
    assert_eq!(cache.get_cached("K"), None);
}

#[test]
fn put_cached_is_first_writer_wins_too() {
    let mut cache = Cache::new(3_600_000_000_000);
    cache.put_cached("k", "first");
    cache.put_cached("k", "second");
    cache.put_cached("other", "third");
    assert_eq!(cache.get_cached("k"), Some("first".to_string()));
    assert_eq!(cache.get_cached("other"), Some("third".to_string()));
    assert_eq!(cache.len(), 2);
}
