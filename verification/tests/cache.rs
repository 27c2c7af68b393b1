use rheo::cache::ContentCache;
use typst_utils::hash128;

#[test]
fn identical_text_harvests_once() {
    let mut cache: ContentCache<usize> = ContentCache::new(64);
    let mut calls = 0;
    for _ in 0..3 {
        let seen = *cache.get_or_harvest("#import \"@preview/x:1.0.0\": y", || {
            calls += 1;
            calls
        });
        assert_eq!(seen, 1);
    }
    assert_eq!(calls, 1);
}

#[test]
fn changed_text_misses() {
    let mut cache: ContentCache<usize> = ContentCache::new(64);
    assert_eq!(*cache.get_or_harvest("a", || 1), 1);
    assert_eq!(*cache.get_or_harvest("b", || 2), 2);
    assert_eq!(*cache.get_or_harvest("a", || 99), 1);
}

#[test]
fn stays_bounded_and_keeps_the_hot_entries() {
    let mut cache: ContentCache<usize> = ContentCache::new(64);
    for i in 0..256 {
        cache.get_or_harvest("hot", || 0);
        cache.get_or_harvest(&format!("cold {i}"), || i);
    }
    assert!(cache.len() <= 64);
    assert!(cache.contains_key(hash128("hot")));
}

#[test]
fn a_full_cache_sheds_exactly_its_colder_half() {
    let mut cache: ContentCache<u32> = ContentCache::new(4);
    for k in 0..4u128 {
        cache.get_or_compute(k, || k as u32);
    }
    assert_eq!(cache.len(), 4);
    // Reading key 0 makes it the most recent; keys 1 and 2 are now the coldest.
    assert_eq!(*cache.get_or_compute(0, || 99), 0);
    assert_eq!(*cache.get_or_compute(10, || 10), 10);
    assert_eq!(cache.len(), 3);
    assert!(cache.contains_key(0));
    assert!(cache.contains_key(3));
    assert!(cache.contains_key(10));
    assert!(!cache.contains_key(1));
    assert!(!cache.contains_key(2));
}

#[test]
fn harvesting_keys_by_the_text_hash() {
    let mut cache: ContentCache<usize> = ContentCache::new(8);
    cache.get_or_harvest("= Hello", || 7);
    assert!(cache.contains_key(hash128("= Hello")));
    assert!(!cache.contains_key(hash128("= Goodbye")));
}
