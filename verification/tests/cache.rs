use std::sync::Arc;
use tokmat::cache::{bump, BoundedCache, CacheKey, CacheStats, CacheValue};
use tokmat::regex::compile_comparator;

fn key(pattern: &str) -> CacheKey {
    (pattern.to_string(), 0, Vec::new(), None)
}

fn value(pattern: &str) -> CacheValue {
    CacheValue::Regex(Arc::new(
        compile_comparator(pattern, "test comparator").expect("valid pattern"),
    ))
}

fn source(value: Option<CacheValue>) -> Option<String> {
    match value {
        Some(CacheValue::Regex(regex)) => Some(regex.as_str().to_string()),
        Some(_) => panic!("only expressions were put in"),
        None => None,
    }
}

fn sources(cache: &BoundedCache) -> Vec<String> {
    cache
        .values()
        .into_iter()
        .map(|value| source(Some(value)).expect("an expression"))
        .collect()
}

#[test]
fn what_was_put_in_is_found() {
    let mut cache = BoundedCache::new(2);
    assert_eq!(source(cache.get_cloned(&key("a"))), None);
    cache.insert(key("a"), value("a"));
    assert_eq!(source(cache.get_cloned(&key("a"))), Some("a".to_string()));
    cache.insert(key("a"), value("b"));
    assert_eq!(source(cache.get_cloned(&key("a"))), Some("b".to_string()));
    assert_eq!(
        cache.stats(),
        CacheStats {
            capacity: 2,
            len: 1,
            hits: 2,
            misses: 1,
            inserts: 2,
            evictions: 0,
        }
    );
}

#[test]
fn the_least_recently_used_is_forgotten() {
    let mut cache = BoundedCache::new(2);
    cache.insert(key("a"), value("a"));
    cache.insert(key("b"), value("b"));
    assert_eq!(sources(&cache), vec!["b", "a"]);
    assert!(cache.get_cloned(&key("a")).is_some());
    assert_eq!(sources(&cache), vec!["a", "b"]);
    cache.insert(key("c"), value("c"));
    assert_eq!(sources(&cache), vec!["c", "a"]);
    assert!(cache.get_cloned(&key("b")).is_none());
    let stats = cache.stats();
    assert_eq!((stats.len, stats.evictions), (2, 1));
}

#[test]
fn a_cache_of_capacity_zero_holds_nothing() {
    let mut cache = BoundedCache::new(0);
    cache.insert(key("a"), value("a"));
    assert!(cache.get_cloned(&key("a")).is_none());
    assert!(cache.values().is_empty());
    assert_eq!(
        cache.stats(),
        CacheStats {
            misses: 1,
            ..CacheStats::default()
        }
    );
}

#[test]
fn every_part_of_a_key_counts() {
    let mut cache = BoundedCache::new(8);
    let keys: Vec<CacheKey> = vec![
        ("p".to_string(), 0, Vec::new(), None),
        ("p".to_string(), 1, Vec::new(), None),
        ("p".to_string(), 0, vec![None], None),
        ("p".to_string(), 0, vec![Some("x".to_string())], None),
        ("p".to_string(), 0, Vec::new(), Some(0)),
    ];
    for (i, key) in keys.iter().enumerate() {
        cache.insert(key.clone(), value(&format!("v{i}")));
    }
    for (i, key) in keys.iter().enumerate() {
        assert_eq!(source(cache.get_cloned(key)), Some(format!("v{i}")));
    }
}

#[test]
fn counts_stop_at_the_greatest() {
    assert_eq!(bump(0), 1);
    assert_eq!(bump(usize::MAX), usize::MAX);
}
