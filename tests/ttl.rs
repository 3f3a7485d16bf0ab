use quickleaf::{Cache, CacheItem, ListProps, Value};

fn num(i: i64) -> Value {
    Value::Integer(i)
}

#[test]
fn test_cache_item_creation() {
    let item = CacheItem::new(num(42));
    assert_eq!(item.value, num(42));
    assert!(item.ttl().is_none());
    assert!(!item.is_expired());
}

#[test]
fn test_cache_item_with_ttl() {
    let ttl: u64 = 100;
    let item = CacheItem::with_ttl_at(num(42), ttl, 1_000);
    assert_eq!(item.value, num(42));
    assert_eq!(item.ttl(), Some(ttl));
    assert!(!item.is_expired_at(1_000));

    assert!(item.is_expired_at(1_000 + 150));
}

#[test]
fn test_cache_with_default_ttl() {
    let ttl: u64 = 300_000;
    let mut cache = Cache::with_default_ttl(10, ttl);

    assert_eq!(cache.get_default_ttl(), Some(ttl));

    cache.insert("test", num(42));
    assert_eq!(cache.get("test"), Some(&num(42)));
}

#[test]
fn test_cache_insert_with_ttl() {
    let mut cache = Cache::new(10);
    let ttl: u64 = 100;

    cache.insert_with_ttl_at("test", num(42), ttl, 5_000);
    assert_eq!(cache.get_at("test", 5_000), Some(&num(42)));

    assert_eq!(cache.get_at("test", 5_150), None);
    assert_eq!(cache.len(), 0);
}

#[test]
fn test_lazy_cleanup_on_get() {
    let mut cache = Cache::new(10);
    let ttl: u64 = 50;

    cache.insert_with_ttl_at("expired", num(1), ttl, 7_000);
    cache.insert_at("normal", num(2), 7_000);

    assert_eq!(cache.len(), 2);

    assert_eq!(cache.get_at("expired", 7_100), None);
    assert_eq!(cache.len(), 1);
    assert_eq!(cache.get_at("normal", 7_100), Some(&num(2)));
}

#[test]
fn test_cleanup_expired() {
    let mut cache = Cache::new(10);
    let ttl: u64 = 50;

    cache.insert_with_ttl_at("expired1", num(1), ttl, 9_000);
    cache.insert_with_ttl_at("expired2", num(2), ttl, 9_000);
    cache.insert_at("normal", num(3), 9_000);

    assert_eq!(cache.len(), 3);

    let removed_count = cache.cleanup_expired_at(9_100);
    assert_eq!(removed_count, 2);
    assert_eq!(cache.len(), 1);
    assert_eq!(cache.get_at("normal", 9_100), Some(&num(3)));
}

#[test]
fn test_contains_key_with_expired() {
    let mut cache = Cache::new(10);
    let ttl: u64 = 50;

    cache.insert_with_ttl_at("test", num(42), ttl, 100);
    assert!(cache.contains_key_at("test", 100));

    assert!(!cache.contains_key_at("test", 200));
    assert_eq!(cache.len(), 0);
}

#[test]
fn test_list_filters_expired_items() {
    let mut cache = Cache::new(10);
    let ttl: u64 = 50;

    cache.insert_with_ttl_at("expired", num(1), ttl, 0);
    cache.insert_at("normal1", num(2), 0);
    cache.insert_at("normal2", num(3), 0);

    assert_eq!(cache.len(), 3);

    let result = cache.list_at(ListProps::default(), 100).unwrap();
    assert_eq!(result.len(), 2);
    assert_eq!(cache.len(), 2);
}

#[test]
fn test_set_default_ttl() {
    let mut cache = Cache::new(10);
    assert_eq!(cache.get_default_ttl(), None);

    let ttl: u64 = 60_000;
    cache.set_default_ttl(Some(ttl));
    assert_eq!(cache.get_default_ttl(), Some(ttl));

    cache.set_default_ttl(None);
    assert_eq!(cache.get_default_ttl(), None);
}

#[test]
fn ttl_boundary_is_inclusive() {
    let item = CacheItem::with_ttl_at(num(1), 50, 1_000);
    assert!(!item.is_expired_at(1_050));
    assert!(item.is_expired_at(1_051));
    assert!(!item.is_expired_at(999));
    assert_eq!(item.created_at_time(), 1_000);
    let forever = CacheItem::new_at(num(1), 0);
    assert!(!forever.is_expired_at(u64::MAX));
}

#[test]
fn default_ttl_applies_to_insert_only() {
    let mut cache = Cache::with_default_ttl(10, 100);
    cache.insert_at("a", num(1), 0);
    cache.insert_with_ttl_at("b", num(2), 1_000, 0);
    assert_eq!(cache.get_at("a", 100), Some(&num(1)));
    assert_eq!(cache.get_at("a", 101), None);
    assert_eq!(cache.get_at("b", 101), Some(&num(2)));
}
