use quickleaf::store::{item_from_row, row_expired, write_for_event, write_with_ttl, StoreWrite};
use quickleaf::{Cache, CacheItem, Event, EventData, Filter, ListProps, Value};
use std::sync::mpsc::channel;

fn num(i: i64) -> Value {
    Value::Integer(i)
}

fn text(s: &str) -> Value {
    Value::String(s.to_string())
}

fn ins(k: &str, v: Value) -> Event {
    Event::Insert(EventData { key: k.to_string(), value: v })
}

fn rem(k: &str, v: Value) -> Event {
    Event::Remove(EventData { key: k.to_string(), value: v })
}

#[test]
fn capacity_three_evicts_the_oldest() {
    let (tx, rx) = channel();
    let mut cache = Cache::with_sender(3, tx);
    cache.insert("a", num(1));
    cache.insert("b", num(2));
    cache.insert("c", num(3));
    cache.insert("d", num(4));
    assert_eq!(cache.len(), 3);
    assert_eq!(cache.get("a"), None);
    assert_eq!(cache.get("d"), Some(&num(4)));
    let events: Vec<Event> = rx.try_iter().collect();
    assert_eq!(
        events,
        vec![ins("a", num(1)), ins("b", num(2)), ins("c", num(3)), rem("a", num(1)), ins("d", num(4))]
    );
}

#[test]
fn list_pagination_by_cursor() {
    let mut cache = Cache::new(20);
    for i in 0..20 {
        cache.insert(&format!("key_{:02}", i), num(i));
    }
    let page = cache.list(ListProps::default().limit(5)).unwrap();
    let keys: Vec<String> = page.iter().map(|p| p.0.clone()).collect();
    assert_eq!(keys, vec!["key_00", "key_01", "key_02", "key_03", "key_04"]);
    let page = cache.list(ListProps::default().start_after_key("key_04").limit(5)).unwrap();
    let keys: Vec<String> = page.iter().map(|p| p.0.clone()).collect();
    assert_eq!(keys, vec!["key_05", "key_06", "key_07", "key_08", "key_09"]);
    let page = cache.list(ListProps::default().start_after_key("key_19").limit(5)).unwrap();
    assert!(page.is_empty());
}

#[test]
fn filtered_list_after_cursor() {
    let mut cache = Cache::new(10);
    cache.insert("postmark", num(10));
    cache.insert("postmodern", num(8));
    cache.insert("postmortem", num(9));
    cache.insert("postpone", num(6));
    cache.insert("precaution", num(3));
    cache.insert("precede", num(1));
    let r = cache
        .list(
            ListProps::default()
                .filter(Filter::StartWith("post".to_string()))
                .start_after_key("postmodern")
                .limit(10),
        )
        .unwrap();
    assert_eq!(r, vec![("postmortem".to_string(), &num(9)), ("postpone".to_string(), &num(6))]);
}

#[test]
fn ttl_expiration_emits_one_remove() {
    let (tx, rx) = channel();
    let mut cache = Cache::with_sender(10, tx);
    cache.insert_with_ttl_at("temp", text("t"), 50, 1_000);
    cache.insert_at("perm", text("p"), 1_000);
    assert!(!cache.contains_key_at("temp", 1_100));
    assert_eq!(cache.len(), 1);
    assert_eq!(cache.get_at("perm", 1_100), Some(&text("p")));
    assert!(!cache.contains_key_at("temp", 1_200));
    let events: Vec<Event> = rx.try_iter().collect();
    assert_eq!(events, vec![ins("temp", text("t")), ins("perm", text("p")), rem("temp", text("t"))]);
}

#[test]
fn cleanup_counts_expired_entries() {
    let mut cache = Cache::new(10);
    cache.insert_with_ttl_at("x", num(1), 50, 0);
    cache.insert_with_ttl_at("y", num(2), 50, 0);
    cache.insert_at("z", num(3), 0);
    assert_eq!(cache.cleanup_expired_at(100), 2);
    assert_eq!(cache.len(), 1);
    assert_eq!(cache.cleanup_expired_at(100), 0);
}

/// Applies store writes to an in-memory table, as the SQL store does.
fn apply(table: &mut Vec<(String, Value, u64, Option<u64>, Option<u64>)>, w: StoreWrite) {
    match w {
        StoreWrite::Upsert { key, value, created_at, ttl_seconds, expires_at } => {
            table.retain(|r| r.0 != key);
            table.push((key, value, created_at, ttl_seconds, expires_at));
        }
        StoreWrite::Delete(key) => table.retain(|r| r.0 != key),
        StoreWrite::DeleteAll => table.clear(),
    }
}

#[test]
fn persist_reload_keeps_written_entries() {
    let (tx, rx) = channel();
    let mut cache = Cache::with_sender(10, tx);
    cache.insert("user:a", text("Alice"));
    cache.insert("user:b", text("Bob"));
    cache.insert("session", text("x"));
    cache.remove("session").unwrap();
    drop(cache);
    let mut table = Vec::new();
    for ev in rx.try_iter() {
        apply(&mut table, write_for_event(&ev, 1_700_000_000));
    }
    let rows: Vec<(String, CacheItem)> = table
        .into_iter()
        .filter(|r| !row_expired(r.4, 1_700_000_000))
        .map(|r| (r.0, item_from_row(r.1, r.2, r.3)))
        .collect();
    let mut reopened = Cache::new(10);
    reopened.restore_at(&rows, 1_700_000_000_000);
    assert_eq!(reopened.len(), 2);
    assert_eq!(reopened.get_list(), vec!["user:a".to_string(), "user:b".to_string()]);
    assert_eq!(reopened.get_at("user:a", 1_700_000_000_000), Some(&text("Alice")));
    assert_eq!(reopened.get_at("user:b", 1_700_000_000_000), Some(&text("Bob")));
    assert_eq!(reopened.get_at("session", 1_700_000_000_000), None);
}

#[test]
fn reload_sorts_skips_expired_and_stops_at_capacity() {
    let rows = vec![
        ("d".to_string(), CacheItem::new_at(num(4), 0)),
        ("b".to_string(), CacheItem::with_ttl_at(num(2), 10, 0)),
        ("a".to_string(), CacheItem::new_at(num(1), 0)),
        ("c".to_string(), CacheItem::new_at(num(3), 0)),
        ("e".to_string(), CacheItem::new_at(num(5), 0)),
    ];
    let (tx, rx) = channel();
    let mut cache = Cache::with_sender(3, tx);
    cache.restore_at(&rows, 100);
    assert_eq!(cache.get_list(), vec!["a".to_string(), "c".to_string(), "d".to_string()]);
    assert_eq!(rx.try_iter().count(), 0);
}

#[test]
fn store_writes_and_rows() {
    match write_with_ttl("k", &num(7), 60_500, 1_000) {
        StoreWrite::Upsert { key, value, created_at, ttl_seconds, expires_at } => {
            assert_eq!(key, "k");
            assert_eq!(value, num(7));
            assert_eq!(created_at, 1_000);
            assert_eq!(ttl_seconds, Some(60));
            assert_eq!(expires_at, Some(1_060));
        }
        other => panic!("unexpected {:?}", other),
    }
    match write_for_event(&Event::Clear, 5) {
        StoreWrite::DeleteAll => {}
        other => panic!("unexpected {:?}", other),
    }
    match write_for_event(&rem("gone", num(1)), 5) {
        StoreWrite::Delete(k) => assert_eq!(k, "gone"),
        other => panic!("unexpected {:?}", other),
    }
    let item = item_from_row(text("v"), 12, Some(3));
    assert_eq!(item.created_at, 12_000);
    assert_eq!(item.ttl_millis, Some(3_000));
    let big = item_from_row(text("v"), u64::MAX, None);
    assert_eq!(big.created_at, u64::MAX);
    assert!(row_expired(Some(4), 5));
    assert!(!row_expired(Some(5), 5));
    assert!(!row_expired(None, 5));
}
