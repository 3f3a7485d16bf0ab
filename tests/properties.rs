use quickleaf::{Cache, Event, EventData, Filter, ListProps, Order, Value};
use std::sync::mpsc::channel;

fn num(i: i64) -> Value {
    Value::Integer(i)
}

#[test]
fn len_never_exceeds_capacity() {
    let mut cache = Cache::new(4);
    for i in 0..50 {
        cache.insert(&format!("k{}", i % 7), num(i));
        assert!(cache.len() <= cache.capacity());
        if i % 5 == 0 {
            let _ = cache.remove(&format!("k{}", i % 3));
        }
        assert!(cache.len() <= cache.capacity());
    }
}

#[test]
fn eviction_follows_insertion_order() {
    let (tx, rx) = channel();
    let mut cache = Cache::with_sender(3, tx);
    for k in ["q", "a", "z", "m", "b", "y"] {
        cache.insert(k, num(1));
    }
    let evicted: Vec<String> = rx
        .try_iter()
        .filter_map(|e| match e {
            Event::Remove(d) => Some(d.key),
            _ => None,
        })
        .collect();
    assert_eq!(evicted, vec!["q", "a", "z"]);
    assert_eq!(cache.get_list(), vec!["m", "b", "y"]);
}

#[test]
fn equal_value_insert_is_a_noop() {
    let (tx, rx) = channel();
    let mut cache = Cache::with_sender(3, tx);
    cache.insert_with_ttl_at("k", num(1), 50, 0);
    cache.insert_with_ttl_at("k", num(1), 5_000, 40);
    assert_eq!(cache.get_at("k", 60), None);
    let events: Vec<Event> = rx.try_iter().collect();
    assert_eq!(events.len(), 2);
    assert_eq!(events[0], Event::Insert(EventData { key: "k".to_string(), value: num(1) }));
}

#[test]
fn tag_sensitive_values() {
    let (tx, rx) = channel();
    let mut cache = Cache::with_sender(3, tx);
    cache.insert("k", Value::String("1".to_string()));
    cache.insert("k", num(1));
    cache.insert("k", Value::Float(1.0f64.to_bits()));
    cache.insert("k", Value::Float(1.0f64.to_bits()));
    cache.insert("k", Value::Boolean(true));
    cache.insert("k", Value::Null);
    assert_eq!(rx.try_iter().count(), 5);
    assert_ne!(num(1), Value::Float(1.0f64.to_bits()));
    assert_eq!(cache.len(), 1);
}

#[test]
fn replaced_entry_moves_to_the_end() {
    let mut cache = Cache::new(2);
    cache.insert("a", num(1));
    cache.insert("b", num(2));
    cache.insert("a", num(3));
    cache.insert("c", num(4));
    assert_eq!(cache.get_list(), vec!["a", "c"]);
    assert_eq!(cache.get("a"), Some(&num(3)));
}

#[test]
fn list_is_sorted_prefix_both_ways() {
    let mut cache = Cache::new(10);
    for k in ["b2", "a1", "c3", "a9", "b1"] {
        cache.insert(k, num(0));
    }
    let asc = cache.list(ListProps::default().filter(Filter::EndWith("1".to_string())).limit(5)).unwrap();
    let asc: Vec<String> = asc.into_iter().map(|p| p.0).collect();
    assert_eq!(asc, vec!["a1", "b1"]);
    let desc = cache.list(ListProps::default().order(Order::Desc).limit(3)).unwrap();
    let desc: Vec<String> = desc.into_iter().map(|p| p.0).collect();
    assert_eq!(desc, vec!["c3", "b2", "b1"]);
}

#[test]
fn keys_sort_by_bytes() {
    let mut cache = Cache::new(10);
    for k in ["é", "z", "Z", "a", "ab", ""] {
        cache.insert(k, num(0));
    }
    let r = cache.list(ListProps::default()).unwrap();
    let keys: Vec<String> = r.into_iter().map(|p| p.0).collect();
    assert_eq!(keys, vec!["", "Z", "a", "ab", "z", "é"]);
}

#[test]
fn cursor_pages_concatenate() {
    let mut cache = Cache::new(30);
    for i in 0..23 {
        cache.insert(&format!("k{:02}", (i * 7) % 23), num(i));
    }
    for order in [Order::Asc, Order::Desc] {
        let whole: Vec<String> = cache
            .list(ListProps::default().order(order).filter(Filter::StartWith("k1".to_string())).limit(7))
            .unwrap()
            .into_iter()
            .map(|p| p.0)
            .collect();
        let first: Vec<String> = cache
            .list(ListProps::default().order(order).filter(Filter::StartWith("k1".to_string())).limit(3))
            .unwrap()
            .into_iter()
            .map(|p| p.0)
            .collect();
        let last = first.last().unwrap().clone();
        let second: Vec<String> = cache
            .list(
                ListProps::default()
                    .order(order)
                    .filter(Filter::StartWith("k1".to_string()))
                    .start_after_key(&last)
                    .limit(4),
            )
            .unwrap()
            .into_iter()
            .map(|p| p.0)
            .collect();
        let mut joined = first.clone();
        joined.extend(second);
        assert_eq!(joined, whole);
    }
}

#[test]
fn clear_emits_one_event_and_keeps_settings() {
    let (tx, rx) = channel();
    let mut cache = Cache::with_sender_and_ttl(5, tx, 1_000);
    cache.insert("a", num(1));
    cache.insert("b", num(2));
    cache.clear();
    assert!(cache.is_empty());
    assert_eq!(cache.capacity(), 5);
    assert_eq!(cache.get_default_ttl(), Some(1_000));
    let events: Vec<Event> = rx.try_iter().collect();
    assert_eq!(events.last(), Some(&Event::Clear));
    assert_eq!(events.len(), 3);
}

#[test]
fn lowering_capacity_evicts_on_later_inserts() {
    let mut cache = Cache::new(4);
    for k in ["a", "b", "c", "d"] {
        cache.insert(k, num(0));
    }
    cache.set_capacity(2);
    assert_eq!(cache.len(), 4);
    cache.insert("e", num(0));
    assert_eq!(cache.get_list(), vec!["b", "c", "d", "e"]);
}

#[test]
fn get_map_lists_live_entries_in_insertion_order() {
    let mut cache = Cache::new(5);
    cache.insert_with_ttl_at("old", num(1), 10, 0);
    cache.insert_at("b", num(2), 0);
    cache.insert_at("a", num(3), 0);
    let m = cache.get_map_at(50);
    assert_eq!(m, vec![("b".to_string(), &num(2)), ("a".to_string(), &num(3))]);
    assert_eq!(cache.len(), 3);
}

#[test]
fn removing_events_stop_after_remove_event() {
    let (tx, rx) = channel();
    let mut cache = Cache::new(5);
    cache.set_event(tx);
    cache.insert("a", num(1));
    cache.remove_event();
    cache.insert("b", num(2));
    assert_eq!(rx.try_iter().count(), 1);
}
