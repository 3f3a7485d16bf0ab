//! The cache: a bounded, insertion-ordered map from keys to values with
//! expiration, ordered listing and mutation events.

use crate::error::Error;
use crate::event::{Event, EventView};
use crate::item::{CacheItem, ItemView};
use crate::filter::{key_bytes, Filter};
use crate::filters::apply_filter_fast;
use crate::key_order::{key_order, sort_keys, texts};
use crate::list_props::{ListProps, Order, StartAfter};
use crate::model::{
    after_insert, after_lookup, after_removal_at, after_sweep, cursor_missing, expired_at,
    first_n, key_pos, keys_of, lemma_filter_push, lemma_key_pos, listing, live_at, lookup,
    passing, past_cursor, removal, restored, row_for, sorted_keys, unique_keys, value_of, walk,
    CacheView, Entries,
};
use crate::value::ValueView;
use crate::outside::{
    current_time_millis, map_clear, map_get_index, map_index_of, map_insert, map_len, map_new,
    map_shift_remove_index, send_event, stored_entries,
};
use crate::value::Value;
use indexmap::IndexMap;
use std::sync::mpsc::Sender;
use vstd::prelude::*;

verus! {

/// Removing an entry keeps the keys unique, and no other entry holds its key.
proof fn lemma_remove_unique(e: Entries, p: int)
    requires
        unique_keys(e),
        0 <= p < e.len(),
    ensures
        unique_keys(e.remove(p)),
        forall|i: int| 0 <= i < e.len() - 1 ==> #[trigger] e.remove(p)[i].0 != e[p].0,
{
    let r = e.remove(p);
    assert forall|i: int, j: int| 0 <= i < j < r.len() implies #[trigger] r[i].0 != #[trigger] r[j].0 by {
        let a = if i < p { i } else { i + 1 };
        let b = if j < p { j } else { j + 1 };
        assert(r[i] == e[a] && r[j] == e[b]);
    }
    assert forall|i: int| 0 <= i < e.len() - 1 implies #[trigger] r[i].0 != e[p].0 by {
        let a = if i < p { i } else { i + 1 };
        assert(r[i] == e[a]);
    }
}

/// Appending an entry under a key not yet present keeps the keys unique.
proof fn lemma_push_unique(e: Entries, x: (Seq<char>, ItemView))
    requires
        unique_keys(e),
        forall|i: int| 0 <= i < e.len() ==> #[trigger] e[i].0 != x.0,
    ensures
        unique_keys(e.push(x)),
{
    let r = e.push(x);
    assert forall|i: int, j: int| 0 <= i < j < r.len() implies #[trigger] r[i].0 != #[trigger] r[j].0 by {
        assert(r[i] == e[i]);
    }
}

/// The keys of entries with unique keys have no duplicates, and neither has
/// any order of walking them; each walked key is a key of an entry.
pub(crate) proof fn lemma_walk_keys(e: Entries, order: Order)
    requires
        unique_keys(e),
    ensures
        walk(e, order).no_duplicates(),
        forall|j: int| 0 <= j < walk(e, order).len() ==> keys_of(e).contains(#[trigger] walk(e, order)[j]),
{
    broadcast use vstd::seq_lib::group_to_multiset_ensures;

    let ks = keys_of(e);
    assert forall|i: int, j: int| 0 <= i < ks.len() && 0 <= j < ks.len() && i != j implies ks[i] != ks[j] by {
        if i < j {
            assert(e[i].0 != e[j].0);
        } else {
            assert(e[j].0 != e[i].0);
        }
    }
    assert(ks.no_duplicates());
    crate::key_order::lemma_key_order_total();
    ks.lemma_sort_by_ensures(key_order());
    let sorted = sorted_keys(e);
    ks.lemma_multiset_has_no_duplicates();
    assert forall|x: Seq<char>| sorted.to_multiset().contains(x) implies sorted.to_multiset().count(x) == 1 by {}
    sorted.lemma_multiset_has_no_duplicates_conv();
    assert forall|j: int| 0 <= j < sorted.len() implies ks.contains(#[trigger] sorted[j]) by {
        assert(sorted.to_multiset().contains(sorted[j]));
    }
    match order {
        Order::Asc => {},
        Order::Desc => {
            let rev = sorted.reverse();
            sorted.lemma_reverse_to_multiset();
            assert forall|x: Seq<char>| rev.to_multiset().contains(x) implies rev.to_multiset().count(x) == 1 by {}
            rev.lemma_multiset_has_no_duplicates_conv();
            assert forall|j: int| 0 <= j < rev.len() implies ks.contains(#[trigger] rev[j]) by {
                assert(rev[j] == sorted[sorted.len() - 1 - j]);
            }
        },
    }
}

/// The model of stored rows.
pub open spec fn rows_view(rows: Seq<(String, CacheItem)>) -> Entries {
    rows.map_values(|r: (String, CacheItem)| (r.0@, r.1@))
}

/// The keys and values of the entries live at `now`, in insertion order.
pub open spec fn live_pairs(e: Entries, now: u64) -> Seq<(Seq<char>, ValueView)> {
    live_at(e, now).map_values(|x: (Seq<char>, ItemView)| (x.0, x.1.value))
}

/// The keys and values of a listing's result.
pub open spec fn pairs(r: Seq<(String, &Value)>) -> Seq<(Seq<char>, ValueView)> {
    r.map_values(|p: (String, &Value)| (p.0@, p.1@))
}

/// Where a walk over `q` resumes after the cursor `start`, or the error when
/// the cursor names no key of `q`.
fn cursor_start(q: &Vec<String>, start: &StartAfter) -> (r: Result<usize, Error>)
    requires
        texts(q@).no_duplicates(),
    ensures
        match r {
            Ok(s) => s <= q@.len() && texts(q@).skip(s as int) == past_cursor(texts(q@), start@)
                && !cursor_missing(texts(q@), start@, 1),
            Err(e) => e == Error::SortKeyNotFound && cursor_missing(texts(q@), start@, 1),
        },
{
    match start {
        StartAfter::Beginning => {
            proof {
                assert(texts(q@).skip(0) =~= texts(q@));
            }
            Ok(0)
        },
        StartAfter::Key(k) => {
            let mut c: usize = 0;
            while c < q.len()
                invariant
                    c <= q@.len(),
                    texts(q@).no_duplicates(),
                    start@ == Some(k@),
                    forall|j: int| 0 <= j < c ==> #[trigger] texts(q@)[j] != k@,
                decreases q@.len() - c,
            {
                if q[c].eq(k) {
                    proof {
                        let t = texts(q@);
                        assert(t[c as int] == k@);
                        assert(t.contains(k@));
                        let m = t.index_of(k@);
                        assert(t[m] == k@);
                        if m != c as int {
                            assert(t[m] != t[c as int]);
                        }
                        assert(t.skip(c + 1) == past_cursor(t, start@));
                    }
                    return Ok(c + 1);
                }
                c = c + 1;
            }
            proof {
                assert(!texts(q@).contains(k@));
            }
            Err(Error::SortKeyNotFound)
        },
    }
}

/// A bounded key/value cache.
///
/// Entries are kept in insertion order, which decides eviction only: when a
/// new key arrives at a full cache, the oldest entry leaves first. Every change
/// is announced as an [`Event`] to the attached sender, if any.
pub struct Cache {
    map: IndexMap<String, CacheItem>,
    capacity: usize,
    default_ttl: Option<u64>,
    sender: Option<Sender<Event>>,
    log: Ghost<Seq<EventView>>,
}

/// The cache under the library's own name.
pub type Quickleaf = Cache;

impl View for Cache {
    type V = CacheView;

    closed spec fn view(&self) -> CacheView {
        CacheView {
            entries: stored_entries(self.map),
            capacity: self.capacity,
            default_ttl: self.default_ttl,
            events: self.log@,
        }
    }
}

/// A cache with no entries and no events.
pub open spec fn fresh(c: CacheView, capacity: usize, default_ttl: Option<u64>) -> bool {
    c == CacheView {
        entries: Seq::empty(),
        capacity,
        default_ttl,
        events: Seq::empty(),
    }
}

impl Cache {
    /// Keys are unique.
    pub open spec fn wf(&self) -> bool {
        unique_keys(self@.entries)
    }

    fn build(capacity: usize, default_ttl: Option<u64>, sender: Option<Sender<Event>>) -> (r: Cache)
        ensures
            r.wf(),
            fresh(r@, capacity, default_ttl),
    {
        Cache { map: map_new(), capacity, default_ttl, sender, log: Ghost(Seq::empty()) }
    }

    /// An empty cache holding at most `capacity` entries.
    pub fn new(capacity: usize) -> (r: Cache)
        ensures
            r.wf(),
            fresh(r@, capacity, None),
    {
        Cache::build(capacity, None, None)
    }

    /// An empty cache that sends its events to `sender`.
    pub fn with_sender(capacity: usize, sender: Sender<Event>) -> (r: Cache)
        ensures
            r.wf(),
            fresh(r@, capacity, None),
    {
        Cache::build(capacity, None, Some(sender))
    }

    /// An empty cache whose inserts expire after `default_ttl` milliseconds.
    pub fn with_default_ttl(capacity: usize, default_ttl: u64) -> (r: Cache)
        ensures
            r.wf(),
            fresh(r@, capacity, Some(default_ttl)),
    {
        Cache::build(capacity, Some(default_ttl), None)
    }

    /// An empty cache with both an event sender and a default TTL.
    pub fn with_sender_and_ttl(capacity: usize, sender: Sender<Event>, default_ttl: u64) -> (r:
        Cache)
        ensures
            r.wf(),
            fresh(r@, capacity, Some(default_ttl)),
    {
        Cache::build(capacity, Some(default_ttl), Some(sender))
    }

    /// Send later events to `sender`.
    pub fn set_event(&mut self, sender: Sender<Event>)
        ensures
            final(self)@ == old(self)@,
    {
        self.sender = Some(sender);
    }

    /// Stop sending events.
    pub fn remove_event(&mut self)
        ensures
            final(self)@ == old(self)@,
    {
        self.sender = None;
    }

    fn emit(&mut self, event: Event)
        ensures
            final(self).map == old(self).map,
            final(self).capacity == old(self).capacity,
            final(self).default_ttl == old(self).default_ttl,
            final(self).log@ == old(self).log@.push(event@),
    {
        let ghost logged = self.log@.push(event@);
        self.log = Ghost(logged);
        match &self.sender {
            Some(s) => send_event(s, event),
            None => {},
        }
    }

    /// Drops the entry at position `i` and emits its Remove event.
    fn remove_at(&mut self, i: usize)
        requires
            old(self).wf(),
            i < old(self)@.entries.len(),
        ensures
            final(self).wf(),
            final(self)@ == after_removal_at(old(self)@, i as int),
    {
        proof {
            lemma_remove_unique(self@.entries, i as int);
        }
        match map_shift_remove_index(&mut self.map, i) {
            Some(e) => {
                let (k, item) = e;
                self.emit(Event::remove(k, item.value));
            },
            None => {},
        }
    }

    /// Stores `item` under `key`, as [`after_insert`] describes.
    pub fn insert_item(&mut self, key: &str, item: CacheItem)
        requires
            old(self).wf(),
        ensures
            final(self).wf(),
            final(self)@ == after_insert(old(self)@, key@, item@),
    {
        let ghost m = self@;
        proof {
            lemma_key_pos(m.entries, key@);
        }
        match map_index_of(&self.map, key) {
            Some(i) => {
                let same = match map_get_index(&self.map, i) {
                    Some(e) => e.1.value.eq(&item.value),
                    None => false,
                };
                assert(i == key_pos(m.entries, key@));
                if same {
                    return ;
                }
                proof {
                    lemma_remove_unique(m.entries, i as int);
                }
                let _ = map_shift_remove_index(&mut self.map, i);
            },
            None => {
                if map_len(&self.map) >= self.capacity {
                    if map_len(&self.map) > 0 {
                        self.remove_at(0);
                        proof {
                            assert(m.entries.remove(0) =~= m.entries.drop_first());
                            assert forall|j: int| 0 <= j < self@.entries.len() implies #[trigger] self@.entries[j].0 != key@ by {
                                assert(self@.entries[j] == m.entries[j + 1]);
                            }
                        }
                    }
                }
            },
        }
        let ghost mid = self@;
        let value = item.value.clone();
        let ghost iv = item@;
        let _ = map_insert(&mut self.map, key.to_owned(), item);
        proof {
            lemma_push_unique(mid.entries, (key@, iv));
        }
        self.emit(Event::insert(key.to_owned(), value));
        proof {
            let p = key_pos(m.entries, key@);
            let post = after_insert(m, key@, iv);
            if p >= 0 {
                assert(mid.entries == m.entries.remove(p));
            }
            if p < 0 && !(m.entries.len() >= m.capacity && m.entries.len() > 0) {
                assert(self@.events =~= m.events + seq![EventView::Insert(key@, iv.value)]);
            } else if p < 0 {
                assert(self@.events =~= m.events + seq![
                    removal(m.entries[0]),
                    EventView::Insert(key@, iv.value),
                ]);
            } else {
                assert(self@.events =~= m.events + seq![EventView::Insert(key@, iv.value)]);
            }
            assert(self@.events =~= post.events);
            assert(self@ == post);
        }
    }
    /// Stores `value` under `key` at time `now`, with the default TTL.
    pub fn insert_at(&mut self, key: &str, value: Value, now: u64)
        requires
            old(self).wf(),
        ensures
            final(self).wf(),
            final(self)@ == after_insert(
                old(self)@,
                key@,
                ItemView { value: value@, created_at: now, ttl: old(self)@.default_ttl },
            ),
    {
        let item = match self.default_ttl {
            Some(ttl) => CacheItem::with_ttl_at(value, ttl, now),
            None => CacheItem::new_at(value, now),
        };
        self.insert_item(key, item);
    }

    /// Stores `value` under `key`, written now, with the default TTL.
    pub fn insert(&mut self, key: &str, value: Value)
        requires
            old(self).wf(),
        ensures
            final(self).wf(),
            exists|now: u64|
                final(self)@ == #[trigger] after_insert(
                    old(self)@,
                    key@,
                    ItemView { value: value@, created_at: now, ttl: old(self)@.default_ttl },
                ),
    {
        let now = current_time_millis();
        self.insert_at(key, value, now);
    }

    /// Stores `value` under `key` at time `now`, expiring `ttl` milliseconds later.
    pub fn insert_with_ttl_at(&mut self, key: &str, value: Value, ttl: u64, now: u64)
        requires
            old(self).wf(),
        ensures
            final(self).wf(),
            final(self)@ == after_insert(
                old(self)@,
                key@,
                ItemView { value: value@, created_at: now, ttl: Some(ttl) },
            ),
    {
        self.insert_item(key, CacheItem::with_ttl_at(value, ttl, now));
    }

    /// Stores `value` under `key`, written now, expiring `ttl` milliseconds later.
    pub fn insert_with_ttl(&mut self, key: &str, value: Value, ttl: u64)
        requires
            old(self).wf(),
        ensures
            final(self).wf(),
            exists|now: u64|
                final(self)@ == #[trigger] after_insert(
                    old(self)@,
                    key@,
                    ItemView { value: value@, created_at: now, ttl: Some(ttl) },
                ),
    {
        let now = current_time_millis();
        self.insert_with_ttl_at(key, value, ttl, now);
    }

    /// Looks `key` up at time `now`: position of its live entry, after
    /// dropping the entry (with a Remove event) if it has expired.
    fn find_live(&mut self, key: &str, now: u64) -> (r: Option<usize>)
        requires
            old(self).wf(),
        ensures
            final(self).wf(),
            final(self)@ == after_lookup(old(self)@, key@, now),
            match r {
                Some(i) => i == key_pos(final(self)@.entries, key@) && i < final(self)@.entries.len()
                    && lookup(old(self)@, key@, now)
                    == Some(final(self)@.entries[i as int].1.value),
                None => lookup(old(self)@, key@, now) is None,
            },
    {
        let ghost m = self@;
        proof {
            lemma_key_pos(m.entries, key@);
        }
        match map_index_of(&self.map, key) {
            Some(i) => {
                let expired = match map_get_index(&self.map, i) {
                    Some(e) => e.1.is_expired_at(now),
                    None => false,
                };
                if expired {
                    self.remove_at(i);
                    None
                } else {
                    Some(i)
                }
            },
            None => None,
        }
    }

    /// The value under `key` at time `now`, if live. An expired entry is
    /// dropped, with a Remove event. Insertion order does not change.
    pub fn get_at(&mut self, key: &str, now: u64) -> (r: Option<&Value>)
        requires
            old(self).wf(),
        ensures
            final(self).wf(),
            final(self)@ == after_lookup(old(self)@, key@, now),
            match r {
                Some(v) => lookup(old(self)@, key@, now) == Some(v@),
                None => lookup(old(self)@, key@, now) is None,
            },
    {
        match self.find_live(key, now) {
            Some(i) => match map_get_index(&self.map, i) {
                Some(e) => {
                    proof {
                        assert(e.1.value@ == e.1@.value);
                    }
                    Some(&e.1.value)
                },
                None => None,
            },
            None => None,
        }
    }

    /// The value under `key` if live now; an expired entry is dropped, with a
    /// Remove event.
    pub fn get(&mut self, key: &str) -> (r: Option<&Value>)
        requires
            old(self).wf(),
        ensures
            final(self).wf(),
            exists|now: u64|
                final(self)@ == #[trigger] after_lookup(old(self)@, key@, now) && match r {
                    Some(v) => lookup(old(self)@, key@, now) == Some(v@),
                    None => lookup(old(self)@, key@, now) is None,
                },
    {
        let now = current_time_millis();
        self.get_at(key, now)
    }

    /// Whether `key` is live at time `now`; an expired entry is dropped, with
    /// a Remove event.
    pub fn contains_key_at(&mut self, key: &str, now: u64) -> (r: bool)
        requires
            old(self).wf(),
        ensures
            final(self).wf(),
            final(self)@ == after_lookup(old(self)@, key@, now),
            r == lookup(old(self)@, key@, now) is Some,
    {
        self.find_live(key, now).is_some()
    }

    /// Whether `key` is live now; an expired entry is dropped, with a Remove
    /// event.
    pub fn contains_key(&mut self, key: &str) -> (r: bool)
        requires
            old(self).wf(),
        ensures
            final(self).wf(),
            exists|now: u64|
                final(self)@ == #[trigger] after_lookup(old(self)@, key@, now) && r == lookup(
                    old(self)@,
                    key@,
                    now,
                ) is Some,
    {
        let now = current_time_millis();
        self.contains_key_at(key, now)
    }

    /// Removes the entry under `key`, with a Remove event. The other entries
    /// keep their order.
    pub fn remove(&mut self, key: &str) -> (r: Result<(), Error>)
        requires
            old(self).wf(),
        ensures
            final(self).wf(),
            key_pos(old(self)@.entries, key@) >= 0 ==> r is Ok && final(self)@ == after_removal_at(
                old(self)@,
                key_pos(old(self)@.entries, key@),
            ),
            key_pos(old(self)@.entries, key@) < 0 ==> r == Err::<(), Error>(Error::KeyNotFound)
                && final(self)@ == old(self)@,
    {
        proof {
            lemma_key_pos(self@.entries, key@);
        }
        match map_index_of(&self.map, key) {
            Some(i) => {
                self.remove_at(i);
                Ok(())
            },
            None => Err(Error::KeyNotFound),
        }
    }

    /// Drops every entry and emits one Clear event. Capacity, default TTL and
    /// sender stay.
    pub fn clear(&mut self)
        ensures
            final(self).wf(),
            final(self)@ == (CacheView {
                entries: Seq::empty(),
                capacity: old(self)@.capacity,
                default_ttl: old(self)@.default_ttl,
                events: old(self)@.events.push(EventView::Clear),
            }),
    {
        map_clear(&mut self.map);
        self.emit(Event::clear());
    }

    /// The number of entries, expired ones not yet dropped included.
    pub fn len(&self) -> (r: usize)
        ensures
            r == self@.entries.len(),
    {
        map_len(&self.map)
    }

    /// Whether there are no entries.
    pub fn is_empty(&self) -> (r: bool)
        ensures
            r == (self@.entries.len() == 0),
    {
        map_len(&self.map) == 0
    }

    /// The most entries the cache keeps.
    pub fn capacity(&self) -> (r: usize)
        ensures
            r == self@.capacity,
    {
        self.capacity
    }

    /// Sets the capacity. Lowering it below the current size evicts nothing
    /// now; later inserts of new keys evict.
    pub fn set_capacity(&mut self, capacity: usize)
        ensures
            final(self)@ == (CacheView { capacity, ..old(self)@ }),
    {
        self.capacity = capacity;
    }

    /// Sets the TTL, in milliseconds, that later inserts get.
    pub fn set_default_ttl(&mut self, ttl: Option<u64>)
        ensures
            final(self)@ == (CacheView { default_ttl: ttl, ..old(self)@ }),
    {
        self.default_ttl = ttl;
    }

    /// The TTL, in milliseconds, that inserts get.
    pub fn get_default_ttl(&self) -> (r: Option<u64>)
        ensures
            r == self@.default_ttl,
    {
        self.default_ttl
    }

    /// The keys, in insertion order, expired ones not yet dropped included.
    pub fn get_list(&self) -> (r: Vec<String>)
        ensures
            crate::key_order::texts(r@) == crate::model::keys_of(self@.entries),
    {
        let mut r: Vec<String> = Vec::new();
        let n = map_len(&self.map);
        let mut i: usize = 0;
        while i < n
            invariant
                n == self@.entries.len(),
                i <= n,
                r@.len() == i,
                crate::key_order::texts(r@) == crate::model::keys_of(self@.entries).take(i as int),
            decreases n - i,
        {
            let ghost before = r@;
            match map_get_index(&self.map, i) {
                Some(e) => r.push(e.0.clone()),
                None => {},
            }
            proof {
                assert(r@ == before.push(r@[i as int]));
                assert(r@[i as int]@ == self@.entries[i as int].0);
                assert(crate::model::keys_of(self@.entries).take(i + 1) =~= crate::model::keys_of(self@.entries).take(i as int).push(self@.entries[i as int].0));
                assert(crate::key_order::texts(r@) =~= crate::key_order::texts(before).push(r@[i as int]@));
                assert(crate::key_order::texts(r@) =~= crate::model::keys_of(self@.entries).take(i + 1));
            }
            i = i + 1;
        }
        proof {
            assert(crate::model::keys_of(self@.entries).take(n as int) =~= crate::model::keys_of(self@.entries));
        }
        r
    }
    /// Drops every entry expired at time `now`, each with a Remove event, and
    /// returns how many there were. Surviving entries keep their order.
    pub fn cleanup_expired_at(&mut self, now: u64) -> (r: usize)
        requires
            old(self).wf(),
        ensures
            final(self).wf(),
            final(self)@ == after_sweep(old(self)@, now),
            r == expired_at(old(self)@.entries, now).len(),
    {
        let ghost m = self@;
        let ghost mut k: int = 0;
        let mut i: usize = 0;
        let mut removed: usize = 0;
        let total = map_len(&self.map);
        proof {
            assert(m.entries.take(0) =~= Seq::<(Seq<char>, ItemView)>::empty());
            reveal(Seq::filter);
            assert(live_at(m.entries.take(0), now) =~= Seq::<(Seq<char>, ItemView)>::empty());
            assert(expired_at(m.entries.take(0), now) =~= Seq::<(Seq<char>, ItemView)>::empty());
            assert(self@.entries =~= live_at(m.entries.take(0), now) + m.entries.skip(0));
            assert(self@.events =~= m.events + expired_at(m.entries.take(0), now).map_values(|x| removal(x)));
        }
        while i < map_len(&self.map)
            invariant
                self.wf(),
                0 <= k <= m.entries.len(),
                total == m.entries.len(),
                self@.capacity == m.capacity,
                self@.default_ttl == m.default_ttl,
                i == live_at(m.entries.take(k), now).len(),
                removed == expired_at(m.entries.take(k), now).len(),
                removed <= k,
                self@.entries == live_at(m.entries.take(k), now) + m.entries.skip(k),
                self@.events == m.events + expired_at(m.entries.take(k), now).map_values(
                    |x| removal(x),
                ),
            decreases m.entries.len() - k,
        {
            let ghost pre = self@;
            let ghost x = m.entries[k];
            proof {
                assert(self@.entries[i as int] == x);
                assert(m.entries.take(k + 1) =~= m.entries.take(k).push(x));
                assert(m.entries.skip(k) =~= seq![x] + m.entries.skip(k + 1));
                lemma_filter_push(m.entries.take(k), x, |x: (Seq<char>, ItemView)| x.1.live_at(now));
                lemma_filter_push(m.entries.take(k), x, |x: (Seq<char>, ItemView)| !x.1.live_at(now));
            }
            let expired = match map_get_index(&self.map, i) {
                Some(e) => e.1.is_expired_at(now),
                None => false,
            };
            if expired {
                self.remove_at(i);
                removed = removed + 1;
                proof {
                    assert(self@.entries =~= live_at(m.entries.take(k + 1), now) + m.entries.skip(k + 1));
                    assert(self@.events =~= m.events + expired_at(m.entries.take(k + 1), now).map_values(|x| removal(x)));
                }
            } else {
                i = i + 1;
                proof {
                    assert(self@.entries =~= live_at(m.entries.take(k + 1), now) + m.entries.skip(k + 1));
                }
            }
            proof {
                k = k + 1;
            }
        }
        proof {
            assert(k == m.entries.len());
            assert(m.entries.take(k) =~= m.entries);
            assert(self@.entries =~= live_at(m.entries, now));
            assert(self@ == after_sweep(m, now));
        }
        removed
    }

    /// Drops every entry expired now, each with a Remove event, and returns
    /// how many there were.
    pub fn cleanup_expired(&mut self) -> (r: usize)
        requires
            old(self).wf(),
        ensures
            final(self).wf(),
            exists|now: u64|
                final(self)@ == #[trigger] after_sweep(old(self)@, now) && r == expired_at(
                    old(self)@.entries,
                    now,
                ).len(),
    {
        let now = current_time_millis();
        self.cleanup_expired_at(now)
    }
    /// The keys in the order a listing walks them.
    fn walk_keys(&self, order: Order) -> (q: Vec<String>)
        requires
            self.wf(),
        ensures
            texts(q@) == walk(self@.entries, order),
    {
        let keys = self.get_list();
        let sorted = sort_keys(&keys);
        match order {
            Order::Asc => sorted,
            Order::Desc => {
                let mut rev: Vec<String> = Vec::new();
                let n = sorted.len();
                let mut t: usize = 0;
                while t < n
                    invariant
                        n == sorted@.len(),
                        t <= n,
                        rev@.len() == t,
                        forall|i: int| 0 <= i < t ==> #[trigger] rev@[i] == sorted@[n - 1 - i],
                    decreases n - t,
                {
                    rev.push(sorted[n - 1 - t].clone());
                    t = t + 1;
                }
                proof {
                    assert(texts(rev@) =~= texts(sorted@).reverse());
                }
                rev
            },
        }
    }

    /// The entries whose keys follow position `s` of `q` and pass `filter`,
    /// at most `limit` of them, with their values.
    fn collect(&self, q: &Vec<String>, s: usize, filter: &Filter, limit: usize) -> (r: Vec<
        (String, &Value),
    >)
        requires
            self.wf(),
            s <= q@.len(),
            forall|j: int| 0 <= j < q@.len() ==> keys_of(self@.entries).contains(#[trigger] texts(q@)[j]),
        ensures
            pairs(r@) == first_n(passing(texts(q@).skip(s as int), filter@), limit as int).map_values(
                |k: Seq<char>| (k, value_of(self@.entries, k)),
            ),
    {
        let ghost e = self@.entries;
        let ghost rest = texts(q@).skip(s as int);
        let ghost f = filter@;
        let mut out: Vec<(String, &Value)> = Vec::new();
        let mut j: usize = s;
        proof {
            reveal(Seq::filter);
            assert(rest.take(0) =~= Seq::<Seq<char>>::empty());
            assert(passing(rest.take(0), f) =~= Seq::<Seq<char>>::empty());
            assert(pairs(out@) =~= passing(rest.take(0), f).map_values(|k: Seq<char>| (k, value_of(e, k))));
        }
        while j < q.len() && out.len() < limit
            invariant
                s <= j <= q@.len(),
                e == self@.entries,
                unique_keys(e),
                rest == texts(q@).skip(s as int),
                f == filter@,
                forall|i: int| 0 <= i < q@.len() ==> keys_of(e).contains(#[trigger] texts(q@)[i]),
                out@.len() <= limit,
                out@.len() == passing(rest.take(j - s), f).len(),
                pairs(out@) == passing(rest.take(j - s), f).map_values(
                    |k: Seq<char>| (k, value_of(e, k)),
                ),
            decreases q@.len() - j,
        {
            let key = &q[j];
            let ghost kv = key@;
            proof {
                assert(rest[j - s] == kv);
                assert(rest.take(j - s + 1) =~= rest.take(j - s).push(kv));
                lemma_filter_push(rest.take(j - s), kv, |k: Seq<char>| f.accepts(key_bytes(k)));
                assert(keys_of(e).contains(texts(q@)[j as int]));
                lemma_key_pos(e, kv);
            }
            if apply_filter_fast(key.as_str(), filter) {
                match map_index_of(&self.map, key.as_str()) {
                    Some(i) => match map_get_index(&self.map, i) {
                        Some(entry) => {
                            let ghost before = out@;
                            out.push((key.clone(), &entry.1.value));
                            proof {
                                assert(i as int == key_pos(e, kv));
                                assert(entry.1.value@ == value_of(e, kv));
                                assert(pairs(out@) =~= pairs(before).push((kv, value_of(e, kv))));
                                assert(pairs(out@) =~= passing(rest.take(j - s + 1), f).map_values(
                                    |k: Seq<char>| (k, value_of(e, k)),
                                ));
                            }
                        },
                        None => {},
                    },
                    None => {
                        proof {
                            let x = choose|x: int| 0 <= x < keys_of(e).len() && keys_of(e)[x] == kv;
                            assert(e[x].0 == kv);
                        }
                    },
                }
            }
            j = j + 1;
        }
        proof {
            let took = passing(rest.take(j - s), f);
            let tail = passing(rest.skip(j - s), f);
            assert(rest =~= rest.take(j - s) + rest.skip(j - s));
            Seq::filter_distributes_over_add(
                rest.take(j - s),
                rest.skip(j - s),
                |k: Seq<char>| f.accepts(key_bytes(k)),
            );
            assert(passing(rest, f) == took + tail);
            if j == q.len() {
                assert(rest.skip(j - s) =~= Seq::<Seq<char>>::empty());
                reveal(Seq::filter);
                assert(passing(rest, f) =~= took);
            } else {
                assert((took + tail).take(limit as int) =~= took);
            }
        }
        out
    }

    /// Lists the entries live at time `now`, after dropping expired ones
    /// (each with a Remove event): keys in byte order, or its reverse for
    /// `Desc`, from just after the cursor, passing the filter, at most
    /// `limit` of them. A limit of zero gives an empty list and leaves the
    /// cursor unchecked; otherwise a cursor that names no live key is an error.
    pub fn list_at(&mut self, props: ListProps, now: u64) -> (r: Result<Vec<(String, &Value)>, Error>)
        requires
            old(self).wf(),
        ensures
            final(self).wf(),
            final(self)@ == after_sweep(old(self)@, now),
            ({
                let e = final(self)@.entries;
                let (order, f, start, limit) = props.spec_parts();
                if cursor_missing(walk(e, order), start, limit) {
                    r == Err::<Vec<(String, &Value)>, Error>(Error::SortKeyNotFound)
                } else {
                    r is Ok && pairs(r->Ok_0@) == listing(e, order, f, start, limit)
                }
            }),
    {
        self.cleanup_expired_at(now);
        if props.limit == 0 {
            proof {
                assert(first_n(passing(past_cursor(walk(self@.entries, props.order), props.start_after_key@), props.filter@), 0)
                    =~= Seq::<Seq<char>>::empty());
                assert(pairs(Seq::<(String, &Value)>::empty()) =~= listing(self@.entries, props.order, props.filter@, props.start_after_key@, 0));
            }
            return Ok(Vec::new());
        }
        let q = self.walk_keys(props.order);
        proof {
            lemma_walk_keys(self@.entries, props.order);
        }
        let s = cursor_start(&q, &props.start_after_key);
        match s {
            Ok(s) => {
                let out = self.collect(&q, s, &props.filter, props.limit);
                proof {
                    let e = self@.entries;
                    let q = walk(e, props.order);
                    assert(!cursor_missing(q, props.start_after_key@, props.limit));
                    assert(pairs(out@) == listing(e, props.order, props.filter@, props.start_after_key@, props.limit));
                }
                Ok(out)
            },
            Err(e) => {
                proof {
                    assert(cursor_missing(walk(self@.entries, props.order), props.start_after_key@, props.limit));
                }
                Err(e)
            },
        }
    }

    /// Lists the entries live now; see [`Cache::list_at`].
    pub fn list(&mut self, props: ListProps) -> (r: Result<Vec<(String, &Value)>, Error>)
        requires
            old(self).wf(),
        ensures
            final(self).wf(),
            exists|now: u64|
                final(self)@ == #[trigger] after_sweep(old(self)@, now) && ({
                    let e = final(self)@.entries;
                    let (order, f, start, limit) = props.spec_parts();
                    if cursor_missing(walk(e, order), start, limit) {
                        r == Err::<Vec<(String, &Value)>, Error>(Error::SortKeyNotFound)
                    } else {
                        r is Ok && pairs(r->Ok_0@) == listing(e, order, f, start, limit)
                    }
                }),
    {
        let now = current_time_millis();
        self.list_at(props, now)
    }
    /// Reloads stored rows at time `now`, without events: in byte order of
    /// their keys, each live row whose key is not yet present is added while
    /// the cache has room. A key stored twice takes its last row.
    pub fn restore_at(&mut self, rows: &Vec<(String, CacheItem)>, now: u64)
        requires
            old(self).wf(),
        ensures
            final(self).wf(),
            final(self)@ == (CacheView {
                entries: restored(
                    old(self)@.entries,
                    sorted_keys(rows_view(rows@)),
                    rows_view(rows@),
                    old(self)@.capacity,
                    now,
                ),
                ..old(self)@
            }),
    {
        let ghost m = self@;
        let ghost rv = rows_view(rows@);
        let mut keys: Vec<String> = Vec::new();
        let mut i: usize = 0;
        while i < rows.len()
            invariant
                i <= rows@.len(),
                rv == rows_view(rows@),
                texts(keys@) == keys_of(rv).take(i as int),
            decreases rows@.len() - i,
        {
            let ghost before = keys@;
            keys.push(rows[i].0.clone());
            proof {
                assert(texts(keys@) =~= texts(before).push(rv[i as int].0));
                assert(keys_of(rv).take(i + 1) =~= keys_of(rv).take(i as int).push(rv[i as int].0));
            }
            i = i + 1;
        }
        proof {
            assert(keys_of(rv).take(rows@.len() as int) =~= keys_of(rv));
        }
        let sorted = sort_keys(&keys);
        proof {
            crate::key_order::lemma_key_order_total();
            keys_of(rv).lemma_sort_by_ensures(key_order());
            broadcast use vstd::seq_lib::group_to_multiset_ensures;

            assert(sorted_keys(rv) == texts(sorted@));
            assert(restored(m.entries, texts(sorted@).take(0), rv, m.capacity, now) == m.entries);
        }
        let mut t: usize = 0;
        while t < sorted.len()
            invariant
                t <= sorted@.len(),
                self.wf(),
                rv == rows_view(rows@),
                texts(sorted@) == sorted_keys(rv),
                keys_of(rv).to_multiset() == sorted_keys(rv).to_multiset(),
                self@ == (CacheView {
                    entries: restored(m.entries, texts(sorted@).take(t as int), rv, m.capacity, now),
                    ..m
                }),
            decreases sorted@.len() - t,
        {
            let key = &sorted[t];
            let ghost ks = texts(sorted@).take(t + 1);
            proof {
                broadcast use vstd::seq_lib::group_to_multiset_ensures;

                assert(ks.drop_last() =~= texts(sorted@).take(t as int));
                assert(ks.last() == key@);
                assert(sorted_keys(rv).to_multiset().contains(key@));
                assert(keys_of(rv).contains(key@));
                lemma_key_pos(rv, key@);
                let w = choose|w: int| 0 <= w < keys_of(rv).len() && keys_of(rv)[w] == key@;
                assert(rv[w].0 == key@);
            }
            let mut r: usize = rows.len();
            while r > 0 && !rows[r - 1].0.eq(key)
                invariant
                    r <= rows@.len(),
                    rv == rows_view(rows@),
                    key_pos(rv, key@) >= 0,
                    forall|x: int| r <= x < rows@.len() ==> #[trigger] rv[x].0 != key@,
                    forall|x: int| key_pos(rv, key@) < x < rv.len() ==> #[trigger] rv[x].0 != key@,
                    rv[key_pos(rv, key@)].0 == key@,
                decreases r,
            {
                r = r - 1;
            }
            proof {
                if r == 0 {
                    assert(rv[key_pos(rv, key@)].0 == key@);
                    assert(false);
                }
                let found = (r - 1) as int;
                assert(rv[found].0 == key@);
                if found < key_pos(rv, key@) {
                    assert(false);
                }
                assert(found == key_pos(rv, key@));
                assert(row_for(rv, key@) == rv[found]);
                lemma_key_pos(self@.entries, key@);
            }
            let item = &rows[r - 1].1;
            if !item.is_expired_at(now) && map_len(&self.map) < self.capacity {
                match map_index_of(&self.map, key.as_str()) {
                    Some(_) => {},
                    None => {
                        let ghost pre = self@.entries;
                        let _ = map_insert(&mut self.map, key.clone(), item.duplicate());
                        proof {
                            lemma_push_unique(pre, (key@, item@));
                        }
                    },
                }
            }
            t = t + 1;
        }
        proof {
            assert(texts(sorted@).take(sorted@.len() as int) =~= texts(sorted@));
        }
    }
    /// The entries live at time `now`, in insertion order, with their values.
    /// Nothing is dropped.
    pub fn get_map_at(&self, now: u64) -> (r: Vec<(String, &Value)>)
        ensures
            pairs(r@) == live_pairs(self@.entries, now),
    {
        let ghost e = self@.entries;
        let n = map_len(&self.map);
        let mut out: Vec<(String, &Value)> = Vec::new();
        let mut i: usize = 0;
        proof {
            reveal(Seq::filter);
            assert(e.take(0) =~= Seq::<(Seq<char>, ItemView)>::empty());
            assert(pairs(out@) =~= live_at(e.take(0), now).map_values(
                |x: (Seq<char>, ItemView)| (x.0, x.1.value),
            ));
        }
        while i < n
            invariant
                n == e.len(),
                e == self@.entries,
                i <= n,
                pairs(out@) == live_at(e.take(i as int), now).map_values(
                    |x: (Seq<char>, ItemView)| (x.0, x.1.value),
                ),
            decreases n - i,
        {
            proof {
                assert(e.take(i + 1) =~= e.take(i as int).push(e[i as int]));
                lemma_filter_push(e.take(i as int), e[i as int], |x: (Seq<char>, ItemView)| x.1.live_at(now));
            }
            match map_get_index(&self.map, i) {
                Some(entry) => {
                    if !entry.1.is_expired_at(now) {
                        let ghost before = out@;
                        out.push((entry.0.clone(), &entry.1.value));
                        proof {
                            assert(pairs(out@) =~= pairs(before).push((e[i as int].0, e[i as int].1.value)));
                        }
                    }
                },
                None => {},
            }
            proof {
                assert(pairs(out@) =~= live_at(e.take(i + 1), now).map_values(
                    |x: (Seq<char>, ItemView)| (x.0, x.1.value),
                ));
            }
            i = i + 1;
        }
        proof {
            assert(e.take(n as int) =~= e);
        }
        assert(pairs(out@) == live_pairs(e, now));
        out
    }

    /// The entries live now, in insertion order, with their values.
    pub fn get_map(&self) -> (r: Vec<(String, &Value)>)
        ensures
            exists|now: u64| pairs(r@) == #[trigger] live_pairs(self@.entries, now),
    {
        self.get_map_at(current_time_millis())
    }
}

} // verus!
