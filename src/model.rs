//! The mathematical model of a cache and of what each operation does to it.

use crate::event::EventView;
use crate::filter::{key_bytes, FilterView};
use crate::item::ItemView;
use crate::key_order::key_order;
use crate::list_props::Order;
use crate::value::ValueView;
use vstd::prelude::*;

verus! {

/// Entries in insertion order, oldest first.
pub type Entries = Seq<(Seq<char>, ItemView)>;

/// What a cache holds and has emitted.
pub struct CacheView {
    /// The entries, oldest first: the first one is the next eviction victim.
    pub entries: Entries,
    pub capacity: usize,
    /// The TTL that `insert` gives, in milliseconds.
    pub default_ttl: Option<u64>,
    /// Every event the cache has emitted, in order.
    pub events: Seq<EventView>,
}

/// No key occurs twice.
pub open spec fn unique_keys(e: Entries) -> bool {
    forall|i: int, j: int| 0 <= i < j < e.len() ==> #[trigger] e[i].0 != #[trigger] e[j].0
}

/// The position of the entry under `k`, or -1 if there is none.
pub open spec fn key_pos(e: Entries, k: Seq<char>) -> int
    decreases e.len(),
{
    if e.len() == 0 {
        -1
    } else if e.last().0 == k {
        e.len() - 1
    } else {
        key_pos(e.drop_last(), k)
    }
}

pub proof fn lemma_key_pos(e: Entries, k: Seq<char>)
    ensures
        -1 <= key_pos(e, k) < e.len(),
        key_pos(e, k) >= 0 ==> e[key_pos(e, k)].0 == k,
        key_pos(e, k) == -1 <==> forall|i: int| 0 <= i < e.len() ==> #[trigger] e[i].0 != k,
        forall|i: int| key_pos(e, k) < i < e.len() ==> #[trigger] e[i].0 != k,
        unique_keys(e) ==> forall|i: int| 0 <= i < e.len() && #[trigger] e[i].0 == k ==> i == key_pos(e, k),
    decreases e.len(),
{
    if e.len() > 0 {
        lemma_key_pos(e.drop_last(), k);
        if e.last().0 != k {
            assert forall|i: int| 0 <= i < e.len() - 1 implies #[trigger] e[i].0 == e.drop_last()[i].0 by {}
        }
    }
}

/// Filtering a sequence with one more element at its end.
pub proof fn lemma_filter_push<A>(s: Seq<A>, x: A, p: spec_fn(A) -> bool)
    ensures
        s.push(x).filter(p) == (if p(x) {
            s.filter(p).push(x)
        } else {
            s.filter(p)
        }),
{
    reveal(Seq::filter);
    assert(s.push(x).drop_last() =~= s);
}

/// The Remove event for an entry.
pub open spec fn removal(e: (Seq<char>, ItemView)) -> EventView {
    EventView::Remove(e.0, e.1.value)
}

/// The model after storing `item` under `k`.
///
/// An entry under `k` with an equal value makes this a no-op. Otherwise an
/// entry under `k` is replaced, or, for a new key when the cache is full, the
/// oldest entry is evicted with a Remove event; the new entry goes last and an
/// Insert event follows.
pub open spec fn after_insert(m: CacheView, k: Seq<char>, item: ItemView) -> CacheView {
    let p = key_pos(m.entries, k);
    if p >= 0 && m.entries[p].1.value == item.value {
        m
    } else {
        let (kept, evicted) = if p >= 0 {
            (m.entries.remove(p), Seq::<EventView>::empty())
        } else if m.entries.len() >= m.capacity && m.entries.len() > 0 {
            (m.entries.drop_first(), seq![removal(m.entries[0])])
        } else {
            (m.entries, Seq::<EventView>::empty())
        };
        CacheView {
            entries: kept.push((k, item)),
            capacity: m.capacity,
            default_ttl: m.default_ttl,
            events: m.events + evicted.push(EventView::Insert(k, item.value)),
        }
    }
}

/// The model after the entry at position `p` leaves with a Remove event.
pub open spec fn after_removal_at(m: CacheView, p: int) -> CacheView {
    CacheView {
        entries: m.entries.remove(p),
        capacity: m.capacity,
        default_ttl: m.default_ttl,
        events: m.events.push(removal(m.entries[p])),
    }
}

/// The model after a lookup of `k` at time `now`, which drops an expired entry.
pub open spec fn after_lookup(m: CacheView, k: Seq<char>, now: u64) -> CacheView {
    let p = key_pos(m.entries, k);
    if p >= 0 && !m.entries[p].1.live_at(now) {
        after_removal_at(m, p)
    } else {
        m
    }
}

/// The value a lookup of `k` at time `now` finds.
pub open spec fn lookup(m: CacheView, k: Seq<char>, now: u64) -> Option<ValueView> {
    let p = key_pos(m.entries, k);
    if p >= 0 && m.entries[p].1.live_at(now) {
        Some(m.entries[p].1.value)
    } else {
        None
    }
}

/// The entries that have expired at `now`, in order.
pub open spec fn expired_at(e: Entries, now: u64) -> Entries {
    e.filter(|x: (Seq<char>, ItemView)| !x.1.live_at(now))
}

/// The entries still live at `now`, in order.
pub open spec fn live_at(e: Entries, now: u64) -> Entries {
    e.filter(|x: (Seq<char>, ItemView)| x.1.live_at(now))
}

/// The model after every expired entry is dropped at `now`, each with a
/// Remove event, in order.
pub open spec fn after_sweep(m: CacheView, now: u64) -> CacheView {
    CacheView {
        entries: live_at(m.entries, now),
        capacity: m.capacity,
        default_ttl: m.default_ttl,
        events: m.events + expired_at(m.entries, now).map_values(|x| removal(x)),
    }
}

/// The keys of the entries, in insertion order.
pub open spec fn keys_of(e: Entries) -> Seq<Seq<char>> {
    e.map_values(|x: (Seq<char>, ItemView)| x.0)
}

/// The keys of the entries in byte order.
pub open spec fn sorted_keys(e: Entries) -> Seq<Seq<char>> {
    keys_of(e).sort_by(key_order())
}

/// The keys in the order a listing walks them.
pub open spec fn walk(e: Entries, order: Order) -> Seq<Seq<char>> {
    match order {
        Order::Asc => sorted_keys(e),
        Order::Desc => sorted_keys(e).reverse(),
    }
}

/// The part of `q` that follows the cursor.
pub open spec fn past_cursor(q: Seq<Seq<char>>, start: Option<Seq<char>>) -> Seq<Seq<char>> {
    match start {
        None => q,
        Some(k) => q.skip(q.index_of(k) + 1),
    }
}

/// The keys of `q` that pass `f`, in order.
pub open spec fn passing(q: Seq<Seq<char>>, f: FilterView) -> Seq<Seq<char>> {
    q.filter(|k: Seq<char>| f.accepts(key_bytes(k)))
}

/// The first `limit` elements of `q`, or all of them when there are fewer.
pub open spec fn first_n<A>(q: Seq<A>, limit: int) -> Seq<A> {
    if q.len() <= limit {
        q
    } else {
        q.take(limit)
    }
}

/// The keys a listing of `q` returns: after the cursor, passing the
/// filter, at most `limit` of them.
pub open spec fn listed(
    q: Seq<Seq<char>>,
    f: FilterView,
    start: Option<Seq<char>>,
    limit: usize,
) -> Seq<Seq<char>> {
    first_n(passing(past_cursor(q, start), f), limit as int)
}

/// A listing fails exactly when it may return something and its cursor
/// names a key that is not there.
pub open spec fn cursor_missing(q: Seq<Seq<char>>, start: Option<Seq<char>>, limit: usize) -> bool {
    limit > 0 && match start {
        Some(k) => !q.contains(k),
        None => false,
    }
}

/// The entry that reloading takes for key `k` from the stored rows: the
/// last row under that key.
pub open spec fn row_for(rows: Entries, k: Seq<char>) -> (Seq<char>, ItemView) {
    rows[key_pos(rows, k)]
}

/// The entries after reloading stored rows, walked in the key order `ks`:
/// a live row whose key is not yet present is appended while there is room.
pub open spec fn restored(e: Entries, ks: Seq<Seq<char>>, rows: Entries, capacity: usize, now: u64) -> Entries
    decreases ks.len(),
{
    if ks.len() == 0 {
        e
    } else {
        let before = restored(e, ks.drop_last(), rows, capacity, now);
        let row = row_for(rows, ks.last());
        if row.1.live_at(now) && before.len() < capacity && key_pos(before, ks.last()) < 0 {
            before.push(row)
        } else {
            before
        }
    }
}

/// The value stored under `k`.
pub open spec fn value_of(e: Entries, k: Seq<char>) -> ValueView {
    e[key_pos(e, k)].1.value
}

/// The key-value pairs that a listing of the entries `e` returns.
pub open spec fn listing(
    e: Entries,
    order: Order,
    f: FilterView,
    start: Option<Seq<char>>,
    limit: usize,
) -> Seq<(Seq<char>, ValueView)> {
    listed(walk(e, order), f, start, limit).map_values(|k: Seq<char>| (k, value_of(e, k)))
}

} // verus!
