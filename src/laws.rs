//! Properties that hold across the cache's operations.

use crate::event::EventView;
use crate::filter::{key_bytes, FilterView};
use crate::item::ItemView;
use crate::cache::lemma_walk_keys;
use crate::list_props::Order;
use crate::model::{
    after_insert, after_lookup, after_removal_at, after_sweep, cursor_missing, first_n, past_cursor, key_pos, lemma_filter_push, lemma_key_pos,
    keys_of, listed, live_at, lookup, passing, removal, restored, row_for, sorted_keys, unique_keys,
    walk, CacheView, Entries,
};
use vstd::prelude::*;

verus! {

/// Inserting never takes a cache with positive capacity over it: if the
/// entries fit before, they fit after. Removals, lookups and sweeps only
/// remove.
pub proof fn law_capacity_bound(m: CacheView, k: Seq<char>, item: ItemView, now: u64, p: int)
    requires
        unique_keys(m.entries),
        0 < m.capacity,
        m.entries.len() <= m.capacity,
        0 <= p < m.entries.len(),
    ensures
        after_removal_at(m, p).entries.len() <= after_removal_at(m, p).capacity,
        after_insert(m, k, item).entries.len() <= after_insert(m, k, item).capacity,
        after_lookup(m, k, now).entries.len() <= after_lookup(m, k, now).capacity,
        after_sweep(m, now).entries.len() <= after_sweep(m, now).capacity,
{
    lemma_key_pos(m.entries, k);
    m.entries.lemma_filter_len(|x: (Seq<char>, ItemView)| x.1.live_at(now));
}

/// Storing a key's current value again changes nothing: no event, and the
/// entry keeps its write time.
pub proof fn law_equal_value_is_noop(m: CacheView, k: Seq<char>, item: ItemView)
    requires
        key_pos(m.entries, k) >= 0,
        m.entries[key_pos(m.entries, k)].1.value == item.value,
    ensures
        after_insert(m, k, item) == m,
{
}

/// An item with TTL `t` is live while at most `t` milliseconds have passed
/// since its write, and dead once more have.
pub proof fn law_ttl_boundary(item: ItemView, t: u64, now: u64)
    requires
        item.ttl == Some(t),
    ensures
        item.live_at(now) <==> now - item.created_at <= t,
        !item.live_at(now) <==> now - item.created_at > t,
{
}

/// A lookup that meets an expired entry finds nothing, drops the entry, and
/// emits exactly one Remove event, for it.
pub proof fn law_lazy_expiration(m: CacheView, k: Seq<char>, now: u64)
    requires
        unique_keys(m.entries),
        key_pos(m.entries, k) >= 0,
        !m.entries[key_pos(m.entries, k)].1.live_at(now),
    ensures
        lookup(m, k, now) is None,
        key_pos(after_lookup(m, k, now).entries, k) == -1,
        after_lookup(m, k, now).events == m.events.push(
            EventView::Remove(k, m.entries[key_pos(m.entries, k)].1.value),
        ),
{
    let p = key_pos(m.entries, k);
    lemma_key_pos(m.entries, k);
    let r = m.entries.remove(p);
    assert forall|i: int| 0 <= i < r.len() implies #[trigger] r[i].0 != k by {
        let a = if i < p { i } else { i + 1 };
        assert(r[i] == m.entries[a]);
        if a != p {
            if a < p {
                assert(m.entries[a].0 != m.entries[p].0);
            } else {
                assert(m.entries[p].0 != m.entries[a].0);
            }
        }
    }
    lemma_key_pos(r, k);
}

/// Filtering commutes with reversal.
proof fn lemma_filter_reverse<A>(s: Seq<A>, p: spec_fn(A) -> bool)
    ensures
        s.reverse().filter(p) == s.filter(p).reverse(),
    decreases s.len(),
{
    if s.len() == 0 {
        reveal(Seq::filter);
        assert(s.reverse() =~= s);
        assert(s.filter(p).reverse() =~= s.filter(p));
    } else {
        let init = s.drop_last();
        let x = s.last();
        lemma_filter_reverse(init, p);
        assert(s.reverse() =~= seq![x] + init.reverse());
        Seq::filter_distributes_over_add(seq![x], init.reverse(), p);
        lemma_filter_push(Seq::<A>::empty(), x, p);
        assert(Seq::<A>::empty().push(x) =~= seq![x]);
        reveal(Seq::filter);
        assert(Seq::<A>::empty().filter(p) =~= Seq::<A>::empty());
        assert(s == init.push(x));
        lemma_filter_push(init, x, p);
        if p(x) {
            assert(init.filter(p).push(x).reverse() =~= seq![x] + init.filter(p).reverse());
        } else {
        }
    }
}

/// An unpaginated listing returns the first `limit` keys, or all of them, of
/// the byte-sorted keys that pass the filter; a descending one, of the
/// reverse of that sequence.
pub proof fn law_list_order(e: Entries, f: FilterView, limit: usize)
    ensures
        listed(walk(e, Order::Asc), f, None, limit) == first_n(passing(sorted_keys(e), f), limit as int),
        listed(walk(e, Order::Desc), f, None, limit) == first_n(passing(sorted_keys(e), f).reverse(), limit as int),
        listed(walk(e, Order::Asc), f, None, limit).len() <= limit,
        listed(walk(e, Order::Desc), f, None, limit).len() <= limit,
{
    lemma_filter_reverse(sorted_keys(e), |k: Seq<char>| f.accepts(key_bytes(k)));
}

/// What a filter keeps comes from the sequence, without repeats if the
/// sequence has none.
proof fn lemma_filter_within<A>(s: Seq<A>, p: spec_fn(A) -> bool)
    ensures
        forall|i: int| 0 <= i < s.filter(p).len() ==> s.contains(#[trigger] s.filter(p)[i]),
        s.no_duplicates() ==> s.filter(p).no_duplicates(),
    decreases s.len(),
{
    if s.len() == 0 {
        reveal(Seq::filter);
    } else {
        let init = s.drop_last();
        let x = s.last();
        lemma_filter_within(init, p);
        assert(s == init.push(x));
        lemma_filter_push(init, x, p);
        let fs = s.filter(p);
        assert forall|i: int| 0 <= i < fs.len() implies s.contains(#[trigger] fs[i]) by {
            if i < init.filter(p).len() {
                assert(init.contains(init.filter(p)[i]));
                let w = choose|w: int| 0 <= w < init.len() && init[w] == init.filter(p)[i];
                assert(s[w] == fs[i]);
            } else {
                assert(s[s.len() - 1] == fs[i]);
            }
        }
        if s.no_duplicates() {
            assert(init.no_duplicates()) by {
                assert forall|a: int, b: int| 0 <= a < init.len() && 0 <= b < init.len() && a != b implies init[a] != init[b] by {
                    assert(s[a] != s[b]);
                }
            }
            if p(x) {
                let fi = init.filter(p);
                assert forall|a: int| 0 <= a < fi.len() implies fi[a] != x by {
                    assert(init.contains(fi[a]));
                    let w = choose|w: int| 0 <= w < init.len() && init[w] == fi[a];
                    assert(s[w] != s[s.len() - 1]);
                }
                assert forall|a: int, b: int| 0 <= a < fs.len() && 0 <= b < fs.len() && a != b implies fs[a] != fs[b] by {
                    if a < fi.len() && b < fi.len() {
                        assert(fi[a] != fi[b]);
                    }
                }
            }
        }
    }
}

/// Paging: the page of `n` and the page of `m` that starts after its last
/// key together make the page of `n + m`, and the second call's cursor is a
/// live key.
pub proof fn law_cursor_concat(e: Entries, order: Order, f: FilterView, n: usize, m: usize)
    requires
        unique_keys(e),
        n + m <= usize::MAX,
        listed(walk(e, order), f, None, n).len() > 0,
    ensures
        ({
            let q = walk(e, order);
            let first = listed(q, f, None, n);
            &&& !cursor_missing(q, Some(first.last()), m)
            &&& first + listed(q, f, Some(first.last()), m) == listed(q, f, None, (n + m) as usize)
        }),
{
    let q = walk(e, order);
    let pred = |k: Seq<char>| f.accepts(key_bytes(k));
    let all = passing(q, f);
    let first = listed(q, f, None, n);
    assert(past_cursor(q, None) == q);
    let len = first.len() as int;
    let x = first.last();
    assert(first == all.take(len));
    assert(x == all[len - 1]);
    lemma_walk_keys(e, order);
    lemma_filter_within(q, pred);
    assert(q.contains(x));
    let j = choose|j: int| 0 <= j < q.len() && q[j] == x;
    let idx = q.index_of(x);
    if idx != j {
        assert(q[idx] != q[j]);
    }
    assert(past_cursor(q, Some(x)) == q.skip(j + 1));
    let front = q.take(j + 1).filter(pred);
    let back = q.skip(j + 1).filter(pred);
    assert(q =~= q.take(j + 1) + q.skip(j + 1));
    Seq::filter_distributes_over_add(q.take(j + 1), q.skip(j + 1), pred);
    assert(all == front + back);
    assert(q.take(j + 1) =~= q.take(j).push(x));
    lemma_filter_push(q.take(j), x, pred);
    assert(pred(x)) by {
        q.lemma_filter_pred(pred, len - 1);
    }
    assert(front.last() == x);
    let fl = front.len() as int;
    assert(all[fl - 1] == x);
    if fl != len {
        assert(all[fl - 1] != all[len - 1]);
    }
    assert(first =~= front);
    if all.len() <= n {
        assert(back.len() == 0);
        assert(first + first_n(back, m as int) =~= all);
    } else {
        assert(first + first_n(back, m as int) =~= first_n(all, (n + m) as int));
    }
}

/// The model after storing `items` one after another.
pub open spec fn after_inserts(m: CacheView, items: Entries) -> CacheView
    decreases items.len(),
{
    if items.len() == 0 {
        m
    } else {
        after_insert(after_inserts(m, items.drop_last()), items.last().0, items.last().1)
    }
}

/// The keys that the Remove events among `evs` name, in order.
pub open spec fn removed_keys(evs: Seq<EventView>) -> Seq<Seq<char>>
    decreases evs.len(),
{
    if evs.len() == 0 {
        Seq::empty()
    } else {
        let before = removed_keys(evs.drop_last());
        match evs.last() {
            EventView::Remove(k, _) => before.push(k),
            _ => before,
        }
    }
}

proof fn lemma_removed_keys_push(evs: Seq<EventView>, ev: EventView)
    ensures
        removed_keys(evs.push(ev)) == match ev {
            EventView::Remove(k, _) => removed_keys(evs).push(k),
            _ => removed_keys(evs),
        },
{
    assert(evs.push(ev).drop_last() =~= evs);
}

/// Eviction is first in, first out: storing `n` distinct new keys in an
/// empty cache of capacity `c < n` evicts the first `n - c` of them, in the
/// order they came, and keeps the last `c`.
pub proof fn law_fifo_eviction(m: CacheView, items: Entries)
    requires
        m.entries.len() == 0,
        m.events.len() == 0,
        0 < m.capacity,
        unique_keys(items),
    ensures
        ({
            let after = after_inserts(m, items);
            let d = if items.len() > m.capacity { items.len() - m.capacity } else { 0 };
            &&& after.capacity == m.capacity
            &&& after.entries == items.skip(d)
            &&& removed_keys(after.events) == keys_of(items.take(d))
        }),
    decreases items.len(),
{
    let c = m.capacity as int;
    let n = items.len() as int;
    if n == 0 {
        assert(items.skip(0) =~= items);
        assert(keys_of(items.take(0)) =~= Seq::<Seq<char>>::empty());
    } else {
        let init = items.drop_last();
        let x = items.last();
        assert(unique_keys(init)) by {
            assert forall|i: int, j: int| 0 <= i < j < init.len() implies #[trigger] init[i].0 != #[trigger] init[j].0 by {
                assert(items[i].0 != items[j].0);
            }
        }
        law_fifo_eviction(m, init);
        let pre = after_inserts(m, init);
        let d0 = if n - 1 > c { n - 1 - c } else { 0 };
        let d = if n > c { n - c } else { 0 };
        assert forall|i: int| 0 <= i < pre.entries.len() implies #[trigger] pre.entries[i].0 != x.0 by {
            assert(pre.entries[i] == items[d0 + i]);
            assert(items[d0 + i].0 != items[n - 1].0);
        }
        lemma_key_pos(pre.entries, x.0);
        let post = after_insert(pre, x.0, x.1);
        assert(post == after_inserts(m, items));
        if n - 1 >= c {
            assert(post.entries =~= items.skip(d));
            assert(post.events == pre.events + seq![removal(pre.entries[0])].push(EventView::Insert(x.0, x.1.value)));
            assert(post.events =~= pre.events.push(removal(pre.entries[0])).push(EventView::Insert(x.0, x.1.value)));
            lemma_removed_keys_push(pre.events, removal(pre.entries[0]));
            lemma_removed_keys_push(pre.events.push(removal(pre.entries[0])), EventView::Insert(x.0, x.1.value));
            assert(keys_of(items.take(d)) =~= keys_of(items.take(d0)).push(items[d0].0));
        } else {
            assert(post.entries =~= items.skip(d));
            assert(post.events =~= pre.events.push(EventView::Insert(x.0, x.1.value)));
            lemma_removed_keys_push(pre.events, EventView::Insert(x.0, x.1.value));
        }
    }
}

/// The stored rows under the keys `ks`, in that order.
pub open spec fn rows_in(rows: Entries, ks: Seq<Seq<char>>) -> Entries {
    ks.map_values(|k: Seq<char>| row_for(rows, k))
}

proof fn lemma_restore_from_empty(rows: Entries, ks: Seq<Seq<char>>, capacity: usize, now: u64)
    requires
        ks.no_duplicates(),
        forall|i: int| 0 <= i < ks.len() ==> key_pos(rows, #[trigger] ks[i]) >= 0,
    ensures
        restored(Seq::empty(), ks, rows, capacity, now) == first_n(live_at(rows_in(rows, ks), now), capacity as int),
    decreases ks.len(),
{
    let live = |x: (Seq<char>, ItemView)| x.1.live_at(now);
    if ks.len() == 0 {
        reveal(Seq::filter);
        assert(live_at(rows_in(rows, ks), now) =~= Seq::<(Seq<char>, ItemView)>::empty());
    } else {
        let init = ks.drop_last();
        let k = ks.last();
        assert(init.no_duplicates()) by {
            assert forall|a: int, b: int| 0 <= a < init.len() && 0 <= b < init.len() && a != b implies init[a] != init[b] by {
                assert(ks[a] != ks[b]);
            }
        }
        lemma_restore_from_empty(rows, init, capacity, now);
        let before = restored(Seq::empty(), init, rows, capacity, now);
        let prev = live_at(rows_in(rows, init), now);
        assert(rows_in(rows, ks) =~= rows_in(rows, init).push(row_for(rows, k)));
        lemma_filter_push(rows_in(rows, init), row_for(rows, k), live);
        lemma_filter_within(rows_in(rows, init), live);
        assert forall|i: int| 0 <= i < before.len() implies #[trigger] before[i].0 != k by {
            assert(before[i] == prev[i]);
            assert(rows_in(rows, init).contains(prev[i]));
            let w = choose|w: int| 0 <= w < rows_in(rows, init).len() && rows_in(rows, init)[w] == prev[i];
            lemma_key_pos(rows, init[w]);
            assert(ks[w] == init[w]);
            assert(ks[w] != ks[ks.len() - 1]);
        }
        lemma_key_pos(before, k);
        lemma_key_pos(rows, k);
        if row_for(rows, k).1.live_at(now) && prev.len() < capacity {
            assert(before == prev);
        }
    }
}

/// Reloading a set of stored rows (no key twice) into an empty cache keeps
/// exactly the live ones, in byte order of their keys, as many as fit.
pub proof fn law_reload(rows: Entries, capacity: usize, now: u64)
    requires
        unique_keys(rows),
    ensures
        restored(Seq::empty(), sorted_keys(rows), rows, capacity, now) == first_n(
            live_at(rows_in(rows, sorted_keys(rows)), now),
            capacity as int,
        ),
{
    broadcast use vstd::seq_lib::group_to_multiset_ensures;

    let e = rows;
    lemma_walk_keys(e, Order::Asc);
    let ks = sorted_keys(rows);
    assert forall|i: int| 0 <= i < ks.len() implies key_pos(rows, #[trigger] ks[i]) >= 0 by {
        assert(walk(e, Order::Asc)[i] == ks[i]);
        assert(keys_of(rows).contains(ks[i]));
        let w = choose|w: int| 0 <= w < keys_of(rows).len() && keys_of(rows)[w] == ks[i];
        lemma_key_pos(rows, ks[i]);
        assert(rows[w].0 == ks[i]);
    }
    lemma_restore_from_empty(rows, ks, capacity, now);
}

} // verus!
