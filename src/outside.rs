//! The outside code the cache relies on: an insertion-ordered hash map, the
//! wall clock and an event channel. Each item here states what the cache
//! assumes of it.

use crate::event::Event;
use crate::item::{CacheItem, ItemView};
use indexmap::IndexMap;
use std::sync::mpsc::Sender;
use vstd::prelude::*;

verus! {

#[verifier::external_type_specification]
#[verifier::external_body]
#[verifier::reject_recursive_types(K)]
#[verifier::reject_recursive_types(V)]
#[verifier::reject_recursive_types(S)]
pub struct ExIndexMap<K, V, S>(IndexMap<K, V, S>);

#[verifier::external_type_specification]
#[verifier::external_body]
#[verifier::reject_recursive_types(T)]
pub struct ExSender<T>(Sender<T>);

/// The entries of an index map, in the map's order.
pub uninterp spec fn stored_entries(m: IndexMap<String, CacheItem>) -> Seq<(Seq<char>, ItemView)>;

/// Relies on `IndexMap::new`: a map with no entries.
#[verifier::external_body]
pub(crate) fn map_new() -> (m: IndexMap<String, CacheItem>)
    ensures
        stored_entries(m) == Seq::<(Seq<char>, ItemView)>::empty(),
{
    IndexMap::new()
}

/// Relies on `IndexMap::len`: the number of entries.
#[verifier::external_body]
pub(crate) fn map_len(m: &IndexMap<String, CacheItem>) -> (n: usize)
    ensures
        n == stored_entries(*m).len(),
{
    m.len()
}

/// Relies on `IndexMap::get_index_of`: the position of the entry whose key
/// equals `key`, or `None` when no entry has that key.
#[verifier::external_body]
pub(crate) fn map_index_of(m: &IndexMap<String, CacheItem>, key: &str) -> (r: Option<usize>)
    ensures
        match r {
            Some(i) => i < stored_entries(*m).len() && stored_entries(*m)[i as int].0 == key@,
            None => forall|i: int|
                0 <= i < stored_entries(*m).len() ==> #[trigger] stored_entries(*m)[i].0 != key@,
        },
{
    m.get_index_of(key)
}

/// Relies on `IndexMap::get_index`: the entry at position `i`, if there is one.
#[verifier::external_body]
pub(crate) fn map_get_index(m: &IndexMap<String, CacheItem>, i: usize) -> (r: Option<
    (&String, &CacheItem),
>)
    ensures
        match r {
            Some(e) => i < stored_entries(*m).len() && e.0@ == stored_entries(*m)[i as int].0
                && e.1@ == stored_entries(*m)[i as int].1,
            None => i >= stored_entries(*m).len(),
        },
{
    m.get_index(i)
}

/// Relies on `IndexMap::insert`: an entry with a new key goes last in order;
/// for a key already present, the value is replaced in its place and the old
/// one returned.
#[verifier::external_body]
pub(crate) fn map_insert(m: &mut IndexMap<String, CacheItem>, key: String, item: CacheItem) -> (r:
    Option<CacheItem>)
    ensures
        ({
            let before = stored_entries(*old(m));
            let after = stored_entries(*final(m));
            match r {
                None => (forall|i: int| 0 <= i < before.len() ==> #[trigger] before[i].0 != key@)
                    && after == before.push((key@, item@)),
                Some(prev) => exists|i: int|
                    0 <= i < before.len() && #[trigger] before[i].0 == key@ && prev@ == before[i].1
                        && after == before.update(i, (key@, item@)),
            }
        }),
{
    m.insert(key, item)
}

/// Relies on `IndexMap::shift_remove_index`: removes the entry at position
/// `i`, keeping the order of the others, and returns it.
#[verifier::external_body]
pub(crate) fn map_shift_remove_index(m: &mut IndexMap<String, CacheItem>, i: usize) -> (r: Option<
    (String, CacheItem),
>)
    ensures
        ({
            let before = stored_entries(*old(m));
            let after = stored_entries(*final(m));
            match r {
                Some(e) => i < before.len() && e.0@ == before[i as int].0 && e.1@ == before[i as int].1
                    && after == before.remove(i as int),
                None => i >= before.len() && after == before,
            }
        }),
{
    m.shift_remove_index(i)
}

/// Relies on `IndexMap::clear`: removes every entry.
#[verifier::external_body]
pub(crate) fn map_clear(m: &mut IndexMap<String, CacheItem>)
    ensures
        stored_entries(*final(m)) == Seq::<(Seq<char>, ItemView)>::empty(),
{
    m.clear()
}

/// Relies on `SystemTime::now`: milliseconds since the Unix epoch, or zero
/// for a clock set before it. Nothing is known of the reading.
#[verifier::external_body]
pub(crate) fn current_time_millis() -> u64 {
    std::time::SystemTime::now().duration_since(std::time::UNIX_EPOCH).unwrap_or(
        std::time::Duration::ZERO,
    ).as_millis() as u64
}

/// Relies on `Sender::send`: hands the event to the channel; a send to a
/// channel whose receiver is gone fails, and the failure is ignored.
#[verifier::external_body]
pub(crate) fn send_event(sender: &Sender<Event>, event: Event) {
    let _ = sender.send(event);
}

} // verus!
