//! What the durable store writes for each event, and how its rows become
//! cache items again. The store keeps times in whole seconds.

use crate::event::Event;
use crate::item::{CacheItem, ItemView};
use crate::value::{Value, ValueView};
use vstd::prelude::*;

verus! {

/// A write to the durable store's table.
#[derive(Debug)]
pub enum StoreWrite {
    /// Insert the row under `key`, or replace it.
    Upsert {
        key: String,
        value: Value,
        created_at: u64,
        ttl_seconds: Option<u64>,
        expires_at: Option<u64>,
    },
    /// Delete the row under the key.
    Delete(String),
    /// Delete every row.
    DeleteAll,
}

/// The model of a [`StoreWrite`].
pub enum StoreWriteView {
    Upsert(Seq<char>, ValueView, u64, Option<u64>, Option<u64>),
    Delete(Seq<char>),
    DeleteAll,
}

impl View for StoreWrite {
    type V = StoreWriteView;

    open spec fn view(&self) -> StoreWriteView {
        match self {
            StoreWrite::Upsert { key, value, created_at, ttl_seconds, expires_at } =>
                StoreWriteView::Upsert(key@, value@, *created_at, *ttl_seconds, *expires_at),
            StoreWrite::Delete(k) => StoreWriteView::Delete(k@),
            StoreWrite::DeleteAll => StoreWriteView::DeleteAll,
        }
    }
}

/// `a + b`, or the largest `u64` when that does not fit.
pub open spec fn sat_add(a: u64, b: u64) -> u64 {
    if a + b <= u64::MAX { (a + b) as u64 } else { u64::MAX }
}

/// `a * 1000`, or the largest `u64` when that does not fit.
pub open spec fn sat_thousand(a: u64) -> u64 {
    if a * 1000 <= u64::MAX { (a * 1000) as u64 } else { u64::MAX }
}

fn saturating_add(a: u64, b: u64) -> (r: u64)
    ensures
        r == sat_add(a, b),
{
    if a <= u64::MAX - b { a + b } else { u64::MAX }
}

fn saturating_thousand(a: u64) -> (r: u64)
    ensures
        r == sat_thousand(a),
{
    if a <= u64::MAX / 1000 { a * 1000 } else { u64::MAX }
}

/// The write that applies `event`, taken at `now_secs`: an insertion
/// becomes an upsert without expiry, a removal a delete of its key, a clear
/// a delete of every row.
pub fn write_for_event(event: &Event, now_secs: u64) -> (r: StoreWrite)
    ensures
        r@ == match event@ {
            crate::event::EventView::Insert(k, v) => StoreWriteView::Upsert(k, v, now_secs, None, None),
            crate::event::EventView::Remove(k, _) => StoreWriteView::Delete(k),
            crate::event::EventView::Clear => StoreWriteView::DeleteAll,
        },
{
    match event {
        Event::Insert(d) => StoreWrite::Upsert {
            key: d.key.clone(),
            value: d.value.clone(),
            created_at: now_secs,
            ttl_seconds: None,
            expires_at: None,
        },
        Event::Remove(d) => StoreWrite::Delete(d.key.clone()),
        Event::Clear => StoreWrite::DeleteAll,
    }
}

/// The upsert that records an entry written with a TTL of `ttl_millis`
/// at `now_secs`: the TTL in whole seconds, and its expiry time.
pub fn write_with_ttl(key: &str, value: &Value, ttl_millis: u64, now_secs: u64) -> (r: StoreWrite)
    ensures
        r@ == StoreWriteView::Upsert(
            key@,
            value@,
            now_secs,
            Some(ttl_millis / 1000),
            Some(sat_add(now_secs, ttl_millis / 1000)),
        ),
{
    let ttl_seconds = ttl_millis / 1000;
    StoreWrite::Upsert {
        key: key.to_owned(),
        value: value.clone(),
        created_at: now_secs,
        ttl_seconds: Some(ttl_seconds),
        expires_at: Some(saturating_add(now_secs, ttl_seconds)),
    }
}

/// The cache item a stored row stands for: times in milliseconds again.
pub fn item_from_row(value: Value, created_at_secs: u64, ttl_seconds: Option<u64>) -> (r: CacheItem)
    ensures
        r@ == (ItemView {
            value: value@,
            created_at: sat_thousand(created_at_secs),
            ttl: match ttl_seconds {
                Some(t) => Some(sat_thousand(t)),
                None => None,
            },
        }),
{
    let ttl_millis = match ttl_seconds {
        Some(t) => Some(saturating_thousand(t)),
        None => None,
    };
    CacheItem { value, created_at: saturating_thousand(created_at_secs), ttl_millis }
}

/// Whether a row that expires at `expires_at` is gone at `now_secs`.
pub fn row_expired(expires_at: Option<u64>, now_secs: u64) -> (r: bool)
    ensures
        r == match expires_at {
            Some(t) => t < now_secs,
            None => false,
        },
{
    match expires_at {
        Some(t) => t < now_secs,
        None => false,
    }
}

} // verus!
