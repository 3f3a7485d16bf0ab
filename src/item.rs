//! A stored value with its creation time and optional time-to-live.

use crate::outside::current_time_millis;
use crate::value::{Value, ValueView};
use vstd::prelude::*;

verus! {

/// A value together with the millisecond timestamp of its write and an
/// optional time-to-live in milliseconds.
#[derive(Debug)]
pub struct CacheItem {
    pub value: Value,
    pub created_at: u64,
    pub ttl_millis: Option<u64>,
}

/// The mathematical model of a [`CacheItem`].
pub struct ItemView {
    pub value: ValueView,
    pub created_at: u64,
    pub ttl: Option<u64>,
}

impl ItemView {
    /// Live at `now`: no TTL, or at most `ttl` milliseconds have passed since
    /// the write. Equal is still live.
    pub open spec fn live_at(self, now: u64) -> bool {
        match self.ttl {
            None => true,
            Some(t) => now as int - self.created_at as int <= t as int,
        }
    }
}

impl View for CacheItem {
    type V = ItemView;

    open spec fn view(&self) -> ItemView {
        ItemView { value: self.value@, created_at: self.created_at, ttl: self.ttl_millis }
    }
}

impl CacheItem {
    /// An item written at `now` that never expires.
    pub fn new_at(value: Value, now: u64) -> (r: CacheItem)
        ensures
            r@ == (ItemView { value: value@, created_at: now, ttl: None }),
    {
        CacheItem { value, created_at: now, ttl_millis: None }
    }

    /// An item written at `now` that expires `ttl_millis` milliseconds later.
    pub fn with_ttl_at(value: Value, ttl_millis: u64, now: u64) -> (r: CacheItem)
        ensures
            r@ == (ItemView { value: value@, created_at: now, ttl: Some(ttl_millis) }),
    {
        CacheItem { value, created_at: now, ttl_millis: Some(ttl_millis) }
    }

    /// An item written now that never expires.
    pub fn new(value: Value) -> (r: CacheItem)
        ensures
            r@.value == value@,
            r@.ttl is None,
    {
        CacheItem::new_at(value, current_time_millis())
    }

    /// An item written now that expires `ttl_millis` milliseconds later.
    pub fn with_ttl(value: Value, ttl_millis: u64) -> (r: CacheItem)
        ensures
            r@.value == value@,
            r@.ttl == Some(ttl_millis),
    {
        CacheItem::with_ttl_at(value, ttl_millis, current_time_millis())
    }

    /// Whether the item has expired now. An item without TTL never has.
    pub fn is_expired(&self) -> (r: bool)
        ensures
            exists|now: u64| r == !self@.live_at(now),
            self.ttl_millis is None ==> !r,
    {
        self.is_expired_at(current_time_millis())
    }

    /// Whether the item has expired at `now`: its TTL is set and strictly
    /// more than that many milliseconds have passed since the write.
    pub fn is_expired_at(&self, now: u64) -> (r: bool)
        ensures
            r == !self@.live_at(now),
    {
        match self.ttl_millis {
            Some(ttl) => now > self.created_at && now - self.created_at > ttl,
            None => false,
        }
    }

    /// The item's time-to-live in milliseconds, if any.
    pub fn ttl(&self) -> (r: Option<u64>)
        ensures
            r == self.ttl_millis,
    {
        self.ttl_millis
    }

    /// The millisecond timestamp of the write.
    pub fn created_at_time(&self) -> (r: u64)
        ensures
            r == self.created_at,
    {
        self.created_at
    }

    /// A copy of the item.
    pub fn duplicate(&self) -> (r: CacheItem)
        ensures
            r@ == self@,
    {
        CacheItem {
            value: self.value.clone(),
            created_at: self.created_at,
            ttl_millis: self.ttl_millis,
        }
    }
}

impl PartialEq for CacheItem {
    /// Items are equal when their values and TTLs are; the write time is
    /// not compared.
    fn eq(&self, other: &CacheItem) -> (r: bool)
        ensures
            r == (self@.value == other@.value && self@.ttl == other@.ttl),
    {
        self.value.eq(&other.value) && self.ttl_millis == other.ttl_millis
    }
}

impl vstd::std_specs::cmp::PartialEqSpecImpl for CacheItem {
    open spec fn obeys_eq_spec() -> bool {
        true
    }

    open spec fn eq_spec(&self, other: &CacheItem) -> bool {
        self@.value == other@.value && self@.ttl == other@.ttl
    }
}

} // verus!
