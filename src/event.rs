//! Notifications that the cache emits when it changes.

use crate::value::{Value, ValueView};
use vstd::prelude::*;

verus! {

/// The key and value that an insertion or a removal concerns.
#[derive(Debug, Clone)]
pub struct EventData {
    pub key: String,
    pub value: Value,
}

/// A change to the cache.
#[derive(Debug, Clone)]
pub enum Event {
    /// A value was stored under a key.
    Insert(EventData),
    /// An entry left the cache; the value is the one it held.
    Remove(EventData),
    /// Every entry was dropped at once.
    Clear,
}

/// The mathematical model of an [`Event`].
pub enum EventView {
    Insert(Seq<char>, ValueView),
    Remove(Seq<char>, ValueView),
    Clear,
}

impl View for Event {
    type V = EventView;

    open spec fn view(&self) -> EventView {
        match self {
            Event::Insert(d) => EventView::Insert(d.key@, d.value@),
            Event::Remove(d) => EventView::Remove(d.key@, d.value@),
            Event::Clear => EventView::Clear,
        }
    }
}

impl Event {
    pub fn insert(key: String, value: Value) -> (r: Event)
        ensures
            r@ == EventView::Insert(key@, value@),
    {
        Event::Insert(EventData { key, value })
    }

    pub fn remove(key: String, value: Value) -> (r: Event)
        ensures
            r@ == EventView::Remove(key@, value@),
    {
        Event::Remove(EventData { key, value })
    }

    pub fn clear() -> (r: Event)
        ensures
            r@ == EventView::Clear,
    {
        Event::Clear
    }
}

impl PartialEq for EventData {
    fn eq(&self, other: &EventData) -> (r: bool)
        ensures
            r == (self.key@ == other.key@ && self.value@ == other.value@),
    {
        let same_key = self.key.eq(&other.key);
        same_key && self.value.eq(&other.value)
    }
}

impl vstd::std_specs::cmp::PartialEqSpecImpl for EventData {
    open spec fn obeys_eq_spec() -> bool {
        true
    }

    open spec fn eq_spec(&self, other: &EventData) -> bool {
        self.key@ == other.key@ && self.value@ == other.value@
    }
}

impl PartialEq for Event {
    fn eq(&self, other: &Event) -> (r: bool)
        ensures
            r == (self@ == other@),
    {
        match (self, other) {
            (Event::Insert(a), Event::Insert(b)) => a.eq(b),
            (Event::Remove(a), Event::Remove(b)) => a.eq(b),
            (Event::Clear, Event::Clear) => true,
            _ => false,
        }
    }
}

impl vstd::std_specs::cmp::PartialEqSpecImpl for Event {
    open spec fn obeys_eq_spec() -> bool {
        true
    }

    open spec fn eq_spec(&self, other: &Event) -> bool {
        self@ == other@
    }
}

} // verus!
