//! Configuration of listing queries: order, filter, cursor and limit.

use crate::filter::{Filter, FilterView};
use vstd::prelude::*;

verus! {

/// The direction in which a listing walks the byte-sorted keys.
#[derive(Debug, Clone, Copy, PartialEq, Eq, Structural)]
pub enum Order {
    Asc,
    Desc,
}

impl Default for Order {
    fn default() -> (r: Order)
        ensures
            r == Order::Asc,
    {
        Order::Asc
    }
}

/// Where a listing starts: at the beginning, or just after a given key.
#[derive(Debug)]
pub enum StartAfter {
    /// Start right after this key, which must be live.
    Key(String),
    /// Start at the first key in the chosen order.
    Beginning,
}

impl View for StartAfter {
    type V = Option<Seq<char>>;

    open spec fn view(&self) -> Option<Seq<char>> {
        match self {
            StartAfter::Key(k) => Some(k@),
            StartAfter::Beginning => None,
        }
    }
}

impl Default for StartAfter {
    fn default() -> (r: StartAfter)
        ensures
            r@ == None::<Seq<char>>,
    {
        StartAfter::Beginning
    }
}

/// The parameters of a listing query.
#[derive(Debug)]
pub struct ListProps {
    pub start_after_key: StartAfter,
    pub filter: Filter,
    pub order: Order,
    pub limit: usize,
}

/// The default number of entries a listing returns.
pub const DEFAULT_LIMIT: usize = 10;

impl ListProps {
    /// The query parameters as mathematical values.
    pub open spec fn spec_parts(&self) -> (Order, FilterView, Option<Seq<char>>, usize) {
        (self.order, self.filter@, self.start_after_key@, self.limit)
    }

    /// Ascending, unfiltered, from the beginning, at most ten entries.
    pub fn new() -> (r: ListProps)
        ensures
            r.spec_parts() == (Order::Asc, FilterView::All, None::<Seq<char>>, DEFAULT_LIMIT),
    {
        ListProps {
            start_after_key: StartAfter::Beginning,
            filter: Filter::All,
            order: Order::Asc,
            limit: DEFAULT_LIMIT,
        }
    }

    /// Start the listing right after `key`.
    pub fn start_after_key(self, key: &str) -> (r: ListProps)
        ensures
            r.spec_parts() == (self.order, self.filter@, Some(key@), self.limit),
    {
        let mut p = self;
        p.start_after_key = StartAfter::Key(key.to_owned());
        p
    }

    /// Keep only the keys that pass `filter`.
    pub fn filter(self, filter: Filter) -> (r: ListProps)
        ensures
            r.spec_parts() == (self.order, filter@, self.start_after_key@, self.limit),
    {
        let mut p = self;
        p.filter = filter;
        p
    }

    /// Walk the keys in `order`.
    pub fn order(self, order: Order) -> (r: ListProps)
        ensures
            r.spec_parts() == (order, self.filter@, self.start_after_key@, self.limit),
    {
        let mut p = self;
        p.order = order;
        p
    }

    /// Return at most `limit` entries.
    pub fn limit(self, limit: usize) -> (r: ListProps)
        ensures
            r.spec_parts() == (self.order, self.filter@, self.start_after_key@, limit),
    {
        let mut p = self;
        p.limit = limit;
        p
    }
}

impl Default for ListProps {
    fn default() -> (r: ListProps)
        ensures
            r.spec_parts() == (Order::Asc, FilterView::All, None::<Seq<char>>, DEFAULT_LIMIT),
    {
        ListProps::new()
    }
}

impl From<Filter> for ListProps {
    fn from(filter: Filter) -> (r: ListProps) {
        ListProps {
            start_after_key: StartAfter::Beginning,
            filter,
            order: Order::Asc,
            limit: DEFAULT_LIMIT,
        }
    }
}

impl vstd::std_specs::convert::FromSpecImpl<Filter> for ListProps {
    open spec fn obeys_from_spec() -> bool {
        true
    }

    open spec fn from_spec(filter: Filter) -> ListProps {
        ListProps {
            start_after_key: StartAfter::Beginning,
            filter,
            order: Order::Asc,
            limit: DEFAULT_LIMIT,
        }
    }
}

impl From<Order> for ListProps {
    fn from(order: Order) -> (r: ListProps) {
        ListProps {
            start_after_key: StartAfter::Beginning,
            filter: Filter::All,
            order,
            limit: DEFAULT_LIMIT,
        }
    }
}

impl vstd::std_specs::convert::FromSpecImpl<Order> for ListProps {
    open spec fn obeys_from_spec() -> bool {
        true
    }

    open spec fn from_spec(order: Order) -> ListProps {
        ListProps {
            start_after_key: StartAfter::Beginning,
            filter: Filter::All,
            order,
            limit: DEFAULT_LIMIT,
        }
    }
}

impl From<StartAfter> for ListProps {
    fn from(start_after_key: StartAfter) -> (r: ListProps) {
        ListProps { start_after_key, filter: Filter::All, order: Order::Asc, limit: DEFAULT_LIMIT }
    }
}

impl vstd::std_specs::convert::FromSpecImpl<StartAfter> for ListProps {
    open spec fn obeys_from_spec() -> bool {
        true
    }

    open spec fn from_spec(start_after_key: StartAfter) -> ListProps {
        ListProps { start_after_key, filter: Filter::All, order: Order::Asc, limit: DEFAULT_LIMIT }
    }
}

} // verus!
