//! An in-process, bounded key/value cache with FIFO eviction, time-to-live
//! expiration, ordered listing with filters and cursors, and mutation events.

pub mod cache;
pub mod error;
pub mod event;
pub mod filter;
pub mod filters;
pub mod item;
pub mod key_order;
pub mod laws;
pub mod list_props;
pub mod model;
pub mod outside;
pub mod store;
pub mod value;

pub use cache::{Cache, Quickleaf};
pub use error::Error;
pub use event::{Event, EventData};
pub use filter::Filter;
pub use item::CacheItem;
pub use list_props::{ListProps, Order, StartAfter};
pub use value::Value;
