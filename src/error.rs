//! Errors of cache operations.

use vstd::prelude::*;

verus! {

/// Errors that cache operations report.
#[derive(Debug, PartialEq, Eq, Structural, Clone, Copy)]
pub enum Error {
    /// A listing cursor names a key that is not live at query time.
    SortKeyNotFound,
    /// Reserved: a cache with the same identifier already exists.
    CacheAlreadyExists,
    /// Reserved: a sort key already exists.
    SortKeyExists,
    /// Reserved: a table with the same name already exists.
    TableAlreadyExists,
    /// The key to remove is not in the cache.
    KeyNotFound,
}

} // verus!
