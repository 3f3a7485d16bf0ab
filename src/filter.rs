//! Key filters for listing queries.

use vstd::prelude::*;
use vstd::utf8::encode_utf8;

verus! {

/// The bytes of a key: its UTF-8 encoding. Keys are matched and ordered by them.
pub open spec fn key_bytes(k: Seq<char>) -> Seq<u8> {
    encode_utf8(k)
}

/// `s` begins with the bytes `p`.
pub open spec fn bytes_start_with(s: Seq<u8>, p: Seq<u8>) -> bool {
    p.len() <= s.len() && s.subrange(0, p.len() as int) == p
}

/// `s` ends with the bytes `p`.
pub open spec fn bytes_end_with(s: Seq<u8>, p: Seq<u8>) -> bool {
    p.len() <= s.len() && s.subrange(s.len() - p.len(), s.len() as int) == p
}

/// A predicate over keys, used to narrow what a listing returns.
#[derive(Debug)]
pub enum Filter {
    /// Keys that begin with the given text.
    StartWith(String),
    /// Keys that end with the given text.
    EndWith(String),
    /// Keys that begin with the first text and end with the second.
    StartAndEndWith(String, String),
    /// Every key.
    All,
}

/// The mathematical model of a [`Filter`], over the bytes of its texts.
pub enum FilterView {
    StartWith(Seq<u8>),
    EndWith(Seq<u8>),
    StartAndEndWith(Seq<u8>, Seq<u8>),
    All,
}

impl FilterView {
    /// Whether a key whose bytes are `k` passes the filter.
    pub open spec fn accepts(self, k: Seq<u8>) -> bool {
        match self {
            FilterView::StartWith(p) => bytes_start_with(k, p),
            FilterView::EndWith(s) => bytes_end_with(k, s),
            FilterView::StartAndEndWith(p, s) => bytes_start_with(k, p) && bytes_end_with(k, s),
            FilterView::All => true,
        }
    }
}

impl View for Filter {
    type V = FilterView;

    open spec fn view(&self) -> FilterView {
        match self {
            Filter::StartWith(p) => FilterView::StartWith(key_bytes(p@)),
            Filter::EndWith(s) => FilterView::EndWith(key_bytes(s@)),
            Filter::StartAndEndWith(p, s) => FilterView::StartAndEndWith(
                key_bytes(p@),
                key_bytes(s@),
            ),
            Filter::All => FilterView::All,
        }
    }
}

impl Default for Filter {
    fn default() -> (r: Filter)
        ensures
            r@ == FilterView::All,
    {
        Filter::All
    }
}

impl Filter {
    /// A copy of the filter.
    pub fn duplicate(&self) -> (r: Filter)
        ensures
            r@ == self@,
    {
        match self {
            Filter::StartWith(p) => Filter::StartWith(p.clone()),
            Filter::EndWith(s) => Filter::EndWith(s.clone()),
            Filter::StartAndEndWith(p, s) => Filter::StartAndEndWith(p.clone(), s.clone()),
            Filter::All => Filter::All,
        }
    }
}

} // verus!
