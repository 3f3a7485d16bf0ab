//! Byte-exact prefix and suffix matching of keys.

use crate::filter::{bytes_end_with, bytes_start_with, key_bytes, Filter};
use vstd::prelude::*;

verus! {

/// Whether `text` begins with `prefix`, comparing bytes.
pub fn fast_prefix_match(text: &str, prefix: &str) -> (r: bool)
    ensures
        r == bytes_start_with(key_bytes(text@), key_bytes(prefix@)),
{
    let t = text.as_bytes();
    let p = prefix.as_bytes();
    if p.len() > t.len() {
        return false;
    }
    let mut i: usize = 0;
    while i < p.len()
        invariant
            p.len() <= t.len(),
            i <= p.len(),
            t@ == key_bytes(text@),
            p@ == key_bytes(prefix@),
            forall|j: int| 0 <= j < i ==> t@[j] == p@[j],
        decreases p.len() - i,
    {
        if t[i] != p[i] {
            return false;
        }
        i = i + 1;
    }
    assert(t@.subrange(0, p@.len() as int) =~= p@);
    true
}

/// Whether `text` ends with `suffix`, comparing bytes.
pub fn fast_suffix_match(text: &str, suffix: &str) -> (r: bool)
    ensures
        r == bytes_end_with(key_bytes(text@), key_bytes(suffix@)),
{
    let t = text.as_bytes();
    let s = suffix.as_bytes();
    if s.len() > t.len() {
        return false;
    }
    let offset: usize = t.len() - s.len();
    let mut i: usize = 0;
    while i < s.len()
        invariant
            s.len() <= t.len(),
            offset == t.len() - s.len(),
            i <= s.len(),
            t@ == key_bytes(text@),
            s@ == key_bytes(suffix@),
            forall|j: int| 0 <= j < i ==> t@[offset + j] == s@[j],
        decreases s.len() - i,
    {
        if t[offset + i] != s[i] {
            assert(t@.subrange(offset as int, t@.len() as int)[i as int] != s@[i as int]);
            return false;
        }
        i = i + 1;
    }
    assert(t@.subrange(offset as int, t@.len() as int) =~= s@);
    true
}

/// Whether `key` passes `filter`.
pub fn apply_filter_fast(key: &str, filter: &Filter) -> (r: bool)
    ensures
        r == filter@.accepts(key_bytes(key@)),
{
    match filter {
        Filter::All => true,
        Filter::StartWith(prefix) => fast_prefix_match(key, prefix.as_str()),
        Filter::EndWith(suffix) => fast_suffix_match(key, suffix.as_str()),
        Filter::StartAndEndWith(prefix, suffix) => fast_prefix_match(key, prefix.as_str())
            && fast_suffix_match(key, suffix.as_str()),
    }
}

} // verus!
