//! The byte-wise order of keys, and sorting by it.

use crate::filter::key_bytes;
use vstd::prelude::*;
use vstd::relations::{sorted_by, total_ordering};
use vstd::utf8::encode_utf8_decode_utf8;

verus! {

broadcast use vstd::seq_lib::group_to_multiset_ensures;

/// Lexicographic order on byte sequences: `a` comes no later than `b`.
pub open spec fn bytes_le(a: Seq<u8>, b: Seq<u8>) -> bool
    decreases a.len(),
{
    if a.len() == 0 {
        true
    } else if b.len() == 0 {
        false
    } else if a[0] != b[0] {
        a[0] < b[0]
    } else {
        bytes_le(a.drop_first(), b.drop_first())
    }
}

/// Keys are ordered by their UTF-8 bytes.
pub open spec fn key_le(a: Seq<char>, b: Seq<char>) -> bool {
    bytes_le(key_bytes(a), key_bytes(b))
}

/// The key order as a relation.
pub open spec fn key_order() -> spec_fn(Seq<char>, Seq<char>) -> bool {
    |a: Seq<char>, b: Seq<char>| key_le(a, b)
}

/// The views of a sequence of strings.
pub open spec fn texts(s: Seq<String>) -> Seq<Seq<char>> {
    s.map_values(|x: String| x@)
}

proof fn lemma_bytes_le_reflexive(a: Seq<u8>)
    ensures
        bytes_le(a, a),
    decreases a.len(),
{
    if a.len() > 0 {
        lemma_bytes_le_reflexive(a.drop_first());
    }
}

proof fn lemma_bytes_le_antisymmetric(a: Seq<u8>, b: Seq<u8>)
    requires
        bytes_le(a, b),
        bytes_le(b, a),
    ensures
        a == b,
    decreases a.len(),
{
    if a.len() > 0 && b.len() > 0 {
        lemma_bytes_le_antisymmetric(a.drop_first(), b.drop_first());
        assert(a =~= seq![a[0]] + a.drop_first());
        assert(b =~= seq![b[0]] + b.drop_first());
    } else {
        assert(a =~= b);
    }
}

proof fn lemma_bytes_le_transitive(a: Seq<u8>, b: Seq<u8>, c: Seq<u8>)
    requires
        bytes_le(a, b),
        bytes_le(b, c),
    ensures
        bytes_le(a, c),
    decreases a.len(),
{
    if a.len() > 0 && b.len() > 0 && c.len() > 0 && a[0] == b[0] && b[0] == c[0] {
        lemma_bytes_le_transitive(a.drop_first(), b.drop_first(), c.drop_first());
    }
}

proof fn lemma_bytes_le_total(a: Seq<u8>, b: Seq<u8>)
    ensures
        bytes_le(a, b) || bytes_le(b, a),
    decreases a.len(),
{
    if a.len() > 0 && b.len() > 0 && a[0] == b[0] {
        lemma_bytes_le_total(a.drop_first(), b.drop_first());
    }
}

/// The key order is a total order.
pub proof fn lemma_key_order_total()
    ensures
        total_ordering(key_order()),
{
    assert forall|a: Seq<char>| #[trigger] key_order()(a, a) by {
        lemma_bytes_le_reflexive(key_bytes(a));
    }
    assert forall|a: Seq<char>, b: Seq<char>|
        #[trigger] key_order()(a, b) && #[trigger] key_order()(b, a) implies a == b by {
        lemma_bytes_le_antisymmetric(key_bytes(a), key_bytes(b));
        encode_utf8_decode_utf8(a);
        encode_utf8_decode_utf8(b);
    }
    assert forall|a: Seq<char>, b: Seq<char>, c: Seq<char>|
        #[trigger] key_order()(a, b) && #[trigger] key_order()(b, c) implies key_order()(a, c) by {
        lemma_bytes_le_transitive(key_bytes(a), key_bytes(b), key_bytes(c));
    }
    assert forall|a: Seq<char>, b: Seq<char>|
        #[trigger] key_order()(a, b) || #[trigger] key_order()(b, a) by {
        lemma_bytes_le_total(key_bytes(a), key_bytes(b));
    }
}

/// Whether key `a` comes no later than key `b` in byte order.
pub fn key_le_exec(a: &str, b: &str) -> (r: bool)
    ensures
        r == key_le(a@, b@),
{
    let x = a.as_bytes();
    let y = b.as_bytes();
    let mut i: usize = 0;
    assert(x@.skip(0) =~= x@ && y@.skip(0) =~= y@);
    while i < x.len() && i < y.len()
        invariant
            x@ == key_bytes(a@),
            y@ == key_bytes(b@),
            i <= x.len(),
            i <= y.len(),
            bytes_le(x@, y@) == bytes_le(x@.skip(i as int), y@.skip(i as int)),
        decreases x.len() - i,
    {
        if x[i] != y[i] {
            return x[i] < y[i];
        }
        assert(x@.skip(i as int).drop_first() =~= x@.skip(i + 1));
        assert(y@.skip(i as int).drop_first() =~= y@.skip(i + 1));
        i = i + 1;
    }
    i == x.len()
}

/// The keys in byte order.
pub fn sort_keys(keys: &Vec<String>) -> (r: Vec<String>)
    ensures
        texts(r@) == texts(keys@).sort_by(key_order()),
{
    proof {
        lemma_key_order_total();
    }
    let mut r: Vec<String> = Vec::new();
    let mut i: usize = 0;
    while i < keys.len()
        invariant
            i <= keys.len(),
            total_ordering(key_order()),
            sorted_by(texts(r@), key_order()),
            texts(r@).to_multiset() == texts(keys@.take(i as int)).to_multiset(),
        decreases keys.len() - i,
    {
        let k = keys[i].clone();
        let mut j: usize = 0;
        while j < r.len() && key_le_exec(r[j].as_str(), k.as_str())
            invariant
                j <= r.len(),
                forall|m: int| 0 <= m < j ==> key_le(#[trigger] r@[m]@, k@),
            decreases r.len() - j,
        {
            j = j + 1;
        }
        proof {
            let old_r = texts(r@);
            if j < old_r.len() {
                assert(!key_le(r@[j as int]@, k@));
                assert(key_order()(old_r[j as int], k@) || key_order()(k@, old_r[j as int]));
            }
            assert forall|m: int| j <= m < old_r.len() implies key_le(k@, #[trigger] old_r[m]) by {
                assert(key_order()(old_r[j as int], old_r[m]));
                assert(key_order()(k@, old_r[j as int]));
            }
        }
        let ghost before = r@;
        r.insert(j, k);
        proof {
            let old_r = texts(before);
            assert(texts(r@) =~= old_r.insert(j as int, keys@[i as int]@));
            assert(texts(keys@.take(i + 1)) =~= texts(keys@.take(i as int)).push(
                keys@[i as int]@,
            ));
            vstd::seq_lib::to_multiset_insert(old_r, j as int, keys@[i as int]@);
            let nr = texts(r@);
            assert forall|p: int, q: int| 0 <= p < q < nr.len() implies key_order()(
                #[trigger] nr[p],
                #[trigger] nr[q],
            ) by {
                if q < j {
                } else if q == j {
                } else if p < j {
                    assert(key_order()(nr[p], nr[j as int]));
                } else if p == j {
                } else {
                }
            }
        }
        i = i + 1;
    }
    proof {
        assert(keys@.take(keys.len() as int) =~= keys@);
        texts(keys@).lemma_sort_by_ensures(key_order());
        vstd::seq_lib::lemma_sorted_unique(
            texts(r@),
            texts(keys@).sort_by(key_order()),
            key_order(),
        );
    }
    r
}

} // verus!
