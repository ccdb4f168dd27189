//! Stable sorting by a key, as a mathematical function on sequences: items are
//! put in one after another, each behind every item whose key is not larger.
//! This is the order that a stable sort gives.
use vstd::prelude::*;
use vstd::seq_lib::to_multiset_build;

verus! {

/// The sequence with `x` put in behind the last item whose key is not larger
/// than its own.
pub open spec fn insert_by_key<T>(sorted: Seq<T>, x: T, key: spec_fn(T) -> int) -> Seq<T>
    decreases sorted.len(),
{
    if sorted.len() == 0 {
        seq![x]
    } else if key(sorted.last()) <= key(x) {
        sorted.push(x)
    } else {
        insert_by_key(sorted.drop_last(), x, key).push(sorted.last())
    }
}

/// The sequence sorted by the key; items with equal keys keep their order.
pub open spec fn sort_by_key<T>(s: Seq<T>, key: spec_fn(T) -> int) -> Seq<T>
    decreases s.len(),
{
    if s.len() == 0 {
        Seq::empty()
    } else {
        insert_by_key(sort_by_key(s.drop_last(), key), s.last(), key)
    }
}

/// Whether the keys never decrease along the sequence.
pub open spec fn ordered_by_key<T>(s: Seq<T>, key: spec_fn(T) -> int) -> bool {
    forall|i: int, j: int| 0 <= i < j < s.len() ==> key(#[trigger] s[i]) <= key(#[trigger] s[j])
}

/// Where an item goes: behind an item whose key is not larger, in front of
/// items whose keys are larger.
pub proof fn lemma_insert_at<T>(s: Seq<T>, x: T, key: spec_fn(T) -> int, pos: int)
    requires
        0 <= pos <= s.len(),
        forall|j: int| pos <= j < s.len() ==> key(#[trigger] s[j]) > key(x),
        pos > 0 ==> key(s[pos - 1]) <= key(x),
    ensures
        insert_by_key(s, x, key) == s.insert(pos, x),
    decreases s.len(),
{
    if s.len() == 0 {
        assert(seq![x] =~= s.insert(pos, x));
    } else if pos == s.len() {
        assert(s.push(x) =~= s.insert(pos, x));
    } else {
        assert(key(s[s.len() - 1]) > key(x));
        lemma_insert_at(s.drop_last(), x, key, pos);
        assert(s.drop_last().insert(pos, x).push(s.last()) =~= s.insert(pos, x));
    }
}

/// Putting an item in keeps every key under a bound that held before and
/// holds of the item.
pub proof fn lemma_insert_keeps<T>(s: Seq<T>, x: T, key: spec_fn(T) -> int, bound: int)
    requires
        forall|j: int| 0 <= j < s.len() ==> key(#[trigger] s[j]) <= bound,
        key(x) <= bound,
    ensures
        forall|j: int|
            0 <= j < insert_by_key(s, x, key).len() ==> key(#[trigger] insert_by_key(s, x, key)[j])
                <= bound,
    decreases s.len(),
{
    let r = insert_by_key(s, x, key);
    if s.len() > 0 && key(s.last()) > key(x) {
        let front = s.drop_last();
        lemma_insert_keeps(front, x, key, bound);
        let inner = insert_by_key(front, x, key);
        assert forall|j: int| 0 <= j < r.len() implies key(#[trigger] r[j]) <= bound by {
            if j < inner.len() {
                assert(r[j] == inner[j]);
            } else {
                assert(r[j] == s[s.len() - 1]);
            }
        }
    }
}

/// Putting an item into an ordered sequence leaves it ordered.
pub proof fn lemma_insert_ordered<T>(s: Seq<T>, x: T, key: spec_fn(T) -> int)
    requires
        ordered_by_key(s, key),
    ensures
        ordered_by_key(insert_by_key(s, x, key), key),
    decreases s.len(),
{
    let r = insert_by_key(s, x, key);
    if s.len() == 0 {
    } else if key(s.last()) <= key(x) {
        assert forall|i: int, j: int| 0 <= i < j < r.len() implies key(#[trigger] r[i]) <= key(
            #[trigger] r[j],
        ) by {
            if j == s.len() {
                assert(r[i] == s[i]);
                if i < s.len() - 1 {
                    assert(key(s[i]) <= key(s[s.len() - 1]));
                }
            } else {
                assert(r[i] == s[i] && r[j] == s[j]);
            }
        }
    } else {
        let front = s.drop_last();
        assert(ordered_by_key(front, key)) by {
            assert forall|i: int, j: int| 0 <= i < j < front.len() implies key(
                #[trigger] front[i],
            ) <= key(#[trigger] front[j]) by {
                assert(front[i] == s[i] && front[j] == s[j]);
            }
        }
        lemma_insert_ordered(front, x, key);
        let top = key(s.last());
        assert forall|j: int| 0 <= j < front.len() implies key(#[trigger] front[j]) <= top by {
            assert(front[j] == s[j]);
            assert(key(s[j]) <= key(s[s.len() - 1]));
        }
        lemma_insert_keeps(front, x, key, top);
        let inner = insert_by_key(front, x, key);
        assert forall|i: int, j: int| 0 <= i < j < r.len() implies key(#[trigger] r[i]) <= key(
            #[trigger] r[j],
        ) by {
            if j == inner.len() {
                assert(r[i] == inner[i]);
                assert(r[j] == s[s.len() - 1]);
            } else {
                assert(r[i] == inner[i] && r[j] == inner[j]);
            }
        }
    }
}

/// A sorted sequence is ordered, and holds the items that were sorted, each
/// as often as before.
pub proof fn lemma_sort_by_key<T>(s: Seq<T>, key: spec_fn(T) -> int)
    ensures
        ordered_by_key(sort_by_key(s, key), key),
        sort_by_key(s, key).len() == s.len(),
        sort_by_key(s, key).to_multiset() == s.to_multiset(),
    decreases s.len(),
{
    if s.len() == 0 {
        assert(sort_by_key(s, key) =~= s);
    } else {
        let front = s.drop_last();
        lemma_sort_by_key(front, key);
        let sorted = sort_by_key(front, key);
        lemma_insert_ordered(sorted, s.last(), key);
        lemma_insert_adds(sorted, s.last(), key);
        to_multiset_build(front, s.last());
        assert(front.push(s.last()) =~= s);
    }
}

/// Putting an item in adds it and nothing else.
pub proof fn lemma_insert_adds<T>(s: Seq<T>, x: T, key: spec_fn(T) -> int)
    ensures
        insert_by_key(s, x, key).len() == s.len() + 1,
        insert_by_key(s, x, key).to_multiset() == s.to_multiset().insert(x),
    decreases s.len(),
{
    if s.len() == 0 {
        to_multiset_build(s, x);
        assert(seq![x] =~= s.push(x));
    } else if key(s.last()) <= key(x) {
        to_multiset_build(s, x);
    } else {
        let front = s.drop_last();
        lemma_insert_adds(front, x, key);
        let inner = insert_by_key(front, x, key);
        to_multiset_build(inner, s.last());
        to_multiset_build(front, s.last());
        assert(front.push(s.last()) =~= s);
        assert(insert_by_key(s, x, key).to_multiset() =~= s.to_multiset().insert(x));
    }
}

} // verus!
