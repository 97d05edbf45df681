//! Stable sorting in descending order of an integer key, as a mathematical
//! function on sequences, with what it guarantees.

use vstd::prelude::*;
use vstd::seq_lib::{
    to_multiset_build, to_multiset_contains, to_multiset_insert, to_multiset_len,
    to_multiset_remove,
};

verus! {

/// `sorted` with `item` put behind every element whose key is at least the
/// key of `item`, and before all the others at the end.
pub open spec fn insert_desc<T>(sorted: Seq<T>, item: T, key: spec_fn(T) -> int) -> Seq<T>
    decreases sorted.len(),
{
    if sorted.len() > 0 && key(sorted.last()) < key(item) {
        insert_desc(sorted.drop_last(), item, key).push(sorted.last())
    } else {
        sorted.push(item)
    }
}

/// The items in descending order of their keys; items with equal keys stay in
/// the order in which they came.
pub open spec fn sort_desc<T>(items: Seq<T>, key: spec_fn(T) -> int) -> Seq<T>
    decreases items.len(),
{
    if items.len() == 0 {
        items
    } else {
        insert_desc(sort_desc(items.drop_last(), key), items.last(), key)
    }
}

/// No item has a smaller key than an item behind it.
pub open spec fn ordered_desc<T>(items: Seq<T>, key: spec_fn(T) -> int) -> bool {
    forall|i: int, j: int|
        #![trigger items[i], items[j]]
        0 <= i < j < items.len() ==> key(items[i]) >= key(items[j])
}

/// The test that an item's key is `value`.
pub open spec fn has_key<T>(key: spec_fn(T) -> int, value: int) -> spec_fn(T) -> bool {
    |item: T| key(item) == value
}

/// The items whose key is `value`, in the order in which they stand.
pub open spec fn with_key<T>(items: Seq<T>, key: spec_fn(T) -> int, value: int) -> Seq<T> {
    items.filter(has_key(key, value))
}

/// Where `item` lands: at the one position that has only smaller keys behind
/// it and no smaller key directly before it.
pub proof fn lemma_insert_desc_at<T>(sorted: Seq<T>, item: T, key: spec_fn(T) -> int, at: int)
    requires
        0 <= at <= sorted.len(),
        forall|j: int| at <= j < sorted.len() ==> key(#[trigger] sorted[j]) < key(item),
        at > 0 ==> key(sorted[at - 1]) >= key(item),
    ensures
        insert_desc(sorted, item, key) == sorted.insert(at, item),
    decreases sorted.len() - at,
{
    if at < sorted.len() {
        lemma_insert_desc_at(sorted.drop_last(), item, key, at);
    }
}

/// The position at which `insert_desc` puts the item.
pub proof fn lemma_insert_desc_position<T>(sorted: Seq<T>, item: T, key: spec_fn(T) -> int) -> (at:
    int)
    ensures
        0 <= at <= sorted.len(),
        insert_desc(sorted, item, key) == sorted.insert(at, item),
        forall|j: int| at <= j < sorted.len() ==> key(#[trigger] sorted[j]) < key(item),
        at > 0 ==> key(sorted[at - 1]) >= key(item),
    decreases sorted.len(),
{
    if sorted.len() > 0 && key(sorted.last()) < key(item) {
        let at = lemma_insert_desc_position(sorted.drop_last(), item, key);
        assert forall|j: int| at <= j < sorted.len() implies key(#[trigger] sorted[j]) < key(
            item,
        ) by {
            if j < sorted.len() - 1 {
                assert(sorted.drop_last()[j] == sorted[j]);
            }
        }
        lemma_insert_desc_at(sorted, item, key, at);
        at
    } else {
        let at = sorted.len() as int;
        lemma_insert_desc_at(sorted, item, key, at);
        at
    }
}

/// Sorting keeps every item, each as often as it came.
pub proof fn lemma_sort_desc_permutes<T>(items: Seq<T>, key: spec_fn(T) -> int)
    ensures
        sort_desc(items, key).len() == items.len(),
        sort_desc(items, key).to_multiset() == items.to_multiset(),
    decreases items.len(),
{
    if items.len() > 0 {
        let rest = sort_desc(items.drop_last(), key);
        lemma_sort_desc_permutes(items.drop_last(), key);
        let at = lemma_insert_desc_position(rest, items.last(), key);
        to_multiset_insert(rest, at, items.last());
        to_multiset_insert(items.drop_last(), items.len() - 1, items.last());
        assert(items.drop_last().insert(items.len() - 1, items.last()) =~= items);
    }
}

/// The sorted sequence is in descending order of the keys.
pub proof fn lemma_sort_desc_ordered<T>(items: Seq<T>, key: spec_fn(T) -> int)
    ensures
        ordered_desc(sort_desc(items, key), key),
    decreases items.len(),
{
    if items.len() > 0 {
        let rest = sort_desc(items.drop_last(), key);
        let item = items.last();
        lemma_sort_desc_ordered(items.drop_last(), key);
        let at = lemma_insert_desc_position(rest, item, key);
    }
}

/// Sorting is stable: the items of any one key stand in the sorted sequence
/// in the order in which they came.
pub proof fn lemma_sort_desc_stable<T>(items: Seq<T>, key: spec_fn(T) -> int, value: int)
    ensures
        with_key(sort_desc(items, key), key, value) == with_key(items, key, value),
    decreases items.len(),
{
    let wanted = has_key(key, value);
    if items.len() > 0 {
        let rest = sort_desc(items.drop_last(), key);
        let item = items.last();
        lemma_sort_desc_stable(items.drop_last(), key, value);
        let at = lemma_insert_desc_position(rest, item, key);
        let front = rest.subrange(0, at);
        let back = rest.subrange(at, rest.len() as int);
        assert(rest =~= front + back);
        Seq::filter_distributes_over_add(front, back, wanted);
        Seq::filter_distributes_over_add(front.push(item), back, wanted);
        front.lemma_filter_push(item, wanted);
        items.drop_last().lemma_filter_push(item, wanted);
        assert(items.drop_last().push(item) =~= items);
        if key(item) == value {
            assert(back.all(|other: T| !wanted(other)));
            back.lemma_all_neg_filter_empty(wanted);
        }
    }
}

/// Two sequences that hold the same items still hold the same items after
/// one function has been applied to every item of both.
pub proof fn lemma_map_keeps_items<A, B>(a: Seq<A>, b: Seq<A>, f: spec_fn(A) -> B)
    requires
        a.to_multiset() == b.to_multiset(),
    ensures
        a.map_values(f).to_multiset() == b.map_values(f).to_multiset(),
    decreases a.len(),
{
    to_multiset_len(a);
    to_multiset_len(b);
    if a.len() > 0 {
        let last = a.len() - 1;
        let item = a[last];
        to_multiset_contains(a, item);
        to_multiset_contains(b, item);
        let at = choose|at: int| 0 <= at < b.len() && b[at] == item;
        to_multiset_remove(a, last);
        to_multiset_remove(b, at);
        lemma_map_keeps_items(a.drop_last(), b.remove(at), f);
        to_multiset_build(a.drop_last().map_values(f), f(item));
        to_multiset_insert(b.remove(at).map_values(f), at, f(item));
        assert(a.drop_last().map_values(f).push(f(item)) =~= a.map_values(f));
        assert(b.remove(at).map_values(f).insert(at, f(item)) =~= b.map_values(f));
    } else {
        assert(a.map_values(f) =~= b.map_values(f));
    }
}

/// Splitting a sequence by a test loses nothing: the items that pass and the
/// items that fail are together the items of the sequence.
pub proof fn lemma_split_keeps_items<T>(
    items: Seq<T>,
    pass: spec_fn(T) -> bool,
    fail: spec_fn(T) -> bool,
)
    requires
        forall|item: T| #[trigger] fail(item) == !pass(item),
    ensures
        items.filter(pass).to_multiset().add(items.filter(fail).to_multiset())
            == items.to_multiset(),
        items.filter(pass).len() + items.filter(fail).len() == items.len(),
    decreases items.len(),
{
    broadcast use vstd::multiset::group_multiset_axioms;

    if items.len() > 0 {
        let rest = items.drop_last();
        let item = items.last();
        lemma_split_keeps_items(rest, pass, fail);
        assert(rest.push(item) =~= items);
        rest.lemma_filter_push(item, pass);
        rest.lemma_filter_push(item, fail);
        to_multiset_build(rest, item);
        if pass(item) {
            to_multiset_build(rest.filter(pass), item);
        } else {
            to_multiset_build(rest.filter(fail), item);
        }
    } else {
        reveal(Seq::filter);
        items.to_multiset_ensures();
    }
}

} // verus!
