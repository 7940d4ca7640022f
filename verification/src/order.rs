//! Sorting the entries of a list by key.
//!
//! The entries stay where they are. What is sorted is a list of their
//! indices, by merging, so that a list of any length is sorted in time
//! proportional to its length times the logarithm of its length.

use vstd::prelude::*;
use vstd::seq_lib::{group_to_multiset_ensures, lemma_multiset_commutative, to_multiset_build};

use crate::key::{key_number, side_of, Side};
use crate::store::Entry;

verus! {

/// The key number of the entry that `order` names at place `at`.
pub open spec fn key_at(entries: Seq<Entry>, order: Seq<usize>, at: int) -> nat {
    key_number(entries[order[at] as int].key@)
}

/// Whether every index in `order` is the index of an entry.
pub open spec fn names_entries(entries: Seq<Entry>, order: Seq<usize>) -> bool {
    forall|a: int| 0 <= a < order.len() ==> #[trigger] order[a] < entries.len()
}

/// Whether the entries that `order` names come with keys that never descend.
pub open spec fn in_key_order(entries: Seq<Entry>, order: Seq<usize>) -> bool {
    forall|a: int, b: int|
        0 <= a <= b < order.len() ==> key_at(entries, order, a) <= key_at(entries, order, b)
}

/// The indices `0`, `1`, and so on below `count`.
pub open spec fn indices_below(count: nat) -> Seq<usize> {
    Seq::new(count, |i: int| i as usize)
}

/// Merges two lists of indices that are each in key order into one.
fn merge(entries: &Vec<Entry>, left: &Vec<usize>, right: &Vec<usize>) -> (merged: Vec<usize>)
    requires
        names_entries(entries@, left@),
        names_entries(entries@, right@),
        in_key_order(entries@, left@),
        in_key_order(entries@, right@),
    ensures
        merged@.to_multiset() == left@.to_multiset().add(right@.to_multiset()),
        names_entries(entries@, merged@),
        in_key_order(entries@, merged@),
{
    broadcast use {group_to_multiset_ensures, vstd::multiset::group_multiset_axioms};

    let mut merged: Vec<usize> = Vec::new();
    let mut i: usize = 0;
    let mut j: usize = 0;
    assert(left@.take(0) =~= Seq::<usize>::empty());
    assert(right@.take(0) =~= Seq::<usize>::empty());
    assert(merged@.to_multiset() =~= left@.take(0).to_multiset().add(right@.take(0).to_multiset()));
    while i < left.len() || j < right.len()
        invariant
            0 <= i <= left.len(),
            0 <= j <= right.len(),
            names_entries(entries@, left@),
            names_entries(entries@, right@),
            in_key_order(entries@, left@),
            in_key_order(entries@, right@),
            merged@.to_multiset() == left@.take(i as int).to_multiset().add(
                right@.take(j as int).to_multiset(),
            ),
            names_entries(entries@, merged@),
            in_key_order(entries@, merged@),
            forall|a: int|
                0 <= a < merged.len() && i < left.len() ==> key_at(entries@, merged@, a) <= key_at(
                    entries@,
                    left@,
                    i as int,
                ),
            forall|a: int|
                0 <= a < merged.len() && j < right.len() ==> key_at(entries@, merged@, a) <= key_at(
                    entries@,
                    right@,
                    j as int,
                ),
        decreases left.len() - i + right.len() - j,
    {
        let from_left = if i == left.len() {
            false
        } else if j == right.len() {
            true
        } else {
            side_of(&entries[left[i]].key, &entries[right[j]].key) != Side::After
        };
        let ghost before = merged@;
        if from_left {
            let next = left[i];
            merged.push(next);
            proof {
                assert(left@.take(i + 1) =~= left@.take(i as int).push(next));
                assert(merged@ == before.push(next));
                to_multiset_build(before, next);
                to_multiset_build(left@.take(i as int), next);
                assert(merged@.to_multiset() =~= left@.take(i + 1).to_multiset().add(
                    right@.take(j as int).to_multiset(),
                ));
                assert forall|a: int, b: int| 0 <= a <= b < merged.len() implies key_at(
                    entries@,
                    merged@,
                    a,
                ) <= key_at(entries@, merged@, b) by {
                    if b < before.len() {
                        assert(key_at(entries@, before, a) <= key_at(entries@, before, b));
                    } else if a < before.len() {
                        assert(key_at(entries@, before, a) <= key_at(entries@, left@, i as int));
                    }
                }
                assert forall|a: int| 0 <= a < merged.len() && i + 1 < left.len() implies key_at(
                    entries@,
                    merged@,
                    a,
                ) <= key_at(entries@, left@, i + 1) by {
                    assert(key_at(entries@, left@, i as int) <= key_at(entries@, left@, i + 1));
                    if a < before.len() {
                        assert(key_at(entries@, before, a) <= key_at(entries@, left@, i as int));
                    }
                }
                assert forall|a: int| 0 <= a < merged.len() && j < right.len() implies key_at(
                    entries@,
                    merged@,
                    a,
                ) <= key_at(entries@, right@, j as int) by {
                    if a < before.len() {
                        assert(key_at(entries@, before, a) <= key_at(entries@, right@, j as int));
                    }
                }
            }
            i += 1;
        } else {
            let next = right[j];
            merged.push(next);
            proof {
                assert(right@.take(j + 1) =~= right@.take(j as int).push(next));
                assert(merged@ == before.push(next));
                to_multiset_build(before, next);
                to_multiset_build(right@.take(j as int), next);
                assert(merged@.to_multiset() =~= left@.take(i as int).to_multiset().add(
                    right@.take(j + 1).to_multiset(),
                ));
                assert forall|a: int, b: int| 0 <= a <= b < merged.len() implies key_at(
                    entries@,
                    merged@,
                    a,
                ) <= key_at(entries@, merged@, b) by {
                    if b < before.len() {
                        assert(key_at(entries@, before, a) <= key_at(entries@, before, b));
                    } else if a < before.len() {
                        assert(key_at(entries@, before, a) <= key_at(entries@, right@, j as int));
                    }
                }
                assert forall|a: int| 0 <= a < merged.len() && j + 1 < right.len() implies key_at(
                    entries@,
                    merged@,
                    a,
                ) <= key_at(entries@, right@, j + 1) by {
                    assert(key_at(entries@, right@, j as int) <= key_at(entries@, right@, j + 1));
                    if a < before.len() {
                        assert(key_at(entries@, before, a) <= key_at(entries@, right@, j as int));
                    }
                }
                assert forall|a: int| 0 <= a < merged.len() && i < left.len() implies key_at(
                    entries@,
                    merged@,
                    a,
                ) <= key_at(entries@, left@, i as int) by {
                    if a < before.len() {
                        assert(key_at(entries@, before, a) <= key_at(entries@, left@, i as int));
                    }
                }
            }
            j += 1;
        }
    }
    assert(left@.take(left.len() as int) == left@);
    assert(right@.take(right.len() as int) == right@);
    merged
}

/// Sorts a list of indices by the keys of the entries that they name. The
/// sorted list holds the same indices, each as often as before.
pub fn sort_by_key(entries: &Vec<Entry>, order: Vec<usize>) -> (sorted: Vec<usize>)
    requires
        names_entries(entries@, order@),
    ensures
        sorted@.to_multiset() == order@.to_multiset(),
        names_entries(entries@, sorted@),
        in_key_order(entries@, sorted@),
    decreases order.len(),
{
    if order.len() <= 1 {
        return order;
    }
    let ghost whole = order@;
    let middle = order.len() / 2;
    let mut left = order;
    let right = left.split_off(middle);
    proof {
        assert(whole =~= left@ + right@);
        lemma_multiset_commutative(left@, right@);
    }
    let left = sort_by_key(entries, left);
    let right = sort_by_key(entries, right);
    merge(entries, &left, &right)
}

/// The indices of all entries of a list.
pub fn all_indices(count: usize) -> (order: Vec<usize>)
    ensures
        order@ == indices_below(count as nat),
{
    let mut order: Vec<usize> = Vec::new();
    let mut i: usize = 0;
    while i < count
        invariant
            0 <= i <= count,
            order@ == indices_below(i as nat),
        decreases count - i,
    {
        order.push(i);
        assert(order@ =~= indices_below((i + 1) as nat));
        i += 1;
    }
    order
}

/// A list with the same indices as `indices_below(count)`, each as often,
/// names every index below `count` exactly once.
pub proof fn lemma_rearranged_indices(order: Seq<usize>, count: nat)
    requires
        count <= usize::MAX,
        order.to_multiset() == indices_below(count).to_multiset(),
    ensures
        order.len() == count,
        order.no_duplicates(),
        forall|a: int| 0 <= a < order.len() ==> #[trigger] order[a] < count,
        forall|i: usize| i < count ==> #[trigger] order.contains(i),
{
    broadcast use group_to_multiset_ensures;

    let all = indices_below(count);
    assert(order.to_multiset().len() == order.len());
    assert(all.to_multiset().len() == all.len());
    assert(all.no_duplicates());
    all.lemma_multiset_has_no_duplicates();
    order.lemma_multiset_has_no_duplicates_conv();
    assert forall|a: int| 0 <= a < order.len() implies #[trigger] order[a] < count by {
        assert(order.contains(order[a]));
        assert(all.to_multiset().count(order[a]) > 0);
        assert(all.contains(order[a]));
        let at = choose|at: int| 0 <= at < all.len() && all[at] == order[a];
        assert(all[at] == at as usize);
    }
    assert forall|i: usize| i < count implies #[trigger] order.contains(i) by {
        assert(all[i as int] == i);
        assert(all.contains(i));
        assert(order.to_multiset().count(i) > 0);
    }
}

} // verus!
