//! Lists of pairs of byte strings, and the maps they spell.
//!
//! A store is a map, and is kept, written and read as a list of key and value
//! pairs. This module holds what is true of such lists: when a list spells a
//! map, that a map has one sorted list only, and what putting a pair in its
//! place does to the map.

use vstd::prelude::*;

use crate::key::{key_number, lemma_key_number_is_injective, KEY_LEN};

verus! {

/// Whether some pair of the list has the key `key`.
pub open spec fn has_key(pairs: Seq<(Seq<u8>, Seq<u8>)>, key: Seq<u8>) -> bool {
    exists|i: int| 0 <= i < pairs.len() && (#[trigger] pairs[i]).0 == key
}

/// Whether no key occurs twice in the list.
pub open spec fn distinct_keys(pairs: Seq<(Seq<u8>, Seq<u8>)>) -> bool {
    forall|i: int, j: int|
        0 <= i < j < pairs.len() ==> (#[trigger] pairs[i]).0 != (#[trigger] pairs[j]).0
}

/// Whether the keys of the list ascend strictly.
pub open spec fn ascending_keys(pairs: Seq<(Seq<u8>, Seq<u8>)>) -> bool {
    forall|i: int, j: int|
        0 <= i < j < pairs.len() ==> key_number((#[trigger] pairs[i]).0) < key_number(
            (#[trigger] pairs[j]).0,
        )
}

/// Whether every key of the list is `KEY_LEN` bytes long.
pub open spec fn keys_have_key_len(pairs: Seq<(Seq<u8>, Seq<u8>)>) -> bool {
    forall|i: int| 0 <= i < pairs.len() ==> (#[trigger] pairs[i]).0.len() == KEY_LEN
}

/// The number of bytes in the keys and values of a list of pairs.
pub open spec fn pairs_size(pairs: Seq<(Seq<u8>, Seq<u8>)>) -> nat
    decreases pairs.len(),
{
    if pairs.len() == 0 {
        0
    } else {
        pairs_size(pairs.drop_last()) + pairs.last().0.len() + pairs.last().1.len()
    }
}

/// The first `count` pairs of a list are no larger than the whole list.
pub proof fn lemma_size_of_prefix(pairs: Seq<(Seq<u8>, Seq<u8>)>, count: int)
    requires
        0 <= count <= pairs.len(),
    ensures
        pairs_size(pairs.take(count)) <= pairs_size(pairs),
    decreases pairs.len() - count,
{
    if count == pairs.len() {
        assert(pairs.take(count) == pairs);
    } else {
        lemma_size_of_prefix(pairs, count + 1);
        assert(pairs.take(count + 1).drop_last() == pairs.take(count));
    }
}

/// The map that a list of pairs spells. Where a key occurs twice, the later
/// pair counts.
pub open spec fn map_of(pairs: Seq<(Seq<u8>, Seq<u8>)>) -> Map<Seq<u8>, Seq<u8>>
    decreases pairs.len(),
{
    if pairs.len() == 0 {
        Map::empty()
    } else {
        map_of(pairs.drop_last()).insert(pairs.last().0, pairs.last().1)
    }
}

/// The keys of `map_of(pairs)` are the keys of `pairs`, and they are finitely
/// many.
pub proof fn lemma_map_of_keys(pairs: Seq<(Seq<u8>, Seq<u8>)>)
    ensures
        map_of(pairs).dom().finite(),
        forall|key: Seq<u8>| #[trigger] map_of(pairs).contains_key(key) <==> has_key(pairs, key),
    decreases pairs.len(),
{
    if pairs.len() > 0 {
        let front = pairs.drop_last();
        lemma_map_of_keys(front);
        assert forall|key: Seq<u8>| #[trigger]
            map_of(pairs).contains_key(key) <==> has_key(pairs, key) by {
            if has_key(pairs, key) {
                let i = choose|i: int| 0 <= i < pairs.len() && (#[trigger] pairs[i]).0 == key;
                if i < front.len() {
                    assert(front[i].0 == key);
                }
            }
            if map_of(pairs).contains_key(key) {
                if key == pairs.last().0 {
                    assert(pairs[pairs.len() - 1].0 == key);
                } else {
                    let i = choose|i: int| 0 <= i < front.len() && (#[trigger] front[i]).0 == key;
                    assert(pairs[i].0 == key);
                }
            }
        }
    }
}

/// With distinct keys, each pair's value is what the map holds under its key.
pub proof fn lemma_map_of_value(pairs: Seq<(Seq<u8>, Seq<u8>)>, at: int)
    requires
        distinct_keys(pairs),
        0 <= at < pairs.len(),
    ensures
        map_of(pairs).contains_key(pairs[at].0),
        map_of(pairs)[pairs[at].0] == pairs[at].1,
    decreases pairs.len(),
{
    if at < pairs.len() - 1 {
        let front = pairs.drop_last();
        assert(distinct_keys(front)) by {
            assert forall|i: int, j: int| 0 <= i < j < front.len() implies (#[trigger] front[i]).0
                != (#[trigger] front[j]).0 by {
                assert(pairs[i].0 != pairs[j].0);
            }
        }
        lemma_map_of_value(front, at);
        assert(pairs[at].0 != pairs[pairs.len() - 1].0);
    }
}

/// With distinct keys, the map has as many keys as the list has pairs.
pub proof fn lemma_map_of_len(pairs: Seq<(Seq<u8>, Seq<u8>)>)
    requires
        distinct_keys(pairs),
    ensures
        map_of(pairs).dom().finite(),
        map_of(pairs).len() == pairs.len(),
    decreases pairs.len(),
{
    lemma_map_of_keys(pairs);
    if pairs.len() > 0 {
        let front = pairs.drop_last();
        assert(distinct_keys(front)) by {
            assert forall|i: int, j: int| 0 <= i < j < front.len() implies (#[trigger] front[i]).0
                != (#[trigger] front[j]).0 by {
                assert(pairs[i].0 != pairs[j].0);
            }
        }
        lemma_map_of_len(front);
        lemma_map_of_keys(front);
        if has_key(front, pairs.last().0) {
            let i = choose|i: int|
                0 <= i < front.len() && (#[trigger] front[i]).0 == pairs.last().0;
            assert(pairs[i].0 == pairs[pairs.len() - 1].0);
        }
    }
}

/// A map whose keys are the keys of a list of distinct keys, and which holds
/// each pair's value under its key, is the map of that list.
pub proof fn lemma_map_of_is(pairs: Seq<(Seq<u8>, Seq<u8>)>, map: Map<Seq<u8>, Seq<u8>>)
    requires
        distinct_keys(pairs),
        forall|key: Seq<u8>| #[trigger] map.contains_key(key) <==> has_key(pairs, key),
        forall|i: int| 0 <= i < pairs.len() ==> map[(#[trigger] pairs[i]).0] == pairs[i].1,
    ensures
        map_of(pairs) == map,
{
    lemma_map_of_keys(pairs);
    assert forall|key: Seq<u8>| map_of(pairs).contains_key(key) implies #[trigger] map_of(
        pairs,
    )[key] == map[key] by {
        let i = choose|i: int| 0 <= i < pairs.len() && (#[trigger] pairs[i]).0 == key;
        lemma_map_of_value(pairs, i);
    }
    assert(map_of(pairs) =~= map);
}

/// Ascending keys of one length are distinct.
pub proof fn lemma_ascending_is_distinct(pairs: Seq<(Seq<u8>, Seq<u8>)>)
    requires
        ascending_keys(pairs),
    ensures
        distinct_keys(pairs),
{
}

/// Whether `pairs` is the sorted form of the map `contents`: the pairs of the
/// map, with keys of `KEY_LEN` bytes, in ascending key order.
pub open spec fn is_sorted_form(
    pairs: Seq<(Seq<u8>, Seq<u8>)>,
    contents: Map<Seq<u8>, Seq<u8>>,
) -> bool {
    &&& ascending_keys(pairs)
    &&& keys_have_key_len(pairs)
    &&& map_of(pairs) == contents
}

/// The sorted form of a map that has one. Every store has one.
pub open spec fn sorted_pairs(contents: Map<Seq<u8>, Seq<u8>>) -> Seq<(Seq<u8>, Seq<u8>)> {
    choose|pairs: Seq<(Seq<u8>, Seq<u8>)>| is_sorted_form(pairs, contents)
}

/// The number of bytes in the keys and values of a map that has a sorted
/// form.
pub open spec fn map_size(contents: Map<Seq<u8>, Seq<u8>>) -> nat {
    pairs_size(sorted_pairs(contents))
}

/// Without its last pair, a list of distinct keys spells the map without the
/// key of that pair.
proof fn lemma_map_of_front(pairs: Seq<(Seq<u8>, Seq<u8>)>)
    requires
        distinct_keys(pairs),
        pairs.len() > 0,
    ensures
        map_of(pairs.drop_last()) == map_of(pairs).remove(pairs.last().0),
{
    let front = pairs.drop_last();
    lemma_map_of_keys(front);
    if has_key(front, pairs.last().0) {
        let i = choose|i: int| 0 <= i < front.len() && (#[trigger] front[i]).0 == pairs.last().0;
        assert(pairs[i].0 == pairs[pairs.len() - 1].0);
    }
    assert(map_of(front) =~= map_of(pairs).remove(pairs.last().0));
}

/// A map has at most one sorted form.
pub proof fn lemma_sorted_form_is_unique(
    a: Seq<(Seq<u8>, Seq<u8>)>,
    b: Seq<(Seq<u8>, Seq<u8>)>,
    contents: Map<Seq<u8>, Seq<u8>>,
)
    requires
        is_sorted_form(a, contents),
        is_sorted_form(b, contents),
    ensures
        a == b,
    decreases a.len(),
{
    lemma_map_of_len(a);
    lemma_map_of_len(b);
    if a.len() == 0 {
        assert(a =~= b);
    } else {
        let last = a.len() - 1;
        lemma_map_of_keys(a);
        lemma_map_of_keys(b);
        lemma_map_of_value(a, last);
        lemma_map_of_value(b, last);
        // The last key of each list is the largest key of the map.
        assert(has_key(b, a[last].0));
        let in_b = choose|i: int| 0 <= i < b.len() && (#[trigger] b[i]).0 == a[last].0;
        assert(has_key(a, b[last].0));
        let in_a = choose|i: int| 0 <= i < a.len() && (#[trigger] a[i]).0 == b[last].0;
        if in_b < last {
            assert(key_number(b[in_b].0) < key_number(b[last].0));
        }
        if in_a < last {
            assert(key_number(a[in_a].0) < key_number(a[last].0));
        }
        assert(key_number(a[last].0) == key_number(b[last].0));
        lemma_key_number_is_injective(a[last].0, b[last].0);
        assert(a[last] == b[last]);
        lemma_map_of_front(a);
        lemma_map_of_front(b);
        let front_a = a.drop_last();
        let front_b = b.drop_last();
        assert(ascending_keys(front_a)) by {
            assert forall|i: int, j: int| 0 <= i < j < front_a.len() implies key_number(
                (#[trigger] front_a[i]).0,
            ) < key_number((#[trigger] front_a[j]).0) by {
                assert(key_number(a[i].0) < key_number(a[j].0));
            }
        }
        assert(ascending_keys(front_b)) by {
            assert forall|i: int, j: int| 0 <= i < j < front_b.len() implies key_number(
                (#[trigger] front_b[i]).0,
            ) < key_number((#[trigger] front_b[j]).0) by {
                assert(key_number(b[i].0) < key_number(b[j].0));
            }
        }
        assert(keys_have_key_len(front_a)) by {
            assert forall|i: int| 0 <= i < front_a.len() implies (#[trigger] front_a[i]).0.len()
                == KEY_LEN by {
                assert(a[i].0.len() == KEY_LEN);
            }
        }
        assert(keys_have_key_len(front_b)) by {
            assert forall|i: int| 0 <= i < front_b.len() implies (#[trigger] front_b[i]).0.len()
                == KEY_LEN by {
                assert(b[i].0.len() == KEY_LEN);
            }
        }
        lemma_sorted_form_is_unique(front_a, front_b, contents.remove(a[last].0));
        assert(a =~= front_a.push(a[last]));
        assert(b =~= front_b.push(b[last]));
    }
}

/// The sorted form of a map is the one list that is a sorted form of it.
pub proof fn lemma_sorted_pairs_are(
    pairs: Seq<(Seq<u8>, Seq<u8>)>,
    contents: Map<Seq<u8>, Seq<u8>>,
)
    requires
        is_sorted_form(pairs, contents),
    ensures
        sorted_pairs(contents) == pairs,
{
    lemma_sorted_form_is_unique(sorted_pairs(contents), pairs, contents);
}

/// Putting a pair with a new key at its place in a list of ascending keys
/// keeps the keys ascending and adds the pair to the map.
pub proof fn lemma_insert_in_order(
    before: Seq<(Seq<u8>, Seq<u8>)>,
    at: int,
    key: Seq<u8>,
    value: Seq<u8>,
)
    requires
        ascending_keys(before),
        0 <= at <= before.len(),
        forall|i: int| 0 <= i < at ==> key_number((#[trigger] before[i]).0) < key_number(key),
        forall|i: int|
            at <= i < before.len() ==> key_number(key) < key_number((#[trigger] before[i]).0),
    ensures
        ascending_keys(before.insert(at, (key, value))),
        map_of(before.insert(at, (key, value))) == map_of(before).insert(key, value),
{
    let after = before.insert(at, (key, value));
    let map = map_of(before).insert(key, value);
    assert(after[at] == (key, value));
    assert(forall|i: int| 0 <= i < at ==> #[trigger] after[i] == before[i]);
    assert(forall|i: int| at < i < after.len() ==> #[trigger] after[i] == before[i - 1]);
    assert(ascending_keys(after)) by {
        assert forall|i: int, j: int| 0 <= i < j < after.len() implies key_number(
            (#[trigger] after[i]).0,
        ) < key_number((#[trigger] after[j]).0) by {
            let i0 = if i < at { i } else { i - 1 };
            let j0 = if j < at { j } else { j - 1 };
            if i != at && j != at {
                assert(key_number(before[i0].0) < key_number(before[j0].0));
            } else if i == at {
                assert(key_number(key) < key_number(before[j0].0));
            } else {
                assert(key_number(before[i0].0) < key_number(key));
            }
        }
    }
    lemma_map_of_keys(before);
    assert forall|k: Seq<u8>| #[trigger] map.contains_key(k) <==> has_key(after, k) by {
        if has_key(after, k) {
            let i = choose|i: int| 0 <= i < after.len() && (#[trigger] after[i]).0 == k;
            if i < at {
                assert(before[i].0 == k);
            } else if i > at {
                assert(before[i - 1].0 == k);
            }
        }
        if map.contains_key(k) {
            if k == key {
                assert(after[at].0 == k);
            } else {
                let i = choose|i: int| 0 <= i < before.len() && (#[trigger] before[i]).0 == k;
                if i < at {
                    assert(after[i].0 == k);
                } else {
                    assert(after[i + 1].0 == k);
                }
            }
        }
    }
    assert forall|i: int| 0 <= i < after.len() implies map[(#[trigger] after[i]).0]
        == after[i].1 by {
        if i < at {
            lemma_map_of_value(before, i);
            assert(key_number(before[i].0) < key_number(key));
        } else if i > at {
            lemma_map_of_value(before, i - 1);
            assert(key_number(key) < key_number(before[i - 1].0));
        }
    }
    lemma_map_of_is(after, map);
}

/// Giving the pair at one place of a list of ascending keys a new value
/// keeps the keys ascending and puts the value under that key in the map.
pub proof fn lemma_replace_in_order(before: Seq<(Seq<u8>, Seq<u8>)>, at: int, value: Seq<u8>)
    requires
        ascending_keys(before),
        0 <= at < before.len(),
    ensures
        ascending_keys(before.update(at, (before[at].0, value))),
        map_of(before.update(at, (before[at].0, value))) == map_of(before).insert(
            before[at].0,
            value,
        ),
{
    let key = before[at].0;
    let after = before.update(at, (key, value));
    let map = map_of(before).insert(key, value);
    assert(ascending_keys(after)) by {
        assert forall|i: int, j: int| 0 <= i < j < after.len() implies key_number(
            (#[trigger] after[i]).0,
        ) < key_number((#[trigger] after[j]).0) by {
            assert(key_number(before[i].0) < key_number(before[j].0));
        }
    }
    lemma_map_of_keys(before);
    assert forall|k: Seq<u8>| #[trigger] map.contains_key(k) <==> has_key(after, k) by {
        if has_key(after, k) {
            let i = choose|i: int| 0 <= i < after.len() && (#[trigger] after[i]).0 == k;
            assert(before[i].0 == k);
        }
        if map.contains_key(k) {
            if k == key {
                assert(after[at].0 == k);
            } else {
                let i = choose|i: int| 0 <= i < before.len() && (#[trigger] before[i]).0 == k;
                assert(after[i].0 == k);
            }
        }
    }
    assert forall|i: int| 0 <= i < after.len() implies map[(#[trigger] after[i]).0]
        == after[i].1 by {
        if i != at {
            lemma_map_of_value(before, i);
            if i < at {
                assert(key_number(before[i].0) < key_number(before[at].0));
            } else {
                assert(key_number(before[at].0) < key_number(before[i].0));
            }
        }
    }
    lemma_map_of_is(after, map);
}

} // verus!
