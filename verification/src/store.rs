//! The content-addressed store: witness data found by 32-byte key.
//!
//! A store is a finite map from keys to byte strings. It is kept as a list of
//! entries in ascending key order, so that one map has one representation.

use vstd::prelude::*;

use crate::key::{key_number, lemma_key_number_is_injective, side_of, Side, KEY_LEN};
use crate::order::{
    all_indices, in_key_order, key_at, lemma_rearranged_indices, names_entries, sort_by_key,
};
use crate::pairs::{
    ascending_keys, distinct_keys, has_key, is_sorted_form, lemma_insert_in_order,
    lemma_map_of_is, lemma_map_of_keys, lemma_map_of_len, lemma_map_of_value,
    lemma_replace_in_order, lemma_size_of_prefix, lemma_sorted_pairs_are, map_of, map_size,
    pairs_size, sorted_pairs,
};

verus! {

/// One key with the bytes stored under it.
#[derive(Clone, Debug, PartialEq, Eq)]
pub struct Entry {
    /// The key, as a rule the hash of the value.
    pub key: [u8; 32],
    /// The bytes stored under the key.
    pub value: Vec<u8>,
}

/// The entries of a list as pairs of byte strings, in the order of the list.
pub open spec fn pairs_of(entries: Seq<Entry>) -> Seq<(Seq<u8>, Seq<u8>)> {
    Seq::new(entries.len(), |i: int| (entries[i].key@, entries[i].value@))
}

/// Finds `key` in a list of ascending keys: the index of the first entry that
/// is not before `key`, and whether that entry has the key itself.
fn position(entries: &Vec<Entry>, key: &[u8; 32]) -> (found: (usize, bool))
    requires
        ascending_keys(pairs_of(entries@)),
    ensures
        found.0 <= entries.len(),
        forall|i: int| 0 <= i < found.0 ==> key_number(entries[i].key@) < key_number(key@),
        forall|i: int|
            found.0 <= i < entries.len() ==> key_number(key@) <= key_number(entries[i].key@),
        found.1 <==> found.0 < entries.len() && entries[found.0 as int].key@ == key@,
{
    broadcast use vstd::array::array_len_matches_n;

    let ghost pairs = pairs_of(entries@);
    let mut low: usize = 0;
    let mut high: usize = entries.len();
    while low < high
        invariant
            0 <= low <= high <= entries.len(),
            pairs == pairs_of(entries@),
            ascending_keys(pairs),
            forall|i: int| 0 <= i < low ==> key_number(entries[i].key@) < key_number(key@),
            forall|i: int|
                high <= i < entries.len() ==> key_number(key@) <= key_number(entries[i].key@),
        decreases high - low,
    {
        let middle = low + (high - low) / 2;
        let side = side_of(&entries[middle].key, key);
        assert(pairs[middle as int].0 == entries[middle as int].key@);
        if side == Side::Before {
            assert forall|i: int| 0 <= i < middle + 1 implies key_number(entries[i].key@)
                < key_number(key@) by {
                assert(pairs[i].0 == entries[i].key@);
            }
            low = middle + 1;
        } else {
            assert forall|i: int| middle <= i < entries.len() implies key_number(key@)
                <= key_number(entries[i].key@) by {
                assert(pairs[i].0 == entries[i].key@);
            }
            high = middle;
        }
    }
    if low < entries.len() {
        let side = side_of(&entries[low].key, key);
        proof {
            if key_number(entries[low as int].key@) == key_number(key@) {
                lemma_key_number_is_injective(entries[low as int].key@, key@);
            }
        }
        (low, side == Side::Same)
    } else {
        (low, false)
    }
}

/// Whether two byte strings are equal.
fn same_bytes(a: &Vec<u8>, b: &Vec<u8>) -> (same: bool)
    ensures
        same == (a@ == b@),
{
    if a.len() != b.len() {
        return false;
    }
    let mut i: usize = 0;
    while i < a.len()
        invariant
            0 <= i <= a.len(),
            a.len() == b.len(),
            forall|j: int| 0 <= j < i ==> a@[j] == b@[j],
        decreases a.len() - i,
    {
        if a[i] != b[i] {
            return false;
        }
        i += 1;
    }
    assert(a@ =~= b@);
    true
}

/// A content-addressed store held in memory.
#[derive(Debug, PartialEq, Eq)]
pub struct InMemoryOracle {
    cache: Vec<Entry>,
}

impl View for InMemoryOracle {
    type V = Map<Seq<u8>, Seq<u8>>;

    /// The store as a map from key to value.
    closed spec fn view(&self) -> Map<Seq<u8>, Seq<u8>> {
        map_of(pairs_of(self.cache@))
    }
}

impl InMemoryOracle {
    #[verifier::type_invariant]
    spec fn in_key_order(&self) -> bool {
        ascending_keys(pairs_of(self.cache@))
    }

    /// A store with nothing in it.
    pub fn new() -> (store: Self)
        ensures
            store@ == Map::<Seq<u8>, Seq<u8>>::empty(),
    {
        InMemoryOracle { cache: Vec::new() }
    }

    /// The number of keys in the store.
    pub fn len(&self) -> (count: usize)
        ensures
            self@.dom().finite(),
            count == self@.len(),
    {
        proof {
            use_type_invariant(self);
            lemma_map_of_len(pairs_of(self.cache@));
        }
        self.cache.len()
    }

    /// Whether the store holds nothing.
    pub fn is_empty(&self) -> (empty: bool)
        ensures
            empty <==> self@ == Map::<Seq<u8>, Seq<u8>>::empty(),
    {
        proof {
            use_type_invariant(self);
            lemma_map_of_keys(pairs_of(self.cache@));
            if self.cache@.len() > 0 {
                assert(pairs_of(self.cache@)[0].0 == self.cache@[0].key@);
                assert(has_key(pairs_of(self.cache@), self.cache@[0].key@));
                assert(self@.contains_key(self.cache@[0].key@));
            } else {
                assert(pairs_of(self.cache@).len() == 0);
            }
        }
        self.cache.len() == 0
    }

    /// The entries of the store are the sorted form of its map.
    proof fn lemma_cache_is_sorted_form(&self)
        requires
            self.in_key_order(),
        ensures
            is_sorted_form(pairs_of(self.cache@), self@),
            sorted_pairs(self@) == pairs_of(self.cache@),
    {
        broadcast use vstd::array::array_len_matches_n;

        let pairs = pairs_of(self.cache@);
        assert forall|i: int| 0 <= i < pairs.len() implies (#[trigger] pairs[i]).0.len()
            == KEY_LEN by {
            assert(pairs[i].0 == self.cache@[i].key@);
        }
        lemma_sorted_pairs_are(pairs, self@);
    }

    /// Whether the keys and values of the store take at most `limit` bytes.
    pub fn fits_in(&self, limit: usize) -> (fits: bool)
        ensures
            fits == (map_size(self@) <= limit),
    {
        broadcast use vstd::array::array_len_matches_n;

        proof {
            use_type_invariant(self);
            self.lemma_cache_is_sorted_form();
        }
        let ghost pairs = pairs_of(self.cache@);
        let mut total: usize = 0;
        let mut i: usize = 0;
        while i < self.cache.len()
            invariant
                0 <= i <= self.cache.len(),
                pairs == pairs_of(self.cache@),
                pairs == sorted_pairs(self@),
                total == pairs_size(pairs.take(i as int)),
                total <= limit,
            decreases self.cache.len() - i,
        {
            let entry = &self.cache[i];
            proof {
                let next = pairs.take(i + 1);
                assert(next.drop_last() == pairs.take(i as int));
                assert(next.last() == (entry.key@, entry.value@));
                lemma_size_of_prefix(pairs, i + 1);
            }
            let room = limit - total;
            if room < KEY_LEN || room - KEY_LEN < entry.value.len() {
                return false;
            }
            total = total + KEY_LEN + entry.value.len();
            i += 1;
        }
        assert(pairs.take(self.cache.len() as int) == pairs);
        true
    }

    /// The entries of the store, in ascending key order.
    pub fn entries(&self) -> (entries: &Vec<Entry>)
        ensures
            is_sorted_form(pairs_of(entries@), self@),
            pairs_of(entries@) == sorted_pairs(self@),
    {
        proof {
            use_type_invariant(self);
            self.lemma_cache_is_sorted_form();
        }
        &self.cache
    }

    /// The bytes stored under `key`, if the store has the key.
    pub fn get(&self, key: &[u8; 32]) -> (value: Option<&Vec<u8>>)
        ensures
            value is Some <==> self@.contains_key(key@),
            value matches Some(bytes) ==> bytes@ == self@[key@],
    {
        proof {
            use_type_invariant(self);
        }
        let ghost pairs = pairs_of(self.cache@);
        let (at, found) = position(&self.cache, key);
        proof {
            lemma_map_of_keys(pairs);
            if found {
                assert(pairs[at as int].0 == key@);
                lemma_map_of_value(pairs, at as int);
            } else if has_key(pairs, key@) {
                let i = choose|i: int| 0 <= i < pairs.len() && (#[trigger] pairs[i]).0 == key@;
                assert(self.cache@[i].key@ == key@);
                if at < pairs.len() {
                    assert(pairs[at as int].0 == self.cache@[at as int].key@);
                }
            }
        }
        if found {
            Some(&self.cache[at].value)
        } else {
            None
        }
    }

    /// Whether the store has `key`.
    pub fn contains_key(&self, key: &[u8; 32]) -> (present: bool)
        ensures
            present == self@.contains_key(key@),
    {
        self.get(key).is_some()
    }

    /// Stores `value` under `key`, and returns what was stored there before.
    pub fn insert(&mut self, key: [u8; 32], value: Vec<u8>) -> (previous: Option<Vec<u8>>)
        ensures
            final(self)@ == old(self)@.insert(key@, value@),
            previous is Some <==> old(self)@.contains_key(key@),
            previous matches Some(bytes) ==> bytes@ == old(self)@[key@],
    {
        broadcast use vstd::array::array_len_matches_n;

        proof {
            use_type_invariant(&*self);
        }
        let mut cache: Vec<Entry> = Vec::new();
        std::mem::swap(&mut cache, &mut self.cache);
        let ghost start = cache@;
        let ghost before = pairs_of(cache@);
        let ghost new_value = value@;
        let (at, found) = position(&cache, &key);
        proof {
            lemma_map_of_keys(before);
            if found {
                assert(before[at as int].0 == key@);
                lemma_map_of_value(before, at as int);
                lemma_replace_in_order(before, at as int, new_value);
            } else {
                if has_key(before, key@) {
                    let i = choose|i: int| 0 <= i < before.len() && (#[trigger] before[i]).0 == key@;
                    assert(start[i].key@ == key@);
                    if at < start.len() {
                        assert(before[at as int].0 == start[at as int].key@);
                    }
                }
                assert forall|i: int| at <= i < before.len() implies key_number(key@) < key_number(
                    (#[trigger] before[i]).0,
                ) by {
                    assert(before[i].0 == start[i].key@);
                    assert(before[at as int].0 == start[at as int].key@);
                    if key_number(key@) == key_number(start[at as int].key@) {
                        lemma_key_number_is_injective(key@, start[at as int].key@);
                    }
                    if i > at {
                        assert(key_number(before[at as int].0) < key_number(before[i].0));
                    }
                }
                assert forall|i: int| 0 <= i < at implies key_number((#[trigger] before[i]).0)
                    < key_number(key@) by {
                    assert(before[i].0 == start[i].key@);
                }
                lemma_insert_in_order(before, at as int, key@, new_value);
            }
        }
        let previous = if found {
            let entry = cache.remove(at);
            Some(entry.value)
        } else {
            None
        };
        cache.insert(at, Entry { key, value });
        proof {
            if found {
                assert(pairs_of(cache@) =~= before.update(at as int, (key@, new_value)));
            } else {
                assert(pairs_of(cache@) =~= before.insert(at as int, (key@, new_value)));
            }
        }
        self.cache = cache;
        previous
    }

    /// The store that a list of entries spells, if no key occurs twice in it.
    ///
    /// The entries may come in any order. They are sorted by merging, so a
    /// long list takes little more time per entry than a short one.
    pub fn from_entries(entries: &Vec<Entry>) -> (store: Option<Self>)
        ensures
            store is Some <==> distinct_keys(pairs_of(entries@)),
            store matches Some(built) ==> built@ == map_of(pairs_of(entries@)),
    {
        broadcast use vstd::array::array_len_matches_n;

        let ghost pairs = pairs_of(entries@);
        let count = entries.len();
        let order = sort_by_key(entries, all_indices(count));
        proof {
            lemma_rearranged_indices(order@, count as nat);
        }
        let mut cache: Vec<Entry> = Vec::new();
        let mut at: usize = 0;
        while at < count
            invariant
                0 <= at <= count,
                count == entries.len(),
                order.len() == count,
                pairs == pairs_of(entries@),
                names_entries(entries@, order@),
                in_key_order(entries@, order@),
                order@.no_duplicates(),
                cache.len() == at,
                forall|k: int| 0 <= k < at ==> #[trigger] pairs_of(cache@)[k] == pairs[order[k] as int],
                forall|k: int|
                    0 < k < at ==> key_at(entries@, order@, k - 1) < #[trigger] key_at(
                        entries@,
                        order@,
                        k,
                    ),
            decreases count - at,
        {
            let entry = &entries[order[at]];
            if at > 0 {
                let previous = &entries[order[at - 1]];
                let side = side_of(&previous.key, &entry.key);
                assert(key_at(entries@, order@, at - 1) <= key_at(entries@, order@, at as int));
                if side == Side::Same {
                    proof {
                        let i = order[at - 1] as int;
                        let j = order[at as int] as int;
                        assert(i != j);
                        assert(pairs[i].0 == pairs[j].0);
                    }
                    return None;
                }
            }
            let value = vstd::slice::slice_to_vec(entry.value.as_slice());
            let ghost done = pairs_of(cache@);
            cache.push(Entry { key: entry.key, value });
            proof {
                assert(pairs[order[at as int] as int] == (entry.key@, entry.value@));
                assert(pairs_of(cache@) =~= done.push(pairs[order[at as int] as int]));
                assert forall|k: int| 0 <= k < at + 1 implies #[trigger] pairs_of(cache@)[k]
                    == pairs[order[k] as int] by {
                    if k < at {
                        assert(done[k] == pairs[order[k] as int]);
                    }
                }
            }
            at += 1;
        }
        let ghost sorted = pairs_of(cache@);
        proof {
            assert forall|k: int, l: int| 0 <= k < l < sorted.len() implies key_number(
                (#[trigger] sorted[k]).0,
            ) < key_number((#[trigger] sorted[l]).0) by {
                assert(sorted[k] == pairs[order[k] as int]);
                assert(sorted[l] == pairs[order[l] as int]);
                assert(key_at(entries@, order@, k) < key_at(entries@, order@, k + 1));
                assert(key_at(entries@, order@, k + 1) <= key_at(entries@, order@, l));
            }
            assert forall|i: int, j: int| 0 <= i < j < pairs.len() implies (#[trigger] pairs[i]).0 != (
            #[trigger] pairs[j]).0 by {
                assert(order@.contains(i as usize));
                assert(order@.contains(j as usize));
                let k = choose|k: int| 0 <= k < order.len() && order@[k] == i as usize;
                let l = choose|l: int| 0 <= l < order.len() && order@[l] == j as usize;
                assert(sorted[k] == pairs[i]);
                assert(sorted[l] == pairs[j]);
                if k < l {
                    assert(key_number(sorted[k].0) < key_number(sorted[l].0));
                } else {
                    assert(key_number(sorted[l].0) < key_number(sorted[k].0));
                }
            }
            lemma_map_of_keys(pairs);
            assert forall|key: Seq<u8>| #[trigger]
                map_of(pairs).contains_key(key) <==> has_key(sorted, key) by {
                if has_key(sorted, key) {
                    let k = choose|k: int| 0 <= k < sorted.len() && (#[trigger] sorted[k]).0 == key;
                    assert(sorted[k] == pairs[order[k] as int]);
                    assert(pairs[order[k] as int].0 == key);
                }
                if has_key(pairs, key) {
                    let i = choose|i: int| 0 <= i < pairs.len() && (#[trigger] pairs[i]).0 == key;
                    assert(order@.contains(i as usize));
                    let k = choose|k: int| 0 <= k < order.len() && order@[k] == i as usize;
                    assert(sorted[k] == pairs[i]);
                    assert(sorted[k].0 == key);
                }
            }
            assert forall|k: int| 0 <= k < sorted.len() implies map_of(pairs)[(
            #[trigger] sorted[k]).0] == sorted[k].1 by {
                assert(sorted[k] == pairs[order[k] as int]);
                lemma_map_of_value(pairs, order[k] as int);
            }
            lemma_map_of_is(sorted, map_of(pairs));
        }
        Some(InMemoryOracle { cache })
    }

    /// Whether two stores hold the same map.
    pub fn same_contents(&self, other: &Self) -> (same: bool)
        ensures
            same == (self@ == other@),
    {
        broadcast use vstd::array::array_len_matches_n;

        proof {
            use_type_invariant(self);
            use_type_invariant(other);
        }
        let ghost mine = pairs_of(self.cache@);
        let ghost theirs = pairs_of(other.cache@);
        proof {
            lemma_map_of_len(mine);
            lemma_map_of_len(theirs);
            lemma_map_of_keys(mine);
            lemma_map_of_keys(theirs);
        }
        if self.cache.len() != other.cache.len() {
            return false;
        }
        let mut i: usize = 0;
        while i < self.cache.len()
            invariant
                0 <= i <= self.cache.len(),
                self.cache.len() == other.cache.len(),
                mine == pairs_of(self.cache@),
                theirs == pairs_of(other.cache@),
                ascending_keys(mine),
                ascending_keys(theirs),
                forall|key: Seq<u8>| #[trigger] map_of(mine).contains_key(key) <==> has_key(mine, key),
                forall|key: Seq<u8>| #[trigger]
                    map_of(theirs).contains_key(key) <==> has_key(theirs, key),
                forall|j: int| 0 <= j < i ==> mine[j] == theirs[j],
            decreases self.cache.len() - i,
        {
            let a = &self.cache[i];
            let b = &other.cache[i];
            assert(mine[i as int] == (a.key@, a.value@));
            assert(theirs[i as int] == (b.key@, b.value@));
            let side = side_of(&a.key, &b.key);
            if side != Side::Same {
                proof {
                    // The smaller of the two keys is missing from the other store.
                    let (small, large, lone) = if side == Side::Before {
                        (mine, theirs, a.key@)
                    } else {
                        (theirs, mine, b.key@)
                    };
                    assert(has_key(small, lone)) by {
                        assert(small[i as int].0 == lone);
                    }
                    if has_key(large, lone) {
                        let j = choose|j: int| 0 <= j < large.len() && (#[trigger] large[j]).0 == lone;
                        if j < i {
                            assert(small[j] == large[j]);
                            assert(key_number(small[j].0) < key_number(small[i as int].0));
                        } else if j > i {
                            assert(key_number(large[i as int].0) < key_number(large[j].0));
                        }
                    }
                    assert(map_of(small).contains_key(lone));
                    assert(!map_of(large).contains_key(lone));
                }
                return false;
            }
            if !same_bytes(&a.value, &b.value) {
                proof {
                    lemma_map_of_value(mine, i as int);
                    lemma_map_of_value(theirs, i as int);
                }
                return false;
            }
            i += 1;
        }
        assert(mine =~= theirs);
        true
    }
}

impl Clone for InMemoryOracle {
    /// A second store with the same map.
    fn clone(&self) -> (copy: Self)
        ensures
            copy@ == self@,
    {
        proof {
            use_type_invariant(self);
        }
        let ghost pairs = pairs_of(self.cache@);
        let mut cache: Vec<Entry> = Vec::new();
        let mut i: usize = 0;
        while i < self.cache.len()
            invariant
                0 <= i <= self.cache.len(),
                pairs == pairs_of(self.cache@),
                pairs_of(cache@) == pairs.take(i as int),
            decreases self.cache.len() - i,
        {
            let entry = &self.cache[i];
            let value = vstd::slice::slice_to_vec(entry.value.as_slice());
            let ghost done = pairs_of(cache@);
            cache.push(Entry { key: entry.key, value });
            assert(pairs[i as int] == (entry.key@, entry.value@));
            assert(pairs_of(cache@) =~= done.push(pairs[i as int]));
            assert(pairs_of(cache@) =~= pairs.take(i + 1));
            i += 1;
        }
        assert(pairs.take(self.cache.len() as int) == pairs);
        InMemoryOracle { cache }
    }
}

} // verus!
