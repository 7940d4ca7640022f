//! Loading the store of one block.
//!
//! What is on disk is read elsewhere. This module says where the data of a
//! block lies, and turns what was read there into a store or into the reason
//! why there is none.

use vstd::prelude::*;

use crate::error::LoadError;
use crate::key::KEY_LEN;
use crate::number::{append_number, decimal_text};
use crate::pairs::{distinct_keys, keys_have_key_len, lemma_map_of_len, map_of};
use crate::store::{pairs_of, Entry, InMemoryOracle};

verus! {

/// One entry of the backing data as it was read: the key is not yet known to
/// have the length of a key.
#[derive(Clone, Debug, PartialEq, Eq)]
pub struct RawEntry {
    /// The bytes that were read as the key.
    pub key: Vec<u8>,
    /// The bytes that were read as the value.
    pub value: Vec<u8>,
}

/// The raw entries of a list as pairs of byte strings, in the order of the
/// list.
pub open spec fn raw_pairs(raw: Seq<RawEntry>) -> Seq<(Seq<u8>, Seq<u8>)> {
    Seq::new(raw.len(), |i: int| (raw[i].key@, raw[i].value@))
}

/// Whether a list of pairs has the shape of a store: every key is 32 bytes
/// long and none occurs twice.
pub open spec fn is_store_shaped(pairs: Seq<(Seq<u8>, Seq<u8>)>) -> bool {
    keys_have_key_len(pairs) && distinct_keys(pairs)
}

/// Where the data of a block lies: `../data/`, then the block height in
/// decimal.
pub fn store_path(block: u64) -> (path: String)
    ensures
        path@ == "../data/"@ + decimal_text(block as nat),
{
    let mut path = String::from_str("../data/");
    append_number(&mut path, block);
    path
}

/// The entry with the key and value of `raw`, if the key is 32 bytes long.
fn entry_of(raw: &RawEntry) -> (entry: Option<Entry>)
    ensures
        entry is Some <==> raw.key@.len() == KEY_LEN,
        entry matches Some(e) ==> e.key@ == raw.key@ && e.value@ == raw.value@,
{
    if raw.key.len() != KEY_LEN {
        return None;
    }
    let mut key = [0u8; 32];
    let mut i: usize = 0;
    while i < KEY_LEN
        invariant
            0 <= i <= KEY_LEN,
            raw.key@.len() == KEY_LEN,
            key@.len() == KEY_LEN,
            forall|j: int| 0 <= j < i ==> key@[j] == raw.key@[j],
        decreases KEY_LEN - i,
    {
        key[i] = raw.key[i];
        i += 1;
    }
    assert(key@ =~= raw.key@);
    let value = vstd::slice::slice_to_vec(raw.value.as_slice());
    Some(Entry { key, value })
}

/// Turns the backing data of a block into its store.
///
/// `backing` is `None` where there is no data for the block, which is
/// `NotFound`. Data that is there becomes a store exactly when it has the
/// shape of one, and then the store holds every entry of it; data of any
/// other shape is `CorruptStore`.
pub fn load_kv_store(backing: Option<&Vec<RawEntry>>) -> (loaded: Result<InMemoryOracle, LoadError>)
    ensures
        backing is None ==> (loaded matches Err(e) && e == LoadError::NotFound),
        backing matches Some(raw) ==> (loaded is Ok <==> is_store_shaped(raw_pairs(raw@))),
        backing matches Some(raw) ==> (loaded matches Ok(store) ==> store@ == map_of(
            raw_pairs(raw@),
        )),
        backing matches Some(raw) ==> (loaded matches Ok(store) ==> store@.len() == raw@.len()),
        backing is Some ==> (loaded matches Err(e) ==> e == LoadError::CorruptStore),
{
    let raw = match backing {
        Some(raw) => raw,
        None => {
            return Err(LoadError::NotFound);
        },
    };
    let ghost pairs = raw_pairs(raw@);
    let mut entries: Vec<Entry> = Vec::new();
    let mut i: usize = 0;
    while i < raw.len()
        invariant
            0 <= i <= raw.len(),
            backing == Some(raw),
            pairs == raw_pairs(raw@),
            pairs_of(entries@) == pairs.take(i as int),
            keys_have_key_len(pairs.take(i as int)),
        decreases raw.len() - i,
    {
        assert(pairs[i as int] == (raw[i as int].key@, raw[i as int].value@));
        match entry_of(&raw[i]) {
            Some(entry) => {
                let ghost done = pairs_of(entries@);
                entries.push(entry);
                assert(pairs_of(entries@) =~= done.push(pairs[i as int]));
                assert(pairs_of(entries@) =~= pairs.take(i + 1));
                assert(keys_have_key_len(pairs.take(i + 1))) by {
                    assert forall|j: int| 0 <= j < i + 1 implies (#[trigger] pairs.take(
                        i + 1,
                    )[j]).0.len() == KEY_LEN by {
                        if j < i {
                            assert(pairs.take(i as int)[j] == pairs.take(i + 1)[j]);
                        }
                    }
                }
            },
            None => {
                return Err(LoadError::CorruptStore);
            },
        }
        i += 1;
    }
    assert(pairs.take(raw.len() as int) == pairs);
    match InMemoryOracle::from_entries(&entries) {
        Some(store) => {
            proof {
                lemma_map_of_len(pairs);
            }
            Ok(store)
        },
        None => Err(LoadError::CorruptStore),
    }
}

} // verus!
