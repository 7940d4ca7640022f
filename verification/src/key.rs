//! The order of store keys.
//!
//! Keys are byte strings of one length. They are ordered as the numbers they
//! spell when read with the first byte weighing most, which for strings of
//! one length is the order of a dictionary.

use vstd::prelude::*;

verus! {

/// Number of bytes in a store key.
pub const KEY_LEN: usize = 32;

/// The number that `key` spells, the first byte weighing most.
pub open spec fn key_number(key: Seq<u8>) -> nat
    decreases key.len(),
{
    if key.len() == 0 {
        0
    } else {
        256 * key_number(key.drop_last()) + key.last() as nat
    }
}

/// Where one key stands relative to another.
#[derive(Clone, Copy, Debug, PartialEq, Eq, Structural)]
pub enum Side {
    /// The first key is the smaller one.
    Before,
    /// The keys are equal.
    Same,
    /// The first key is the larger one.
    After,
}

/// Two keys of one length that agree up to a byte where the first is smaller
/// are ordered that way.
pub proof fn lemma_first_difference_decides(a: Seq<u8>, b: Seq<u8>, at: int)
    requires
        a.len() == b.len(),
        0 <= at < a.len(),
        forall|j: int| 0 <= j < at ==> a[j] == b[j],
        a[at] < b[at],
    ensures
        key_number(a) < key_number(b),
    decreases a.len(),
{
    if at == a.len() - 1 {
        assert(a.drop_last() =~= b.drop_last());
    } else {
        lemma_first_difference_decides(a.drop_last(), b.drop_last(), at);
    }
}

/// Keys of one length that spell the same number are the same key.
pub proof fn lemma_key_number_is_injective(a: Seq<u8>, b: Seq<u8>)
    requires
        a.len() == b.len(),
        key_number(a) == key_number(b),
    ensures
        a == b,
    decreases a.len(),
{
    if a.len() > 0 {
        lemma_key_number_is_injective(a.drop_last(), b.drop_last());
        assert(a =~= a.drop_last().push(a.last()));
        assert(b =~= b.drop_last().push(b.last()));
    } else {
        assert(a =~= b);
    }
}

/// Says on which side of `b` the key `a` stands.
pub fn side_of(a: &[u8; 32], b: &[u8; 32]) -> (side: Side)
    ensures
        side == Side::Before <==> key_number(a@) < key_number(b@),
        side == Side::Same <==> a@ == b@,
        side == Side::After <==> key_number(a@) > key_number(b@),
{
    broadcast use vstd::array::array_len_matches_n;

    let mut i: usize = 0;
    while i < KEY_LEN
        invariant
            0 <= i <= KEY_LEN,
            a@.len() == KEY_LEN,
            b@.len() == KEY_LEN,
            forall|j: int| 0 <= j < i ==> a@[j] == b@[j],
        decreases KEY_LEN - i,
    {
        if a[i] < b[i] {
            proof {
                lemma_first_difference_decides(a@, b@, i as int);
            }
            return Side::Before;
        }
        if a[i] > b[i] {
            proof {
                lemma_first_difference_decides(b@, a@, i as int);
            }
            return Side::After;
        }
        i += 1;
    }
    assert(a@ =~= b@);
    Side::Same
}

} // verus!
