//! Hashes written as text.
//!
//! A hash is 32 bytes. Its text is 64 hexadecimal digits, two per byte, the
//! high half first; upper and lower case digits may be mixed.

use alloy_primitives::hex::FromHexError;
use alloy_primitives::B256;
use std::str::FromStr;
use vstd::prelude::*;

use crate::error::ParseError;

verus! {

/// Number of bytes in a hash.
pub const HASH_LEN: usize = 32;

/// Number of hexadecimal digits in the text of a hash.
pub const HASH_TEXT_LEN: usize = 64;

/// Whether `c` is one of `0`-`9`, `a`-`f`, `A`-`F`.
pub open spec fn is_hex_digit(c: char) -> bool {
    ||| '0' <= c <= '9'
    ||| 'a' <= c <= 'f'
    ||| 'A' <= c <= 'F'
}

/// The value, 0 to 15, of a hexadecimal digit.
pub open spec fn hex_digit_value(c: char) -> int {
    if '0' <= c <= '9' {
        c as int - '0' as int
    } else if 'a' <= c <= 'f' {
        c as int - 'a' as int + 10
    } else {
        c as int - 'A' as int + 10
    }
}

/// Whether every character of `digits` is a hexadecimal digit.
pub open spec fn all_hex_digits(digits: Seq<char>) -> bool {
    forall|i: int| 0 <= i < digits.len() ==> is_hex_digit(#[trigger] digits[i])
}

/// The bytes that a run of hexadecimal digits spells, two digits per byte.
pub open spec fn hex_bytes(digits: Seq<char>) -> Seq<u8> {
    Seq::new(
        digits.len() / 2,
        |i: int| (16 * hex_digit_value(digits[2 * i]) + hex_digit_value(digits[2 * i + 1])) as u8,
    )
}

/// `text` without a leading `0x` or `0X`, if it has one.
pub open spec fn without_hex_prefix(text: Seq<char>) -> Seq<char> {
    if text.len() >= 2 && text[0] == '0' && (text[1] == 'x' || text[1] == 'X') {
        text.subrange(2, text.len() as int)
    } else {
        text
    }
}

/// Whether `text` is the text of a hash: exactly 64 hexadecimal digits.
pub open spec fn is_hash_text(text: Seq<char>) -> bool {
    text.len() == HASH_TEXT_LEN && all_hex_digits(text)
}

/// Whether `text` is 64 hexadecimal digits behind an optional `0x` or `0X`.
pub open spec fn is_prefixed_hash_text(text: Seq<char>) -> bool {
    is_hash_text(without_hex_prefix(text))
}

#[verifier::external_type_specification]
#[verifier::external_body]
pub struct ExFromHexError(FromHexError);

/// `<alloy_primitives::B256 as FromStr>::from_str`, with the bytes taken out
/// of the `B256`.
///
/// The decoder drops one leading `0x` or `0X`, then accepts the rest exactly
/// when it is 64 hexadecimal digits, and returns the 32 bytes they spell.
/// A text of odd length, of another length, or with any other character is an
/// error.
#[verifier::external_body]
fn decode_b256(text: &str) -> (decoded: Result<[u8; 32], FromHexError>)
    ensures
        decoded is Ok <==> is_prefixed_hash_text(text@),
        decoded matches Ok(bytes) ==> bytes@ == hex_bytes(without_hex_prefix(text@)),
{
    B256::from_str(text).map(|hash| hash.0)
}

/// Reads a hash from its text.
///
/// Succeeds exactly on 64 hexadecimal digits, with the 32 bytes they spell.
/// Anything else, a prefixed text included, is `InvalidHash`.
pub fn parse_hash(text: &str) -> (parsed: Result<[u8; 32], ParseError>)
    ensures
        parsed is Ok <==> is_hash_text(text@),
        parsed matches Ok(hash) ==> hash@ == hex_bytes(text@),
        parsed matches Err(e) ==> e == ParseError::InvalidHash,
{
    if text.unicode_len() != HASH_TEXT_LEN {
        return Err(ParseError::InvalidHash);
    }
    assert(text@.len() >= 2 && (text@[1] == 'x' || text@[1] == 'X') ==> !is_hex_digit(text@[1]));
    match decode_b256(text) {
        Ok(hash) => Ok(hash),
        Err(_) => Err(ParseError::InvalidHash),
    }
}

/// The lower-case character of a hexadecimal digit from 0 to 15.
pub open spec fn hex_digit_char(digit: nat) -> char {
    if digit == 0 {
        '0'
    } else if digit == 1 {
        '1'
    } else if digit == 2 {
        '2'
    } else if digit == 3 {
        '3'
    } else if digit == 4 {
        '4'
    } else if digit == 5 {
        '5'
    } else if digit == 6 {
        '6'
    } else if digit == 7 {
        '7'
    } else if digit == 8 {
        '8'
    } else if digit == 9 {
        '9'
    } else if digit == 10 {
        'a'
    } else if digit == 11 {
        'b'
    } else if digit == 12 {
        'c'
    } else if digit == 13 {
        'd'
    } else if digit == 14 {
        'e'
    } else {
        'f'
    }
}

/// The lower-case hexadecimal text of a byte string, two digits per byte.
pub open spec fn hex_text(bytes: Seq<u8>) -> Seq<char> {
    Seq::new(
        2 * bytes.len(),
        |i: int|
            if i % 2 == 0 {
                hex_digit_char((bytes[i / 2] / 16) as nat)
            } else {
                hex_digit_char((bytes[i / 2] % 16) as nat)
            },
    )
}

/// The text of a hash is the text of a hash, and reading it gives the hash
/// back.
pub proof fn lemma_hash_text_reads_back(hash: Seq<u8>)
    requires
        hash.len() == HASH_LEN,
    ensures
        is_hash_text(hex_text(hash)),
        hex_bytes(hex_text(hash)) == hash,
{
    let text = hex_text(hash);
    assert forall|i: int| 0 <= i < text.len() implies is_hex_digit(#[trigger] text[i]) by {
        let byte = hash[i / 2];
        assert(0 <= byte / 16 < 16 && 0 <= byte % 16 < 16);
    }
    assert forall|i: int| 0 <= i < hash.len() implies hex_bytes(text)[i] == hash[i] by {
        let byte = hash[i];
        let high = (byte / 16) as nat;
        let low = (byte % 16) as nat;
        assert(text[2 * i] == hex_digit_char(high));
        assert(text[2 * i + 1] == hex_digit_char(low));
        assert(hex_digit_value(hex_digit_char(high)) == high);
        assert(hex_digit_value(hex_digit_char(low)) == low);
    }
    assert(hex_bytes(text) =~= hash);
}

/// The text of one hexadecimal digit.
fn hex_digit_text(digit: u8) -> (text: &'static str)
    requires
        digit < 16,
    ensures
        text@ == seq![hex_digit_char(digit as nat)],
{
    proof {
        reveal_strlit("0");
        reveal_strlit("1");
        reveal_strlit("2");
        reveal_strlit("3");
        reveal_strlit("4");
        reveal_strlit("5");
        reveal_strlit("6");
        reveal_strlit("7");
        reveal_strlit("8");
        reveal_strlit("9");
        reveal_strlit("a");
        reveal_strlit("b");
        reveal_strlit("c");
        reveal_strlit("d");
        reveal_strlit("e");
        reveal_strlit("f");
    }
    let text = if digit == 0 {
        "0"
    } else if digit == 1 {
        "1"
    } else if digit == 2 {
        "2"
    } else if digit == 3 {
        "3"
    } else if digit == 4 {
        "4"
    } else if digit == 5 {
        "5"
    } else if digit == 6 {
        "6"
    } else if digit == 7 {
        "7"
    } else if digit == 8 {
        "8"
    } else if digit == 9 {
        "9"
    } else if digit == 10 {
        "a"
    } else if digit == 11 {
        "b"
    } else if digit == 12 {
        "c"
    } else if digit == 13 {
        "d"
    } else if digit == 14 {
        "e"
    } else {
        "f"
    };
    assert(text@ =~= seq![hex_digit_char(digit as nat)]);
    text
}

/// Writes a hash as text: 64 lower-case hexadecimal digits.
pub fn hash_text(hash: &[u8; 32]) -> (text: String)
    ensures
        text@ == hex_text(hash@),
{
    broadcast use vstd::array::array_len_matches_n;

    let mut text = String::new();
    let mut i: usize = 0;
    while i < HASH_LEN
        invariant
            0 <= i <= HASH_LEN,
            hash@.len() == HASH_LEN,
            text@ == hex_text(hash@).take(2 * i),
        decreases HASH_LEN - i,
    {
        let byte = hash[i];
        let ghost done = text@;
        text.append(hex_digit_text(byte / 16));
        text.append(hex_digit_text(byte % 16));
        assert(text@ =~= hex_text(hash@).take(2 * (i + 1))) by {
            let full = hex_text(hash@);
            assert(full[2 * i] == hex_digit_char((byte / 16) as nat));
            assert(full[2 * i + 1] == hex_digit_char((byte % 16) as nat));
        }
        i += 1;
    }
    assert(text@ =~= hex_text(hash@));
    text
}

} // verus!
