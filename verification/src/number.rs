//! Unsigned numbers written as decimal text.
//!
//! A number is one or more digits `0`-`9`, with an optional `+` in front.
//! Leading zeros are allowed; the value must fit in 64 bits.

use vstd::prelude::*;

use crate::error::ParseError;

verus! {

/// The byte of the character `+`.
const PLUS: u8 = 43;

/// The byte of the character `0`.
const ZERO: u8 = 48;

/// The byte of the character `9`.
const NINE: u8 = 57;

/// Whether `c` is one of `0`-`9`.
pub open spec fn is_decimal_digit(c: char) -> bool {
    '0' <= c <= '9'
}

/// The value, 0 to 9, of a decimal digit; 0 for any other character.
pub open spec fn decimal_digit_value(c: char) -> nat {
    if is_decimal_digit(c) {
        (c as int - '0' as int) as nat
    } else {
        0
    }
}

/// Whether every character of `digits` is a decimal digit.
pub open spec fn all_decimal_digits(digits: Seq<char>) -> bool {
    forall|i: int| 0 <= i < digits.len() ==> is_decimal_digit(#[trigger] digits[i])
}

/// The number that a run of decimal digits spells, the first digit weighing most.
pub open spec fn decimal_value(digits: Seq<char>) -> nat
    decreases digits.len(),
{
    if digits.len() == 0 {
        0
    } else {
        10 * decimal_value(digits.drop_last()) + decimal_digit_value(digits.last())
    }
}

/// `text` without a leading `+`, if it has one.
pub open spec fn decimal_digits(text: Seq<char>) -> Seq<char> {
    if text.len() >= 1 && text[0] == '+' {
        text.subrange(1, text.len() as int)
    } else {
        text
    }
}

/// Whether `text` is the text of a number that fits in 64 bits.
pub open spec fn is_number_text(text: Seq<char>) -> bool {
    let digits = decimal_digits(text);
    &&& digits.len() >= 1
    &&& all_decimal_digits(digits)
    &&& decimal_value(digits) <= u64::MAX
}

/// The number that `text` spells, for a `text` that `is_number_text` accepts.
pub open spec fn number_of_text(text: Seq<char>) -> nat {
    decimal_value(decimal_digits(text))
}

/// The value of the first `k` digits never exceeds the value of all of them.
proof fn lemma_value_of_prefix(digits: Seq<char>, k: int)
    requires
        0 <= k <= digits.len(),
    ensures
        decimal_value(digits.take(k)) <= decimal_value(digits),
    decreases digits.len() - k,
{
    if k == digits.len() {
        assert(digits.take(k) == digits);
    } else {
        lemma_value_of_prefix(digits, k + 1);
        assert(digits.take(k + 1).drop_last() == digits.take(k));
    }
}

/// Reads a number from its decimal text.
///
/// Succeeds exactly when `text` is an optional `+` followed by at least one
/// decimal digit and the digits spell a value of at most `u64::MAX`.
pub fn parse_number(text: &str) -> (parsed: Result<u64, ParseError>)
    ensures
        parsed is Ok <==> is_number_text(text@),
        parsed matches Ok(n) ==> n == number_of_text(text@),
        parsed matches Err(e) ==> e == ParseError::InvalidNumber,
{
    broadcast use vstd::string::is_ascii_spec_bytes;

    let ghost digits = decimal_digits(text@);
    if !text.is_ascii() {
        proof {
            let i = choose|i: int|
                0 <= i < text@.len() && !('\0' <= #[trigger] text@[i] <= '\u{7f}');
            if text@[0] == '+' {
                assert(digits[i - 1] == text@[i]);
            } else {
                assert(digits[i] == text@[i]);
            }
        }
        return Err(ParseError::InvalidNumber);
    }
    let bytes = text.as_bytes();
    let len = bytes.len();
    assert(len == text@.len());
    assert(forall|i: int| 0 <= i < len ==> bytes@[i] == text@[i] as u8);
    let start: usize = if len > 0 && bytes[0] == PLUS {
        1
    } else {
        0
    };
    assert(digits == text@.subrange(start as int, len as int));
    if start == len {
        return Err(ParseError::InvalidNumber);
    }
    let mut value: u64 = 0;
    let mut i: usize = start;
    while i < len
        invariant
            start <= i <= len,
            len == text@.len(),
            len == bytes@.len(),
            digits == decimal_digits(text@),
            digits == text@.subrange(start as int, len as int),
            forall|j: int| 0 <= j < len ==> bytes@[j] == text@[j] as u8,
            forall|j: int| 0 <= j < len ==> '\0' <= #[trigger] text@[j] <= '\u{7f}',
            all_decimal_digits(digits.take(i - start)),
            value == decimal_value(digits.take(i - start)),
        decreases len - i,
    {
        let byte = bytes[i];
        let ghost c = text@[i as int];
        assert(digits[i - start] == c);
        if byte < ZERO || byte > NINE {
            assert(!is_decimal_digit(c));
            return Err(ParseError::InvalidNumber);
        }
        assert(is_decimal_digit(c));
        let digit: u64 = (byte - ZERO) as u64;
        proof {
            let next = digits.take(i - start + 1);
            assert(next.drop_last() == digits.take(i - start));
            assert(next.last() == c);
            assert(decimal_value(next) == 10 * value + digit);
            lemma_value_of_prefix(digits, i - start + 1);
            assert(all_decimal_digits(next)) by {
                assert forall|j: int| 0 <= j < next.len() implies is_decimal_digit(
                    #[trigger] next[j],
                ) by {
                    if j < i - start {
                        assert(digits.take(i - start)[j] == next[j]);
                    }
                }
            }
        }
        let scaled = match value.checked_mul(10) {
            Some(scaled) => scaled,
            None => {
                return Err(ParseError::InvalidNumber);
            },
        };
        value = match scaled.checked_add(digit) {
            Some(sum) => sum,
            None => {
                return Err(ParseError::InvalidNumber);
            },
        };
        i += 1;
    }
    assert(digits.take(len - start) == digits);
    Ok(value)
}

/// The character of a digit from 0 to 9.
pub open spec fn decimal_digit_char(digit: nat) -> char {
    if digit == 0 {
        '0'
    } else if digit == 1 {
        '1'
    } else if digit == 2 {
        '2'
    } else if digit == 3 {
        '3'
    } else if digit == 4 {
        '4'
    } else if digit == 5 {
        '5'
    } else if digit == 6 {
        '6'
    } else if digit == 7 {
        '7'
    } else if digit == 8 {
        '8'
    } else {
        '9'
    }
}

/// The decimal text of a number: no sign, no leading zeros, `0` for zero.
pub open spec fn decimal_text(number: nat) -> Seq<char>
    decreases number,
{
    if number < 10 {
        seq![decimal_digit_char(number)]
    } else {
        decimal_text(number / 10).push(decimal_digit_char(number % 10))
    }
}

/// Reading the decimal text of a number gives the number back.
pub proof fn lemma_decimal_text_reads_back(number: nat)
    ensures
        decimal_text(number).len() >= 1,
        all_decimal_digits(decimal_text(number)),
        decimal_digits(decimal_text(number)) == decimal_text(number),
        decimal_value(decimal_text(number)) == number,
        number <= u64::MAX ==> is_number_text(decimal_text(number)) && number_of_text(
            decimal_text(number),
        ) == number,
    decreases number,
{
    let text = decimal_text(number);
    if number < 10 {
        assert(text.drop_last() =~= Seq::<char>::empty());
        assert(decimal_value(text.drop_last()) == 0);
    } else {
        let front = decimal_text(number / 10);
        lemma_decimal_text_reads_back(number / 10);
        assert(text.drop_last() =~= front);
        assert(text[0] == front[0]);
        assert forall|i: int| 0 <= i < text.len() implies is_decimal_digit(#[trigger] text[i]) by {
            if i < front.len() {
                assert(text[i] == front[i]);
            }
        }
    }
}

/// The text of one digit.
fn digit_text(digit: u8) -> (text: &'static str)
    requires
        digit < 10,
    ensures
        text@ == seq![decimal_digit_char(digit as nat)],
{
    proof {
        reveal_strlit("0");
        reveal_strlit("1");
        reveal_strlit("2");
        reveal_strlit("3");
        reveal_strlit("4");
        reveal_strlit("5");
        reveal_strlit("6");
        reveal_strlit("7");
        reveal_strlit("8");
        reveal_strlit("9");
    }
    let text = if digit == 0 {
        "0"
    } else if digit == 1 {
        "1"
    } else if digit == 2 {
        "2"
    } else if digit == 3 {
        "3"
    } else if digit == 4 {
        "4"
    } else if digit == 5 {
        "5"
    } else if digit == 6 {
        "6"
    } else if digit == 7 {
        "7"
    } else if digit == 8 {
        "8"
    } else {
        "9"
    };
    assert(text@ =~= seq![decimal_digit_char(digit as nat)]);
    text
}

/// Writes the decimal text of `number` behind what `text` holds.
pub fn append_number(text: &mut String, number: u64)
    ensures
        final(text)@ == old(text)@ + decimal_text(number as nat),
    decreases number,
{
    if number >= 10 {
        append_number(text, number / 10);
    }
    text.append(digit_text((number % 10) as u8));
    assert(text@ =~= old(text)@ + decimal_text(number as nat));
}

/// The decimal text of `number`.
pub fn number_text(number: u64) -> (text: String)
    ensures
        text@ == decimal_text(number as nat),
{
    let mut text = String::new();
    append_number(&mut text, number);
    assert(text@ =~= decimal_text(number as nat));
    text
}

} // verus!
