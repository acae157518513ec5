//! Reading decimal numbers.

use vstd::prelude::*;
use vstd::string::*;

verus! {

/// Whether a character is a decimal digit.
pub open spec fn is_digit(c: char) -> bool {
    '0' <= c <= '9'
}

/// The number that a sequence of digits spells.
pub open spec fn digits_value(digits: Seq<char>) -> int
    decreases digits.len(),
{
    if digits.len() == 0 {
        0
    } else {
        digits_value(digits.drop_last()) * 10 + (digits.last() as int - '0' as int)
    }
}

/// A text without the plus sign that it may begin with.
pub open spec fn unsigned(text: Seq<char>) -> Seq<char> {
    if text.len() > 0 && text[0] == '+' {
        text.drop_first()
    } else {
        text
    }
}

/// The number up to `max` that a text spells: decimal digits, with or without a plus sign before
/// them.
pub open spec fn decimal(text: Seq<char>, max: int) -> Option<int> {
    let digits = unsigned(text);
    if digits.len() > 0 && (forall|i: int| 0 <= i < digits.len() ==> is_digit(#[trigger] digits[i]))
        && digits_value(digits) <= max {
        Some(digits_value(digits))
    } else {
        None
    }
}

/// More digits make no smaller number.
proof fn lemma_value_grows(digits: Seq<char>, n: int)
    requires
        0 <= n <= digits.len(),
        forall|i: int| 0 <= i < digits.len() ==> is_digit(#[trigger] digits[i]),
    ensures
        0 <= digits_value(digits.take(n)) <= digits_value(digits),
    decreases digits.len(),
{
    if n < digits.len() {
        lemma_value_grows(digits.drop_last(), n);
        assert(digits.drop_last().take(n) =~= digits.take(n));
        assert(is_digit(digits[digits.len() - 1]));
    } else {
        assert(digits.take(n) =~= digits);
        if n > 0 {
            lemma_value_grows(digits.drop_last(), n - 1);
            assert(is_digit(digits[digits.len() - 1]));
        }
    }
}

/// The number up to `max` that a text spells.
pub fn parse_decimal(text: &str, max: u64) -> (r: Option<u64>)
    ensures
        match r {
            Some(n) => decimal(text@, max as int) == Some(n as int),
            None => decimal(text@, max as int) is None,
        },
{
    let len: usize = text.unicode_len();
    let from: usize = if len > 0 && text.get_char(0) == '+' {
        1
    } else {
        0
    };
    if from >= len {
        return None;
    }
    let ghost digits = unsigned(text@);
    assert(digits =~= text@.skip(from as int));
    let mut value: u64 = 0;
    let mut i: usize = from;
    while i < len
        invariant
            len == text@.len(),
            from <= i <= len,
            digits == text@.skip(from as int),
            digits == unsigned(text@),
            forall|j: int| 0 <= j < i - from ==> is_digit(#[trigger] digits[j]),
            value == digits_value(digits.take(i - from)),
            value <= max,
        decreases len - i,
    {
        let c = text.get_char(i);
        assert(c == digits[i - from]);
        if c < '0' || c > '9' {
            assert(!is_digit(digits[i - from]));
            return None;
        }
        let d: u64 = c as u64 - '0' as u64;
        proof {
            assert(digits.take(i - from + 1).drop_last() =~= digits.take(i - from));
            assert(digits_value(digits.take(i - from + 1)) == value * 10 + d);
        }
        if value > u64::MAX / 10 || value * 10 > u64::MAX - d || value * 10 + d > max {
            proof {
                if forall|j: int| 0 <= j < digits.len() ==> is_digit(#[trigger] digits[j]) {
                    lemma_value_grows(digits, i - from + 1);
                }
            }
            return None;
        }
        value = value * 10 + d;
        i = i + 1;
    }
    assert(digits.take(i - from) =~= digits);
    Some(value)
}

} // verus!
