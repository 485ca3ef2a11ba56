//! Numbers typed on a line of input.

use crate::text::trim;
use crate::text::trimmed;
use vstd::prelude::*;

verus! {

/// `c` is one of the ten digits.
pub open spec fn is_digit(c: char) -> bool {
    '0' <= c <= '9'
}

/// What the digit `c` counts for.
pub open spec fn digit_value(c: char) -> int {
    c as int - '0' as int
}

/// The number that `digits` write in base ten.
pub open spec fn decimal(digits: Seq<char>) -> int
    decreases digits.len(),
{
    if digits.len() == 0 {
        0
    } else {
        10 * decimal(digits.drop_last()) + digit_value(digits.last())
    }
}

/// Every character of `text` is a digit.
pub open spec fn all_digits(text: Seq<char>) -> bool {
    forall|i: int| 0 <= i < text.len() ==> is_digit(#[trigger] text[i])
}

/// `text` without the plus sign that may stand in front.
pub open spec fn unsigned_part(text: Seq<char>) -> Seq<char> {
    if text.len() > 0 && text[0] == '+' {
        text.drop_first()
    } else {
        text
    }
}

/// The number that `text` writes: one digit or more, with or without a
/// plus sign in front and with nothing else around, for a number that a
/// `u32` can hold.
pub open spec fn number_in(text: Seq<char>) -> Option<u32> {
    let digits = unsigned_part(text);
    if digits.len() > 0 && all_digits(digits) && decimal(digits) <= u32::MAX {
        Some(decimal(digits) as u32)
    } else {
        None
    }
}

/// A text of digits writes no smaller a number than any of its
/// beginnings.
proof fn lemma_decimal_grows(digits: Seq<char>, k: int)
    requires
        all_digits(digits),
        0 <= k <= digits.len(),
    ensures
        0 <= decimal(digits.take(k)) <= decimal(digits),
    decreases digits.len() - k,
{
    lemma_decimal_nonnegative(digits.take(k));
    if k < digits.len() {
        lemma_decimal_grows(digits, k + 1);
        assert(digits.take(k + 1).drop_last() =~= digits.take(k));
        assert(is_digit(digits[k]));
    } else {
        assert(digits.take(k) =~= digits);
    }
}

/// A text of digits writes a number that is not negative.
proof fn lemma_decimal_nonnegative(digits: Seq<char>)
    requires
        all_digits(digits),
    ensures
        0 <= decimal(digits),
    decreases digits.len(),
{
    if digits.len() > 0 {
        assert(is_digit(digits.last()));
        assert forall|i: int| 0 <= i < digits.drop_last().len() implies is_digit(
            #[trigger] digits.drop_last()[i],
        ) by {
            assert(digits.drop_last()[i] == digits[i]);
        }
        lemma_decimal_nonnegative(digits.drop_last());
    }
}

/// Reads the number that `text` writes, if it writes one.
pub fn parse_decimal(text: &str) -> (number: Option<u32>)
    ensures
        number == number_in(text@),
{
    let mut value: u32 = 0;
    let mut first = true;
    let mut signed = false;
    let mut any = false;
    let ghost digits = unsigned_part(text@);
    let ghost mut read: int = 0;
    for c in iter: text.chars()
        invariant
            iter.seq() == text@,
            digits == unsigned_part(text@),
            read == iter.index(),
            first <==> read == 0,
            signed <==> read > 0 && text@[0] == '+',
            any <==> read > (if signed { 1int } else { 0int }),
            all_digits(digits.take(read - (if signed { 1int } else { 0int }))),
            value == decimal(digits.take(read - (if signed { 1int } else { 0int }))),
    {
        let ghost sign: int = if signed { 1 } else { 0 };
        let ghost at = read - sign;
        if first && c == '+' {
            signed = true;
            proof {
                assert(digits.take(0) =~= Seq::<char>::empty());
            }
        } else if '0' <= c && c <= '9' {
            let digit = c as u32 - '0' as u32;
            proof {
                assert(digits[at] == c);
                assert(digits.take(at + 1).drop_last() =~= digits.take(at));
                assert(digits.take(at + 1).last() == c);
                assert forall|i: int| 0 <= i < at + 1 implies is_digit(
                    #[trigger] digits.take(at + 1)[i],
                ) by {
                    if i < at {
                        assert(digits.take(at)[i] == digits.take(at + 1)[i]);
                    }
                }
                if all_digits(digits) {
                    lemma_decimal_grows(digits, at + 1);
                }
            }
            let tens = match value.checked_mul(10) {
                Some(tens) => tens,
                None => {
                    return None;
                },
            };
            value = match tens.checked_add(digit) {
                Some(sum) => sum,
                None => {
                    return None;
                },
            };
            any = true;
        } else {
            proof {
                assert(digits[at] == c);
                assert(!is_digit(digits[at]));
            }
            return None;
        }
        first = false;
        proof {
            read = read + 1;
        }
    }
    proof {
        assert(read == text@.len());
        assert(digits.take(digits.len() as int) =~= digits);
    }
    if any {
        Some(value)
    } else {
        None
    }
}

/// Reads the number typed on `line`, white space around it set aside.
pub fn read_number(line: &str) -> (number: Option<u32>)
    ensures
        number == number_in(trimmed(line@)),
{
    parse_decimal(trim(line))
}

} // verus!
