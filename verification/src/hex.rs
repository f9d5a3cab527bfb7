use vstd::prelude::*;

use crate::strs::{hex_digit, is_hex_digit};

verus! {

/// The value of one hexadecimal digit.
pub open spec fn digit_value(digit: char) -> int {
    if '0' <= digit <= '9' {
        digit as int - '0' as int
    } else if 'a' <= digit <= 'f' {
        digit as int - 'a' as int + 10
    } else {
        digit as int - 'A' as int + 10
    }
}

/// The value of a string of hexadecimal digits, most significant first.
pub open spec fn hex_value(digits: Seq<char>) -> int
    decreases digits.len(),
{
    if digits.len() == 0 {
        0
    } else {
        16 * hex_value(digits.drop_last()) + digit_value(digits.last())
    }
}

pub open spec fn all_hex_digits(digits: Seq<char>) -> bool {
    forall|i: int| 0 <= i < digits.len() ==> is_hex_digit(#[trigger] digits[i])
}

/// `u32::from_str_radix(text, 16)`: an optional `+`, then at least one hexadecimal digit,
/// with a value that fits in 32 bits.
pub open spec fn parse_hex_u32(text: Seq<char>) -> Option<u32> {
    let digits = if text.len() > 0 && text[0] == '+' {
        text.drop_first()
    } else {
        text
    };
    if digits.len() > 0 && all_hex_digits(digits) && hex_value(digits) <= u32::MAX {
        Some(hex_value(digits) as u32)
    } else {
        None
    }
}

proof fn lemma_hex_value_grows(digits: Seq<char>, n: int)
    requires
        0 <= n <= digits.len(),
        all_hex_digits(digits),
    ensures
        hex_value(digits.take(n)) <= hex_value(digits),
        0 <= hex_value(digits.take(n)),
    decreases digits.len() - n,
{
    if n < digits.len() {
        lemma_hex_value_grows(digits, n + 1);
        assert(digits.take(n + 1).drop_last() =~= digits.take(n));
        assert(is_hex_digit(digits[n]));
    } else {
        assert(digits.take(n) =~= digits);
        lemma_hex_value_nonnegative(digits);
    }
}

proof fn lemma_hex_value_nonnegative(digits: Seq<char>)
    requires
        all_hex_digits(digits),
    ensures
        0 <= hex_value(digits),
    decreases digits.len(),
{
    if digits.len() > 0 {
        assert(all_hex_digits(digits.drop_last()));
        lemma_hex_value_nonnegative(digits.drop_last());
        assert(is_hex_digit(digits.last()));
    }
}

fn digit_of(digit: char) -> (value: u64)
    requires
        is_hex_digit(digit),
    ensures
        value == digit_value(digit),
        value < 16,
{
    if '0' <= digit && digit <= '9' {
        (digit as u32 - '0' as u32) as u64
    } else if 'a' <= digit && digit <= 'f' {
        (digit as u32 - 'a' as u32 + 10) as u64
    } else {
        (digit as u32 - 'A' as u32 + 10) as u64
    }
}

/// Parses hexadecimal text the way `u32::from_str_radix(text, 16)` does.
pub fn hex_to_u32(text: &[char]) -> (value: Option<u32>)
    ensures
        value == parse_hex_u32(text@),
{
    let start: usize = if text.len() > 0 && text[0] == '+' {
        1
    } else {
        0
    };
    let ghost digits = text@.subrange(start as int, text@.len() as int);
    proof {
        if start == 1 {
            assert(digits =~= text@.drop_first());
        } else {
            assert(digits =~= text@);
        }
    }
    if start == text.len() {
        return None;
    }
    let mut index = start;
    let mut total: u64 = 0;
    while index < text.len()
        invariant
            start <= index <= text@.len(),
            digits == text@.subrange(start as int, text@.len() as int),
            digits == (if text@.len() > 0 && text@[0] == '+' {
                text@.drop_first()
            } else {
                text@
            }),
            all_hex_digits(digits.take(index - start)),
            total == hex_value(digits.take(index - start)),
            total <= u32::MAX,
        decreases text@.len() - index,
    {
        let digit = text[index];
        if !hex_digit(digit) {
            proof {
                assert(digits[index - start] == digit);
                assert(!all_hex_digits(digits));
            }
            return None;
        }
        let next = total * 16 + digit_of(digit);
        proof {
            assert(digits.take(index - start + 1).drop_last() =~= digits.take(index - start));
            assert(digits[index - start] == digit);
            assert(digits.take(index - start + 1).last() == digit);
            assert(all_hex_digits(digits.take(index - start + 1)));
        }
        if next > u32::MAX as u64 {
            proof {
                assert(hex_value(digits.take(index - start + 1)) == next);
                if all_hex_digits(digits) {
                    lemma_hex_value_grows(digits, index - start + 1);
                }
            }
            return None;
        }
        total = next;
        index += 1;
    }
    proof {
        assert(digits.take(index - start) =~= digits);
    }
    Some(total as u32)
}

} // verus!
