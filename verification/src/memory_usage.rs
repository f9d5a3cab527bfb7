use vstd::prelude::*;

use crate::strs::{chars_of, is_space, is_whitespace};

verus! {

/// Resident memory the process is currently using, in bytes.
///
/// A native binary has no heap to report, so this is the operating system's view: the
/// number an operator actually compares against an older deployment.
#[derive(Debug, Clone, Copy, PartialEq, Eq, Structural)]
pub struct MemoryUsage {
    pub resident_bytes: u64,
}

/// Size of a memory page, which `/proc/self/statm` counts in.
pub const PAGE_SIZE: u64 = 4096;

impl MemoryUsage {
    pub fn resident_megabytes(self) -> (megabytes: u64)
        ensures
            megabytes == self.resident_bytes / 1048576u64,
    {
        self.resident_bytes / (1024 * 1024)
    }
}

/// Reading `text` from the left: the whitespace-separated words finished so far, and the
/// word being read.
pub open spec fn word_scan(text: Seq<char>) -> (Seq<Seq<char>>, Seq<char>)
    decreases text.len(),
{
    if text.len() == 0 {
        (Seq::empty(), Seq::empty())
    } else {
        let (done, current) = word_scan(text.drop_last());
        if !is_space(text.last()) {
            (done, current.push(text.last()))
        } else if current.len() > 0 {
            (done.push(current), Seq::empty())
        } else {
            (done, current)
        }
    }
}

/// `str::split_whitespace`: the maximal runs of non-whitespace characters, in order.
pub open spec fn words(text: Seq<char>) -> Seq<Seq<char>> {
    let (done, current) = word_scan(text);
    if current.len() > 0 {
        done.push(current)
    } else {
        done
    }
}

/// The value of a string of decimal digits, most significant first.
pub open spec fn decimal_value(digits: Seq<char>) -> int
    decreases digits.len(),
{
    if digits.len() == 0 {
        0
    } else {
        10 * decimal_value(digits.drop_last()) + (digits.last() as int - '0' as int)
    }
}

pub open spec fn all_decimal_digits(digits: Seq<char>) -> bool {
    forall|i: int| 0 <= i < digits.len() ==> '0' <= #[trigger] digits[i] <= '9'
}

/// `str::parse::<u64>`: an optional `+`, then at least one decimal digit, with a value
/// that fits in 64 bits.
pub open spec fn parse_u64(text: Seq<char>) -> Option<u64> {
    let digits = if text.len() > 0 && text[0] == '+' {
        text.drop_first()
    } else {
        text
    };
    if digits.len() > 0 && all_decimal_digits(digits) && decimal_value(digits) <= u64::MAX {
        Some(decimal_value(digits) as u64)
    } else {
        None
    }
}

/// What a `/proc/self/statm` line reports: its second field counts resident pages.
pub open spec fn statm_usage(contents: Seq<char>, page_size: u64) -> Option<MemoryUsage> {
    if words(contents).len() < 2 {
        None
    } else {
        match parse_u64(words(contents)[1]) {
            Some(pages) => Some(
                MemoryUsage {
                    resident_bytes: if pages * page_size <= u64::MAX {
                        (pages * page_size) as u64
                    } else {
                        u64::MAX
                    },
                },
            ),
            None => None,
        }
    }
}

proof fn lemma_decimal_value_nonnegative(digits: Seq<char>)
    requires
        all_decimal_digits(digits),
    ensures
        0 <= decimal_value(digits),
    decreases digits.len(),
{
    if digits.len() > 0 {
        assert(all_decimal_digits(digits.drop_last()));
        lemma_decimal_value_nonnegative(digits.drop_last());
        assert('0' <= digits.last() <= '9');
    }
}

proof fn lemma_decimal_prefix_bound(digits: Seq<char>, n: int)
    requires
        0 <= n <= digits.len(),
        all_decimal_digits(digits),
    ensures
        0 <= decimal_value(digits.take(n)) <= decimal_value(digits),
    decreases digits.len() - n,
{
    if n < digits.len() {
        lemma_decimal_prefix_bound(digits, n + 1);
        assert(digits.take(n + 1).drop_last() =~= digits.take(n));
        assert('0' <= digits[n] <= '9');
        assert(all_decimal_digits(digits.take(n)));
        lemma_decimal_value_nonnegative(digits.take(n));
    } else {
        assert(digits.take(n) =~= digits);
        lemma_decimal_value_nonnegative(digits);
    }
}

/// Reads a decimal number as `str::parse::<u64>` does.
pub fn parse_decimal_u64(text: &Vec<char>) -> (value: Option<u64>)
    ensures
        value == parse_u64(text@),
{
    let mut start: usize = 0;
    if text.len() > 0 && text[0] == '+' {
        start = 1;
    }
    let ghost digits = if text@.len() > 0 && text@[0] == '+' {
        text@.drop_first()
    } else {
        text@
    };
    proof {
        assert(digits =~= text@.skip(start as int));
    }
    if start >= text.len() {
        return None;
    }
    let mut value: u64 = 0;
    let mut index: usize = start;
    while index < text.len()
        invariant
            start <= index <= text@.len(),
            start < text@.len(),
            digits == text@.skip(start as int),
            digits == (if text@.len() > 0 && text@[0] == '+' {
                text@.drop_first()
            } else {
                text@
            }),
            all_decimal_digits(digits.take(index - start)),
            value == decimal_value(digits.take(index - start)),
        decreases text@.len() - index,
    {
        let c = text[index];
        if !('0' <= c && c <= '9') {
            proof {
                assert(digits[index - start] == c);
            }
            return None;
        }
        let digit = (c as u32 - '0' as u32) as u64;
        proof {
            assert(digits.take(index - start + 1).drop_last() =~= digits.take(index - start));
            assert(digits.take(index - start + 1).last() == c);
            assert(all_decimal_digits(digits.take(index - start + 1)));
        }
        match value.checked_mul(10) {
            Some(scaled) => match scaled.checked_add(digit) {
                Some(next) => {
                    value = next;
                },
                None => {
                    proof {
                        lemma_not_all_or_too_big(digits, index - start + 1);
                    }
                    return None;
                },
            },
            None => {
                proof {
                    lemma_not_all_or_too_big(digits, index - start + 1);
                }
                return None;
            },
        }
        index += 1;
    }
    proof {
        assert(digits.take(index - start) =~= digits);
    }
    Some(value)
}

/// Once a prefix of the digits is too large, so is the whole number, if it is one.
proof fn lemma_not_all_or_too_big(digits: Seq<char>, n: int)
    requires
        0 < n <= digits.len(),
        all_decimal_digits(digits.take(n)),
        decimal_value(digits.take(n)) > u64::MAX,
    ensures
        !(all_decimal_digits(digits) && decimal_value(digits) <= u64::MAX),
{
    if all_decimal_digits(digits) {
        lemma_decimal_prefix_bound(digits, n);
    }
}

/// The whitespace-separated words of `text`.
pub fn split_words(text: &Vec<char>) -> (found: Vec<Vec<char>>)
    ensures
        found@.len() == words(text@).len(),
        forall|i: int| 0 <= i < found@.len() ==> #[trigger] found@[i]@ == words(text@)[i],
{
    let mut done: Vec<Vec<char>> = Vec::new();
    let mut current: Vec<char> = Vec::new();
    let mut index: usize = 0;
    while index < text.len()
        invariant
            0 <= index <= text@.len(),
            done@.len() == word_scan(text@.take(index as int)).0.len(),
            forall|i: int|
                0 <= i < done@.len() ==> #[trigger] done@[i]@ == word_scan(
                    text@.take(index as int),
                ).0[i],
            current@ == word_scan(text@.take(index as int)).1,
        decreases text@.len() - index,
    {
        let c = text[index];
        proof {
            assert(text@.take(index + 1).drop_last() =~= text@.take(index as int));
            assert(text@.take(index + 1).last() == c);
        }
        if !is_whitespace(c) {
            current.push(c);
        } else if current.len() > 0 {
            let word = current;
            current = Vec::new();
            done.push(word);
        }
        index += 1;
    }
    proof {
        assert(text@.take(index as int) =~= text@);
    }
    if current.len() > 0 {
        done.push(current);
    }
    done
}

/// Parses the resident page count out of the second field of `/proc/self/statm`.
///
/// A count too large to convert to bytes saturates rather than wrapping.
pub fn parse_statm(contents: &str, page_size: u64) -> (usage: Option<MemoryUsage>)
    ensures
        usage == statm_usage(contents@, page_size),
{
    let fields = split_words(&chars_of(contents));
    if fields.len() < 2 {
        return None;
    }
    match parse_decimal_u64(&fields[1]) {
        Some(pages) => {
            let resident_bytes = match pages.checked_mul(page_size) {
                Some(bytes) => bytes,
                None => u64::MAX,
            };
            Some(MemoryUsage { resident_bytes })
        },
        None => None,
    }
}

} // verus!
