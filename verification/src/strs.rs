use vstd::prelude::*;

verus! {

/// `<str as PartialEq>::eq`: two string slices are equal exactly when they hold the same
/// characters in the same order.
#[verifier::external_body]
pub fn str_equal(left: &str, right: &str) -> (equal: bool)
    ensures
        equal == (left@ == right@),
{
    left == right
}

/// `String::push`: appends one character.
#[verifier::external_body]
pub fn push_char(target: &mut String, character: char)
    ensures
        final(target)@ == old(target)@.push(character),
{
    target.push(character);
}

/// `String::push_str`: appends a string slice.
#[verifier::external_body]
pub fn push_str(target: &mut String, tail: &str)
    ensures
        final(target)@ == old(target)@ + tail@,
{
    target.push_str(tail);
}

/// The characters of a string, in order.
pub fn chars_of(text: &str) -> (characters: Vec<char>)
    ensures
        characters@ == text@,
{
    let mut characters: Vec<char> = Vec::new();
    for c in it: text.chars()
        invariant
            characters@ == it.seq().take(it.index() as int),
            it.seq() == text@,
    {
        characters.push(c);
    }
    characters
}

/// `char::to_ascii_lowercase`: an ASCII capital becomes its small letter; every other
/// character is unchanged.
pub open spec fn ascii_lower(character: char) -> char {
    if 'A' <= character <= 'Z' {
        ((character as u32) + 32) as char
    } else {
        character
    }
}

pub fn to_ascii_lower(character: char) -> (lowered: char)
    ensures
        lowered == ascii_lower(character),
{
    if 'A' <= character && character <= 'Z' {
        ((character as u8) + 32) as char
    } else {
        character
    }
}

/// `char::is_ascii_hexdigit`.
pub open spec fn is_hex_digit(character: char) -> bool {
    ('0' <= character <= '9') || ('a' <= character <= 'f') || ('A' <= character <= 'F')
}

pub fn hex_digit(character: char) -> (is_digit: bool)
    ensures
        is_digit == is_hex_digit(character),
{
    ('0' <= character && character <= '9') || ('a' <= character && character <= 'f') || (
    'A' <= character && character <= 'F')
}

/// `char::is_whitespace`: the characters with Unicode's `White_Space` property.
pub open spec fn is_space(c: char) -> bool {
    let code = c as u32;
    ||| 0x09 <= code <= 0x0d
    ||| code == 0x20
    ||| code == 0x85
    ||| code == 0xa0
    ||| code == 0x1680
    ||| 0x2000 <= code <= 0x200a
    ||| code == 0x2028
    ||| code == 0x2029
    ||| code == 0x202f
    ||| code == 0x205f
    ||| code == 0x3000
}

pub fn is_whitespace(c: char) -> (space: bool)
    ensures
        space == is_space(c),
{
    let code = c as u32;
    (0x09 <= code && code <= 0x0d) || code == 0x20 || code == 0x85 || code == 0xa0 || code
        == 0x1680 || (0x2000 <= code && code <= 0x200a) || code == 0x2028 || code == 0x2029
        || code == 0x202f || code == 0x205f || code == 0x3000
}

/// The text without its leading whitespace.
pub open spec fn trim_start(text: Seq<char>) -> Seq<char>
    decreases text.len(),
{
    if text.len() > 0 && is_space(text[0]) {
        trim_start(text.drop_first())
    } else {
        text
    }
}

/// The text without its trailing whitespace.
pub open spec fn trim_end(text: Seq<char>) -> Seq<char>
    decreases text.len(),
{
    if text.len() > 0 && is_space(text.last()) {
        trim_end(text.drop_last())
    } else {
        text
    }
}

/// `str::trim`: the text without leading and trailing whitespace.
pub open spec fn trimmed(text: Seq<char>) -> Seq<char> {
    trim_end(trim_start(text))
}

/// `str::to_ascii_lowercase`: every ASCII capital replaced by its small letter.
pub open spec fn ascii_lowered(text: Seq<char>) -> Seq<char> {
    text.map_values(|c: char| ascii_lower(c))
}

/// The characters of `text` with surrounding whitespace removed.
pub fn trim_chars(text: &Vec<char>) -> (kept: Vec<char>)
    ensures
        kept@ == trimmed(text@),
{
    let mut start: usize = 0;
    proof {
        assert(text@.skip(0) =~= text@);
    }
    while start < text.len() && is_whitespace(text[start])
        invariant
            0 <= start <= text@.len(),
            trim_start(text@) == trim_start(text@.skip(start as int)),
        decreases text@.len() - start,
    {
        proof {
            assert(text@.skip(start as int).drop_first() =~= text@.skip(start + 1));
        }
        start += 1;
    }
    let mut end: usize = text.len();
    proof {
        assert(trim_start(text@) == text@.skip(start as int));
        assert(text@.skip(start as int) =~= text@.subrange(start as int, end as int));
    }
    while end > start && is_whitespace(text[end - 1])
        invariant
            start <= end <= text@.len(),
            trimmed(text@) == trim_end(text@.subrange(start as int, end as int)),
        decreases end,
    {
        proof {
            assert(text@.subrange(start as int, end as int).drop_last() =~= text@.subrange(
                start as int,
                end - 1,
            ));
        }
        end -= 1;
    }
    let mut kept: Vec<char> = Vec::new();
    let mut index: usize = start;
    while index < end
        invariant
            start <= index <= end <= text@.len(),
            kept@ == text@.subrange(start as int, index as int),
        decreases end - index,
    {
        kept.push(text[index]);
        index += 1;
        proof {
            assert(kept@ =~= text@.subrange(start as int, index as int));
        }
    }
    kept
}

/// The characters with every ASCII capital lowered, collected into a string.
pub fn lowered_string(text: &Vec<char>) -> (lowered: String)
    ensures
        lowered@ == ascii_lowered(text@),
{
    let mut lowered = String::new();
    let mut index: usize = 0;
    while index < text.len()
        invariant
            0 <= index <= text@.len(),
            lowered@ == ascii_lowered(text@.take(index as int)),
        decreases text@.len() - index,
    {
        push_char(&mut lowered, to_ascii_lower(text[index]));
        proof {
            assert(ascii_lowered(text@.take(index + 1)) =~= ascii_lowered(text@.take(index as int)).push(
                ascii_lower(text@[index as int]),
            ));
        }
        index += 1;
    }
    proof {
        assert(text@.take(index as int) =~= text@);
    }
    lowered
}

/// The characters collected into a string.
pub fn string_from(characters: &Vec<char>) -> (text: String)
    ensures
        text@ == characters@,
{
    let mut text = String::new();
    let mut index: usize = 0;
    while index < characters.len()
        invariant
            0 <= index <= characters@.len(),
            text@ == characters@.take(index as int),
        decreases characters@.len() - index,
    {
        push_char(&mut text, characters[index]);
        index += 1;
        proof {
            assert(text@ =~= characters@.take(index as int));
        }
    }
    proof {
        assert(characters@.take(index as int) =~= characters@);
    }
    text
}

/// A decimal digit.
pub open spec fn decimal_digit(value: int) -> char {
    ('0' as int + value) as char
}

/// The decimal numeral of a natural number, without leading zeros.
pub open spec fn decimal_text(value: nat) -> Seq<char>
    decreases value,
{
    if value < 10 {
        seq![decimal_digit(value as int)]
    } else {
        decimal_text(value / 10).push(decimal_digit((value % 10) as int))
    }
}

/// Appends the decimal numeral of `value`.
pub fn push_decimal(target: &mut String, value: u64)
    ensures
        final(target)@ == old(target)@ + decimal_text(value as nat),
    decreases value,
{
    if value >= 10 {
        push_decimal(target, value / 10);
    }
    let digit = ((value % 10) as u8 + 48) as char;
    push_char(target, digit);
    proof {
        assert(final(target)@ =~= old(target)@ + decimal_text(value as nat));
    }
}

} // verus!
