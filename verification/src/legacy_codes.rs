use vstd::prelude::*;

use crate::component::Component;
use crate::component_content::ComponentContent;
use crate::named_color::{color_for_code, named_key, named_legacy_code, NamedColor};
use crate::strs::{ascii_lower, chars_of, hex_digit, is_hex_digit, push_char, push_str, to_ascii_lower};
use crate::style::Style;
use crate::text_color::{named_reduction, TextColor};
use vstd::seq_lib::lemma_concat_associative;

verus! {

/// The character the client itself uses for formatting codes.
pub const SECTION_SIGN: char = '\u{00A7}';

/// The character configuration files conventionally use, so a `§` never has to be typed.
pub const AMPERSAND: char = '&';

/// Whether a character introduces a legacy code.
pub open spec fn is_marker(c: char) -> bool {
    c == '&' || c == '\u{00A7}'
}

/// The MiniMessage tag a legacy decoration or reset code stands for.
pub open spec fn format_tag_name(code: char) -> Option<Seq<char>> {
    let lowered = ascii_lower(code);
    if lowered == 'k' {
        Some("obfuscated"@)
    } else if lowered == 'l' {
        Some("bold"@)
    } else if lowered == 'm' {
        Some("strikethrough"@)
    } else if lowered == 'n' {
        Some("underlined"@)
    } else if lowered == 'o' {
        Some("italic"@)
    } else if lowered == 'r' {
        Some("reset"@)
    } else {
        None
    }
}

/// Whether the pair at position `step` of a Bukkit hex run is a marker and a hex digit.
pub open spec fn hex_pair(text: Seq<char>, start: int, step: int) -> bool {
    is_marker(text[start + 2 * step]) && is_hex_digit(text[start + 2 * step + 1])
}

/// Whether `&r&r&g&g&b&b` (six marker and digit pairs) starts at `start`.
pub open spec fn bukkit_hex_at(text: Seq<char>, start: int) -> bool {
    &&& 0 <= start
    &&& start + 12 <= text.len()
    &&& forall|step: int| 0 <= step < 6 ==> #[trigger] hex_pair(text, start, step)
}

/// The six digits of a Bukkit hex run.
pub open spec fn bukkit_digits(text: Seq<char>, start: int) -> Seq<char> {
    Seq::new(6, |step: int| text[start + 2 * step + 1])
}

/// Whether a code switches a decoration on (`k`, `l`, `m`, `n` or `o`, either case).
pub open spec fn is_decoration_code(code: char) -> bool {
    format_tag_name(code) is Some && ascii_lower(code) != 'r'
}

/// What comes before a colour tag: a colour code clears the decorations, so when a code
/// has switched one on, the tags are reset first.
pub open spec fn reset_before(decorated: bool) -> Seq<char> {
    if decorated {
        "<reset>"@
    } else {
        Seq::empty()
    }
}

/// What the character at `index` turns into, how many characters it consumes, and
/// whether a decoration switched on by a code is in effect after it, given whether one
/// was before it.
///
/// A colour code, named or hex, clears every decoration, as it does on the client: when
/// a decoration is on, its tag is preceded by `<reset>`. A decoration code switches its
/// decoration on; `&r` resets everything.
pub open spec fn legacy_token(text: Seq<char>, index: int, decorated: bool) -> (Seq<char>, int, bool) {
    if is_marker(text[index]) && index + 1 < text.len() {
        let code = text[index + 1];
        if ascii_lower(code) == 'x' && bukkit_hex_at(text, index + 2) {
            (reset_before(decorated) + "<#"@ + bukkit_digits(text, index + 2) + ">"@, 14, false)
        } else if color_for_code(code) is Some {
            (reset_before(decorated) + "<"@ + named_key(color_for_code(code)->0) + ">"@, 2, false)
        } else if format_tag_name(code) is Some {
            ("<"@ + format_tag_name(code)->0 + ">"@, 2, is_decoration_code(code))
        } else {
            (seq![text[index]], 1, decorated)
        }
    } else {
        (seq![text[index]], 1, decorated)
    }
}

/// The text from `index` on, with every legacy code rewritten as its tag, given whether
/// a decoration switched on by a code is in effect at `index`.
pub open spec fn tags_from(text: Seq<char>, index: int, decorated: bool) -> Seq<char>
    decreases text.len() - index,
{
    if index < 0 || index >= text.len() {
        Seq::empty()
    } else {
        let (piece, width, after) = legacy_token(text, index, decorated);
        piece + tags_from(text, index + width, after)
    }
}

/// The text with every legacy code rewritten as the MiniMessage tags that mean the same.
pub open spec fn legacy_tags(text: Seq<char>) -> Seq<char> {
    tags_from(text, 0, false)
}

/// Text with no code markers in it comes through unchanged.
pub proof fn lemma_unmarked_text_unchanged(text: Seq<char>)
    requires
        forall|i: int| 0 <= i < text.len() ==> !is_marker(#[trigger] text[i]),
    ensures
        legacy_tags(text) == text,
{
    lemma_unmarked_from(text, 0, false);
    assert(text.skip(0) =~= text);
}

proof fn lemma_unmarked_from(text: Seq<char>, index: int, decorated: bool)
    requires
        0 <= index <= text.len(),
        forall|i: int| 0 <= i < text.len() ==> !is_marker(#[trigger] text[i]),
    ensures
        tags_from(text, index, decorated) == text.skip(index),
    decreases text.len() - index,
{
    if index < text.len() {
        lemma_unmarked_from(text, index + 1, decorated);
        assert(seq![text[index]] + text.skip(index + 1) =~= text.skip(index));
    } else {
        assert(text.skip(index) =~= Seq::<char>::empty());
    }
}

/// Tokens only look ahead: the text after a prefix is rewritten as it would be alone.
proof fn lemma_tags_shift(prefix: Seq<char>, rest: Seq<char>, index: int, decorated: bool)
    requires
        0 <= index <= rest.len(),
    ensures
        tags_from(prefix + rest, prefix.len() + index, decorated) == tags_from(rest, index, decorated),
    decreases rest.len() - index,
{
    let whole = prefix + rest;
    let at = prefix.len() + index;
    if index < rest.len() {
        assert(whole[at] == rest[index]);
        if index + 1 < rest.len() {
            assert(whole[at + 1] == rest[index + 1]);
        }
        assert(bukkit_hex_at(whole, at + 2) == bukkit_hex_at(rest, index + 2)) by {
            if bukkit_hex_at(rest, index + 2) {
                assert forall|step: int| 0 <= step < 6 implies #[trigger] hex_pair(whole, at + 2, step) by {
                    assert(hex_pair(rest, index + 2, step));
                    assert(whole[at + 2 + 2 * step] == rest[index + 2 + 2 * step]);
                    assert(whole[at + 2 + 2 * step + 1] == rest[index + 2 + 2 * step + 1]);
                }
            }
            if bukkit_hex_at(whole, at + 2) {
                assert forall|step: int| 0 <= step < 6 implies #[trigger] hex_pair(rest, index + 2, step) by {
                    assert(hex_pair(whole, at + 2, step));
                    assert(whole[at + 2 + 2 * step] == rest[index + 2 + 2 * step]);
                    assert(whole[at + 2 + 2 * step + 1] == rest[index + 2 + 2 * step + 1]);
                }
            }
        }
        if bukkit_hex_at(rest, index + 2) {
            assert(bukkit_digits(whole, at + 2) =~= bukkit_digits(rest, index + 2));
        }
        assert(legacy_token(whole, at, decorated) == legacy_token(rest, index, decorated));
        let (piece, width, after) = legacy_token(rest, index, decorated);
        lemma_tags_shift(prefix, rest, index + width, after);
    }
}

/// A run of characters with no code marker in it comes through unchanged.
proof fn lemma_plain_run(text: Seq<char>, index: int, length: int, decorated: bool)
    requires
        0 <= index,
        0 <= length,
        index + length <= text.len(),
        forall|k: int| index <= k < index + length ==> !is_marker(#[trigger] text[k]),
    ensures
        tags_from(text, index, decorated) == text.subrange(index, index + length) + tags_from(
            text,
            index + length,
            decorated,
        ),
    decreases length,
{
    if length > 0 {
        lemma_plain_run(text, index + 1, length - 1, decorated);
        assert(text.subrange(index, index + length) =~= seq![text[index]] + text.subrange(
            index + 1,
            index + length,
        ));
    } else {
        assert(text.subrange(index, index) =~= Seq::<char>::empty());
    }
}

/// A colour code clears the decorations before it, as on the client: after a decoration
/// code and some plain text, a colour code is written as `<reset>` and the colour tag, so
/// the text after it is not decorated; and what follows the colour code is rewritten as
/// it would be on its own.
pub proof fn lemma_colour_code_clears_decorations(
    before: Seq<char>,
    decoration: char,
    middle: Seq<char>,
    colour: char,
    after: Seq<char>,
)
    requires
        forall|k: int| 0 <= k < before.len() ==> !is_marker(#[trigger] before[k]),
        forall|k: int| 0 <= k < middle.len() ==> !is_marker(#[trigger] middle[k]),
        is_decoration_code(decoration),
        color_for_code(colour) is Some,
    ensures
        legacy_tags(before + seq!['&', decoration] + middle + seq!['&', colour] + after) == before
            + "<"@ + format_tag_name(decoration)->0 + ">"@ + middle + "<reset>"@ + "<"@ + named_key(
            color_for_code(colour)->0,
        ) + ">"@ + legacy_tags(after),
{
    let head = before + seq!['&', decoration] + middle + seq!['&', colour];
    let text = head + after;
    let b = before.len() as int;
    let m = middle.len() as int;
    assert forall|k: int| 0 <= k < b implies !is_marker(#[trigger] text[k]) by {
        assert(text[k] == before[k]);
    }
    lemma_plain_run(text, 0, b, false);
    assert(text.subrange(0, b) =~= before);
    assert(text[b] == '&' && text[b + 1] == decoration);
    assert(ascii_lower(decoration) != 'x');
    assert(color_for_code(decoration) is None);
    assert(legacy_token(text, b, false) == ("<"@ + format_tag_name(decoration)->0 + ">"@, 2int, true));
    assert forall|k: int| b + 2 <= k < b + 2 + m implies !is_marker(#[trigger] text[k]) by {
        assert(text[k] == middle[k - b - 2]);
    }
    lemma_plain_run(text, b + 2, m, true);
    assert(text.subrange(b + 2, b + 2 + m) =~= middle);
    assert(text[b + 2 + m] == '&' && text[b + 3 + m] == colour);
    assert(ascii_lower(colour) != 'x');
    assert(legacy_token(text, b + 2 + m, true) == (reset_before(true) + "<"@ + named_key(
        color_for_code(colour)->0,
    ) + ">"@, 2int, false));
    lemma_tags_shift(head, after, 0, false);
    assert(head.len() == b + 4 + m);
    assert(tags_from(text, b + 4 + m, false) == legacy_tags(after));
    assert(tags_from(text, b + 2 + m, true) == reset_before(true) + "<"@ + named_key(
        color_for_code(colour)->0,
    ) + ">"@ + legacy_tags(after));
    assert(tags_from(text, b, false) == "<"@ + format_tag_name(decoration)->0 + ">"@ + tags_from(text, b + 2, true));
    assert(legacy_tags(text) =~= before + "<"@ + format_tag_name(decoration)->0 + ">"@ + middle
        + "<reset>"@ + "<"@ + named_key(color_for_code(colour)->0) + ">"@ + legacy_tags(after));
}

/// Each decoration code becomes the tag of its own decoration, in either case: `k`
/// obfuscated, `l` bold, `m` strikethrough, `n` underlined, `o` italic, with the rest read
/// with that decoration on; `r` becomes `<reset>`, with the rest read afresh.
pub proof fn lemma_format_code_tags(code: char, rest: Seq<char>)
    ensures
        ascii_lower(code) == 'k' ==> legacy_tags(seq!['&', code] + rest) == "<obfuscated>"@ + tags_from(
            rest,
            0,
            true,
        ),
        ascii_lower(code) == 'l' ==> legacy_tags(seq!['&', code] + rest) == "<bold>"@ + tags_from(
            rest,
            0,
            true,
        ),
        ascii_lower(code) == 'm' ==> legacy_tags(seq!['&', code] + rest) == "<strikethrough>"@ + tags_from(
            rest,
            0,
            true,
        ),
        ascii_lower(code) == 'n' ==> legacy_tags(seq!['&', code] + rest) == "<underlined>"@ + tags_from(
            rest,
            0,
            true,
        ),
        ascii_lower(code) == 'o' ==> legacy_tags(seq!['&', code] + rest) == "<italic>"@ + tags_from(
            rest,
            0,
            true,
        ),
        ascii_lower(code) == 'r' ==> legacy_tags(seq!['&', code] + rest) == "<reset>"@ + legacy_tags(
            rest,
        ),
{
    reveal_strlit("<obfuscated>");
    reveal_strlit("obfuscated");
    reveal_strlit("<bold>");
    reveal_strlit("bold");
    reveal_strlit("<strikethrough>");
    reveal_strlit("strikethrough");
    reveal_strlit("<underlined>");
    reveal_strlit("underlined");
    reveal_strlit("<italic>");
    reveal_strlit("italic");
    reveal_strlit("<reset>");
    reveal_strlit("reset");
    reveal_strlit("<");
    reveal_strlit(">");
    let head = seq!['&', code];
    let text = head + rest;
    let lowered = ascii_lower(code);
    if lowered == 'k' || lowered == 'l' || lowered == 'm' || lowered == 'n' || lowered == 'o'
        || lowered == 'r' {
        assert(text[0] == '&' && text[1] == code);
        assert(color_for_code(code) is None);
        lemma_tags_shift(head, rest, 0, true);
        lemma_tags_shift(head, rest, 0, false);
        assert(head.len() == 2);
        let name = format_tag_name(code)->0;
        assert("<"@ + name + ">"@ =~= seq!['<'] + name + seq!['>']);
        if lowered == 'k' {
            assert("<obfuscated>"@ =~= seq!['<'] + "obfuscated"@ + seq!['>']);
        } else if lowered == 'l' {
            assert("<bold>"@ =~= seq!['<'] + "bold"@ + seq!['>']);
        } else if lowered == 'm' {
            assert("<strikethrough>"@ =~= seq!['<'] + "strikethrough"@ + seq!['>']);
        } else if lowered == 'n' {
            assert("<underlined>"@ =~= seq!['<'] + "underlined"@ + seq!['>']);
        } else if lowered == 'o' {
            assert("<italic>"@ =~= seq!['<'] + "italic"@ + seq!['>']);
        } else {
            assert("<reset>"@ =~= seq!['<'] + "reset"@ + seq!['>']);
        }
    }
}

fn format_code(code: char) -> (tag: Option<&'static str>)
    ensures
        match tag {
            Some(name) => format_tag_name(code) == Some(name@),
            None => format_tag_name(code) is None,
        },
{
    let lowered = to_ascii_lower(code);
    if lowered == 'k' {
        Some("obfuscated")
    } else if lowered == 'l' {
        Some("bold")
    } else if lowered == 'm' {
        Some("strikethrough")
    } else if lowered == 'n' {
        Some("underlined")
    } else if lowered == 'o' {
        Some("italic")
    } else if lowered == 'r' {
        Some("reset")
    } else {
        None
    }
}

fn marker(c: char) -> (is: bool)
    ensures
        is == is_marker(c),
{
    c == AMPERSAND || c == SECTION_SIGN
}

/// Reads the `&x&r&r&g&g&b&b` form Bukkit invented for hex colours.
fn read_bukkit_hex(characters: &Vec<char>, start: usize) -> (digits: Option<Vec<char>>)
    requires
        start <= characters@.len(),
    ensures
        match digits {
            Some(found) => bukkit_hex_at(characters@, start as int) && found@ == bukkit_digits(
                characters@,
                start as int,
            ),
            None => !bukkit_hex_at(characters@, start as int),
        },
{
    if characters.len() - start < 12 {
        return None;
    }
    let mut digits: Vec<char> = Vec::new();
    let mut step: usize = 0;
    while step < 6
        invariant
            0 <= step <= 6,
            start + 12 <= characters.len(),
            digits@ == bukkit_digits(characters@, start as int).take(step as int),
            forall|s: int| 0 <= s < step ==> #[trigger] hex_pair(characters@, start as int, s),
        decreases 6 - step,
    {
        let lead = characters[start + step * 2];
        let digit = characters[start + step * 2 + 1];
        if !marker(lead) || !hex_digit(digit) {
            proof {
                assert(!hex_pair(characters@, start as int, step as int));
            }
            return None;
        }
        digits.push(digit);
        step += 1;
        proof {
            assert(digits@ =~= bukkit_digits(characters@, start as int).take(step as int));
        }
    }
    proof {
        assert(digits@ =~= bukkit_digits(characters@, start as int));
    }
    Some(digits)
}

fn push_tag(output: &mut String, name: &str)
    ensures
        final(output)@ == old(output)@ + "<"@ + name@ + ">"@,
{
    proof {
        reveal_strlit("<");
        reveal_strlit(">");
    }
    push_char(output, '<');
    push_str(output, name);
    push_char(output, '>');
    proof {
        assert(final(output)@ =~= old(output)@ + "<"@ + name@ + ">"@);
    }
}

/// Appends `<reset>` when a decoration is on.
fn push_reset_before(output: &mut String, decorated: bool)
    ensures
        final(output)@ == old(output)@ + reset_before(decorated),
{
    if decorated {
        push_tag(output, "reset");
        proof {
            reveal_strlit("<reset>");
            reveal_strlit("reset");
            reveal_strlit("<");
            reveal_strlit(">");
            assert("<"@ + "reset"@ + ">"@ =~= "<reset>"@);
            assert(final(output)@ =~= old(output)@ + reset_before(decorated));
        }
    } else {
        proof {
            assert(final(output)@ =~= old(output)@ + reset_before(decorated));
        }
    }
}

/// Appends what the character at `index` turns into; returns how many it consumed and
/// whether a decoration is on after it.
fn push_token(characters: &Vec<char>, index: usize, decorated: bool, output: &mut String) -> (step: (usize, bool))
    requires
        index < characters@.len(),
    ensures
        final(output)@ == old(output)@ + legacy_token(characters@, index as int, decorated).0,
        step.0 == legacy_token(characters@, index as int, decorated).1,
        step.1 == legacy_token(characters@, index as int, decorated).2,
{
    let character = characters[index];
    if marker(character) && characters.len() - index > 1 {
        let code = characters[index + 1];
        if to_ascii_lower(code) == 'x' {
            if let Some(digits) = read_bukkit_hex(characters, index + 2) {
                proof {
                    reveal_strlit("<#");
                    reveal_strlit(">");
                }
                push_reset_before(output, decorated);
                let ghost reset = output@;
                push_char(output, '<');
                push_char(output, '#');
                let mut position: usize = 0;
                while position < digits.len()
                    invariant
                        0 <= position <= digits@.len(),
                        output@ == reset + "<#"@ + digits@.take(position as int),
                    decreases digits@.len() - position,
                {
                    push_char(output, digits[position]);
                    position += 1;
                    proof {
                        assert(digits@.take(position as int) =~= digits@.take(position - 1).push(
                            digits@[position - 1],
                        ));
                    }
                }
                push_char(output, '>');
                proof {
                    assert(digits@.take(position as int) =~= digits@);
                    assert(output@ =~= old(output)@ + (reset_before(decorated) + "<#"@
                        + digits@ + ">"@));
                }
                return (14, false);
            }
        }
        if let Some(color) = NamedColor::from_legacy_code(code) {
            push_reset_before(output, decorated);
            let ghost reset = output@;
            push_tag(output, color.key());
            proof {
                assert(output@ =~= old(output)@ + (reset_before(decorated) + "<"@
                    + named_key(color_for_code(code)->0) + ">"@));
            }
            return (2, false);
        }
        if let Some(tag) = format_code(code) {
            push_tag(output, tag);
            let lowered = to_ascii_lower(code);
            return (2, lowered != 'r');
        }
    }
    push_char(output, character);
    (1, decorated)
}

/// Rewrites legacy formatting codes as the MiniMessage tags that mean the same thing.
///
/// Doing the translation up front means one parser handles both notations, including the
/// mixtures that appear in configuration files people have carried between servers.
///
/// A colour code clears decorations on the client, while a colour tag nests inside the
/// tags before it; so a colour code that follows a decoration code is written as
/// `<reset>` and then the colour, and `&lA&aB` renders as `§lA§aB`, not `§lA§a§lB`.
pub fn legacy_codes_to_tags(input: &str) -> (output: String)
    ensures
        output@ == legacy_tags(input@),
{
    let characters = chars_of(input);
    let mut output = String::new();
    let mut index: usize = 0;
    let mut decorated = false;
    while index < characters.len()
        invariant
            0 <= index <= characters@.len(),
            characters@ == input@,
            legacy_tags(input@) == output@ + tags_from(input@, index as int, decorated),
        decreases characters@.len() - index,
    {
        let ghost before = output@;
        let ghost was = decorated;
        let (width, after) = push_token(&characters, index, decorated, &mut output);
        decorated = after;
        proof {
            assert(output@ + tags_from(input@, index + width, decorated) =~= before + tags_from(
                input@,
                index as int,
                was,
            ));
        }
        index = if characters.len() - index < width {
            characters.len()
        } else {
            index + width
        };
    }
    proof {
        assert(output@ + tags_from(input@, index as int, decorated) =~= output@);
    }
    output
}

/// Which decorations a legacy client has switched on, or a style asks for.
#[derive(Debug, Clone, Copy, PartialEq, Eq, Structural)]
pub struct Decorations {
    pub obfuscated: bool,
    pub bold: bool,
    pub strikethrough: bool,
    pub underlined: bool,
    pub italic: bool,
}

/// What the receiving client currently has switched on.
#[derive(Debug, Clone, Copy, PartialEq, Eq, Structural)]
pub struct LegacyState {
    pub color: Option<TextColor>,
    pub decorations: Decorations,
}

/// The parts of a style that legacy codes can express.
#[derive(Debug, Clone, Copy, PartialEq, Eq, Structural)]
pub struct LegacyStyle {
    pub color: Option<TextColor>,
    pub bold: Option<bool>,
    pub italic: Option<bool>,
    pub underlined: Option<bool>,
    pub strikethrough: Option<bool>,
    pub obfuscated: Option<bool>,
}

pub open spec fn no_decorations() -> Decorations {
    Decorations {
        obfuscated: false,
        bold: false,
        strikethrough: false,
        underlined: false,
        italic: false,
    }
}

/// The state of a client that has received no code yet, or a reset.
pub open spec fn cleared_state() -> LegacyState {
    LegacyState { color: None, decorations: no_decorations() }
}

/// The style that asks for nothing.
pub open spec fn unstyled() -> LegacyStyle {
    LegacyStyle {
        color: None,
        bold: None,
        italic: None,
        underlined: None,
        strikethrough: None,
        obfuscated: None,
    }
}

pub open spec fn legacy_style_of(style: Style) -> LegacyStyle {
    LegacyStyle {
        color: style.color,
        bold: style.bold,
        italic: style.italic,
        underlined: style.underlined,
        strikethrough: style.strikethrough,
        obfuscated: style.obfuscated,
    }
}

pub open spec fn prefer(child: Option<bool>, parent: Option<bool>) -> Option<bool> {
    if child is Some {
        child
    } else {
        parent
    }
}

/// A child's style resolved against its parent's: what the child sets wins.
pub open spec fn inherit_legacy(parent: LegacyStyle, child: LegacyStyle) -> LegacyStyle {
    LegacyStyle {
        color: if child.color is Some {
            child.color
        } else {
            parent.color
        },
        bold: prefer(child.bold, parent.bold),
        italic: prefer(child.italic, parent.italic),
        underlined: prefer(child.underlined, parent.underlined),
        strikethrough: prefer(child.strikethrough, parent.strikethrough),
        obfuscated: prefer(child.obfuscated, parent.obfuscated),
    }
}

/// The decorations a style switches on.
pub open spec fn wanted_decorations(style: LegacyStyle) -> Decorations {
    Decorations {
        obfuscated: style.obfuscated == Some(true),
        bold: style.bold == Some(true),
        strikethrough: style.strikethrough == Some(true),
        underlined: style.underlined == Some(true),
        italic: style.italic == Some(true),
    }
}

/// Whether some decoration is on that is no longer wanted.
pub open spec fn removes(active: Decorations, wanted: Decorations) -> bool {
    ||| active.obfuscated && !wanted.obfuscated
    ||| active.bold && !wanted.bold
    ||| active.strikethrough && !wanted.strikethrough
    ||| active.underlined && !wanted.underlined
    ||| active.italic && !wanted.italic
}

/// A section sign followed by a code.
pub open spec fn code(letter: char) -> Seq<char> {
    seq!['\u{00A7}', letter]
}

/// The code of the named colour a colour reduces to.
pub open spec fn color_code(color: TextColor) -> char {
    named_legacy_code(named_reduction(color))
}

/// The colour or reset codes that bring the client to a style's colour, and the state
/// they leave: a colour code clears every decoration, and only a reset turns one off.
pub open spec fn switch_codes(state: LegacyState, style: LegacyStyle) -> (Seq<char>, LegacyState) {
    if state.color != style.color {
        match style.color {
            Some(color) => (
                code(color_code(color)),
                LegacyState { color: Some(color), decorations: no_decorations() },
            ),
            None => (code('r'), cleared_state()),
        }
    } else if removes(state.decorations, wanted_decorations(style)) {
        match style.color {
            Some(color) => (
                code('r') + code(color_code(color)),
                LegacyState { color: Some(color), decorations: no_decorations() },
            ),
            None => (code('r'), cleared_state()),
        }
    } else {
        (Seq::empty(), state)
    }
}

pub open spec fn enable_code(active: bool, wanted: bool, letter: char) -> Seq<char> {
    if wanted && !active {
        code(letter)
    } else {
        Seq::empty()
    }
}

/// The codes switching on each wanted decoration that is off, in the order `k l m n o`.
pub open spec fn enable_codes(active: Decorations, wanted: Decorations) -> Seq<char> {
    enable_code(active.obfuscated, wanted.obfuscated, 'k') + enable_code(
        active.bold,
        wanted.bold,
        'l',
    ) + enable_code(active.strikethrough, wanted.strikethrough, 'm') + enable_code(
        active.underlined,
        wanted.underlined,
        'n',
    ) + enable_code(active.italic, wanted.italic, 'o')
}

pub open spec fn either(first: Decorations, second: Decorations) -> Decorations {
    Decorations {
        obfuscated: first.obfuscated || second.obfuscated,
        bold: first.bold || second.bold,
        strikethrough: first.strikethrough || second.strikethrough,
        underlined: first.underlined || second.underlined,
        italic: first.italic || second.italic,
    }
}

/// The codes that move the client from `state` to `style`, and the state they leave.
pub open spec fn apply_codes(state: LegacyState, style: LegacyStyle) -> (Seq<char>, LegacyState) {
    let (switching, base) = switch_codes(state, style);
    let wanted = wanted_decorations(style);
    (
        switching + enable_codes(base.decorations, wanted),
        LegacyState { color: base.color, decorations: either(base.decorations, wanted) },
    )
}

/// The text a component shows itself: translation keys and keybinds show as written.
pub open spec fn body_text(content: ComponentContent) -> Seq<char> {
    match content {
        ComponentContent::Text { text } => text@,
        ComponentContent::Translatable { key, .. } => key@,
        ComponentContent::Keybind { keybind } => keybind@,
    }
}

/// A component rendered with section-sign codes, from a client in `state`, under an
/// inherited style; with the state the client is left in.
pub open spec fn legacy_render(
    component: Component,
    inherited: LegacyStyle,
    state: LegacyState,
) -> (Seq<char>, LegacyState)
    decreases component,
{
    let resolved = inherit_legacy(inherited, legacy_style_of(component.style));
    let body = body_text(component.content);
    let (head, after) = if body.len() > 0 {
        let (codes, styled) = apply_codes(state, resolved);
        (codes + body, styled)
    } else {
        (Seq::empty(), state)
    };
    let (tail, last) = legacy_render_all(component.children@, resolved, after);
    (head + tail, last)
}

/// Several sibling components rendered one after another.
pub open spec fn legacy_render_all(
    components: Seq<Component>,
    inherited: LegacyStyle,
    state: LegacyState,
) -> (Seq<char>, LegacyState)
    decreases components,
{
    if components.len() == 0 {
        (Seq::empty(), state)
    } else {
        let (front, middle) = legacy_render_all(components.drop_last(), inherited, state);
        let (back, last) = legacy_render(components.last(), inherited, middle);
        (front + back, last)
    }
}

/// A component rendered with the client's own section-sign formatting codes.
pub open spec fn legacy_string(component: Component) -> Seq<char> {
    legacy_render(component, unstyled(), cleared_state()).0
}

/// A section sign and `letter` when a decoration is switched on, nothing otherwise.
pub open spec fn switched_on(flag: Option<bool>, letter: char) -> Seq<char> {
    if flag == Some(true) {
        seq!['\u{00A7}', letter]
    } else {
        Seq::empty()
    }
}

/// An uncoloured component without children renders as the codes of the decorations its
/// style switches on, each its own vanilla code (obfuscated `k`, bold `l`, strikethrough
/// `m`, underlined `n`, italic `o`), in that order, then its text.
pub proof fn lemma_decorations_render_with_their_codes(component: Component)
    requires
        component.children@.len() == 0,
        body_text(component.content).len() > 0,
        component.style.color is None,
    ensures
        legacy_string(component) == switched_on(component.style.obfuscated, 'k') + switched_on(
            component.style.bold,
            'l',
        ) + switched_on(component.style.strikethrough, 'm') + switched_on(
            component.style.underlined,
            'n',
        ) + switched_on(component.style.italic, 'o') + body_text(component.content),
{
    let style = component.style;
    let resolved = inherit_legacy(unstyled(), legacy_style_of(style));
    assert(resolved.color is None);
    assert(!removes(no_decorations(), wanted_decorations(resolved)));
    assert(legacy_render_all(component.children@, resolved, apply_codes(cleared_state(), resolved).1).0
        =~= Seq::<char>::empty());
    assert(enable_codes(no_decorations(), wanted_decorations(resolved)) =~= switched_on(style.obfuscated, 'k')
        + switched_on(style.bold, 'l') + switched_on(style.strikethrough, 'm') + switched_on(
        style.underlined,
        'n',
    ) + switched_on(style.italic, 'o'));
}

fn push_code(output: &mut String, letter: char)
    ensures
        final(output)@ == old(output)@ + code(letter),
{
    push_char(output, SECTION_SIGN);
    push_char(output, letter);
    proof {
        assert(final(output)@ =~= old(output)@ + code(letter));
    }
}

fn same_color(first: Option<TextColor>, second: Option<TextColor>) -> (same: bool)
    ensures
        same == (first == second),
{
    match (first, second) {
        (Some(a), Some(b)) => a == b,
        (None, None) => true,
        _ => false,
    }
}

fn enable(output: &mut String, active: bool, wanted: bool, letter: char) -> (now: bool)
    ensures
        final(output)@ == old(output)@ + enable_code(active, wanted, letter),
        now == (active || wanted),
{
    if wanted && !active {
        push_code(output, letter);
    } else {
        proof {
            assert(final(output)@ =~= old(output)@ + enable_code(active, wanted, letter));
        }
    }
    active || wanted
}

fn cleared() -> (state: LegacyState)
    ensures
        state == cleared_state(),
{
    LegacyState {
        color: None,
        decorations: Decorations {
            obfuscated: false,
            bold: false,
            strikethrough: false,
            underlined: false,
            italic: false,
        },
    }
}

/// Emits the colour or reset codes that bring the client to the style's colour.
fn switch_color(output: &mut String, state: &mut LegacyState, style: LegacyStyle)
    ensures
        final(output)@ == old(output)@ + switch_codes(*old(state), style).0,
        *final(state) == switch_codes(*old(state), style).1,
{
    let active = state.decorations;
    let must_remove = (active.obfuscated && style.obfuscated != Some(true)) || (active.bold
        && style.bold != Some(true)) || (active.strikethrough && style.strikethrough != Some(
        true,
    )) || (active.underlined && style.underlined != Some(true)) || (active.italic
        && style.italic != Some(true));
    if !same_color(state.color, style.color) {
        match style.color {
            Some(color) => {
                push_code(output, color.to_named().legacy_code());
                *state = cleared();
                state.color = Some(color);
            },
            None => {
                push_code(output, 'r');
                *state = cleared();
            },
        }
    } else if must_remove {
        push_code(output, 'r');
        *state = cleared();
        match style.color {
            Some(color) => {
                push_code(output, color.to_named().legacy_code());
                state.color = Some(color);
                proof {
                    assert(final(output)@ =~= old(output)@ + switch_codes(*old(state), style).0);
                }
            },
            None => {},
        }
    } else {
        proof {
            assert(final(output)@ =~= old(output)@ + switch_codes(*old(state), style).0);
        }
    }
}

/// Emits the codes switching on each wanted decoration that is still off.
fn enable_all(output: &mut String, base: Decorations, wanted: Decorations) -> (now: Decorations)
    ensures
        final(output)@ == old(output)@ + enable_codes(base, wanted),
        now == either(base, wanted),
{
    let ghost e1 = enable_code(base.obfuscated, wanted.obfuscated, 'k');
    let ghost e2 = enable_code(base.bold, wanted.bold, 'l');
    let ghost e3 = enable_code(base.strikethrough, wanted.strikethrough, 'm');
    let ghost e4 = enable_code(base.underlined, wanted.underlined, 'n');
    let ghost e5 = enable_code(base.italic, wanted.italic, 'o');
    let ghost start = output@;
    let obfuscated = enable(output, base.obfuscated, wanted.obfuscated, 'k');
    let bold = enable(output, base.bold, wanted.bold, 'l');
    proof {
        lemma_concat_associative(start, e1, e2);
    }
    let strikethrough = enable(output, base.strikethrough, wanted.strikethrough, 'm');
    proof {
        lemma_concat_associative(start, e1 + e2, e3);
    }
    let underlined = enable(output, base.underlined, wanted.underlined, 'n');
    proof {
        lemma_concat_associative(start, e1 + e2 + e3, e4);
    }
    let italic = enable(output, base.italic, wanted.italic, 'o');
    proof {
        lemma_concat_associative(start, e1 + e2 + e3 + e4, e5);
    }
    Decorations { obfuscated, bold, strikethrough, underlined, italic }
}

/// Emits the codes that move the client from `state` to `style`.
///
/// A colour code implicitly clears decorations, so switching colour re-emits whatever
/// decorations are still wanted. Turning a decoration *off* has no code of its own, which
/// is why the only way back is a full reset. Colours are compared by value, not by the
/// code they reduce to, so a gradient re-emits its code on every character even where
/// consecutive characters land on the same legacy colour.
fn apply_style(output: &mut String, state: &mut LegacyState, style: LegacyStyle)
    ensures
        final(output)@ == old(output)@ + apply_codes(*old(state), style).0,
        *final(state) == apply_codes(*old(state), style).1,
{
    switch_color(output, state, style);
    let ghost middle = output@;
    let wanted = Decorations {
        obfuscated: style.obfuscated == Some(true),
        bold: style.bold == Some(true),
        strikethrough: style.strikethrough == Some(true),
        underlined: style.underlined == Some(true),
        italic: style.italic == Some(true),
    };
    let now = enable_all(output, state.decorations, wanted);
    state.decorations = now;
    proof {
        let switched = switch_codes(*old(state), style);
        assert(middle == old(output)@ + switched.0);
        assert(output@ =~= old(output)@ + (switched.0 + enable_codes(
            switched.1.decorations,
            wanted,
        )));
    }
}

fn inherit(parent: LegacyStyle, child: &Style) -> (merged: LegacyStyle)
    ensures
        merged == inherit_legacy(parent, legacy_style_of(*child)),
{
    LegacyStyle {
        color: if child.color.is_some() {
            child.color
        } else {
            parent.color
        },
        bold: if child.bold.is_some() {
            child.bold
        } else {
            parent.bold
        },
        italic: if child.italic.is_some() {
            child.italic
        } else {
            parent.italic
        },
        underlined: if child.underlined.is_some() {
            child.underlined
        } else {
            parent.underlined
        },
        strikethrough: if child.strikethrough.is_some() {
            child.strikethrough
        } else {
            parent.strikethrough
        },
        obfuscated: if child.obfuscated.is_some() {
            child.obfuscated
        } else {
            parent.obfuscated
        },
    }
}

fn body_of(content: &ComponentContent) -> (body: &str)
    ensures
        body@ == body_text(*content),
{
    match content {
        ComponentContent::Text { text } => text.as_str(),
        ComponentContent::Translatable { key, .. } => key.as_str(),
        ComponentContent::Keybind { keybind } => keybind.as_str(),
    }
}

fn append_legacy(
    component: &Component,
    inherited: LegacyStyle,
    state: &mut LegacyState,
    output: &mut String,
)
    ensures
        final(output)@ == old(output)@ + legacy_render(*component, inherited, *old(state)).0,
        *final(state) == legacy_render(*component, inherited, *old(state)).1,
    decreases component,
{
    let resolved = inherit(inherited, &component.style);
    let body = body_of(&component.content);
    if !body.is_empty() {
        apply_style(output, state, resolved);
        push_str(output, body);
    }
    let ghost head = output@;
    let ghost after = *state;
    proof {
        assert(head =~= old(output)@ + (if body@.len() > 0 {
            apply_codes(*old(state), resolved).0 + body@
        } else {
            Seq::empty()
        }));
    }
    let mut index: usize = 0;
    while index < component.children.len()
        invariant
            0 <= index <= component.children@.len(),
            output@ == head + legacy_render_all(
                component.children@.take(index as int),
                resolved,
                after,
            ).0,
            *state == legacy_render_all(component.children@.take(index as int), resolved, after).1,
        decreases component.children@.len() - index,
    {
        proof {
            assert(component.children@.take(index + 1).drop_last() =~= component.children@.take(
                index as int,
            ));
        }
        let ghost before = output@;
        append_legacy(&component.children[index], resolved, state, output);
        proof {
            assert(output@ =~= head + legacy_render_all(
                component.children@.take(index + 1),
                resolved,
                after,
            ).0);
        }
        index += 1;
    }
    proof {
        assert(component.children@.take(index as int) =~= component.children@);
        assert(output@ =~= old(output)@ + legacy_render(*component, inherited, *old(state)).0);
    }
}

/// Renders a component using the client's own section-sign formatting codes.
///
/// Used for the server brand and the version line of the status response, both of which
/// predate components and accept nothing else.
pub fn to_legacy_string(component: &Component) -> (output: String)
    ensures
        output@ == legacy_string(*component),
{
    let mut output = String::new();
    let mut state = LegacyState {
        color: None,
        decorations: Decorations {
            obfuscated: false,
            bold: false,
            strikethrough: false,
            underlined: false,
            italic: false,
        },
    };
    let inherited = LegacyStyle {
        color: None,
        bold: None,
        italic: None,
        underlined: None,
        strikethrough: None,
        obfuscated: None,
    };
    append_legacy(component, inherited, &mut state, &mut output);
    proof {
        assert(output@ =~= legacy_string(*component));
    }
    output
}

} // verus!
