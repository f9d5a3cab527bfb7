use vstd::prelude::*;

use crate::binary64::{
    clamped_floor, difference, difference_of, floor_clamped, from_integer, from_u64, is_double,
    lemma_power2_values, one_half, product, product_of, quotient, quotient_of, sum, sum_of, zero,
    Double,
};
use crate::hex::{all_hex_digits, hex_to_u32, hex_value};
use crate::mini_message_node::{
    lemma_node_models_take, lemma_prefix_length_bounded, node_model, node_models, node_text_length,
    nodes_text_length, strings_model, MiniMessageNode, NodeModel,
};
use crate::component_model::{empty_style_model, text_model, ClickModel, ComponentModel, ContentModel, StyleModel};
use crate::component::Component;
use crate::component_content::ComponentContent;
use crate::component_model::{component_model, component_models, lemma_component_models_take};
use crate::click_event::ClickEvent;
use crate::component_ops::{
    click_equal, component_equal, overlay, overlay_model, style_equal, text_equal,
};
use crate::hover_event::HoverEvent;
use crate::style::Style;
use crate::named_color::{named_key, named_with_key, NamedColor};
use crate::rgb_color::{packed_rgb, RgbColor};
use crate::strs::{
    ascii_lowered, chars_of, hex_digit, lowered_string, push_char, push_str, str_equal,
    string_from,
};
use crate::text_color::{text_color_rgb, TextColor};

verus! {

/// Tags that insert content and then end, rather than styling what follows them.
pub open spec fn is_inline_name(name: Seq<char>) -> bool {
    ||| name == "newline"@
    ||| name == "br"@
    ||| name == "key"@
    ||| name == "lang"@
    ||| name == "translate"@
    ||| name == "tr"@
    ||| name == "reset"@
}

fn is_inline_tag(name: &str) -> (inline: bool)
    ensures
        inline == is_inline_name(name@),
{
    str_equal(name, "newline") || str_equal(name, "br") || str_equal(name, "key") || str_equal(
        name,
        "lang",
    ) || str_equal(name, "translate") || str_equal(name, "tr") || str_equal(name, "reset")
}

/// A colour name, including the two British spellings of grey.
pub open spec fn named_color_for(name: Seq<char>) -> Option<NamedColor> {
    if name == "grey"@ {
        Some(NamedColor::Gray)
    } else if name == "dark_grey"@ {
        Some(NamedColor::DarkGray)
    } else {
        named_with_key(name)
    }
}

fn named_color(name: &str) -> (color: Option<NamedColor>)
    ensures
        color == named_color_for(name@),
{
    if str_equal(name, "grey") {
        Some(NamedColor::Gray)
    } else if str_equal(name, "dark_grey") {
        Some(NamedColor::DarkGray)
    } else {
        NamedColor::from_key(name)
    }
}

/// A colour written `#rrggbb`: a hash and exactly six hexadecimal digits.
pub open spec fn hex_color_for(text: Seq<char>) -> Option<RgbColor> {
    if text.len() == 7 && text[0] == '#' && all_hex_digits(text.drop_first()) {
        Some(packed_rgb(hex_value(text.drop_first())))
    } else {
        None
    }
}

proof fn lemma_hex_bound(digits: Seq<char>)
    requires
        all_hex_digits(digits),
    ensures
        0 <= hex_value(digits) < power16(digits.len() as int),
    decreases digits.len(),
{
    if digits.len() > 0 {
        assert(all_hex_digits(digits.drop_last()));
        lemma_hex_bound(digits.drop_last());
        assert(crate::strs::is_hex_digit(digits.last()));
    }
}

proof fn lemma_six_digits_fit(digits: Seq<char>)
    requires
        digits.len() == 6,
        all_hex_digits(digits),
    ensures
        0 <= hex_value(digits) < 0x1000000,
{
    lemma_hex_bound(digits);
    reveal_with_fuel(power16, 7);
}

pub open spec fn power16(n: int) -> int
    decreases n,
{
    if n <= 0 {
        1
    } else {
        16 * power16(n - 1)
    }
}

fn hex_color(text: &str) -> (color: Option<RgbColor>)
    ensures
        color == hex_color_for(text@),
{
    let characters = chars_of(text);
    if characters.len() != 7 || characters[0] != '#' {
        return None;
    }
    let mut digits: Vec<char> = Vec::new();
    let mut index: usize = 1;
    while index < 7
        invariant
            1 <= index <= 7,
            characters@.len() == 7,
            characters@ == text@,
            digits@ == characters@.subrange(1, index as int),
        decreases 7 - index,
    {
        digits.push(characters[index]);
        index += 1;
        proof {
            assert(digits@ =~= characters@.subrange(1, index as int));
        }
    }
    proof {
        assert(digits@ =~= text@.drop_first());
    }
    let mut position: usize = 0;
    while position < 6
        invariant
            0 <= position <= 6,
            digits@.len() == 6,
            digits@ == text@.drop_first(),
            forall|i: int| 0 <= i < position ==> crate::strs::is_hex_digit(#[trigger] digits@[i]),
        decreases 6 - position,
    {
        if !hex_digit(digits[position]) {
            proof {
                assert(!crate::strs::is_hex_digit(text@.drop_first()[position as int]));
            }
            return None;
        }
        position += 1;
    }
    proof {
        assert(all_hex_digits(digits@));
        lemma_six_digits_fit(digits@);
    }
    match hex_to_u32(digits.as_slice()) {
        Some(packed) => Some(RgbColor::from_packed(packed)),
        None => None,
    }
}

/// A colour written by name or as `#rrggbb`.
pub open spec fn color_for(text: Seq<char>) -> Option<TextColor> {
    match named_color_for(text) {
        Some(named) => Some(TextColor::Named(named)),
        None => match hex_color_for(text) {
            Some(rgb) => Some(TextColor::Rgb(rgb)),
            None => None,
        },
    }
}

/// Resolves a colour written either by name or as `#rrggbb`.
fn parse_color(text: &str) -> (color: Option<TextColor>)
    ensures
        color == color_for(text@),
{
    match named_color(text) {
        Some(named) => Some(TextColor::Named(named)),
        None => match hex_color(text) {
            Some(rgb) => Some(TextColor::Rgb(rgb)),
            None => None,
        },
    }
}

/// The decoration a tag name stands for, under its canonical name.
pub open spec fn decoration_for(name: Seq<char>) -> Option<Seq<char>> {
    if name == "b"@ || name == "bold"@ {
        Some("bold"@)
    } else if name == "i"@ || name == "italic"@ || name == "em"@ {
        Some("italic"@)
    } else if name == "u"@ || name == "underlined"@ {
        Some("underlined"@)
    } else if name == "st"@ || name == "strikethrough"@ {
        Some("strikethrough"@)
    } else if name == "obf"@ || name == "obfuscated"@ {
        Some("obfuscated"@)
    } else {
        None
    }
}

fn decoration_of(name: &str) -> (decoration: Option<&'static str>)
    ensures
        match decoration {
            Some(found) => decoration_for(name@) == Some(found@),
            None => decoration_for(name@) is None,
        },
{
    if str_equal(name, "b") || str_equal(name, "bold") {
        Some("bold")
    } else if str_equal(name, "i") || str_equal(name, "italic") || str_equal(name, "em") {
        Some("italic")
    } else if str_equal(name, "u") || str_equal(name, "underlined") {
        Some("underlined")
    } else if str_equal(name, "st") || str_equal(name, "strikethrough") {
        Some("strikethrough")
    } else if str_equal(name, "obf") || str_equal(name, "obfuscated") {
        Some("obfuscated")
    } else {
        None
    }
}

/// Reading a tag's inside from the left: the arguments finished so far, the one being
/// read, and the quote that is open, if any.
pub open spec fn split_scan(body: Seq<char>) -> (Seq<Seq<char>>, Seq<char>, Option<char>)
    decreases body.len(),
{
    if body.len() == 0 {
        (Seq::empty(), Seq::empty(), None)
    } else {
        let (parts, current, quote) = split_scan(body.drop_last());
        let c = body.last();
        match quote {
            Some(active) => if c == active {
                (parts, current, None)
            } else {
                (parts, current.push(c), quote)
            },
            None => if c == '\'' || c == '"' {
                (parts, current, Some(c))
            } else if c == ':' {
                (parts.push(current), Seq::empty(), None)
            } else {
                (parts, current.push(c), None)
            },
        }
    }
}

/// The inside of a tag split on `:`, where quotes protect a colon and are dropped.
pub open spec fn split_arguments_of(body: Seq<char>) -> Seq<Seq<char>> {
    let (parts, current, _) = split_scan(body);
    parts.push(current)
}

/// Splits the inside of a tag on `:`, honouring single and double quotes so a URL or a
/// command containing a colon survives intact.
fn split_arguments(body: &Vec<char>) -> (parts: Vec<String>)
    ensures
        parts@.len() == split_arguments_of(body@).len(),
        forall|i: int| 0 <= i < parts@.len() ==> #[trigger] parts@[i]@ == split_arguments_of(
            body@,
        )[i],
{
    let mut parts: Vec<String> = Vec::new();
    let mut current = String::new();
    let mut quote: Option<char> = None;
    let mut index: usize = 0;
    while index < body.len()
        invariant
            0 <= index <= body@.len(),
            parts@.len() == split_scan(body@.take(index as int)).0.len(),
            forall|i: int|
                0 <= i < parts@.len() ==> #[trigger] parts@[i]@ == split_scan(
                    body@.take(index as int),
                ).0[i],
            current@ == split_scan(body@.take(index as int)).1,
            quote == split_scan(body@.take(index as int)).2,
        decreases body@.len() - index,
    {
        let character = body[index];
        proof {
            assert(body@.take(index + 1).drop_last() =~= body@.take(index as int));
            assert(body@.take(index + 1).last() == character);
        }
        match quote {
            Some(active) => {
                if character == active {
                    quote = None;
                } else {
                    push_char(&mut current, character);
                }
            },
            None => {
                if character == '\'' || character == '"' {
                    quote = Some(character);
                } else if character == ':' {
                    let finished = current;
                    current = String::new();
                    parts.push(finished);
                } else {
                    push_char(&mut current, character);
                }
            },
        }
        index += 1;
    }
    proof {
        assert(body@.take(index as int) =~= body@);
    }
    parts.push(current);
    parts
}

/// Reading a tag's inside from `index` on, with `body` read so far and `quote` open:
/// the whole inside and the position just past `>`, or `None` when no `>` ends it
/// before the text does or another `<` begins.
pub open spec fn tag_body_from(
    text: Seq<char>,
    index: int,
    body: Seq<char>,
    quote: Option<char>,
) -> Option<(Seq<char>, int)>
    decreases text.len() - index,
{
    if index < 0 || index >= text.len() {
        None
    } else {
        let c = text[index];
        match quote {
            Some(active) => if c == active {
                tag_body_from(text, index + 1, body.push(c), None)
            } else {
                tag_body_from(text, index + 1, body.push(c), quote)
            },
            None => if c == '\'' || c == '"' {
                tag_body_from(text, index + 1, body.push(c), Some(c))
            } else if c == '>' {
                Some((body, index + 1))
            } else if c == '<' {
                None
            } else {
                tag_body_from(text, index + 1, body.push(c), None)
            },
        }
    }
}

/// The inside of the tag whose `<` is at `open`, and the position just past its `>`.
pub open spec fn tag_body(text: Seq<char>, open: int) -> Option<(Seq<char>, int)> {
    tag_body_from(text, open + 1, Seq::empty(), None)
}

/// A tag's inside is read from the characters after its `<`, and ends past them.
pub proof fn lemma_tag_body_from_bounds(
    text: Seq<char>,
    index: int,
    body: Seq<char>,
    quote: Option<char>,
)
    requires
        0 <= index,
    ensures
        tag_body_from(text, index, body, quote) matches Some((found, after)) ==> index < after
            <= text.len() && found.len() == body.len() + (after - 1 - index),
    decreases text.len() - index,
{
    if 0 <= index < text.len() {
        let c = text[index];
        lemma_tag_body_from_bounds(text, index + 1, body.push(c), None);
        lemma_tag_body_from_bounds(text, index + 1, body.push(c), Some(c));
        lemma_tag_body_from_bounds(text, index + 1, body.push(c), quote);
    }
}

/// Reads the body of a tag starting at `open`, returning it and the index just past `>`.
///
/// Returns `None` when the tag is unterminated, in which case the `<` is literal text.
fn read_tag_body(characters: &Vec<char>, open: usize) -> (found: Option<(Vec<char>, usize)>)
    requires
        open < characters.len(),
    ensures
        match found {
            Some((body, after)) => tag_body(characters@, open as int) == Some((body@, after as int)),
            None => tag_body(characters@, open as int) is None,
        },
{
    let mut body: Vec<char> = Vec::new();
    let mut quote: Option<char> = None;
    let mut index: usize = open + 1;
    while index < characters.len()
        invariant
            open < index <= characters@.len(),
            tag_body(characters@, open as int) == tag_body_from(
                characters@,
                index as int,
                body@,
                quote,
            ),
        decreases characters@.len() - index,
    {
        let character = characters[index];
        match quote {
            Some(active) => {
                if character == active {
                    quote = None;
                }
                body.push(character);
            },
            None => {
                if character == '\'' || character == '"' {
                    quote = Some(character);
                    body.push(character);
                } else if character == '>' {
                    return Some((body, index + 1));
                } else if character == '<' {
                    return None;
                } else {
                    body.push(character);
                }
            },
        }
        index += 1;
    }
    None
}

/// A tag that is still open while the document is read.
struct Frame {
    name: String,
    arguments: Vec<String>,
    raw: String,
    children: Vec<MiniMessageNode>,
}

/// The mathematical content of an open tag.
pub struct FrameModel {
    pub name: Seq<char>,
    pub arguments: Seq<Seq<char>>,
    pub raw: Seq<char>,
    pub children: Seq<NodeModel>,
}

spec fn frame_model(frame: Frame) -> FrameModel {
    FrameModel {
        name: frame.name@,
        arguments: strings_model(frame.arguments@),
        raw: frame.raw@,
        children: node_models(frame.children@),
    }
}

spec fn stack_model(stack: Seq<Frame>) -> Seq<FrameModel> {
    stack.map_values(|frame: Frame| frame_model(frame))
}

/// The node an open tag becomes once it is closed.
pub open spec fn frame_node(frame: FrameModel) -> NodeModel {
    NodeModel::Tag(frame.name, frame.arguments, frame.raw, frame.children)
}

/// The stack with a node appended to the innermost open tag.
pub open spec fn add_child(stack: Seq<FrameModel>, node: NodeModel) -> Seq<FrameModel> {
    let top = stack.last();
    stack.drop_last().push(
        FrameModel {
            name: top.name,
            arguments: top.arguments,
            raw: top.raw,
            children: top.children.push(node),
        },
    )
}

/// The pending text, if any, appended to the innermost open tag.
pub open spec fn flush_text(stack: Seq<FrameModel>, buffer: Seq<char>) -> Seq<FrameModel> {
    if buffer.len() > 0 {
        add_child(stack, NodeModel::Text(buffer))
    } else {
        stack
    }
}

/// The innermost open tag closed into its parent; the root is never closed.
pub open spec fn pop_one(stack: Seq<FrameModel>) -> Seq<FrameModel> {
    if stack.len() <= 1 {
        stack
    } else {
        add_child(stack.drop_last(), frame_node(stack.last()))
    }
}

/// Every open tag closed, down to the root.
pub open spec fn collapse(stack: Seq<FrameModel>) -> Seq<FrameModel>
    decreases stack.len(),
{
    if stack.len() > 1 {
        collapse(pop_one(stack))
    } else {
        stack
    }
}

/// Tags closed until only `depth` remain open.
pub open spec fn pop_to(stack: Seq<FrameModel>, depth: int) -> Seq<FrameModel>
    decreases stack.len(),
{
    if depth > 0 && stack.len() > depth {
        pop_to(pop_one(stack), depth)
    } else {
        stack
    }
}

/// Whether a closing tag names an open one: by name, or by naming the same decoration.
pub open spec fn closes(open: Seq<char>, name: Seq<char>) -> bool {
    open == name || (decoration_for(open) == decoration_for(name) && decoration_for(name) is Some)
}

/// The innermost of the first `count` open tags that a closing tag names.
pub open spec fn innermost_closed(stack: Seq<FrameModel>, name: Seq<char>, count: int) -> Option<int>
    decreases count,
{
    if count <= 0 {
        None
    } else if closes(stack[count - 1].name, name) {
        Some(count - 1)
    } else {
        innermost_closed(stack, name, count - 1)
    }
}

/// The stack after a closing tag: the innermost tag with this name closes along with
/// everything inside it, or the innermost tag of any name when none has it.
pub open spec fn close_tag_model(stack: Seq<FrameModel>, buffer: Seq<char>, name: Seq<char>) -> Seq<
    FrameModel,
> {
    let flushed = flush_text(stack, buffer);
    match innermost_closed(flushed, name, flushed.len() as int) {
        Some(position) => if position > 0 {
            pop_to(flushed, position)
        } else {
            pop_one(flushed)
        },
        None => pop_one(flushed),
    }
}

/// The text with its leading slashes removed.
pub open spec fn trim_slashes(text: Seq<char>) -> Seq<char>
    decreases text.len(),
{
    if text.len() > 0 && text[0] == '/' {
        trim_slashes(text.drop_first())
    } else {
        text
    }
}

/// The empty tag the whole document is read into.
pub open spec fn root_frame() -> FrameModel {
    FrameModel {
        name: Seq::empty(),
        arguments: Seq::empty(),
        raw: Seq::empty(),
        children: Seq::empty(),
    }
}

/// The stack and pending text after the tag whose inside is `body`.
pub open spec fn after_tag(stack: Seq<FrameModel>, buffer: Seq<char>, body: Seq<char>) -> Seq<
    FrameModel,
> {
    let arguments = split_arguments_of(trim_slashes(body));
    let name = ascii_lowered(arguments[0]);
    if body.len() > 0 && body[0] == '/' {
        close_tag_model(stack, buffer, name)
    } else if name == "reset"@ {
        collapse(flush_text(stack, buffer))
    } else {
        let flushed = flush_text(stack, buffer);
        let frame = FrameModel {
            name: name,
            arguments: arguments.drop_first(),
            raw: "<"@ + body + ">"@,
            children: Seq::empty(),
        };
        if is_inline_name(name) {
            add_child(flushed, frame_node(frame))
        } else {
            flushed.push(frame)
        }
    }
}

/// The nodes a document parses to, reading from `index` with `stack` open and `buffer`
/// of text pending.
///
/// A backslash before `<` or `>` makes it literal; a `<` that begins no complete tag is
/// literal too. Unknown tags are kept as tags here and shown literally later, so a
/// message is never rejected for a typo.
pub open spec fn parse_from(
    text: Seq<char>,
    index: int,
    stack: Seq<FrameModel>,
    buffer: Seq<char>,
) -> Seq<NodeModel>
    decreases text.len() - index,
{
    if index < 0 || index >= text.len() {
        collapse(flush_text(stack, buffer))[0].children
    } else {
        let c = text[index];
        if c == '\\' && index + 1 < text.len() && (text[index + 1] == '<' || text[index + 1]
            == '>') {
            parse_from(text, index + 2, stack, buffer.push(text[index + 1]))
        } else if c != '<' {
            parse_from(text, index + 1, stack, buffer.push(c))
        } else {
            match tag_body(text, index) {
                None => parse_from(text, index + 1, stack, buffer.push(c)),
                Some((body, after)) => {
                    proof {
                        lemma_tag_body_from_bounds(text, index + 1, Seq::empty(), None);
                    }
                    parse_from(text, after, after_tag(stack, buffer, body), Seq::empty())
                },
            }
        }
    }
}

/// The node tree a MiniMessage document parses to.
pub open spec fn document_nodes(text: Seq<char>) -> Seq<NodeModel> {
    parse_from(text, 0, seq![root_frame()], Seq::empty())
}

proof fn lemma_stack_model_push(stack: Seq<Frame>, frame: Frame)
    ensures
        stack_model(stack.push(frame)) == stack_model(stack).push(frame_model(frame)),
{
    assert(stack_model(stack.push(frame)) =~= stack_model(stack).push(frame_model(frame)));
}

proof fn lemma_stack_model_pop(stack: Seq<Frame>)
    requires
        stack.len() > 0,
    ensures
        stack_model(stack.drop_last()) == stack_model(stack).drop_last(),
        stack_model(stack).last() == frame_model(stack.last()),
        stack_model(stack).len() == stack.len(),
{
    assert(stack_model(stack.drop_last()) =~= stack_model(stack).drop_last());
}

proof fn lemma_node_models_push(nodes: Seq<MiniMessageNode>, node: MiniMessageNode)
    ensures
        node_models(nodes.push(node)) == node_models(nodes).push(node_model(node)),
{
    assert(nodes.push(node).drop_last() =~= nodes);
}

fn append_child(stack: &mut Vec<Frame>, node: MiniMessageNode)
    requires
        old(stack)@.len() > 0,
    ensures
        stack_model(final(stack)@) == add_child(stack_model(old(stack)@), node@),
        final(stack)@.len() == old(stack)@.len(),
{
    let mut top = stack.pop().unwrap();
    proof {
        lemma_stack_model_pop(old(stack)@);
        assert(old(stack)@.drop_last() =~= stack@);
        lemma_node_models_push(top.children@, node);
    }
    top.children.push(node);
    stack.push(top);
    proof {
        lemma_stack_model_push(old(stack)@.drop_last(), top);
    }
}

fn push_text(stack: &mut Vec<Frame>, buffer: &mut String)
    requires
        old(stack)@.len() > 0,
    ensures
        stack_model(final(stack)@) == flush_text(stack_model(old(stack)@), old(buffer)@),
        final(stack)@.len() == old(stack)@.len(),
        final(buffer)@ == Seq::<char>::empty(),
{
    if !buffer.as_str().is_empty() {
        let mut text = String::new();
        std::mem::swap(&mut text, buffer);
        append_child(stack, MiniMessageNode::Text { text });
    }
}

/// Pops one level of the stack, attaching it to its parent.
fn pop_frame(stack: &mut Vec<Frame>)
    requires
        old(stack)@.len() > 0,
    ensures
        stack_model(final(stack)@) == pop_one(stack_model(old(stack)@)),
        final(stack)@.len() == if old(stack)@.len() > 1 {
            old(stack)@.len() - 1
        } else {
            old(stack)@.len() as int
        },
{
    if stack.len() <= 1 {
        return ;
    }
    let finished = stack.pop().unwrap();
    proof {
        lemma_stack_model_pop(old(stack)@);
        assert(old(stack)@.drop_last() =~= stack@);
    }
    let node = MiniMessageNode::Tag {
        name: finished.name,
        arguments: finished.arguments,
        raw: finished.raw,
        children: finished.children,
    };
    append_child(stack, node);
}

fn collapse_to_root(stack: &mut Vec<Frame>)
    requires
        old(stack)@.len() > 0,
    ensures
        stack_model(final(stack)@) == collapse(stack_model(old(stack)@)),
        final(stack)@.len() == 1,
{
    while stack.len() > 1
        invariant
            stack@.len() > 0,
            collapse(stack_model(old(stack)@)) == collapse(stack_model(stack@)),
        decreases stack@.len(),
    {
        pop_frame(stack);
    }
}

fn closes_tag(open: &str, name: &str) -> (closed: bool)
    ensures
        closed == closes(open@, name@),
{
    if str_equal(open, name) {
        return true;
    }
    match (decoration_of(open), decoration_of(name)) {
        (Some(first), Some(second)) => str_equal(first, second),
        (None, None) => false,
        _ => false,
    }
}

/// The position of the innermost open tag that a closing tag names.
fn find_closed(stack: &Vec<Frame>, name: &str) -> (target: Option<usize>)
    ensures
        match target {
            Some(position) => innermost_closed(stack_model(stack@), name@, stack@.len() as int)
                == Some(position as int),
            None => innermost_closed(stack_model(stack@), name@, stack@.len() as int) is None,
        },
{
    let ghost model = stack_model(stack@);
    let mut count: usize = stack.len();
    while count > 0
        invariant
            0 <= count <= stack@.len(),
            model == stack_model(stack@),
            innermost_closed(model, name@, stack@.len() as int) == innermost_closed(
                model,
                name@,
                count as int,
            ),
        decreases count,
    {
        proof {
            assert(model[count - 1] == frame_model(stack@[count - 1]));
        }
        if closes_tag(stack[count - 1].name.as_str(), name) {
            return Some(count - 1);
        }
        count -= 1;
    }
    None
}

/// Closes the innermost tag with this name, or the innermost tag of any name when the
/// closing tag names nothing that is open.
fn close_tag(stack: &mut Vec<Frame>, buffer: &mut String, name: &str)
    requires
        old(stack)@.len() > 0,
    ensures
        stack_model(final(stack)@) == close_tag_model(
            stack_model(old(stack)@),
            old(buffer)@,
            name@,
        ),
        final(stack)@.len() > 0,
        final(buffer)@ == Seq::<char>::empty(),
{
    push_text(stack, buffer);
    let ghost flushed = stack_model(stack@);
    let target = find_closed(stack, name);
    match target {
        Some(position) if position > 0 => {
            while stack.len() > position
                invariant
                    position > 0,
                    stack@.len() > 0,
                    pop_to(flushed, position as int) == pop_to(stack_model(stack@), position as int),
                decreases stack@.len(),
            {
                pop_frame(stack);
            }
        },
        _ => pop_frame(stack),
    }
}

fn copy_from(characters: &Vec<char>, start: usize) -> (tail: Vec<char>)
    requires
        start <= characters@.len(),
    ensures
        tail@ == characters@.skip(start as int),
{
    let mut tail: Vec<char> = Vec::new();
    let mut index: usize = start;
    while index < characters.len()
        invariant
            start <= index <= characters@.len(),
            tail@ == characters@.subrange(start as int, index as int),
        decreases characters@.len() - index,
    {
        tail.push(characters[index]);
        index += 1;
        proof {
            assert(tail@ =~= characters@.subrange(start as int, index as int));
        }
    }
    proof {
        assert(tail@ =~= characters@.skip(start as int));
    }
    tail
}

/// The inside of a tag with its leading slashes removed.
fn without_slashes(body: &Vec<char>) -> (trimmed: Vec<char>)
    ensures
        trimmed@ == trim_slashes(body@),
{
    let mut start: usize = 0;
    proof {
        assert(body@.skip(0) =~= body@);
    }
    while start < body.len() && body[start] == '/'
        invariant
            0 <= start <= body@.len(),
            trim_slashes(body@) == trim_slashes(body@.skip(start as int)),
        decreases body@.len() - start,
    {
        proof {
            assert(body@.skip(start as int).drop_first() =~= body@.skip(start + 1));
        }
        start += 1;
    }
    copy_from(body, start)
}

proof fn lemma_strings_model_remove_first(strings: Seq<String>)
    requires
        strings.len() > 0,
    ensures
        strings_model(strings.remove(0)) == strings_model(strings).drop_first(),
{
    assert(strings_model(strings.remove(0)) =~= strings_model(strings).drop_first());
}

/// The tag as written: its inside between angle brackets.
fn raw_tag(body: &Vec<char>) -> (raw: String)
    ensures
        raw@ == "<"@ + body@ + ">"@,
{
    proof {
        reveal_strlit("<");
        reveal_strlit(">");
    }
    let mut raw = String::new();
    push_char(&mut raw, '<');
    let mut index: usize = 0;
    while index < body.len()
        invariant
            0 <= index <= body@.len(),
            raw@ == seq!['<'] + body@.take(index as int),
        decreases body@.len() - index,
    {
        push_char(&mut raw, body[index]);
        index += 1;
        proof {
            assert(raw@ =~= seq!['<'] + body@.take(index as int));
        }
    }
    push_char(&mut raw, '>');
    proof {
        assert(body@.take(index as int) =~= body@);
        assert(raw@ =~= "<"@ + body@ + ">"@);
    }
    raw
}

/// Applies a complete tag, whose inside is `body`, to the stack of open tags.
fn handle_tag(stack: &mut Vec<Frame>, buffer: &mut String, body: &Vec<char>)
    requires
        old(stack)@.len() > 0,
    ensures
        stack_model(final(stack)@) == after_tag(stack_model(old(stack)@), old(buffer)@, body@),
        final(stack)@.len() > 0,
        final(buffer)@ == Seq::<char>::empty(),
{
    let closing = body.len() > 0 && body[0] == '/';
    let trimmed = without_slashes(body);
    let mut arguments = split_arguments(&trimmed);
    let ghost parts = split_arguments_of(trim_slashes(body@));
    proof {
        assert(strings_model(arguments@) =~= parts);
    }
    let ghost all_arguments = arguments@;
    let first = arguments.remove(0);
    proof {
        lemma_strings_model_remove_first(all_arguments);
    }
    let name = lowered_string(&chars_of(first.as_str()));
    if closing {
        close_tag(stack, buffer, name.as_str());
    } else if str_equal(name.as_str(), "reset") {
        push_text(stack, buffer);
        collapse_to_root(stack);
    } else {
        push_text(stack, buffer);
        let raw = raw_tag(body);
        if is_inline_tag(name.as_str()) {
            let node = MiniMessageNode::Tag { name, arguments, raw, children: Vec::new() };
            proof {
                assert(node_models(Seq::<MiniMessageNode>::empty()) =~= Seq::<NodeModel>::empty());
            }
            append_child(stack, node);
        } else {
            let frame = Frame { name, arguments, raw, children: Vec::new() };
            proof {
                assert(node_models(Seq::<MiniMessageNode>::empty()) =~= Seq::<NodeModel>::empty());
                lemma_stack_model_push(stack@, frame);
            }
            stack.push(frame);
        }
    }
}

/// Parses MiniMessage markup into a node tree.
///
/// Unknown tags are kept, to be shown as literal text: a message is never rejected for a
/// typo, it just shows the typo.
fn parse_nodes(input: &str) -> (nodes: Vec<MiniMessageNode>)
    ensures
        node_models(nodes@) == document_nodes(input@),
{
    let characters = chars_of(input);
    let mut stack: Vec<Frame> = Vec::new();
    let root = Frame {
        name: String::new(),
        arguments: Vec::new(),
        raw: String::new(),
        children: Vec::new(),
    };
    proof {
        assert(node_models(Seq::<MiniMessageNode>::empty()) =~= Seq::<NodeModel>::empty());
        assert(strings_model(Seq::<String>::empty()) =~= Seq::<Seq<char>>::empty());
        lemma_stack_model_push(stack@, root);
        assert(stack_model(Seq::<Frame>::empty()) =~= Seq::<FrameModel>::empty());
    }
    stack.push(root);
    let mut buffer = String::new();
    let mut index: usize = 0;
    proof {
        assert(stack_model(stack@) =~= seq![root_frame()]);
    }
    while index < characters.len()
        invariant
            0 <= index <= characters@.len(),
            characters@ == input@,
            stack@.len() > 0,
            document_nodes(input@) == parse_from(
                input@,
                index as int,
                stack_model(stack@),
                buffer@,
            ),
        decreases characters@.len() - index,
    {
        let character = characters[index];
        if character == '\\' && characters.len() - index > 1 && (characters[index + 1] == '<'
            || characters[index + 1] == '>') {
            push_char(&mut buffer, characters[index + 1]);
            index += 2;
        } else if character != '<' {
            push_char(&mut buffer, character);
            index += 1;
        } else {
            match read_tag_body(&characters, index) {
                None => {
                    push_char(&mut buffer, character);
                    index += 1;
                },
                Some((body, after)) => {
                    proof {
                        lemma_tag_body_from_bounds(characters@, index + 1, Seq::empty(), None);
                    }
                    handle_tag(&mut stack, &mut buffer, &body);
                    index = after;
                },
            }
        }
    }
    push_text(&mut stack, &mut buffer);
    collapse_to_root(&mut stack);
    let ghost collapsed = stack@;
    let root = stack.pop().unwrap();
    proof {
        lemma_stack_model_pop(collapsed);
    }
    root.children
}

/// Whether every argument is shorter than `bound`.
pub open spec fn arguments_short(arguments: Seq<Seq<char>>, bound: int) -> bool {
    forall|i: int| 0 <= i < arguments.len() ==> #[trigger] arguments[i].len() < bound
}

/// Whether every tag argument in a node is shorter than `bound`.
pub open spec fn node_short(node: NodeModel, bound: int) -> bool
    decreases node,
{
    match node {
        NodeModel::Text(_) => true,
        NodeModel::Tag(_, arguments, _, children) => arguments_short(arguments, bound)
            && nodes_short(children, bound),
    }
}

/// Whether every tag argument in some nodes is shorter than `bound`.
pub open spec fn nodes_short(nodes: Seq<NodeModel>, bound: int) -> bool
    decreases nodes,
{
    if nodes.len() == 0 {
        true
    } else {
        nodes_short(nodes.drop_last(), bound) && node_short(nodes.last(), bound)
    }
}

/// Whether every tag argument on a stack of open tags is shorter than `bound`.
pub open spec fn frames_short(stack: Seq<FrameModel>, bound: int) -> bool {
    &&& stack.len() > 0
    &&& forall|i: int|
        0 <= i < stack.len() ==> arguments_short(#[trigger] stack[i].arguments, bound)
            && nodes_short(stack[i].children, bound)
}

proof fn lemma_add_child_short(stack: Seq<FrameModel>, node: NodeModel, bound: int)
    requires
        frames_short(stack, bound),
        node_short(node, bound),
    ensures
        frames_short(add_child(stack, node), bound),
        add_child(stack, node).len() == stack.len(),
{
    let result = add_child(stack, node);
    let top = stack.last();
    assert(top.children.push(node).drop_last() =~= top.children);
    assert forall|i: int| 0 <= i < result.len() implies arguments_short(
        #[trigger] result[i].arguments,
        bound,
    ) && nodes_short(result[i].children, bound) by {
        if i < result.len() - 1 {
            assert(result[i] == stack[i]);
        }
    }
}

proof fn lemma_flush_short(stack: Seq<FrameModel>, buffer: Seq<char>, bound: int)
    requires
        frames_short(stack, bound),
    ensures
        frames_short(flush_text(stack, buffer), bound),
        flush_text(stack, buffer).len() == stack.len(),
{
    if buffer.len() > 0 {
        lemma_add_child_short(stack, NodeModel::Text(buffer), bound);
    }
}

proof fn lemma_pop_one_short(stack: Seq<FrameModel>, bound: int)
    requires
        frames_short(stack, bound),
    ensures
        frames_short(pop_one(stack), bound),
        pop_one(stack).len() == if stack.len() > 1 {
            stack.len() - 1
        } else {
            stack.len() as int
        },
{
    if stack.len() > 1 {
        let rest = stack.drop_last();
        assert forall|i: int| 0 <= i < rest.len() implies arguments_short(
            #[trigger] rest[i].arguments,
            bound,
        ) && nodes_short(rest[i].children, bound) by {
            assert(rest[i] == stack[i]);
        }
        assert(arguments_short(stack[stack.len() - 1].arguments, bound));
        lemma_add_child_short(rest, frame_node(stack.last()), bound);
    }
}

proof fn lemma_collapse_short(stack: Seq<FrameModel>, bound: int)
    requires
        frames_short(stack, bound),
    ensures
        frames_short(collapse(stack), bound),
        collapse(stack).len() == 1,
    decreases stack.len(),
{
    if stack.len() > 1 {
        lemma_pop_one_short(stack, bound);
        lemma_collapse_short(pop_one(stack), bound);
    }
}

proof fn lemma_pop_to_short(stack: Seq<FrameModel>, depth: int, bound: int)
    requires
        frames_short(stack, bound),
    ensures
        frames_short(pop_to(stack, depth), bound),
    decreases stack.len(),
{
    if depth > 0 && stack.len() > depth {
        lemma_pop_one_short(stack, bound);
        lemma_pop_to_short(pop_one(stack), depth, bound);
    }
}

proof fn lemma_split_scan_bounds(body: Seq<char>)
    ensures
        forall|i: int|
            0 <= i < split_scan(body).0.len() ==> #[trigger] split_scan(body).0[i].len()
                <= body.len(),
        split_scan(body).1.len() <= body.len(),
    decreases body.len(),
{
    if body.len() > 0 {
        lemma_split_scan_bounds(body.drop_last());
        let (parts, current, quote) = split_scan(body.drop_last());
        assert forall|i: int|
            0 <= i < split_scan(body).0.len() implies #[trigger] split_scan(body).0[i].len()
            <= body.len() by {
            if i < parts.len() {
                assert(split_scan(body).0[i] == parts[i]);
            }
        }
    }
}

proof fn lemma_trim_slashes_shorter(text: Seq<char>)
    ensures
        trim_slashes(text).len() <= text.len(),
    decreases text.len(),
{
    if text.len() > 0 && text[0] == '/' {
        lemma_trim_slashes_shorter(text.drop_first());
    }
}

/// The arguments of a tag are never longer than its inside.
proof fn lemma_arguments_shorter(body: Seq<char>)
    ensures
        split_arguments_of(trim_slashes(body)).len() > 0,
        forall|i: int|
            0 <= i < split_arguments_of(trim_slashes(body)).len() ==> #[trigger] split_arguments_of(
                trim_slashes(body),
            )[i].len() <= body.len(),
{
    let trimmed = trim_slashes(body);
    lemma_trim_slashes_shorter(body);
    lemma_split_scan_bounds(trimmed);
    let (parts, current, _) = split_scan(trimmed);
    assert forall|i: int|
        0 <= i < split_arguments_of(trimmed).len() implies #[trigger] split_arguments_of(
        trimmed,
    )[i].len() <= body.len() by {
        if i < parts.len() {
            assert(split_arguments_of(trimmed)[i] == parts[i]);
        }
    }
}

proof fn lemma_close_short(stack: Seq<FrameModel>, buffer: Seq<char>, name: Seq<char>, bound: int)
    requires
        frames_short(stack, bound),
    ensures
        frames_short(close_tag_model(stack, buffer, name), bound),
{
    lemma_flush_short(stack, buffer, bound);
    let flushed = flush_text(stack, buffer);
    match innermost_closed(flushed, name, flushed.len() as int) {
        Some(position) => if position > 0 {
            lemma_pop_to_short(flushed, position, bound);
        } else {
            lemma_pop_one_short(flushed, bound);
        },
        None => lemma_pop_one_short(flushed, bound),
    }
}

proof fn lemma_open_short(stack: Seq<FrameModel>, frame: FrameModel, bound: int)
    requires
        frames_short(stack, bound),
        arguments_short(frame.arguments, bound),
        frame.children.len() == 0,
    ensures
        frames_short(stack.push(frame), bound),
        frames_short(add_child(stack, frame_node(frame)), bound),
{
    assert(nodes_short(frame.children, bound));
    lemma_add_child_short(stack, frame_node(frame), bound);
    let pushed = stack.push(frame);
    assert forall|i: int| 0 <= i < pushed.len() implies arguments_short(
        #[trigger] pushed[i].arguments,
        bound,
    ) && nodes_short(pushed[i].children, bound) by {
        if i < stack.len() {
            assert(pushed[i] == stack[i]);
        }
    }
}

proof fn lemma_after_tag_short(stack: Seq<FrameModel>, buffer: Seq<char>, body: Seq<char>, bound: int)
    requires
        frames_short(stack, bound),
        body.len() < bound,
    ensures
        frames_short(after_tag(stack, buffer, body), bound),
{
    let arguments = split_arguments_of(trim_slashes(body));
    let name = ascii_lowered(arguments[0]);
    lemma_arguments_shorter(body);
    lemma_flush_short(stack, buffer, bound);
    let flushed = flush_text(stack, buffer);
    if body.len() > 0 && body[0] == '/' {
        lemma_close_short(stack, buffer, name, bound);
    } else if name == "reset"@ {
        lemma_collapse_short(flushed, bound);
    } else {
        let frame = FrameModel {
            name: name,
            arguments: arguments.drop_first(),
            raw: "<"@ + body + ">"@,
            children: Seq::empty(),
        };
        assert(arguments_short(arguments.drop_first(), bound)) by {
            assert forall|i: int| 0 <= i < arguments.drop_first().len() implies #[trigger] arguments.drop_first()[i].len() < bound by {
                assert(arguments.drop_first()[i] == arguments[i + 1]);
            }
        }
        lemma_open_short(flushed, frame, bound);
    }
}

/// Every tag argument of a parsed document is shorter than the document.
pub proof fn lemma_parse_from_short(
    text: Seq<char>,
    index: int,
    stack: Seq<FrameModel>,
    buffer: Seq<char>,
)
    requires
        frames_short(stack, text.len() as int),
    ensures
        nodes_short(parse_from(text, index, stack, buffer), text.len() as int),
    decreases text.len() - index,
{
    let bound = text.len() as int;
    if index < 0 || index >= text.len() {
        lemma_flush_short(stack, buffer, bound);
        lemma_collapse_short(flush_text(stack, buffer), bound);
        let done = collapse(flush_text(stack, buffer));
        assert(arguments_short(done[0].arguments, bound) && nodes_short(done[0].children, bound));
    } else {
        let c = text[index];
        if c == '\\' && index + 1 < text.len() && (text[index + 1] == '<' || text[index + 1]
            == '>') {
            lemma_parse_from_short(text, index + 2, stack, buffer.push(text[index + 1]));
        } else if c != '<' {
            lemma_parse_from_short(text, index + 1, stack, buffer.push(c));
        } else {
            match tag_body(text, index) {
                None => lemma_parse_from_short(text, index + 1, stack, buffer.push(c)),
                Some((body, after)) => {
                    lemma_tag_body_from_bounds(text, index + 1, Seq::empty(), None);
                    lemma_after_tag_short(stack, buffer, body, bound);
                    lemma_parse_from_short(
                        text,
                        after,
                        after_tag(stack, buffer, body),
                        Seq::empty(),
                    );
                },
            }
        }
    }
}

/// Every tag argument of a parsed document is shorter than the document.
pub proof fn lemma_document_short(text: Seq<char>)
    ensures
        nodes_short(document_nodes(text), text.len() as int),
{
    let root = seq![root_frame()];
    assert(nodes_short(Seq::<NodeModel>::empty(), text.len() as int));
    assert(frames_short(root, text.len() as int));
    lemma_parse_from_short(text, 0, root, Seq::empty());
}

/// The literal text held by the open tags of a stack.
pub open spec fn frames_text_length(stack: Seq<FrameModel>) -> nat
    decreases stack.len(),
{
    if stack.len() == 0 {
        0
    } else {
        frames_text_length(stack.drop_last()) + nodes_text_length(stack.last().children)
    }
}

proof fn lemma_nodes_text_length_push(nodes: Seq<NodeModel>, node: NodeModel)
    ensures
        nodes_text_length(nodes.push(node)) == nodes_text_length(nodes) + node_text_length(node),
{
    assert(nodes.push(node).drop_last() =~= nodes);
}

proof fn lemma_add_child_text(stack: Seq<FrameModel>, node: NodeModel)
    requires
        stack.len() > 0,
    ensures
        frames_text_length(add_child(stack, node)) == frames_text_length(stack) + node_text_length(
            node,
        ),
{
    let top = stack.last();
    lemma_nodes_text_length_push(top.children, node);
    assert(add_child(stack, node).drop_last() =~= stack.drop_last());
}

proof fn lemma_flush_text_length(stack: Seq<FrameModel>, buffer: Seq<char>)
    requires
        stack.len() > 0,
    ensures
        frames_text_length(flush_text(stack, buffer)) == frames_text_length(stack) + buffer.len(),
        flush_text(stack, buffer).len() == stack.len(),
{
    if buffer.len() > 0 {
        lemma_add_child_text(stack, NodeModel::Text(buffer));
    }
}

proof fn lemma_pop_one_text(stack: Seq<FrameModel>)
    requires
        stack.len() > 0,
    ensures
        frames_text_length(pop_one(stack)) == frames_text_length(stack),
        pop_one(stack).len() > 0,
{
    if stack.len() > 1 {
        lemma_add_child_text(stack.drop_last(), frame_node(stack.last()));
    }
}

proof fn lemma_collapse_text(stack: Seq<FrameModel>)
    requires
        stack.len() > 0,
    ensures
        frames_text_length(collapse(stack)) == frames_text_length(stack),
        collapse(stack).len() == 1,
    decreases stack.len(),
{
    if stack.len() > 1 {
        lemma_pop_one_text(stack);
        lemma_collapse_text(pop_one(stack));
    }
}

proof fn lemma_pop_to_text(stack: Seq<FrameModel>, depth: int)
    requires
        stack.len() > 0,
    ensures
        frames_text_length(pop_to(stack, depth)) == frames_text_length(stack),
        pop_to(stack, depth).len() > 0,
    decreases stack.len(),
{
    if depth > 0 && stack.len() > depth {
        lemma_pop_one_text(stack);
        lemma_pop_to_text(pop_one(stack), depth);
    }
}

proof fn lemma_after_tag_text(stack: Seq<FrameModel>, buffer: Seq<char>, body: Seq<char>)
    requires
        stack.len() > 0,
    ensures
        frames_text_length(after_tag(stack, buffer, body)) == frames_text_length(stack)
            + buffer.len(),
        after_tag(stack, buffer, body).len() > 0,
{
    let arguments = split_arguments_of(trim_slashes(body));
    let name = ascii_lowered(arguments[0]);
    lemma_flush_text_length(stack, buffer);
    let flushed = flush_text(stack, buffer);
    if body.len() > 0 && body[0] == '/' {
        match innermost_closed(flushed, name, flushed.len() as int) {
            Some(position) => if position > 0 {
                lemma_pop_to_text(flushed, position);
            } else {
                lemma_pop_one_text(flushed);
            },
            None => lemma_pop_one_text(flushed),
        }
    } else if name == "reset"@ {
        lemma_collapse_text(flushed);
    } else {
        let frame = FrameModel {
            name: name,
            arguments: arguments.drop_first(),
            raw: "<"@ + body + ">"@,
            children: Seq::empty(),
        };
        if is_inline_name(name) {
            lemma_add_child_text(flushed, frame_node(frame));
        } else {
            assert(flushed.push(frame).drop_last() =~= flushed);
        }
    }
}

/// A document never holds more literal text than characters were read.
proof fn lemma_parse_from_text(
    text: Seq<char>,
    index: int,
    stack: Seq<FrameModel>,
    buffer: Seq<char>,
)
    requires
        stack.len() > 0,
        0 <= index <= text.len(),
    ensures
        nodes_text_length(parse_from(text, index, stack, buffer)) <= frames_text_length(stack)
            + buffer.len() + (text.len() - index),
    decreases text.len() - index,
{
    if index >= text.len() {
        lemma_flush_text_length(stack, buffer);
        lemma_collapse_text(flush_text(stack, buffer));
        let done = collapse(flush_text(stack, buffer));
        assert(done.drop_last().len() == 0);
    } else {
        let c = text[index];
        if c == '\\' && index + 1 < text.len() && (text[index + 1] == '<' || text[index + 1]
            == '>') {
            lemma_parse_from_text(text, index + 2, stack, buffer.push(text[index + 1]));
        } else if c != '<' {
            lemma_parse_from_text(text, index + 1, stack, buffer.push(c));
        } else {
            match tag_body(text, index) {
                None => lemma_parse_from_text(text, index + 1, stack, buffer.push(c)),
                Some((body, after)) => {
                    lemma_tag_body_from_bounds(text, index + 1, Seq::empty(), None);
                    lemma_after_tag_text(stack, buffer, body);
                    lemma_parse_from_text(text, after, after_tag(stack, buffer, body), Seq::empty());
                },
            }
        }
    }
}

/// A parsed document holds no more literal text than the markup has characters.
pub proof fn lemma_document_text_bounded(text: Seq<char>)
    ensures
        nodes_text_length(document_nodes(text)) <= text.len(),
{
    let root = seq![root_frame()];
    assert(frames_text_length(root) == 0) by {
        assert(root.drop_last().len() == 0);
        assert(frames_text_length(root.drop_last()) == 0);
        assert(root.last() == root_frame());
        assert(nodes_text_length(root.last().children) == 0);
    }
    lemma_parse_from_text(text, 0, root, Seq::empty());
}

/// Whether a component is a bare piece of text with nothing hanging off it.
pub open spec fn is_text_leaf(component: ComponentModel) -> bool {
    component.content is Text && component.children.len() == 0
}

/// Whether a component carries no text of its own, whatever its children carry.
pub open spec fn has_empty_content(component: ComponentModel) -> bool {
    component.content matches ContentModel::Text(text) && text.len() == 0
}

/// The text a component carries itself, if it is text.
pub open spec fn content_text(component: ComponentModel) -> Seq<char> {
    match component.content {
        ContentModel::Text(text) => text,
        _ => Seq::empty(),
    }
}

/// Neighbouring bare texts with the same style joined into one.
pub open spec fn join_adjacent(components: Seq<ComponentModel>) -> Seq<ComponentModel>
    decreases components.len(),
{
    if components.len() == 0 {
        Seq::empty()
    } else {
        let joined = join_adjacent(components.drop_last());
        let next = components.last();
        if joined.len() > 0 && is_text_leaf(joined.last()) && is_text_leaf(next)
            && joined.last().style == next.style {
            let previous = joined.last();
            joined.drop_last().push(
                ComponentModel {
                    content: ContentModel::Text(content_text(previous) + content_text(next)),
                    style: previous.style,
                    children: previous.children,
                },
            )
        } else {
            joined.push(next)
        }
    }
}

/// The component a tag with this style becomes around the components it encloses.
///
/// A leading child that is bare unstyled text becomes the tag's own text, and an only
/// child that is bare text merges its style upward.
pub open spec fn assemble_model(style: StyleModel, children: Seq<ComponentModel>) -> ComponentModel {
    let joined = join_adjacent(children);
    let absorbs_plain = joined.len() > 0 && is_text_leaf(joined[0]) && joined[0].style
        == empty_style_model();
    let absorbs_only = joined.len() == 1 && is_text_leaf(joined[0]);
    if absorbs_plain || absorbs_only {
        ComponentModel {
            content: joined[0].content,
            style: overlay_model(style, joined[0].style),
            children: joined.drop_first(),
        }
    } else {
        ComponentModel { content: ContentModel::Text(Seq::empty()), style, children: joined }
    }
}

/// A component that contributes nothing of its own and exists to group its children.
pub open spec fn wrap_model(children: Seq<ComponentModel>) -> ComponentModel {
    ComponentModel {
        content: ContentModel::Text(Seq::empty()),
        style: empty_style_model(),
        children,
    }
}

/// The empty style with only a colour set.
pub open spec fn color_style(color: TextColor) -> StyleModel {
    StyleModel { color: Some(color), ..empty_style_model() }
}

/// A colour ramp spread over the characters a tag encloses.
pub struct SpreadModel {
    pub stops: Seq<TextColor>,
    pub rainbow: bool,
    pub total: int,
}

/// One channel of a gradient in double arithmetic: `from + (to - from) * local`, plus
/// one half, floored and cast to a byte.
pub open spec fn blend(from: int, to: int, local: Double) -> u8 {
    let spread = difference_of(from_integer(to), from_integer(from));
    let shifted = sum_of(sum_of(from_integer(from), product_of(spread, local)), one_half());
    clamped_floor(shifted, 255) as u8
}

/// The colour at `position` of a gradient over `total` characters through `stops`,
/// computed in double arithmetic: the position's progress along the ramp picks a pair of
/// neighbouring stops and the fraction of the way between them.
pub open spec fn gradient_color_at(stops: Seq<TextColor>, position: int, total: int) -> TextColor {
    if stops.len() == 0 {
        TextColor::Named(NamedColor::White)
    } else if stops.len() == 1 || total <= 1 {
        stops[0]
    } else {
        let progress = quotient_of(from_integer(position), from_integer(total - 1));
        let scaled = product_of(progress, from_integer(stops.len() - 1));
        let index = clamped_floor(scaled, stops.len() - 2);
        let local = difference_of(scaled, from_integer(index));
        let start = text_color_rgb(stops[index]);
        let end = text_color_rgb(stops[index + 1]);
        TextColor::Rgb(
            RgbColor {
                red: blend(start.red as int, end.red as int, local),
                green: blend(start.green as int, end.green as int, local),
                blue: blend(start.blue as int, end.blue as int, local),
            },
        )
    }
}

/// The colour at `position` of a rainbow over `total` characters, in double arithmetic:
/// the hue picks one of six sectors and the offset into it, and the rising and falling
/// channels are each floored on their own.
pub open spec fn rainbow_color_at(position: int, total: int) -> TextColor {
    let hue = if total == 0 {
        zero()
    } else {
        quotient_of(from_integer(position), from_integer(total))
    };
    let turned = product_of(hue, from_integer(6));
    let sector = clamped_floor(turned, u64::MAX as int);
    let offset = difference_of(turned, from_integer(sector));
    let rising = clamped_floor(product_of(offset, from_integer(255)), 255) as u8;
    let falling = clamped_floor(
        product_of(difference_of(from_integer(1), offset), from_integer(255)),
        255,
    ) as u8;
    let which = clamped_floor(turned, u32::MAX as int) % 6;
    TextColor::Rgb(
        if which == 0 {
            RgbColor { red: 255, green: rising, blue: 0 }
        } else if which == 1 {
            RgbColor { red: falling, green: 255, blue: 0 }
        } else if which == 2 {
            RgbColor { red: 0, green: 255, blue: rising }
        } else if which == 3 {
            RgbColor { red: 0, green: falling, blue: 255 }
        } else if which == 4 {
            RgbColor { red: rising, green: 0, blue: 255 }
        } else {
            RgbColor { red: 255, green: 0, blue: falling }
        },
    )
}

pub open spec fn spread_color(spread: SpreadModel, position: int) -> TextColor {
    if spread.rainbow {
        rainbow_color_at(position, spread.total)
    } else {
        gradient_color_at(spread.stops, position, spread.total)
    }
}

/// One character, coloured.
pub open spec fn colored_char(character: char, color: TextColor) -> ComponentModel {
    ComponentModel {
        content: ContentModel::Text(seq![character]),
        style: color_style(color),
        children: Seq::empty(),
    }
}

/// Each character of `text`, coloured by the ramp from position `start` on.
pub open spec fn spread_run(text: Seq<char>, spread: SpreadModel, start: int) -> Seq<ComponentModel> {
    Seq::new(text.len(), |i: int| colored_char(text[i], spread_color(spread, start + i)))
}

/// The colours among a tag's arguments, in order.
pub open spec fn spread_stops(arguments: Seq<Seq<char>>) -> Seq<TextColor>
    decreases arguments.len(),
{
    if arguments.len() == 0 {
        Seq::empty()
    } else {
        let before = spread_stops(arguments.drop_last());
        match color_for(arguments.last()) {
            Some(color) => before.push(color),
            None => before,
        }
    }
}

/// The ramp a `<gradient>` or `<rainbow>` tag spreads over what it encloses.
pub open spec fn spread_for(name: Seq<char>, arguments: Seq<Seq<char>>, children: Seq<NodeModel>) -> SpreadModel {
    SpreadModel {
        stops: if spread_stops(arguments).len() == 0 {
            seq![TextColor::Named(NamedColor::White)]
        } else {
            spread_stops(arguments)
        },
        rainbow: name == "rainbow"@,
        total: nodes_text_length(children) as int,
    }
}

/// The parts a colour-spreading tag has built once its enclosed nodes are read.
pub open spec fn finish_spread(parts: Seq<ComponentModel>, ramped: Seq<ComponentModel>) -> ComponentModel {
    let all = if ramped.len() > 0 {
        parts.push(wrap_model(ramped))
    } else {
        parts
    };
    if all.len() == 1 {
        all[0]
    } else {
        wrap_model(all)
    }
}

/// The component an inserting tag stands for.
pub open spec fn inline_component_for(name: Seq<char>, arguments: Seq<Seq<char>>) -> Option<ComponentModel> {
    if name == "newline"@ || name == "br"@ {
        Some(text_model("\n"@))
    } else if name == "key"@ {
        if arguments.len() > 0 {
            Some(ComponentModel {
                content: ContentModel::Keybind(arguments[0]),
                style: empty_style_model(),
                children: Seq::empty(),
            })
        } else {
            None
        }
    } else if name == "lang"@ || name == "translate"@ || name == "tr"@ {
        if arguments.len() > 0 {
            Some(ComponentModel {
                content: ContentModel::Translatable(arguments[0], Seq::empty()),
                style: empty_style_model(),
                children: Seq::empty(),
            })
        } else {
            None
        }
    } else {
        None
    }
}

/// The second argument, or nothing.
pub open spec fn second_argument(arguments: Seq<Seq<char>>) -> Seq<char> {
    if arguments.len() > 1 {
        arguments[1]
    } else {
        Seq::empty()
    }
}

/// Whether a tag asks for hover text.
pub open spec fn wants_hover(name: Seq<char>, arguments: Seq<Seq<char>>) -> bool {
    name == "hover"@ && arguments.len() > 0 && arguments[0] == "show_text"@
}

/// The style a click, hover, font or insertion tag applies, given the hover text it
/// parses to.
pub open spec fn click_or_hover_for(
    name: Seq<char>,
    arguments: Seq<Seq<char>>,
    hover: Option<ComponentModel>,
) -> Option<StyleModel> {
    if name == "click"@ {
        if arguments.len() == 0 {
            None
        } else {
            let action = arguments[0];
            let value = second_argument(arguments);
            let click = if action == "open_url"@ {
                Some(ClickModel::OpenUrl(value))
            } else if action == "run_command"@ {
                Some(ClickModel::RunCommand(value))
            } else if action == "suggest_command"@ {
                Some(ClickModel::SuggestCommand(value))
            } else if action == "copy_to_clipboard"@ {
                Some(ClickModel::CopyToClipboard(value))
            } else {
                None
            };
            match click {
                Some(event) => Some(StyleModel { click_event: Some(event), ..empty_style_model() }),
                None => None,
            }
        }
    } else if name == "hover"@ {
        if wants_hover(name, arguments) && hover is Some {
            Some(StyleModel { hover_text: Some(Box::new(hover->0)), ..empty_style_model() })
        } else {
            None
        }
    } else if name == "font"@ {
        if arguments.len() > 0 {
            Some(StyleModel { font: Some(arguments[0]), ..empty_style_model() })
        } else {
            None
        }
    } else if name == "insertion"@ {
        if arguments.len() > 0 {
            Some(StyleModel { insertion: Some(arguments[0]), ..empty_style_model() })
        } else {
            None
        }
    } else {
        None
    }
}

/// The style a styling tag applies, or `None` when the tag is not one.
pub open spec fn style_for_tag_model(
    name: Seq<char>,
    arguments: Seq<Seq<char>>,
    hover: Option<ComponentModel>,
) -> Option<StyleModel> {
    if color_for(name) is Some {
        Some(color_style(color_for(name)->0))
    } else if (name == "color"@ || name == "colour"@ || name == "c"@) && arguments.len() > 0
        && color_for(arguments[0]) is Some {
        Some(color_style(color_for(arguments[0])->0))
    } else if decoration_for(name) == Some("bold"@) {
        Some(StyleModel { bold: Some(true), ..empty_style_model() })
    } else if decoration_for(name) == Some("italic"@) {
        Some(StyleModel { italic: Some(true), ..empty_style_model() })
    } else if decoration_for(name) == Some("underlined"@) {
        Some(StyleModel { underlined: Some(true), ..empty_style_model() })
    } else if decoration_for(name) == Some("strikethrough"@) {
        Some(StyleModel { strikethrough: Some(true), ..empty_style_model() })
    } else if decoration_for(name) == Some("obfuscated"@) {
        Some(StyleModel { obfuscated: Some(true), ..empty_style_model() })
    } else {
        click_or_hover_for(name, arguments, hover)
    }
}

/// The components a list of nodes builds.
pub open spec fn build_nodes_model(nodes: Seq<NodeModel>, bound: int) -> Seq<ComponentModel>
    decreases bound, 0int, nodes,
{
    if nodes.len() == 0 {
        Seq::empty()
    } else {
        let before = build_nodes_model(nodes.drop_last(), bound);
        match nodes.last() {
            NodeModel::Text(text) => before.push(text_model(text)),
            NodeModel::Tag(..) => before + build_tag_model(nodes.last(), bound),
        }
    }
}

/// The components a tag builds: what it inserts, its coloured ramp, its styled content,
/// or, when it is no tag at all, its literal text followed by what it encloses.
pub open spec fn build_tag_model(node: NodeModel, bound: int) -> Seq<ComponentModel>
    decreases bound, 0int, node,
{
    match node {
        NodeModel::Text(text) => seq![text_model(text)],
        NodeModel::Tag(name, arguments, raw, children) => {
            if inline_component_for(name, arguments) is Some {
                seq![inline_component_for(name, arguments)->0]
            } else if name == "gradient"@ || name == "rainbow"@ {
                let spread = spread_for(name, arguments, children);
                let (parts, ramped, _) = spread_scan(children, spread, bound);
                seq![finish_spread(parts, ramped)]
            } else {
                let hover = if wants_hover(name, arguments) && second_argument(arguments).len()
                    < bound {
                    Some(mini_message_model(second_argument(arguments)))
                } else {
                    None
                };
                match style_for_tag_model(name, arguments, hover) {
                    Some(style) => seq![assemble_model(style, build_nodes_model(children, bound))],
                    None => seq![text_model(raw)] + build_nodes_model(children, bound),
                }
            }
        },
    }
}

/// Reading a colour-spreading tag's nodes: the parts built so far, the coloured
/// characters not yet grouped, and the ramp position reached.
///
/// The ramp covers the tag's own text. Text inside a nested tag is painted by that tag
/// and sits beside the run, but the ramp still steps over it.
pub open spec fn spread_scan(children: Seq<NodeModel>, spread: SpreadModel, bound: int) -> (
    Seq<ComponentModel>,
    Seq<ComponentModel>,
    int,
)
    decreases bound, 0int, children,
{
    if children.len() == 0 {
        (Seq::empty(), Seq::empty(), 0)
    } else {
        let (parts, ramped, position) = spread_scan(children.drop_last(), spread, bound);
        let node = children.last();
        match node {
            NodeModel::Text(text) => (
                parts,
                ramped + spread_run(text, spread, position),
                position + text.len(),
            ),
            NodeModel::Tag(..) => {
                let flushed = if ramped.len() > 0 {
                    parts.push(wrap_model(ramped))
                } else {
                    parts
                };
                (
                    flushed + build_tag_model(node, bound),
                    Seq::empty(),
                    position + node_text_length(node),
                )
            },
        }
    }
}

/// The component a MiniMessage document describes.
pub open spec fn mini_message_model(input: Seq<char>) -> ComponentModel
    decreases input.len(), 1int, document_nodes(input),
{
    let built = build_nodes_model(document_nodes(input), input.len() as int);
    let root = if built.len() == 0 {
        text_model(Seq::empty())
    } else if built.len() == 1 && !(built[0].children.len() > 0 && has_empty_content(built[0])) {
        built[0]
    } else {
        assemble_model(empty_style_model(), built)
    };
    unmerge_model(collapse_wrappers(root), empty_style_model())
}

/// A wrapper with no text, no style and one child, replaced by that child.
pub open spec fn lift_lone(component: ComponentModel) -> ComponentModel {
    if has_empty_content(component) && component.style == empty_style_model()
        && component.children.len() == 1 {
        component.children[0]
    } else {
        component
    }
}

/// The tree with every wrapper that groups a single child removed, bottom up.
pub open spec fn collapse_wrappers(component: ComponentModel) -> ComponentModel
    decreases component,
{
    ComponentModel {
        content: component.content,
        style: component.style,
        children: collapse_children(component.children),
    }
}

pub open spec fn collapse_children(children: Seq<ComponentModel>) -> Seq<ComponentModel>
    decreases children,
{
    if children.len() == 0 {
        Seq::empty()
    } else {
        collapse_children(children.drop_last()).push(lift_lone(collapse_wrappers(children.last())))
    }
}

/// A style with every property it would inherit anyway dropped.
pub open spec fn strip_inherited(own: StyleModel, inherited: StyleModel) -> StyleModel {
    StyleModel {
        color: if own.color == inherited.color {
            None
        } else {
            own.color
        },
        bold: if own.bold == inherited.bold {
            None
        } else {
            own.bold
        },
        italic: if own.italic == inherited.italic {
            None
        } else {
            own.italic
        },
        underlined: if own.underlined == inherited.underlined {
            None
        } else {
            own.underlined
        },
        strikethrough: if own.strikethrough == inherited.strikethrough {
            None
        } else {
            own.strikethrough
        },
        obfuscated: if own.obfuscated == inherited.obfuscated {
            None
        } else {
            own.obfuscated
        },
        font: if own.font == inherited.font {
            None
        } else {
            own.font
        },
        insertion: if own.insertion == inherited.insertion {
            None
        } else {
            own.insertion
        },
        click_event: if own.click_event == inherited.click_event {
            None
        } else {
            own.click_event
        },
        hover_text: if own.hover_text == inherited.hover_text {
            None
        } else {
            own.hover_text
        },
    }
}

/// The tree with each style reduced to what differs from what it inherits.
pub open spec fn unmerge_model(component: ComponentModel, inherited: StyleModel) -> ComponentModel
    decreases component,
{
    let resolved = overlay_model(inherited, component.style);
    ComponentModel {
        content: component.content,
        style: strip_inherited(component.style, inherited),
        children: unmerge_all(component.children, resolved),
    }
}

pub open spec fn unmerge_all(children: Seq<ComponentModel>, inherited: StyleModel) -> Seq<ComponentModel>
    decreases children,
{
    if children.len() == 0 {
        Seq::empty()
    } else {
        unmerge_all(children.drop_last(), inherited).push(unmerge_model(children.last(), inherited))
    }
}

/// The model of two lists one after the other is their models one after the other.
pub proof fn lemma_component_models_append(first: Seq<Component>, second: Seq<Component>)
    ensures
        component_models(first + second) == component_models(first) + component_models(second),
    decreases second.len(),
{
    if second.len() == 0 {
        assert(first + second =~= first);
        assert(component_models(first) + component_models(second) =~= component_models(first));
    } else {
        lemma_component_models_append(first, second.drop_last());
        assert((first + second).drop_last() =~= first + second.drop_last());
        assert((first + second).last() == second.last());
        assert(component_models(first) + component_models(second) =~= (component_models(first)
            + component_models(second.drop_last())).push(component_models(second).last()));
    }
}

proof fn lemma_component_models_push(components: Seq<Component>, component: Component)
    ensures
        component_models(components.push(component)) == component_models(components).push(
            component@,
        ),
{
    assert(components.push(component).drop_last() =~= components);
}

fn is_text_leaf_exec(component: &Component) -> (leaf: bool)
    ensures
        leaf == is_text_leaf(component@),
{
    proof {
        lemma_component_models_take(component.children@, 0);
    }
    match &component.content {
        ComponentContent::Text { .. } => component.children.len() == 0,
        _ => false,
    }
}

/// Joins neighbouring pieces of text that carry the same style.
///
/// `<newline>` and an escaped bracket both split a run of text into several nodes. Two
/// adjacent components with the same style render as one, so they are put back together.
fn join_adjacent_text(components: Vec<Component>) -> (joined: Vec<Component>)
    ensures
        component_models(joined@) == join_adjacent(component_models(components@)),
{
    let ghost original = components@;
    proof {
        lemma_component_models_take(original, 0);
    }
    let mut rest = components;
    let count = rest.len();
    let mut joined: Vec<Component> = Vec::new();
    let mut taken: usize = 0;
    proof {
        assert(component_models(original).take(0) =~= Seq::<ComponentModel>::empty());
        assert(original.skip(0) =~= original);
    }
    while rest.len() > 0
        invariant
            taken + rest@.len() == original.len(),
            original.len() == count,
            rest@ == original.skip(taken as int),
            component_models(original).len() == original.len(),
            forall|i: int|
                0 <= i < original.len() ==> #[trigger] component_models(original)[i]
                    == component_model(original[i]),
            component_models(joined@) == join_adjacent(
                component_models(original).take(taken as int),
            ),
        decreases rest@.len(),
    {
        let next = rest.remove(0);
        let ghost models = component_models(original);
        proof {
            assert(next == original[taken as int]);
            assert(models.take(taken + 1).drop_last() =~= models.take(taken as int));
            assert(models.take(taken + 1).last() == next@);
            lemma_component_models_take(joined@, 0);
        }
        let mergeable = joined.len() > 0 && is_text_leaf_exec(&joined[joined.len() - 1])
            && is_text_leaf_exec(&next) && style_equal(&joined[joined.len() - 1].style, &next.style);
        if mergeable {
            let ghost before = joined@;
            let previous = joined.pop().unwrap();
            proof {
                assert(before.drop_last() =~= joined@);
                assert(component_models(before).drop_last() =~= component_models(joined@));
            }
            let mut text = match previous.content {
                ComponentContent::Text { text } => text,
                _ => String::new(),
            };
            match &next.content {
                ComponentContent::Text { text: tail } => push_str(&mut text, tail.as_str()),
                _ => {},
            }
            let merged = Component {
                content: ComponentContent::Text { text },
                style: previous.style,
                children: previous.children,
            };
            proof {
                lemma_component_models_push(joined@, merged);
            }
            joined.push(merged);
        } else {
            proof {
                lemma_component_models_push(joined@, next);
            }
            joined.push(next);
        }
        taken += 1;
        proof {
            assert(rest@ =~= original.skip(taken as int));
        }
    }
    proof {
        assert(component_models(original).take(taken as int) =~= component_models(original));
    }
    joined
}

/// A component that contributes nothing of its own and exists to group its children.
fn wrap(children: Vec<Component>) -> (wrapper: Component)
    ensures
        wrapper@ == wrap_model(component_models(children@)),
{
    Component::new(ComponentContent::Text { text: String::new() }, Style::empty(), children)
}

/// Builds a component for a tag, folding a child into it where the tag's own text or
/// style can hold it.
///
/// - a leading child that is bare text becomes the parent's own text, so `<red>a<blue>b`
///   is one red component with a blue child rather than an empty parent with two;
/// - an only child that is styled text merges its style upward, so `<white><b>x` is one
///   component rather than a white parent wrapping a bold child.
fn assemble(style: Style, children: Vec<Component>) -> (component: Component)
    ensures
        component@ == assemble_model(style@, component_models(children@)),
{
    let mut children = join_adjacent_text(children);
    proof {
        lemma_component_models_take(children@, 0);
    }
    let absorbs_plain = children.len() > 0 && is_text_leaf_exec(&children[0])
        && children[0].style.is_empty();
    proof {
        if children@.len() > 0 {
            crate::style::lemma_empty_style_model(children@[0].style);
        }
    }
    let absorbs_only_styled = children.len() == 1 && is_text_leaf_exec(&children[0]);
    if absorbs_plain || absorbs_only_styled {
        let ghost all = children@;
        let first = children.remove(0);
        proof {
            assert(all.remove(0) =~= all.drop_first());
            assert(children@ == all.drop_first());
            lemma_component_models_take(all, 1);
            assert(component_models(all).drop_first() =~= component_models(children@)) by {
                lemma_component_models_take(children@, 0);
                assert forall|i: int| 0 <= i < children@.len() implies component_models(all).drop_first()[i] == component_models(children@)[i] by {
                    assert(children@[i] == all[i + 1]);
                }
            }
        }
        let merged = overlay(&style, &first.style);
        return Component::new(first.content, merged, children);
    }
    Component::new(ComponentContent::Text { text: String::new() }, style, children)
}

/// One channel of a gradient, in double arithmetic.
fn blend_channel(from: u8, to: u8, local: Double) -> (value: u8)
    requires
        is_double(local),
        -4000 <= local.exponent <= 4000,
    ensures
        value == blend(from as int, to as int, local),
{
    proof {
        lemma_power2_values();
    }
    let start = from_u64(from as u64);
    let spread = difference(from_u64(to as u64), start);
    let scaled = product(spread, local);
    let shifted = sum(sum(start, scaled), Double {
        negative: false,
        significand: 0x10_0000_0000_0000,
        exponent: -53,
    });
    floor_clamped(shifted, 255) as u8
}

/// Which pair of stops a gradient position falls between, and how far along.
fn gradient_step(position: usize, total: usize, count: usize) -> (step: (usize, Double))
    requires
        position < total,
        total > 1,
        count >= 2,
    ensures
        ({
            let progress = quotient_of(from_integer(position as int), from_integer(total - 1));
            let scaled = product_of(progress, from_integer(count - 1));
            &&& step.0 == clamped_floor(scaled, count - 2)
            &&& step.1 == difference_of(scaled, from_integer(step.0 as int))
            &&& is_double(step.1)
            &&& -4000 <= step.1.exponent <= 4000
        }),
{
    let progress = quotient(from_u64(position as u64), from_u64((total - 1) as u64));
    let scaled = product(progress, from_u64((count - 1) as u64));
    let index = floor_clamped(scaled, (count - 2) as u64) as usize;
    let local = difference(scaled, from_u64(index as u64));
    (index, local)
}

/// The colour at `position` of a gradient over `total` characters through `stops`.
fn gradient_color(stops: &Vec<TextColor>, position: usize, total: usize) -> (color: TextColor)
    requires
        stops@.len() >= 1,
        position < total,
    ensures
        color == gradient_color_at(stops@, position as int, total as int),
{
    if stops.len() == 1 || total <= 1 {
        return stops[0];
    }
    let (index, local) = gradient_step(position, total, stops.len());
    let start = stops[index].rgb();
    let end = stops[index + 1].rgb();
    TextColor::Rgb(
        RgbColor::new(
            blend_channel(start.red, end.red, local),
            blend_channel(start.green, end.green, local),
            blend_channel(start.blue, end.blue, local),
        ),
    )
}

/// The colour at `position` of a rainbow over `total` characters.
///
/// Each channel is floored independently, so at the midpoint of a sector the rising and
/// falling channels are both 127 rather than 127 and 128.
fn rainbow_color(position: usize, total: usize) -> (color: TextColor)
    requires
        position < total,
    ensures
        color == rainbow_color_at(position as int, total as int),
{
    let hue = quotient(from_u64(position as u64), from_u64(total as u64));
    let turned = product(hue, from_u64(6));
    let sector = floor_clamped(turned, u64::MAX);
    let offset = difference(turned, from_u64(sector));
    let rising = floor_clamped(product(offset, from_u64(255)), 255) as u8;
    let falling = floor_clamped(product(difference(from_u64(1), offset), from_u64(255)), 255) as u8;
    let which = floor_clamped(turned, u32::MAX as u64) % 6;
    let rgb = if which == 0 {
        RgbColor::new(255, rising, 0)
    } else if which == 1 {
        RgbColor::new(falling, 255, 0)
    } else if which == 2 {
        RgbColor::new(0, 255, rising)
    } else if which == 3 {
        RgbColor::new(0, falling, 255)
    } else if which == 4 {
        RgbColor::new(rising, 0, 255)
    } else {
        RgbColor::new(255, 0, falling)
    };
    TextColor::Rgb(rgb)
}

/// A colour ramp being spread across the characters enclosed by a tag.
struct ColorSpread {
    stops: Vec<TextColor>,
    rainbow: bool,
    total: usize,
}

spec fn spread_model(spread: ColorSpread) -> SpreadModel {
    SpreadModel { stops: spread.stops@, rainbow: spread.rainbow, total: spread.total as int }
}

fn next_color(spread: &ColorSpread, position: usize) -> (color: TextColor)
    requires
        spread.stops@.len() >= 1,
        position < spread.total,
    ensures
        color == spread_color(spread_model(*spread), position as int),
{
    if spread.rainbow {
        rainbow_color(position, spread.total)
    } else {
        gradient_color(&spread.stops, position, spread.total)
    }
}

/// Appends each character of `text` as its own component, coloured by the ramp.
fn spread_text(
    text: &str,
    spread: &ColorSpread,
    position: usize,
    target: &mut Vec<Component>,
) -> (next: usize)
    requires
        spread.stops@.len() >= 1,
        position + text@.len() <= spread.total,
    ensures
        component_models(final(target)@) == component_models(old(target)@) + spread_run(
            text@,
            spread_model(*spread),
            position as int,
        ),
        next == position + text@.len(),
{
    let characters = chars_of(text);
    let mut index: usize = 0;
    while index < characters.len()
        invariant
            0 <= index <= characters@.len(),
            characters@ == text@,
            spread.stops@.len() >= 1,
            position + text@.len() <= spread.total,
            component_models(target@) == component_models(old(target)@) + spread_run(
                text@,
                spread_model(*spread),
                position as int,
            ).take(index as int),
        decreases characters@.len() - index,
    {
        let color = next_color(spread, position + index);
        let mut style = Style::empty();
        style.color = Some(color);
        let mut piece = String::new();
        push_char(&mut piece, characters[index]);
        let component = Component::new(ComponentContent::Text { text: piece }, style, Vec::new());
        proof {
            assert(component_models(component.children@) =~= Seq::empty());
            assert(component@ == colored_char(text@[index as int], color));
            lemma_component_models_push(target@, component);
            let run = spread_run(text@, spread_model(*spread), position as int);
            assert(run.take(index + 1) =~= run.take(index as int).push(run[index as int]));
        }
        target.push(component);
        index += 1;
    }
    proof {
        let run = spread_run(text@, spread_model(*spread), position as int);
        assert(run.take(index as int) =~= run);
    }
    position + characters.len()
}

/// The model of a hover text, if there is one.
pub open spec fn optional_model(component: Option<Component>) -> Option<ComponentModel> {
    match component {
        Some(c) => Some(c@),
        None => None,
    }
}

fn second_argument_of(arguments: &Vec<String>) -> (second: String)
    ensures
        second@ == second_argument(strings_model(arguments@)),
{
    if arguments.len() > 1 {
        arguments[1].clone()
    } else {
        String::new()
    }
}

fn wants_hover_exec(name: &str, arguments: &Vec<String>) -> (wants: bool)
    ensures
        wants == wants_hover(name@, strings_model(arguments@)),
{
    str_equal(name, "hover") && arguments.len() > 0 && str_equal(arguments[0].as_str(), "show_text")
}

fn click_or_hover_style(name: &str, arguments: &Vec<String>, hover: Option<Component>) -> (style:
    Option<Style>)
    requires
        hover is Some <==> wants_hover(name@, strings_model(arguments@)),
    ensures
        match style {
            Some(found) => click_or_hover_for(name@, strings_model(arguments@), optional_model(hover))
                == Some(found@),
            None => click_or_hover_for(name@, strings_model(arguments@), optional_model(hover)) is None,
        },
{
    let ghost args = strings_model(arguments@);
    let mut style = Style::empty();
    if str_equal(name, "click") {
        if arguments.len() == 0 {
            return None;
        }
        let action = arguments[0].as_str();
        let value = second_argument_of(arguments);
        let event = if str_equal(action, "open_url") {
            ClickEvent::OpenUrl { url: value }
        } else if str_equal(action, "run_command") {
            ClickEvent::RunCommand { command: value }
        } else if str_equal(action, "suggest_command") {
            ClickEvent::SuggestCommand { command: value }
        } else if str_equal(action, "copy_to_clipboard") {
            ClickEvent::CopyToClipboard { text: value }
        } else {
            return None;
        };
        style.click_event = Some(event);
        return Some(style);
    }
    if str_equal(name, "hover") {
        match hover {
            Some(text) => {
                style.hover_event = Some(HoverEvent::ShowText { text: Box::new(text) });
                return Some(style);
            },
            None => {
                return None;
            },
        }
    }
    if str_equal(name, "font") {
        if arguments.len() == 0 {
            return None;
        }
        style.font = Some(arguments[0].clone());
        return Some(style);
    }
    if str_equal(name, "insertion") {
        if arguments.len() == 0 {
            return None;
        }
        style.insertion = Some(arguments[0].clone());
        return Some(style);
    }
    None
}

/// The style a styling tag applies, or `None` when the tag is not one.
fn style_for_tag(name: &str, arguments: &Vec<String>, hover: Option<Component>) -> (style: Option<
    Style,
>)
    requires
        hover is Some <==> wants_hover(name@, strings_model(arguments@)),
    ensures
        match style {
            Some(found) => style_for_tag_model(name@, strings_model(arguments@), optional_model(hover))
                == Some(found@),
            None => style_for_tag_model(name@, strings_model(arguments@), optional_model(hover)) is None,
        },
{
    let mut style = Style::empty();
    if let Some(color) = parse_color(name) {
        style.color = Some(color);
        return Some(style);
    }
    if (str_equal(name, "color") || str_equal(name, "colour") || str_equal(name, "c"))
        && arguments.len() > 0 {
        if let Some(color) = parse_color(arguments[0].as_str()) {
            style.color = Some(color);
            return Some(style);
        }
    }
    match decoration_of(name) {
        Some(decoration) => {
            proof {
                reveal_strlit("bold");
                reveal_strlit("italic");
                reveal_strlit("underlined");
                reveal_strlit("strikethrough");
                reveal_strlit("obfuscated");
            }
            if str_equal(decoration, "bold") {
                style.bold = Some(true);
            } else if str_equal(decoration, "italic") {
                style.italic = Some(true);
            } else if str_equal(decoration, "underlined") {
                style.underlined = Some(true);
            } else if str_equal(decoration, "strikethrough") {
                style.strikethrough = Some(true);
            } else {
                style.obfuscated = Some(true);
            }
            Some(style)
        },
        None => click_or_hover_style(name, arguments, hover),
    }
}

/// The component an inserting tag stands for.
fn inline_component(name: &str, arguments: &Vec<String>) -> (component: Option<Component>)
    ensures
        match component {
            Some(found) => inline_component_for(name@, strings_model(arguments@)) == Some(found@),
            None => inline_component_for(name@, strings_model(arguments@)) is None,
        },
{
    if str_equal(name, "newline") || str_equal(name, "br") {
        return Some(Component::text("\n"));
    }
    if str_equal(name, "key") {
        if arguments.len() == 0 {
            return None;
        }
        return Some(Component::keybind(arguments[0].as_str()));
    }
    if str_equal(name, "lang") || str_equal(name, "translate") || str_equal(name, "tr") {
        if arguments.len() == 0 {
            return None;
        }
        let component = Component::translatable(arguments[0].as_str(), Vec::new());
        proof {
            assert(component_models(Seq::<Component>::empty()) =~= Seq::<ComponentModel>::empty());
        }
        return Some(component);
    }
    None
}

/// Each node of a list, and each prefix of it, keeps what the whole list guarantees.
proof fn lemma_nodes_short_parts(nodes: Seq<NodeModel>, n: int, bound: int)
    requires
        nodes_short(nodes, bound),
        0 <= n <= nodes.len(),
    ensures
        nodes_short(nodes.take(n), bound),
        n < nodes.len() ==> node_short(nodes[n], bound),
        n < nodes.len() ==> node_text_length(nodes[n]) <= nodes_text_length(nodes),
        nodes_text_length(nodes.take(n)) <= nodes_text_length(nodes),
    decreases nodes.len(),
{
    lemma_prefix_length_bounded(nodes, n);
    if n < nodes.len() {
        lemma_prefix_length_bounded(nodes, n + 1);
        assert(nodes.take(n + 1).drop_last() =~= nodes.take(n));
        assert(nodes.take(n + 1).last() == nodes[n]);
        if n + 1 < nodes.len() {
            lemma_nodes_short_parts(nodes.drop_last(), n + 1, bound);
            assert(nodes.drop_last().take(n + 1) =~= nodes.take(n + 1));
        } else {
            assert(nodes.take(n + 1) =~= nodes);
        }
    } else {
        assert(nodes.take(n) =~= nodes);
    }
}

/// The components a list of nodes builds.
fn build_nodes(nodes: &Vec<MiniMessageNode>, bound: usize) -> (built: Vec<Component>)
    requires
        nodes_short(node_models(nodes@), bound as int),
        nodes_text_length(node_models(nodes@)) <= bound,
    ensures
        component_models(built@) == build_nodes_model(node_models(nodes@), bound as int),
    decreases bound, 0int, nodes,
{
    let ghost models = node_models(nodes@);
    proof {
        lemma_node_models_take(nodes@, 0);
        assert(models.take(0) =~= Seq::<NodeModel>::empty());
    }
    let mut built: Vec<Component> = Vec::new();
    let mut index: usize = 0;
    while index < nodes.len()
        invariant
            0 <= index <= nodes@.len(),
            models == node_models(nodes@),
            models.len() == nodes@.len(),
            forall|i: int| 0 <= i < nodes@.len() ==> #[trigger] models[i] == node_model(nodes@[i]),
            nodes_short(models, bound as int),
            nodes_text_length(models) <= bound,
            component_models(built@) == build_nodes_model(models.take(index as int), bound as int),
        decreases nodes@.len() - index,
    {
        proof {
            lemma_nodes_short_parts(models, index as int, bound as int);
            assert(models.take(index + 1).drop_last() =~= models.take(index as int));
            assert(models.take(index + 1).last() == models[index as int]);
            assert(decreases_to!(*nodes => nodes@));
            assert(decreases_to!(nodes@ => nodes@[index as int]));
        }
        let ghost before = built@;
        match &nodes[index] {
            MiniMessageNode::Text { text } => {
                let component = Component::text(text.as_str());
                proof {
                    lemma_component_models_push(built@, component);
                }
                built.push(component);
            },
            MiniMessageNode::Tag { .. } => {
                let mut more = build_tag(&nodes[index], bound);
                let ghost tail = more@;
                built.append(&mut more);
                proof {
                    lemma_component_models_append(before, tail);
                }
            },
        }
        index += 1;
    }
    proof {
        assert(models.take(index as int) =~= models);
    }
    built
}

/// The components a tag builds: what it inserts, its coloured ramp, its styled content,
/// or, when it is no tag at all, its literal text followed by what it encloses.
fn build_tag(node: &MiniMessageNode, bound: usize) -> (built: Vec<Component>)
    requires
        node_short(node@, bound as int),
        node_text_length(node@) <= bound,
    ensures
        component_models(built@) == build_tag_model(node@, bound as int),
    decreases bound, 0int, node,
{
    match node {
        MiniMessageNode::Text { text } => {
            let component = Component::text(text.as_str());
            let mut built: Vec<Component> = Vec::new();
            proof {
                lemma_component_models_push(built@, component);
                assert(component_models(Seq::<Component>::empty()) =~= Seq::<ComponentModel>::empty());
            }
            built.push(component);
            built
        },
        MiniMessageNode::Tag { name, arguments, raw, children } => {
            let ghost args = strings_model(arguments@);
            let mut built: Vec<Component> = Vec::new();
            proof {
                assert(component_models(Seq::<Component>::empty()) =~= Seq::<ComponentModel>::empty());
            }
            if let Some(component) = inline_component(name.as_str(), arguments) {
                proof {
                    lemma_component_models_push(built@, component);
                }
                built.push(component);
                return built;
            }
            if str_equal(name.as_str(), "gradient") || str_equal(name.as_str(), "rainbow") {
                let component = build_spread(name, arguments, children, bound);
                proof {
                    lemma_component_models_push(built@, component);
                }
                built.push(component);
                return built;
            }
            let hover = if wants_hover_exec(name.as_str(), arguments) {
                let argument = second_argument_of(arguments);
                proof {
                    assert(args[0].len() < bound);
                    if args.len() > 1 {
                        assert(args[1].len() < bound);
                    }
                }
                Some(parse_mini_message(argument.as_str()))
            } else {
                None
            };
            let inner = build_nodes(children, bound);
            match style_for_tag(name.as_str(), arguments, hover) {
                Some(style) => {
                    let component = assemble(style, inner);
                    proof {
                        lemma_component_models_push(built@, component);
                    }
                    built.push(component);
                    built
                },
                None => {
                    let literal = Component::text(raw.as_str());
                    proof {
                        lemma_component_models_push(built@, literal);
                    }
                    built.push(literal);
                    let ghost before = built@;
                    let mut rest = inner;
                    let ghost tail = rest@;
                    built.append(&mut rest);
                    proof {
                        lemma_component_models_append(before, tail);
                    }
                    built
                },
            }
        },
    }
}

/// The colours among a tag's arguments, in order.
fn collect_stops(arguments: &Vec<String>) -> (stops: Vec<TextColor>)
    ensures
        stops@ == spread_stops(strings_model(arguments@)),
{
    let ghost args = strings_model(arguments@);
    let mut stops: Vec<TextColor> = Vec::new();
    let mut index: usize = 0;
    proof {
        assert(args.take(0) =~= Seq::<Seq<char>>::empty());
    }
    while index < arguments.len()
        invariant
            0 <= index <= arguments@.len(),
            args == strings_model(arguments@),
            args.len() == arguments@.len(),
            stops@ == spread_stops(args.take(index as int)),
        decreases arguments@.len() - index,
    {
        proof {
            assert(args.take(index + 1).drop_last() =~= args.take(index as int));
            assert(args.take(index + 1).last() == arguments@[index as int]@);
        }
        if let Some(color) = parse_color(arguments[index].as_str()) {
            stops.push(color);
        }
        index += 1;
    }
    proof {
        assert(args.take(index as int) =~= args);
    }
    stops
}

/// Builds a colour-spreading tag: `<gradient>` or `<rainbow>`.
///
/// The ramp covers the tag's own text and stops there. Text inside a nested tag is left
/// alone and sits beside the spread run rather than inside it, which is why
/// `<gradient:blue:white>Nano<white>!` ends the ramp on the `o` and leaves the `!` white.
/// The ramp is still measured over every character the tag encloses.
fn build_spread(
    name: &String,
    arguments: &Vec<String>,
    children: &Vec<MiniMessageNode>,
    bound: usize,
) -> (component: Component)
    requires
        nodes_short(node_models(children@), bound as int),
        nodes_text_length(node_models(children@)) <= bound,
    ensures
        ({
            let models = node_models(children@);
            let spread = spread_for(name@, strings_model(arguments@), models);
            let (parts, ramped, _) = spread_scan(models, spread, bound as int);
            component@ == finish_spread(parts, ramped)
        }),
    decreases bound, 0int, children,
{
    let ghost models = node_models(children@);
    proof {
        lemma_node_models_take(children@, 0);
    }
    let found = collect_stops(arguments);
    let stops = if found.len() == 0 {
        let mut white: Vec<TextColor> = Vec::new();
        white.push(TextColor::Named(NamedColor::White));
        proof {
            assert(white@ =~= seq![TextColor::Named(NamedColor::White)]);
        }
        white
    } else {
        found
    };
    let mut total: usize = 0;
    let mut counted: usize = 0;
    proof {
        assert(models.take(0) =~= Seq::<NodeModel>::empty());
    }
    while counted < children.len()
        invariant
            0 <= counted <= children@.len(),
            models == node_models(children@),
            models.len() == children@.len(),
            forall|i: int| 0 <= i < children@.len() ==> #[trigger] models[i] == node_model(children@[i]),
            nodes_text_length(models) <= bound,
            total == nodes_text_length(models.take(counted as int)),
        decreases children@.len() - counted,
    {
        proof {
            lemma_prefix_length_bounded(models, counted + 1);
            assert(models.take(counted + 1).drop_last() =~= models.take(counted as int));
            assert(models.take(counted + 1).last() == models[counted as int]);
        }
        let length = children[counted].text_length();
        total = total + length;
        counted += 1;
    }
    proof {
        assert(models.take(counted as int) =~= models);
    }
    let spread = ColorSpread { stops, rainbow: str_equal(name.as_str(), "rainbow"), total };
    let ghost spread_spec = spread_for(name@, strings_model(arguments@), models);
    assert(spread_model(spread) == spread_spec);
    let mut parts: Vec<Component> = Vec::new();
    let mut ramped: Vec<Component> = Vec::new();
    let mut position: usize = 0;
    let mut index: usize = 0;
    proof {
        assert(component_models(Seq::<Component>::empty()) =~= Seq::<ComponentModel>::empty());
    }
    while index < children.len()
        invariant
            0 <= index <= children@.len(),
            models == node_models(children@),
            models.len() == children@.len(),
            forall|i: int| 0 <= i < children@.len() ==> #[trigger] models[i] == node_model(children@[i]),
            nodes_short(models, bound as int),
            nodes_text_length(models) <= bound,
            spread_model(spread) == spread_spec,
            spread.stops@.len() >= 1,
            spread.total == nodes_text_length(models),
            (component_models(parts@), component_models(ramped@), position as int) == spread_scan(
                models.take(index as int),
                spread_spec,
                bound as int,
            ),
            position == nodes_text_length(models.take(index as int)),
        decreases children@.len() - index,
    {
        proof {
            lemma_nodes_short_parts(models, index as int, bound as int);
            lemma_prefix_length_bounded(models, index + 1);
            assert(models.take(index + 1).drop_last() =~= models.take(index as int));
            assert(models.take(index + 1).last() == models[index as int]);
            assert(decreases_to!(*children => children@));
            assert(decreases_to!(children@ => children@[index as int]));
        }
        match &children[index] {
            MiniMessageNode::Text { text } => {
                position = spread_text(text.as_str(), &spread, position, &mut ramped);
            },
            MiniMessageNode::Tag { .. } => {
                if ramped.len() > 0 {
                    let mut group: Vec<Component> = Vec::new();
                    std::mem::swap(&mut group, &mut ramped);
                    let wrapper = wrap(group);
                    proof {
                        lemma_component_models_push(parts@, wrapper);
                    }
                    parts.push(wrapper);
                }
                proof {
                    lemma_component_models_take(ramped@, 0);
                    assert(component_models(ramped@) =~= Seq::<ComponentModel>::empty());
                }
                let ghost before = parts@;
                let mut built = build_tag(&children[index], bound);
                let ghost tail = built@;
                parts.append(&mut built);
                proof {
                    lemma_component_models_append(before, tail);
                }
                position = position + children[index].text_length();
            },
        }
        index += 1;
    }
    proof {
        assert(models.take(index as int) =~= models);
        lemma_component_models_take(ramped@, 0);
    }
    if ramped.len() > 0 {
        let wrapper = wrap(ramped);
        proof {
            lemma_component_models_push(parts@, wrapper);
        }
        parts.push(wrapper);
    }
    proof {
        lemma_component_models_take(parts@, 0);
    }
    if parts.len() == 1 {
        let ghost all = parts@;
        parts.remove(0)
    } else {
        wrap(parts)
    }
}

/// Parses MiniMessage markup into a component.
pub fn parse_mini_message(input: &str) -> (component: Component)
    ensures
        component@ == mini_message_model(input@),
    decreases input@.len(), 1int, input@,
{
    let nodes = parse_nodes(input);
    let bound = chars_of(input).len();
    proof {
        lemma_document_short(input@);
        lemma_document_text_bounded(input@);
    }
    let mut built = build_nodes(&nodes, bound);
    proof {
        lemma_component_models_take(built@, 0);
    }
    let root = if built.len() == 0 {
        Component::empty()
    } else if built.len() == 1 && !(built[0].children.len() > 0 && has_empty_content_exec(
        &built[0],
    )) {
        proof {
            lemma_component_models_take(built@[0].children@, 0);
        }
        built.remove(0)
    } else {
        proof {
            if built@.len() == 1 {
                lemma_component_models_take(built@[0].children@, 0);
            }
        }
        assemble(Style::empty(), built)
    };
    let collapsed = collapse_lone_wrappers(root);
    let empty = Style::empty();
    unmerge_inherited(collapsed, &empty)
}

fn has_empty_content_exec(component: &Component) -> (empty: bool)
    ensures
        empty == has_empty_content(component@),
{
    match &component.content {
        ComponentContent::Text { text } => text.as_str().is_empty(),
        _ => false,
    }
}

/// Removes wrappers that group a single child, which group nothing.
///
/// A wrapper with several children decides how they nest and has to stay; one with a
/// single child says nothing the child does not already say. Applied after the tree is
/// built, because whether a wrapper ends up with one child or many is only known then.
fn collapse_lone_wrappers(component: Component) -> (collapsed: Component)
    ensures
        collapsed@ == collapse_wrappers(component@),
    decreases component,
{
    let ghost original = component.children@;
    proof {
        lemma_component_models_take(original, 0);
    }
    let Component { content, style, children } = component;
    let mut rest = children;
    let count = rest.len();
    let mut kept: Vec<Component> = Vec::new();
    let mut taken: usize = 0;
    proof {
        assert(original.skip(0) =~= original);
        assert(component_models(original).take(0) =~= Seq::<ComponentModel>::empty());
    }
    while rest.len() > 0
        invariant
            taken + rest@.len() == original.len(),
            original.len() == count,
            original == component.children@,
            rest@ == original.skip(taken as int),
            component_models(original).len() == original.len(),
            forall|i: int|
                0 <= i < original.len() ==> #[trigger] component_models(original)[i]
                    == component_model(original[i]),
            component_models(kept@) == collapse_children(
                component_models(original).take(taken as int),
            ),
        decreases rest@.len(),
    {
        let child = rest.remove(0);
        proof {
            assert(child == original[taken as int]);
            assert(decreases_to!(component => component.children));
            assert(decreases_to!(component.children => component.children@));
            assert(decreases_to!(component.children@ => component.children@[taken as int]));
            let models = component_models(original);
            assert(models.take(taken + 1).drop_last() =~= models.take(taken as int));
            assert(models.take(taken + 1).last() == child@);
        }
        let reduced = collapse_lone_wrappers(child);
        proof {
            lemma_component_models_take(reduced.children@, 0);
            crate::style::lemma_empty_style_model(reduced.style);
        }
        let lifted = if has_empty_content_exec(&reduced) && reduced.style.is_empty()
            && reduced.children.len() == 1 {
            let mut grandchildren = reduced.children;
            grandchildren.remove(0)
        } else {
            reduced
        };
        proof {
            lemma_component_models_push(kept@, lifted);
        }
        kept.push(lifted);
        taken += 1;
        proof {
            assert(rest@ =~= original.skip(taken as int));
        }
    }
    proof {
        assert(component_models(original).take(taken as int) =~= component_models(original));
    }
    Component { content, style, children: kept }
}

fn hover_equal(first: &Option<HoverEvent>, second: &Option<HoverEvent>) -> (equal: bool)
    ensures
        equal == (match (*first, *second) {
            (Some(HoverEvent::ShowText { text: a }), Some(HoverEvent::ShowText { text: b })) => a@
                == b@,
            (None, None) => true,
            _ => false,
        }),
{
    match (first, second) {
        (Some(HoverEvent::ShowText { text: a }), Some(HoverEvent::ShowText { text: b })) => {
            let left: &Component = &**a;
            let right: &Component = &**b;
            component_equal(left, right)
        },
        (None, None) => true,
        _ => false,
    }
}

/// The style with every property it would inherit anyway dropped.
fn strip_style(own: Style, inherited: &Style) -> (stripped: Style)
    ensures
        stripped@ == strip_inherited(own@, inherited@),
{
    let same_hover = hover_equal(&own.hover_event, &inherited.hover_event);
    let same_font = text_equal(&own.font, &inherited.font);
    let same_insertion = text_equal(&own.insertion, &inherited.insertion);
    let same_click = click_equal(&own.click_event, &inherited.click_event);
    Style {
        color: if own.color == inherited.color {
            None
        } else {
            own.color
        },
        bold: if own.bold == inherited.bold {
            None
        } else {
            own.bold
        },
        italic: if own.italic == inherited.italic {
            None
        } else {
            own.italic
        },
        underlined: if own.underlined == inherited.underlined {
            None
        } else {
            own.underlined
        },
        strikethrough: if own.strikethrough == inherited.strikethrough {
            None
        } else {
            own.strikethrough
        },
        obfuscated: if own.obfuscated == inherited.obfuscated {
            None
        } else {
            own.obfuscated
        },
        font: if same_font {
            None
        } else {
            own.font
        },
        insertion: if same_insertion {
            None
        } else {
            own.insertion
        },
        click_event: if same_click {
            None
        } else {
            own.click_event
        },
        hover_event: if same_hover {
            None
        } else {
            own.hover_event
        },
    }
}

/// Drops style properties a component would inherit anyway.
///
/// `<white>a<white>b` sets white twice; the inner component is compared against what it
/// inherits and only the differences survive.
fn unmerge_inherited(component: Component, inherited: &Style) -> (unmerged: Component)
    ensures
        unmerged@ == unmerge_model(component@, inherited@),
    decreases component,
{
    let resolved = overlay(inherited, &component.style);
    let ghost original = component.children@;
    proof {
        lemma_component_models_take(original, 0);
    }
    let Component { content, style, children } = component;
    let own = strip_style(style, inherited);
    let mut rest = children;
    let count = rest.len();
    let mut kept: Vec<Component> = Vec::new();
    let mut taken: usize = 0;
    proof {
        assert(original.skip(0) =~= original);
        assert(component_models(original).take(0) =~= Seq::<ComponentModel>::empty());
    }
    while rest.len() > 0
        invariant
            taken + rest@.len() == original.len(),
            original.len() == count,
            original == component.children@,
            rest@ == original.skip(taken as int),
            resolved@ == overlay_model(inherited@, component@.style),
            component_models(original).len() == original.len(),
            forall|i: int|
                0 <= i < original.len() ==> #[trigger] component_models(original)[i]
                    == component_model(original[i]),
            component_models(kept@) == unmerge_all(
                component_models(original).take(taken as int),
                resolved@,
            ),
        decreases rest@.len(),
    {
        let child = rest.remove(0);
        proof {
            assert(child == original[taken as int]);
            assert(decreases_to!(component => component.children));
            assert(decreases_to!(component.children => component.children@));
            assert(decreases_to!(component.children@ => component.children@[taken as int]));
            let models = component_models(original);
            assert(models.take(taken + 1).drop_last() =~= models.take(taken as int));
            assert(models.take(taken + 1).last() == child@);
        }
        let reduced = unmerge_inherited(child, &resolved);
        proof {
            lemma_component_models_push(kept@, reduced);
        }
        kept.push(reduced);
        taken += 1;
        proof {
            assert(rest@ =~= original.skip(taken as int));
        }
    }
    proof {
        assert(component_models(original).take(taken as int) =~= component_models(original));
    }
    Component { content, style: own, children: kept }
}

/// A click event's written action names its own kind: reading the action and payload back
/// through the `click` tag gives the same event, so no two kinds share an action name.
pub proof fn lemma_click_action_round_trip(event: ClickEvent, hover: Option<ComponentModel>)
    ensures
        click_or_hover_for(
            "click"@,
            seq![crate::click_event::click_action_name(event), crate::click_event::click_payload(event)],
            hover,
        ) == Some(
            StyleModel {
                click_event: Some(crate::component_model::click_model(event)),
                ..empty_style_model()
            },
        ),
        event is SuggestCommand ==> crate::click_event::click_action_name(event) == "suggest_command"@,
{
    reveal_strlit("click");
    reveal_strlit("hover");
    reveal_strlit("open_url");
    reveal_strlit("run_command");
    reveal_strlit("suggest_command");
    reveal_strlit("copy_to_clipboard");
    let arguments = seq![crate::click_event::click_action_name(event), crate::click_event::click_payload(event)];
    assert(second_argument(arguments) == crate::click_event::click_payload(event));
    assert("open_url"@.len() == 8 && "run_command"@.len() == 11 && "suggest_command"@.len() == 15
        && "copy_to_clipboard"@.len() == 17);
    assert(arguments[0] == crate::click_event::click_action_name(event));
}

/// Two click events of different kinds are written with different actions.
pub proof fn lemma_click_actions_distinct(first: ClickEvent, second: ClickEvent, hover: Option<ComponentModel>)
    requires
        crate::click_event::click_action_name(first) == crate::click_event::click_action_name(second),
    ensures
        (first is OpenUrl) == (second is OpenUrl),
        (first is RunCommand) == (second is RunCommand),
        (first is SuggestCommand) == (second is SuggestCommand),
        (first is CopyToClipboard) == (second is CopyToClipboard),
{
    lemma_click_action_round_trip(first, hover);
    lemma_click_action_round_trip(second, hover);
    let a = seq![crate::click_event::click_action_name(first), crate::click_event::click_payload(first)];
    let b = seq![crate::click_event::click_action_name(second), crate::click_event::click_payload(first)];
    assert(a =~= b);
    reveal_strlit("open_url");
    reveal_strlit("run_command");
    reveal_strlit("suggest_command");
    reveal_strlit("copy_to_clipboard");
}

/// The decoration tags set their own decoration on what they enclose and nothing else,
/// whatever their arguments: `b` and `bold` bold, `i`, `em` and `italic` italic, `u` and
/// `underlined` underlined, `st` and `strikethrough` strikethrough, `obf` and `obfuscated`
/// obfuscated; and each decoration comes from its own tags alone.
pub proof fn lemma_decoration_tags(name: Seq<char>, arguments: Seq<Seq<char>>, hover: Option<ComponentModel>)
    ensures
        (name == "b"@ || name == "bold"@) ==> style_for_tag_model(name, arguments, hover) == Some(
            StyleModel { bold: Some(true), ..empty_style_model() },
        ),
        (style_for_tag_model(name, arguments, hover) matches Some(style) && style.bold == Some(true))
            ==> (name == "b"@ || name == "bold"@),
        (name == "i"@ || name == "italic"@ || name == "em"@) ==> style_for_tag_model(name, arguments, hover) == Some(
            StyleModel { italic: Some(true), ..empty_style_model() },
        ),
        (style_for_tag_model(name, arguments, hover) matches Some(style) && style.italic == Some(true))
            ==> (name == "i"@ || name == "italic"@ || name == "em"@),
        (name == "u"@ || name == "underlined"@) ==> style_for_tag_model(name, arguments, hover) == Some(
            StyleModel { underlined: Some(true), ..empty_style_model() },
        ),
        (style_for_tag_model(name, arguments, hover) matches Some(style) && style.underlined == Some(true))
            ==> (name == "u"@ || name == "underlined"@),
        (name == "st"@ || name == "strikethrough"@) ==> style_for_tag_model(name, arguments, hover) == Some(
            StyleModel { strikethrough: Some(true), ..empty_style_model() },
        ),
        (style_for_tag_model(name, arguments, hover) matches Some(style) && style.strikethrough == Some(true))
            ==> (name == "st"@ || name == "strikethrough"@),
        (name == "obf"@ || name == "obfuscated"@) ==> style_for_tag_model(name, arguments, hover) == Some(
            StyleModel { obfuscated: Some(true), ..empty_style_model() },
        ),
        (style_for_tag_model(name, arguments, hover) matches Some(style) && style.obfuscated == Some(true))
            ==> (name == "obf"@ || name == "obfuscated"@),
{
    reveal_strlit("b");
    reveal_strlit("bold");
    reveal_strlit("c");
    reveal_strlit("click");
    reveal_strlit("color");
    reveal_strlit("colour");
    reveal_strlit("dark_grey");
    reveal_strlit("em");
    reveal_strlit("font");
    reveal_strlit("grey");
    reveal_strlit("hover");
    reveal_strlit("i");
    reveal_strlit("insertion");
    reveal_strlit("italic");
    reveal_strlit("obf");
    reveal_strlit("obfuscated");
    reveal_strlit("st");
    reveal_strlit("strikethrough");
    reveal_strlit("u");
    reveal_strlit("underlined");
    assert("b"@.len() == 1);
    assert("bold"@.len() == 4);
    assert("c"@.len() == 1);
    assert("click"@.len() == 5);
    assert("color"@.len() == 5);
    assert("colour"@.len() == 6);
    assert("dark_grey"@.len() == 9);
    assert("em"@.len() == 2);
    assert("font"@.len() == 4);
    assert("grey"@.len() == 4);
    assert("hover"@.len() == 5);
    assert("i"@.len() == 1);
    assert("insertion"@.len() == 9);
    assert("italic"@.len() == 6);
    assert("obf"@.len() == 3);
    assert("obfuscated"@.len() == 10);
    assert("st"@.len() == 2);
    assert("strikethrough"@.len() == 13);
    assert("u"@.len() == 1);
    assert("underlined"@.len() == 10);
    crate::named_color::lemma_decoration_names_are_not_keys();
    assert("bold"@[0] != "italic"@[0] && "underlined"@[0] != "obfuscated"@[0]);
    assert("b"@[0] != "i"@[0] && "b"@[0] != "u"@[0] && "i"@[0] != "u"@[0] && "b"@[0] != "c"@[0]);
    assert("i"@[0] != "c"@[0] && "u"@[0] != "c"@[0]);
    assert("em"@[0] != "st"@[0] && "bold"@[0] != "font"@[0] && "italic"@[0] != "colour"@[0]);
    assert("obf"@[0] != "grey"@[0] && "underlined"@[0] != "dark_grey"@[0]);
    assert("strikethrough"@ != "underlined"@);
    assert("bold"@ != "grey"@);
    assert("font"@ != "bold"@);
}

} // verus!
