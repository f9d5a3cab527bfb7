use vstd::prelude::*;

use crate::strs::{push_char, push_str};

verus! {

/// A JSON document, as the component encoders build it and as a configuration file may
/// carry one.
///
/// Numbers are kept as the text `serde_json` writes for them: nothing here computes with
/// them, and the text is what a round trip has to preserve.
#[derive(Debug, PartialEq)]
pub enum JsonValue {
    Null,
    Bool(bool),
    Number(String),
    String(String),
    Array(Vec<JsonValue>),
    /// Members in the order they are written. Keys are unique.
    Object(Vec<(String, JsonValue)>),
}

/// A lowercase hexadecimal digit.
pub open spec fn lower_hex_digit(value: int) -> char {
    if value < 10 {
        ('0' as int + value) as char
    } else {
        ('a' as int + value - 10) as char
    }
}

/// How `serde_json` writes one character inside a string literal: `"` and `\` behind a
/// backslash, backspace, tab, line feed, form feed and carriage return as `\b`, `\t`,
/// `\n`, `\f` and `\r`, every other character below U+0020 as `\u00` and two lowercase
/// hex digits, and everything else as it is.
pub open spec fn json_escaped_char(c: char) -> Seq<char> {
    if c == '"' {
        seq!['\\', '"']
    } else if c == '\\' {
        seq!['\\', '\\']
    } else if c == '\u{8}' {
        seq!['\\', 'b']
    } else if c == '\t' {
        seq!['\\', 't']
    } else if c == '\n' {
        seq!['\\', 'n']
    } else if c == '\u{c}' {
        seq!['\\', 'f']
    } else if c == '\r' {
        seq!['\\', 'r']
    } else if (c as int) < 0x20 {
        seq!['\\', 'u', '0', '0', lower_hex_digit(c as int / 16), lower_hex_digit(c as int % 16)]
    } else {
        seq![c]
    }
}

/// The characters of `text`, each escaped as inside a JSON string literal.
pub open spec fn json_escaped(text: Seq<char>) -> Seq<char>
    decreases text.len(),
{
    if text.len() == 0 {
        Seq::empty()
    } else {
        json_escaped_char(text[0]) + json_escaped(text.drop_first())
    }
}

/// The JSON string literal `serde_json` writes for `text`: the escaped characters between
/// double quotes.
pub open spec fn json_quoted(text: Seq<char>) -> Seq<char> {
    seq!['"'] + json_escaped(text) + seq!['"']
}

/// `serde_json::to_string` on a string slice: the quoted and escaped literal, exactly as
/// `serde_json` writes a string inside any document (its escape table and
/// `write_char_escape`). Serializing a string slice never fails.
#[verifier::external_body]
fn quote(text: &str) -> (quoted: String)
    ensures
        quoted@ == json_quoted(text@),
{
    match serde_json::to_string(text) {
        Ok(quoted) => quoted,
        Err(_) => String::new(),
    }
}

/// The mathematical content of a [`JsonValue`]: the same tree with every string read as
/// its characters.
pub enum Json {
    Null,
    Bool(bool),
    Number(Seq<char>),
    Str(Seq<char>),
    Array(Seq<Json>),
    Object(Seq<(Seq<char>, Json)>),
}

pub open spec fn json_of(value: JsonValue) -> Json
    decreases value,
{
    match value {
        JsonValue::Null => Json::Null,
        JsonValue::Bool(flag) => Json::Bool(flag),
        JsonValue::Number(text) => Json::Number(text@),
        JsonValue::String(text) => Json::Str(text@),
        JsonValue::Array(items) => Json::Array(json_of_items(items@)),
        JsonValue::Object(members) => Json::Object(json_of_members(members@)),
    }
}

pub open spec fn json_of_items(items: Seq<JsonValue>) -> Seq<Json>
    decreases items,
{
    if items.len() == 0 {
        Seq::empty()
    } else {
        json_of_items(items.drop_last()).push(json_of(items.last()))
    }
}

pub open spec fn json_of_members(members: Seq<(String, JsonValue)>) -> Seq<(Seq<char>, Json)>
    decreases members,
{
    if members.len() == 0 {
        Seq::empty()
    } else {
        json_of_members(members.drop_last()).push(
            (members.last().0@, json_of(members.last().1)),
        )
    }
}

impl View for JsonValue {
    type V = Json;

    open spec fn view(&self) -> Json {
        json_of(*self)
    }
}

/// The compact text of a document: no whitespace, members and items separated by commas.
pub open spec fn render(value: Json) -> Seq<char>
    decreases value,
{
    match value {
        Json::Null => "null"@,
        Json::Bool(flag) => if flag {
            "true"@
        } else {
            "false"@
        },
        Json::Number(text) => text,
        Json::Str(text) => json_quoted(text),
        Json::Array(items) => seq!['['] + render_items(items) + seq![']'],
        Json::Object(members) => seq!['{'] + render_members(members) + seq!['}'],
    }
}

pub open spec fn render_items(items: Seq<Json>) -> Seq<char>
    decreases items,
{
    if items.len() == 0 {
        Seq::empty()
    } else if items.len() == 1 {
        render(items[0])
    } else {
        render_items(items.drop_last()) + seq![','] + render(items.last())
    }
}

pub open spec fn render_member(member: (Seq<char>, Json)) -> Seq<char>
    decreases member,
{
    json_quoted(member.0) + seq![':'] + render(member.1)
}

pub open spec fn render_members(members: Seq<(Seq<char>, Json)>) -> Seq<char>
    decreases members,
{
    if members.len() == 0 {
        Seq::empty()
    } else if members.len() == 1 {
        render_member(members[0])
    } else {
        render_members(members.drop_last()) + seq![','] + render_member(members.last())
    }
}

/// The model of the first `n` items is the first `n` items of the model.
pub proof fn lemma_json_of_items_take(items: Seq<JsonValue>, n: int)
    requires
        0 <= n <= items.len(),
    ensures
        json_of_items(items.take(n)) == json_of_items(items).take(n),
        json_of_items(items).len() == items.len(),
        forall|i: int| 0 <= i < items.len() ==> #[trigger] json_of_items(items)[i] == json_of(items[i]),
    decreases items.len(),
{
    if items.len() > 0 {
        if n == items.len() {
            assert(items.take(n) =~= items);
            lemma_json_of_items_take(items.drop_last(), n - 1);
        } else {
            assert(items.take(n) =~= items.drop_last().take(n));
            lemma_json_of_items_take(items.drop_last(), n);
        }
        assert(json_of_items(items).take(n) =~= json_of_items(items.drop_last()).take(n)
            || n == items.len());
    }
}

/// The model of the first `n` members is the first `n` members of the model.
pub proof fn lemma_json_of_members_take(members: Seq<(String, JsonValue)>, n: int)
    requires
        0 <= n <= members.len(),
    ensures
        json_of_members(members.take(n)) == json_of_members(members).take(n),
        json_of_members(members).len() == members.len(),
        forall|i: int|
            0 <= i < members.len() ==> #[trigger] json_of_members(members)[i] == (
                members[i].0@,
                json_of(members[i].1),
            ),
    decreases members.len(),
{
    if members.len() > 0 {
        if n == members.len() {
            assert(members.take(n) =~= members);
            lemma_json_of_members_take(members.drop_last(), n - 1);
        } else {
            assert(members.take(n) =~= members.drop_last().take(n));
            lemma_json_of_members_take(members.drop_last(), n);
        }
        assert(json_of_members(members).take(n) =~= json_of_members(members.drop_last()).take(n)
            || n == members.len());
    }
}

/// Appends the compact text of `value`.
pub fn write_json(value: &JsonValue, out: &mut String)
    ensures
        final(out)@ == old(out)@ + render(value@),
    decreases value,
{
    match value {
        JsonValue::Null => push_str(out, "null"),
        JsonValue::Bool(flag) => {
            if *flag {
                push_str(out, "true");
            } else {
                push_str(out, "false");
            }
        },
        JsonValue::Number(text) => push_str(out, text.as_str()),
        JsonValue::String(text) => {
            let quoted = quote(text.as_str());
            push_str(out, quoted.as_str());
        },
        JsonValue::Array(items) => {
            push_char(out, '[');
            let mut index: usize = 0;
            while index < items.len()
                invariant
                    0 <= index <= items@.len(),
                    out@ == old(out)@ + seq!['['] + render_items(json_of_items(items@).take(index as int)),
                    *value == JsonValue::Array(*items),
                decreases items@.len() - index,
            {
                proof {
                    lemma_json_of_items_take(items@, index as int);
                    let model = json_of_items(items@);
                    assert(model.take(index + 1).drop_last() =~= model.take(index as int));
                    if index == 0 {
                        assert(model.take(1) =~= seq![model[0]]);
                    }
                }
                if index > 0 {
                    push_char(out, ',');
                }
                proof {
                    assert(decreases_to!(*value => (*value)->Array_0));
                    assert(decreases_to!(*items => items@));
                    assert(decreases_to!(items@ => items@[index as int]));
                }
                write_json(&items[index], out);
                index += 1;
            }
            proof {
                lemma_json_of_items_take(items@, index as int);
                assert(json_of_items(items@).take(items@.len() as int) =~= json_of_items(items@));
            }
            push_char(out, ']');
        },
        JsonValue::Object(members) => {
            push_char(out, '{');
            let mut index: usize = 0;
            while index < members.len()
                invariant
                    0 <= index <= members@.len(),
                    out@ == old(out)@ + seq!['{'] + render_members(json_of_members(members@).take(index as int)),
                    *value == JsonValue::Object(*members),
                decreases members@.len() - index,
            {
                proof {
                    lemma_json_of_members_take(members@, index as int);
                    let model = json_of_members(members@);
                    assert(model.take(index + 1).drop_last() =~= model.take(index as int));
                    if index == 0 {
                        assert(model.take(1) =~= seq![model[0]]);
                    }
                }
                if index > 0 {
                    push_char(out, ',');
                }
                let ghost before = out@;
                let quoted = quote(members[index].0.as_str());
                push_str(out, quoted.as_str());
                push_char(out, ':');
                proof {
                    assert(decreases_to!(*value => (*value)->Object_0));
                    assert(decreases_to!(*members => members@));
                    assert(decreases_to!(members@ => members@[index as int]));
                    assert(decreases_to!(members@[index as int] => members@[index as int].1));
                }
                write_json(&members[index].1, out);
                proof {
                    assert(out@ =~= before + render_member(json_of_members(members@)[index as int]));
                }
                index += 1;
            }
            proof {
                lemma_json_of_members_take(members@, index as int);
                assert(json_of_members(members@).take(members@.len() as int) =~= json_of_members(
                    members@,
                ));
            }
            push_char(out, '}');
        },
    }
}

/// The compact text of `value`.
pub fn json_text(value: &JsonValue) -> (text: String)
    ensures
        text@ == render(value@),
{
    let mut text = String::new();
    write_json(value, &mut text);
    text
}

} // verus!
