use vstd::prelude::*;

use crate::component::Component;
use crate::component_content::ComponentContent;
use crate::component_model::{
    component_model, component_models, empty_style_model, lemma_component_models_take,
    text_model, ComponentModel, ContentModel, StyleModel,
};
use crate::hex::{hex_to_u32, parse_hex_u32};
use crate::json::{json_of, json_of_items, json_of_members, lemma_json_of_items_take,
    lemma_json_of_members_take, Json, JsonValue};
use crate::named_color::{named_with_key, NamedColor};
use crate::rgb_color::RgbColor;
use crate::strs::{chars_of, str_equal};
use crate::style::Style;
use crate::text_color::TextColor;

verus! {

#[verifier::external_type_specification]
#[verifier::external_body]
pub struct ExSerdeJsonValue(serde_json::Value);

/// The document `serde_json` reads from `text`, or `None` when the text is not JSON.
pub uninterp spec fn json_parse(text: Seq<char>) -> Option<Json>;

/// `serde_json::from_str::<serde_json::Value>`: reads a JSON document. Whatever it reads
/// is handed back as a [`JsonValue`] with object members in the order the document's map
/// iterates them; what the document is, for a given text, is not stated here.
#[verifier::external_body]
fn parse_json_document(text: &str) -> (document: Option<JsonValue>)
    ensures
        match document {
            Some(value) => json_parse(text@) == Some(value@),
            None => json_parse(text@) is None,
        },
{
    match serde_json::from_str::<serde_json::Value>(text) {
        Ok(value) => Some(from_serde_value(value)),
        Err(_) => None,
    }
}

/// Converts a `serde_json::Value` into the library's document type, variant by variant.
#[verifier::external_body]
fn from_serde_value(value: serde_json::Value) -> JsonValue {
    match value {
        serde_json::Value::Null => JsonValue::Null,
        serde_json::Value::Bool(flag) => JsonValue::Bool(flag),
        serde_json::Value::Number(number) => JsonValue::Number(number.to_string()),
        serde_json::Value::String(text) => JsonValue::String(text),
        serde_json::Value::Array(items) => JsonValue::Array(
            items.into_iter().map(from_serde_value).collect(),
        ),
        serde_json::Value::Object(members) => JsonValue::Object(
            members.into_iter().map(|(key, item)| (key, from_serde_value(item))).collect(),
        ),
    }
}

/// The value of the first member named `key`.
pub open spec fn member_of(members: Seq<(Seq<char>, Json)>, key: Seq<char>) -> Option<Json>
    decreases members.len(),
{
    if members.len() == 0 {
        None
    } else if members[0].0 == key {
        Some(members[0].1)
    } else {
        member_of(members.drop_first(), key)
    }
}

/// A member's value is the value of one of the members.
pub proof fn lemma_member_of_is_member(members: Seq<(Seq<char>, Json)>, key: Seq<char>)
    ensures
        member_of(members, key) matches Some(found) ==> exists|i: int|
            0 <= i < members.len() && #[trigger] members[i].1 == found,
    decreases members.len(),
{
    if members.len() > 0 && members[0].0 != key {
        lemma_member_of_is_member(members.drop_first(), key);
        if let Some(found) = member_of(members, key) {
            let i = choose|i: int|
                0 <= i < members.drop_first().len() && #[trigger] members.drop_first()[i].1 == found;
            assert(members[i + 1].1 == found);
        }
    } else if members.len() > 0 {
        assert(members[0].1 == member_of(members, key)->0);
    }
}

pub open spec fn as_bool(value: Option<Json>) -> Option<bool> {
    match value {
        Some(Json::Bool(flag)) => Some(flag),
        _ => None,
    }
}

pub open spec fn as_text(value: Option<Json>) -> Option<Seq<char>> {
    match value {
        Some(Json::Str(text)) => Some(text),
        _ => None,
    }
}

/// A colour written as `#` and hexadecimal digits, or as one of the sixteen names.
pub open spec fn color_from_text(text: Seq<char>) -> Option<TextColor> {
    if text.len() > 0 && text[0] == '#' {
        match parse_hex_u32(text.drop_first()) {
            Some(packed) => Some(
                TextColor::Rgb(
                    RgbColor {
                        red: ((packed / 65536) % 256) as u8,
                        green: ((packed / 256) % 256) as u8,
                        blue: (packed % 256) as u8,
                    },
                ),
            ),
            None => None,
        }
    } else {
        match named_with_key(text) {
            Some(named) => Some(TextColor::Named(named)),
            None => None,
        }
    }
}

pub open spec fn style_from_members(members: Seq<(Seq<char>, Json)>) -> StyleModel {
    StyleModel {
        color: match as_text(member_of(members, "color"@)) {
            Some(text) => color_from_text(text),
            None => None,
        },
        bold: as_bool(member_of(members, "bold"@)),
        italic: as_bool(member_of(members, "italic"@)),
        underlined: as_bool(member_of(members, "underlined"@)),
        strikethrough: as_bool(member_of(members, "strikethrough"@)),
        obfuscated: as_bool(member_of(members, "obfuscated"@)),
        font: as_text(member_of(members, "font"@)),
        insertion: as_text(member_of(members, "insertion"@)),
        click_event: None,
        hover_text: None,
    }
}

pub open spec fn content_from_members(members: Seq<(Seq<char>, Json)>) -> ContentModel {
    if as_text(member_of(members, "text"@)) is Some {
        ContentModel::Text(as_text(member_of(members, "text"@))->0)
    } else if as_text(member_of(members, "translate"@)) is Some {
        ContentModel::Translatable(as_text(member_of(members, "translate"@))->0, Seq::empty())
    } else if as_text(member_of(members, "keybind"@)) is Some {
        ContentModel::Keybind(as_text(member_of(members, "keybind"@))->0)
    } else {
        ContentModel::Text(Seq::empty())
    }
}

/// The component a JSON document describes: a string is unstyled text, an object names
/// its content, style and `extra` children, and anything else describes nothing. Children
/// that describe nothing are skipped. Click and hover events are not read back.
pub open spec fn component_from_json(value: Json) -> Option<ComponentModel>
    decreases value,
{
    match value {
        Json::Str(text) => Some(text_model(text)),
        Json::Object(members) => Some(
            ComponentModel {
                content: content_from_members(members),
                style: style_from_members(members),
                children: match member_of(members, "extra"@) {
                    Some(Json::Array(items)) => {
                        proof {
                            lemma_member_of_is_member(members, "extra"@);
                            let i = choose|i: int|
                                0 <= i < members.len() && members[i].1 == Json::Array(items);
                            assert(decreases_to!(value => members));
                            assert(decreases_to!(members => members[i]));
                            assert(decreases_to!(members[i] => members[i].1));
                            assert(decreases_to!(members[i].1 => items));
                        }
                        components_from_json(items)
                    },
                    _ => Seq::empty(),
                },
            },
        ),
        _ => None,
    }
}

/// The components described by a list of documents, skipping those that describe none.
pub open spec fn components_from_json(items: Seq<Json>) -> Seq<ComponentModel>
    decreases items,
{
    if items.len() == 0 {
        Seq::empty()
    } else {
        match component_from_json(items.last()) {
            Some(component) => components_from_json(items.drop_last()).push(component),
            None => components_from_json(items.drop_last()),
        }
    }
}

/// The component a configuration string written as raw JSON describes, or `None` when it
/// is not a JSON object.
pub open spec fn component_from_json_text(input: Seq<char>) -> Option<ComponentModel> {
    match json_parse(input) {
        Some(Json::Object(members)) => component_from_json(Json::Object(members)),
        _ => None,
    }
}

fn find_member<'a>(members: &'a Vec<(String, JsonValue)>, key: &str) -> (found: Option<
    &'a JsonValue,
>)
    ensures
        match found {
            Some(value) => member_of(json_of_members(members@), key@) == Some(value@) && exists|i: int|
                0 <= i < members@.len() && #[trigger] members@[i].1 == *value,
            None => member_of(json_of_members(members@), key@) is None,
        },
{
    let ghost model = json_of_members(members@);
    proof {
        lemma_json_of_members_take(members@, 0);
    }
    let mut index: usize = 0;
    proof {
        assert(model.subrange(0, model.len() as int) =~= model);
    }
    while index < members.len()
        invariant
            0 <= index <= members@.len(),
            model == json_of_members(members@),
            model.len() == members@.len(),
            forall|i: int|
                0 <= i < members@.len() ==> #[trigger] model[i] == (
                    members@[i].0@,
                    json_of(members@[i].1),
                ),
            member_of(model, key@) == member_of(model.subrange(index as int, model.len() as int), key@),
        decreases members@.len() - index,
    {
        let ghost rest = model.subrange(index as int, model.len() as int);
        proof {
            assert(rest[0] == model[index as int]);
            assert(rest.drop_first() =~= model.subrange(index + 1, model.len() as int));
        }
        if str_equal(members[index].0.as_str(), key) {
            proof {
                assert(members@[index as int].1 == members@[index as int].1);
            }
            return Some(&members[index].1);
        }
        index += 1;
    }
    proof {
        assert(model.subrange(index as int, model.len() as int).len() == 0);
    }
    None
}

fn bool_member(members: &Vec<(String, JsonValue)>, key: &str) -> (flag: Option<bool>)
    ensures
        flag == as_bool(member_of(json_of_members(members@), key@)),
{
    match find_member(members, key) {
        Some(JsonValue::Bool(flag)) => Some(*flag),
        _ => None,
    }
}

fn text_member<'a>(members: &'a Vec<(String, JsonValue)>, key: &str) -> (text: Option<&'a String>)
    ensures
        match text {
            Some(value) => as_text(member_of(json_of_members(members@), key@)) == Some(value@),
            None => as_text(member_of(json_of_members(members@), key@)) is None,
        },
{
    match find_member(members, key) {
        Some(JsonValue::String(text)) => Some(text),
        _ => None,
    }
}

fn owned(text: Option<&String>) -> (copy: Option<String>)
    ensures
        match text {
            Some(value) => copy matches Some(c) && c@ == value@,
            None => copy is None,
        },
{
    match text {
        Some(value) => Some(value.clone()),
        None => None,
    }
}

/// Reads a colour written as `#rrggbb` or by name.
fn color_from_json(text: &String) -> (color: Option<TextColor>)
    ensures
        color == color_from_text(text@),
{
    let characters = chars_of(text.as_str());
    if characters.len() > 0 && characters[0] == '#' {
        let mut digits: Vec<char> = Vec::new();
        let mut index: usize = 1;
        while index < characters.len()
            invariant
                1 <= index <= characters@.len(),
                digits@ == characters@.subrange(1, index as int),
            decreases characters@.len() - index,
        {
            digits.push(characters[index]);
            index += 1;
            proof {
                assert(digits@ =~= characters@.subrange(1, index as int));
            }
        }
        proof {
            assert(digits@ =~= text@.drop_first());
        }
        return match hex_to_u32(digits.as_slice()) {
            Some(packed) => Some(TextColor::Rgb(RgbColor::from_packed(packed))),
            None => None,
        };
    }
    match NamedColor::from_key(text.as_str()) {
        Some(named) => Some(TextColor::Named(named)),
        None => None,
    }
}

fn style_from_json(members: &Vec<(String, JsonValue)>) -> (style: Style)
    ensures
        style@ == style_from_members(json_of_members(members@)),
{
    let mut style = Style::empty();
    style.bold = bool_member(members, "bold");
    style.italic = bool_member(members, "italic");
    style.underlined = bool_member(members, "underlined");
    style.strikethrough = bool_member(members, "strikethrough");
    style.obfuscated = bool_member(members, "obfuscated");
    style.color = match text_member(members, "color") {
        Some(text) => color_from_json(text),
        None => None,
    };
    style.font = owned(text_member(members, "font"));
    style.insertion = owned(text_member(members, "insertion"));
    style
}

fn content_from_json(members: &Vec<(String, JsonValue)>) -> (content: ComponentContent)
    ensures
        crate::component_model::content_model(content) == content_from_members(
            json_of_members(members@),
        ),
{
    if let Some(text) = text_member(members, "text") {
        return ComponentContent::Text { text: text.clone() };
    }
    if let Some(key) = text_member(members, "translate") {
        let arguments: Vec<Component> = Vec::new();
        proof {
            assert(component_models(arguments@) =~= Seq::empty());
        }
        return ComponentContent::Translatable { key: key.clone(), arguments };
    }
    if let Some(keybind) = text_member(members, "keybind") {
        return ComponentContent::Keybind { keybind: keybind.clone() };
    }
    ComponentContent::Text { text: String::new() }
}

fn children_from_json(items: &Vec<JsonValue>) -> (children: Vec<Component>)
    ensures
        component_models(children@) == components_from_json(json_of_items(items@)),
    decreases items, 0int,
{
    let mut children: Vec<Component> = Vec::new();
    let ghost model = json_of_items(items@);
    proof {
        lemma_json_of_items_take(items@, 0);
    }
    let mut index: usize = 0;
    while index < items.len()
        invariant
            0 <= index <= items@.len(),
            model == json_of_items(items@),
            model.len() == items@.len(),
            forall|i: int| 0 <= i < items@.len() ==> #[trigger] model[i] == json_of(items@[i]),
            component_models(children@) == components_from_json(model.take(index as int)),
        decreases items@.len() - index,
    {
        proof {
            assert(decreases_to!(*items => items@));
            assert(decreases_to!(items@ => items@[index as int]));
            assert(model.take(index + 1).drop_last() =~= model.take(index as int));
            assert(model.take(index + 1).last() == model[index as int]);
        }
        let ghost before = children@;
        match component_from_value(&items[index]) {
            Some(child) => {
                children.push(child);
                proof {
                    assert(children@.drop_last() =~= before);
                }
            },
            None => {},
        }
        index += 1;
    }
    proof {
        assert(model.take(index as int) =~= model);
    }
    children
}

/// Reads the component a JSON value describes.
pub fn component_from_value(value: &JsonValue) -> (component: Option<Component>)
    ensures
        match component {
            Some(built) => component_from_json(value@) == Some(built@),
            None => component_from_json(value@) is None,
        },
    decreases value, 1int,
{
    match value {
        JsonValue::String(text) => {
            let built = Component::text(text.as_str());
            proof {
                assert(component_models(built.children@) =~= Seq::empty());
            }
            Some(built)
        },
        JsonValue::Object(members) => {
            let content = content_from_json(members);
            let style = style_from_json(members);
            let children = match find_member(members, "extra") {
                Some(JsonValue::Array(items)) => {
                    proof {
                        let i = choose|i: int|
                            0 <= i < members@.len() && #[trigger] members@[i].1 == JsonValue::Array(*items);
                        assert(decreases_to!(*value => *members));
                        assert(decreases_to!(*members => members@));
                        assert(decreases_to!(members@ => members@[i]));
                        assert(decreases_to!(members@[i] => members@[i].1));
                        assert(decreases_to!(members@[i].1 => *items));
                    }
                    children_from_json(items)
                },
                _ => {
                    let empty: Vec<Component> = Vec::new();
                    proof {
                        assert(component_models(empty@) =~= Seq::empty());
                    }
                    empty
                },
            };
            Some(Component::new(content, style, children))
        },
        _ => None,
    }
}

/// Reads a component written as raw JSON, as a configuration file may carry it.
///
/// Returns `None` for anything that is not valid JSON describing a component, so the
/// caller can fall back to the other notations. Click and hover events are not read
/// back: nothing in the configuration round-trips them, and guessing at the several
/// shapes they have had over the years would invite silent misreadings.
pub fn from_json_str(input: &str) -> (component: Option<Component>)
    ensures
        match component {
            Some(built) => component_from_json_text(input@) == Some(built@),
            None => component_from_json_text(input@) is None,
        },
{
    match parse_json_document(input) {
        Some(document) => match &document {
            JsonValue::Object(_) => component_from_value(&document),
            _ => None,
        },
        None => None,
    }
}

} // verus!
