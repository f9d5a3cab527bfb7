use vstd::prelude::*;

use crate::component::Component;
use crate::component_content::ComponentContent;
use crate::component_json::{
    build_value, click_segment, color_segment, component_json, component_json_all,
    component_members, extra_segment, flag_member, head_members, hover_segment, keybind_segment,
    tail_members, text_member, text_segment, translate_segment, with_segment,
};
use crate::hover_event::HoverEvent;
use crate::json::{
    json_of, json_of_items, json_of_members, lemma_json_of_items_take, lemma_json_of_members_take,
    Json, JsonValue,
};
use crate::json_profile::{click_payload_key_of, hover_text_key_of, JsonProfile};
use crate::click_event::{click_action_name, click_payload};
use crate::nbt::{
    compound_of, compounds_of, inserted, lemma_inserted_lookup, lookup, Nbt, NbtCompound,
    NbtItems, NbtList, NbtValue,
};
use crate::strs::push_str;

verus! {

/// Whether a JSON tree is free of numbers. The component encoders never write one.
pub open spec fn number_free(value: Json) -> bool
    decreases value,
{
    match value {
        Json::Number(_) => false,
        Json::Array(items) => forall|i: int| 0 <= i < items.len() ==> number_free(#[trigger] items[i]),
        Json::Object(members) => forall|i: int|
            0 <= i < members.len() ==> number_free(#[trigger] members[i].1),
        _ => true,
    }
}

/// Whether no member value of an object holds a number.
pub open spec fn members_number_free(members: Seq<(Seq<char>, Json)>) -> bool {
    forall|i: int| 0 <= i < members.len() ==> number_free(#[trigger] members[i].1)
}

proof fn lemma_object_number_free(members: Seq<(Seq<char>, Json)>)
    requires
        number_free(Json::Object(members)),
    ensures
        members_number_free(members),
{
    assert forall|i: int| 0 <= i < members.len() implies number_free(#[trigger] members[i].1) by {
        let value = Json::Object(members);
        assert(decreases_to!(value => value->Object_0));
        assert(decreases_to!(value->Object_0 => value->Object_0[i]));
        assert(decreases_to!(value->Object_0[i] => value->Object_0[i].1));
        assert(number_free(value));
    }
}

proof fn lemma_members_number_free_concat(
    first: Seq<(Seq<char>, Json)>,
    second: Seq<(Seq<char>, Json)>,
)
    requires
        members_number_free(first),
        members_number_free(second),
    ensures
        members_number_free(first + second),
{
    assert forall|i: int| 0 <= i < (first + second).len() implies number_free(
        #[trigger] (first + second)[i].1,
    ) by {
        if i < first.len() {
            assert((first + second)[i] == first[i]);
        } else {
            assert((first + second)[i] == second[i - first.len()]);
        }
    }
}

/// The NBT a number-free JSON tree becomes.
///
/// `true` and `false` become the bytes 1 and 0, strings stay strings, an object becomes a
/// compound of its convertible members, and an array becomes a list of compounds, or the
/// empty list, when every item converts to a compound; anything else converts to nothing.
pub open spec fn nbt_from_json(value: Json) -> Option<Nbt>
    decreases value,
{
    match value {
        Json::Null => None,
        Json::Bool(flag) => Some(Nbt::Byte(if flag { 1i8 } else { 0i8 })),
        Json::Str(text) => Some(Nbt::Str(text)),
        Json::Object(members) => Some(Nbt::Compound(compound_from_members(members))),
        Json::Array(items) => match compounds_from_items(items) {
            Some(compounds) => Some(
                Nbt::List(
                    if compounds.len() == 0 {
                        NbtItems::End
                    } else {
                        NbtItems::Compound(compounds)
                    },
                ),
            ),
            None => None,
        },
        Json::Number(_) => arbitrary(),
    }
}

/// The compound an object's members become: each member whose value converts is set
/// under its key, in order.
pub open spec fn compound_from_members(members: Seq<(Seq<char>, Json)>) -> Seq<(Seq<char>, Nbt)>
    decreases members,
{
    if members.len() == 0 {
        Seq::empty()
    } else {
        let earlier = compound_from_members(members.drop_last());
        match nbt_from_json(members.last().1) {
            Some(value) => inserted(earlier, members.last().0, value),
            None => earlier,
        }
    }
}

/// The compounds an array's items become, when every one of them becomes a compound.
pub open spec fn compounds_from_items(items: Seq<Json>) -> Option<Seq<Seq<(Seq<char>, Nbt)>>>
    decreases items,
{
    if items.len() == 0 {
        Some(Seq::empty())
    } else {
        match compounds_from_items(items.drop_last()) {
            Some(done) => match nbt_from_json(items.last()) {
                Some(Nbt::Compound(compound)) => Some(done.push(compound)),
                _ => None,
            },
            None => None,
        }
    }
}

/// The NBT compound a client from 1.20.3 on reads a component as: the component's JSON
/// tree, written without collapsing plain text into bare strings, converted member by
/// member.
pub open spec fn component_nbt(component: Component, profile: JsonProfile) -> Seq<
    (Seq<char>, Nbt),
> {
    match component_json(component, profile, false) {
        Json::Object(members) => compound_from_members(members),
        other => match nbt_from_json(other) {
            Some(value) => inserted(Seq::empty(), "text"@, value),
            None => Seq::empty(),
        },
    }
}

/// The value the last convertible member named `key` converts to.
pub open spec fn last_converted(members: Seq<(Seq<char>, Json)>, key: Seq<char>) -> Option<Nbt>
    decreases members.len(),
{
    if members.len() == 0 {
        None
    } else if members.last().0 == key && nbt_from_json(members.last().1) is Some {
        nbt_from_json(members.last().1)
    } else {
        last_converted(members.drop_last(), key)
    }
}

/// Looking a key up in an object's compound finds what the last convertible member with
/// that key converts to.
pub proof fn lemma_compound_lookup(members: Seq<(Seq<char>, Json)>, key: Seq<char>)
    ensures
        lookup(compound_from_members(members), key) == last_converted(members, key),
    decreases members.len(),
{
    if members.len() > 0 {
        lemma_compound_lookup(members.drop_last(), key);
        let earlier = compound_from_members(members.drop_last());
        match nbt_from_json(members.last().1) {
            Some(value) => {
                lemma_inserted_lookup(earlier, members.last().0, value, key);
            },
            None => {},
        }
    }
}

proof fn lemma_last_converted_concat(
    first: Seq<(Seq<char>, Json)>,
    second: Seq<(Seq<char>, Json)>,
    key: Seq<char>,
)
    ensures
        last_converted(first + second, key) == if last_converted(second, key) is Some {
            last_converted(second, key)
        } else {
            last_converted(first, key)
        },
    decreases second.len(),
{
    if second.len() == 0 {
        assert(first + second =~= first);
    } else {
        assert((first + second).drop_last() =~= first + second.drop_last());
        lemma_last_converted_concat(first, second.drop_last(), key);
    }
}

/// A text component's NBT compound holds its text under `text`, whatever its style and
/// children: the text is never collapsed into a bare string and lost.
pub proof fn lemma_text_survives(component: Component, profile: JsonProfile)
    requires
        component.content is Text,
    ensures
        lookup(component_nbt(component, profile), "text"@) == Some(
            Nbt::Str(component.content->Text_text@),
        ),
{
    reveal(text_segment);
    reveal(translate_segment);
    let style = component.style;
    let content = component.content;
    let key = "text"@;
    let text = component.content->Text_text@;
    let insertion = text_member(style.insertion, "insertion"@);
    let italic = flag_member(style.italic, "italic"@);
    let keybind = keybind_segment(content);
    let obfuscated = flag_member(style.obfuscated, "obfuscated"@);
    let strikethrough = flag_member(style.strikethrough, "strikethrough"@);
    let text_seg = text_segment(content);
    let translate = translate_segment(content);
    let underlined = flag_member(style.underlined, "underlined"@);
    let with = with_segment(content, profile, false);
    let before_text = insertion + italic + keybind + obfuscated + strikethrough;
    assert(text_seg == seq![(key, Json::Str(text))]);
    assert(last_converted(text_seg, key) == Some(Nbt::Str(text))) by {
        assert(text_seg.drop_last() =~= Seq::<(Seq<char>, Json)>::empty());
    }
    lemma_last_converted_concat(before_text, text_seg, key);
    assert(translate =~= Seq::<(Seq<char>, Json)>::empty());
    lemma_last_converted_concat(before_text + text_seg, translate, key);
    assert(last_converted(underlined, key) is None) by {
        reveal_strlit("underlined");
        reveal_strlit("text");
        assert("underlined"@.len() == 10 && key.len() == 4);
        assert("underlined"@ != key);
        if underlined.len() > 0 {
            assert(underlined.drop_last() =~= Seq::<(Seq<char>, Json)>::empty());
        }
    }
    lemma_last_converted_concat(before_text + text_seg + translate, underlined, key);
    assert(with =~= Seq::<(Seq<char>, Json)>::empty());
    lemma_last_converted_concat(before_text + text_seg + translate + underlined, with, key);
    let tail = tail_members(component, profile, false);
    assert(tail == before_text + text_seg + translate + underlined + with);
    lemma_last_converted_concat(head_members(component, profile, false), tail, key);
    assert(component_json(component, profile, false) == Json::Object(
        component_members(component, profile, false),
    ));
    lemma_compound_lookup(component_members(component, profile, false), key);
}

/// An array whose leading items already fail to convert fails as a whole.
proof fn lemma_compounds_from_items_prefix(items: Seq<Json>, n: int)
    requires
        0 <= n <= items.len(),
        compounds_from_items(items.take(n)) is None,
    ensures
        compounds_from_items(items) is None,
    decreases items.len(),
{
    if n < items.len() {
        assert(items.drop_last().take(n) =~= items.take(n));
        lemma_compounds_from_items_prefix(items.drop_last(), n);
    } else {
        assert(items.take(n) =~= items);
    }
}

/// A component's JSON tree holds no numbers.
pub proof fn lemma_component_json_number_free(
    component: Component,
    profile: JsonProfile,
    compaction: bool,
)
    ensures
        number_free(component_json(component, profile, compaction)),
    decreases component, 3int,
{
    lemma_component_members_number_free(component, profile, compaction);
    let members = component_members(component, profile, compaction);
    assert(members_number_free(members));
    if !(compaction && crate::json_profile::profile_compacts(profile)
        && component.content is Text && crate::style::style_is_empty(component.style)
        && component.children@.len() == 0) {
        assert(component_json(component, profile, compaction) == Json::Object(members));
        assert forall|i: int| 0 <= i < members.len() implies number_free(#[trigger] members[i].1) by {
        }
    }
}

proof fn lemma_component_members_number_free(
    component: Component,
    profile: JsonProfile,
    compaction: bool,
)
    ensures
        members_number_free(component_members(component, profile, compaction)),
    decreases component, 2int,
{
    reveal(click_segment);
    reveal(color_segment);
    reveal(keybind_segment);
    reveal(text_segment);
    reveal(translate_segment);
    let style = component.style;
    let content = component.content;
    lemma_all_number_free(component.children@, profile, compaction);
    let all_children = component_json_all(component.children@, profile, compaction);
    assert(number_free(Json::Array(all_children)));
    match style.hover_event {
        Some(HoverEvent::ShowText { text }) => {
            lemma_component_json_number_free(*text, profile, compaction);
            let members = seq![
                ("action"@, Json::Str("show_text"@)),
                (hover_text_key_of(profile), component_json(*text, profile, compaction)),
            ];
            assert(number_free(members[0].1) && number_free(members[1].1));
            assert(number_free(Json::Object(members)));
        },
        None => {},
    }
    match style.click_event {
        Some(event) => {
            let members = seq![
                ("action"@, Json::Str(click_action_name(event))),
                (click_payload_key_of(profile, event), Json::Str(click_payload(event))),
            ];
            assert(number_free(members[0].1) && number_free(members[1].1));
            assert(number_free(Json::Object(members)));
        },
        None => {},
    }
    match content {
        ComponentContent::Translatable { arguments, .. } => {
            lemma_all_number_free(arguments@, profile, compaction);
            assert(number_free(
                Json::Array(component_json_all(arguments@, profile, compaction)),
            ));
        },
        _ => {},
    }
    let bold = flag_member(style.bold, "bold"@);
    let click = click_segment(style, profile);
    let color = color_segment(style, profile);
    let extra = extra_segment(component, profile, compaction);
    let font = text_member(style.font, "font"@);
    let hover = hover_segment(style, profile, compaction);
    let insertion = text_member(style.insertion, "insertion"@);
    let italic = flag_member(style.italic, "italic"@);
    let keybind = keybind_segment(content);
    let obfuscated = flag_member(style.obfuscated, "obfuscated"@);
    let strikethrough = flag_member(style.strikethrough, "strikethrough"@);
    let text = text_segment(content);
    let translate = translate_segment(content);
    let underlined = flag_member(style.underlined, "underlined"@);
    let with = with_segment(content, profile, compaction);
    assert(members_number_free(bold));
    assert(members_number_free(click));
    assert(members_number_free(color));
    assert(members_number_free(extra));
    assert(members_number_free(font));
    assert(members_number_free(hover));
    assert(members_number_free(insertion));
    assert(members_number_free(italic));
    assert(members_number_free(keybind));
    assert(members_number_free(obfuscated));
    assert(members_number_free(strikethrough));
    assert(members_number_free(text));
    assert(members_number_free(translate));
    assert(members_number_free(underlined));
    assert(members_number_free(with));
    lemma_members_number_free_concat(bold, click);
    lemma_members_number_free_concat(bold + click, color);
    lemma_members_number_free_concat(bold + click + color, extra);
    lemma_members_number_free_concat(bold + click + color + extra, font);
    lemma_members_number_free_concat(bold + click + color + extra + font, hover);
    lemma_members_number_free_concat(insertion, italic);
    lemma_members_number_free_concat(insertion + italic, keybind);
    lemma_members_number_free_concat(insertion + italic + keybind, obfuscated);
    lemma_members_number_free_concat(insertion + italic + keybind + obfuscated, strikethrough);
    lemma_members_number_free_concat(
        insertion + italic + keybind + obfuscated + strikethrough,
        text,
    );
    lemma_members_number_free_concat(
        insertion + italic + keybind + obfuscated + strikethrough + text,
        translate,
    );
    lemma_members_number_free_concat(
        insertion + italic + keybind + obfuscated + strikethrough + text + translate,
        underlined,
    );
    lemma_members_number_free_concat(
        insertion + italic + keybind + obfuscated + strikethrough + text + translate + underlined,
        with,
    );
    lemma_members_number_free_concat(
        head_members(component, profile, compaction),
        tail_members(component, profile, compaction),
    );
}

proof fn lemma_all_number_free(components: Seq<Component>, profile: JsonProfile, compaction: bool)
    ensures
        forall|i: int|
            0 <= i < component_json_all(components, profile, compaction).len() ==> number_free(
                #[trigger] component_json_all(components, profile, compaction)[i],
            ),
        component_json_all(components, profile, compaction).len() == components.len(),
    decreases components, 0int,
{
    if components.len() > 0 {
        lemma_all_number_free(components.drop_last(), profile, compaction);
        lemma_component_json_number_free(components.last(), profile, compaction);
    }
}

fn json_to_nbt(value: &JsonValue) -> (converted: Option<NbtValue>)
    requires
        number_free(value@),
    ensures
        match converted {
            Some(nbt) => nbt_from_json(value@) == Some(nbt@),
            None => nbt_from_json(value@) is None,
        },
    decreases value,
{
    match value {
        JsonValue::Bool(flag) => Some(NbtValue::Byte(if *flag { 1 } else { 0 })),
        JsonValue::String(text) => Some(NbtValue::String(text.clone())),
        JsonValue::Object(fields) => Some(NbtValue::Compound(json_object_to_compound(fields))),
        JsonValue::Array(items) => json_array_to_nbt(items),
        // Excluded by the precondition: no number reaches this conversion.
        JsonValue::Number(_) => None,
        JsonValue::Null => None,
    }
}

fn json_array_to_nbt(items: &Vec<JsonValue>) -> (converted: Option<NbtValue>)
    requires
        forall|i: int|
            0 <= i < json_of_items(items@).len() ==> number_free(
                #[trigger] json_of_items(items@)[i],
            ),
    ensures
        match converted {
            Some(nbt) => nbt_from_json(Json::Array(json_of_items(items@))) == Some(nbt@),
            None => nbt_from_json(Json::Array(json_of_items(items@))) is None,
        },
    decreases items,
{
    proof {
        lemma_json_of_items_take(items@, 0);
    }
    let ghost models = json_of_items(items@);
    let mut compounds: Vec<NbtCompound> = Vec::new();
    let mut index: usize = 0;
    while index < items.len()
        invariant
            0 <= index <= items@.len(),
            models == json_of_items(items@),
            models.len() == items@.len(),
            forall|i: int| 0 <= i < items@.len() ==> #[trigger] models[i] == json_of(items@[i]),
            forall|i: int| 0 <= i < models.len() ==> number_free(#[trigger] models[i]),
            compounds_from_items(models.take(index as int)) == Some(compounds_of(compounds@)),
        decreases items@.len() - index,
    {
        proof {
            assert(decreases_to!(*items => items@));
            assert(decreases_to!(items@ => items@[index as int]));
            assert(models.take(index + 1).drop_last() =~= models.take(index as int));
            assert(models.take(index + 1).last() == models[index as int]);
            assert(number_free(models[index as int]));
        }
        match json_to_nbt(&items[index]) {
            Some(NbtValue::Compound(compound)) => {
                let ghost before = compounds@;
                compounds.push(compound);
                proof {
                    assert(compounds@.drop_last() =~= before);
                }
            },
            other => {
                proof {
                    assert(compounds_from_items(models.take(index + 1)) is None);
                    lemma_compounds_from_items_prefix(models, index + 1);
                }
                return None;
            },
        }
        index += 1;
    }
    proof {
        assert(models.take(index as int) =~= models);
    }
    if compounds.len() == 0 {
        Some(NbtValue::List(NbtList::End))
    } else {
        Some(NbtValue::List(NbtList::Compound(compounds)))
    }
}

fn json_object_to_compound(fields: &Vec<(String, JsonValue)>) -> (compound: NbtCompound)
    requires
        forall|i: int|
            0 <= i < json_of_members(fields@).len() ==> number_free(
                #[trigger] json_of_members(fields@)[i].1,
            ),
    ensures
        compound@ == compound_from_members(json_of_members(fields@)),
    decreases fields,
{
    proof {
        lemma_json_of_members_take(fields@, 0);
    }
    let ghost models = json_of_members(fields@);
    let mut compound = NbtCompound::new();
    let mut index: usize = 0;
    while index < fields.len()
        invariant
            0 <= index <= fields@.len(),
            models == json_of_members(fields@),
            models.len() == fields@.len(),
            forall|i: int|
                0 <= i < fields@.len() ==> #[trigger] models[i] == (
                    fields@[i].0@,
                    json_of(fields@[i].1),
                ),
            forall|i: int| 0 <= i < models.len() ==> number_free(#[trigger] models[i].1),
            compound@ == compound_from_members(models.take(index as int)),
        decreases fields@.len() - index,
    {
        proof {
            assert(decreases_to!(*fields => fields@));
            assert(decreases_to!(fields@ => fields@[index as int]));
            assert(decreases_to!(fields@[index as int] => fields@[index as int].1));
            assert(models.take(index + 1).drop_last() =~= models.take(index as int));
            assert(number_free(models[index as int].1));
        }
        let field = &fields[index];
        if let Some(converted) = json_to_nbt(&field.1) {
            compound.insert(field.0.clone(), converted);
        }
        index += 1;
    }
    proof {
        assert(models.take(index as int) =~= models);
    }
    compound
}

/// Builds the NBT compound a client from 1.20.3 on reads a component as.
///
/// Plain text is never collapsed into a bare string here: inside `extra` such a string
/// would have to become a compound, and a compound without a `text` field renders as
/// nothing. Building the tree straight from the component keeps every child's text.
pub fn to_nbt_compound(component: &Component, profile: JsonProfile) -> (compound: NbtCompound)
    ensures
        compound@ == component_nbt(*component, profile),
{
    proof {
        lemma_component_json_number_free(*component, profile, false);
    }
    let value = build_value(component, profile, false);
    let ghost model = value@;
    match value {
        JsonValue::Object(fields) => {
            proof {
                assert(model == Json::Object(json_of_members(fields@)));
                lemma_object_number_free(json_of_members(fields@));
            }
            json_object_to_compound(&fields)
        },
        other => {
            let mut compound = NbtCompound::new();
            if let Some(value) = json_to_nbt(&other) {
                let mut key = String::new();
                push_str(&mut key, "text");
                proof {
                    assert(key@ =~= "text"@);
                }
                compound.insert(key, value);
            }
            compound
        },
    }
}

} // verus!
