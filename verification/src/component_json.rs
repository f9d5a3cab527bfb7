use vstd::prelude::*;

use crate::click_event::{click_action_name, click_payload, ClickEvent};
use crate::component::Component;
use crate::component_content::ComponentContent;
use crate::hover_event::HoverEvent;
use crate::json::{json_of, json_of_items, json_of_members, json_text, render, Json, JsonValue};
use crate::json_profile::{
    click_event_key_of, click_payload_key_of, hover_event_key_of, hover_text_key_of,
    profile_compacts, profile_emits_rgb, JsonProfile,
};
use crate::named_color::{declaration_index, named_at, named_key, named_rgb_value, NamedColor};
use crate::rgb_color::RgbColor;
use crate::strs::push_char;
use crate::style::{style_is_empty, Style};
use crate::text_color::{named_reduction, TextColor};
use vstd::seq_lib::lemma_concat_associative;

verus! {

/// The channels a colour stands for.
pub open spec fn rgb_of(color: TextColor) -> RgbColor {
    match color {
        TextColor::Named(named) => named_rgb_value(named),
        TextColor::Rgb(rgb) => rgb,
    }
}

/// An uppercase hexadecimal digit.
pub open spec fn upper_hex_digit(value: int) -> char {
    if value < 10 {
        ('0' as int + value) as char
    } else {
        ('A' as int + value - 10) as char
    }
}

/// `#RRGGBB` in uppercase hexadecimal.
pub open spec fn hex_text(rgb: RgbColor) -> Seq<char> {
    seq![
        '#',
        upper_hex_digit(rgb.red as int / 16),
        upper_hex_digit(rgb.red as int % 16),
        upper_hex_digit(rgb.green as int / 16),
        upper_hex_digit(rgb.green as int % 16),
        upper_hex_digit(rgb.blue as int / 16),
        upper_hex_digit(rgb.blue as int % 16),
    ]
}

/// Whether a named colour has exactly these channels.
pub open spec fn names_exactly(named: NamedColor, rgb: RgbColor) -> bool {
    named_rgb_value(named) == rgb
}

/// The text a colour is written as for this profile.
///
/// A colour that exactly matches one of the sixteen named colours is always written by
/// name, even where hex is allowed, and the choice is visible in the bytes.
pub open spec fn color_text(color: TextColor, profile: JsonProfile) -> Seq<char> {
    if !profile_emits_rgb(profile) {
        named_key(named_reduction(color))
    } else if exists|named: NamedColor| names_exactly(named, rgb_of(color)) {
        named_key(choose|named: NamedColor| names_exactly(named, rgb_of(color)))
    } else {
        hex_text(rgb_of(color))
    }
}

/// A member that is present only when `present` holds.
pub open spec fn optional_member(present: bool, key: Seq<char>, value: Json) -> Seq<
    (Seq<char>, Json),
> {
    if present {
        seq![(key, value)]
    } else {
        Seq::empty()
    }
}

pub open spec fn flag_member(flag: Option<bool>, key: Seq<char>) -> Seq<(Seq<char>, Json)> {
    match flag {
        Some(value) => seq![(key, Json::Bool(value))],
        None => Seq::empty(),
    }
}

pub open spec fn text_member(text: Option<String>, key: Seq<char>) -> Seq<(Seq<char>, Json)> {
    match text {
        Some(value) => seq![(key, Json::Str(value@))],
        None => Seq::empty(),
    }
}

/// `{"action": ..., payload key: ...}` for a click event.
pub open spec fn click_json(event: ClickEvent, profile: JsonProfile) -> Json {
    Json::Object(
        seq![
            ("action"@, Json::Str(click_action_name(event))),
            (click_payload_key_of(profile, event), Json::Str(click_payload(event))),
        ],
    )
}

/// The JSON tree for a component, with its members in ascending key order.
///
/// With `compaction`, a profile that collapses plain text writes an unstyled, childless
/// text component as a bare string. The JSON wire format does that from 1.20.3; the NBT
/// wire format must not, because a bare string has nowhere to live inside an NBT list of
/// compounds.
pub open spec fn component_json(component: Component, profile: JsonProfile, compaction: bool) -> Json
    decreases component, 3int,
{
    if compaction && profile_compacts(profile) && component.content is Text && style_is_empty(
        component.style,
    ) && component.children@.len() == 0 {
        Json::Str(component.content->Text_text@)
    } else {
        Json::Object(component_members(component, profile, compaction))
    }
}

#[verifier::opaque]
pub open spec fn click_segment(style: Style, profile: JsonProfile) -> Seq<(Seq<char>, Json)> {
    match style.click_event {
        Some(event) => seq![(click_event_key_of(profile), click_json(event, profile))],
        None => Seq::empty(),
    }
}

#[verifier::opaque]
pub open spec fn color_segment(style: Style, profile: JsonProfile) -> Seq<(Seq<char>, Json)> {
    match style.color {
        Some(color) => seq![("color"@, Json::Str(color_text(color, profile)))],
        None => Seq::empty(),
    }
}

#[verifier::opaque]
pub open spec fn keybind_segment(content: ComponentContent) -> Seq<(Seq<char>, Json)> {
    match content {
        ComponentContent::Keybind { keybind } => seq![("keybind"@, Json::Str(keybind@))],
        _ => Seq::empty(),
    }
}

#[verifier::opaque]
pub open spec fn text_segment(content: ComponentContent) -> Seq<(Seq<char>, Json)> {
    match content {
        ComponentContent::Text { text } => seq![("text"@, Json::Str(text@))],
        _ => Seq::empty(),
    }
}

#[verifier::opaque]
pub open spec fn translate_segment(content: ComponentContent) -> Seq<(Seq<char>, Json)> {
    match content {
        ComponentContent::Translatable { key, .. } => seq![("translate"@, Json::Str(key@))],
        _ => Seq::empty(),
    }
}

pub open spec fn hover_segment(style: Style, profile: JsonProfile, compaction: bool) -> Seq<
    (Seq<char>, Json),
>
    decreases style, 0int,
{
    match style.hover_event {
        Some(HoverEvent::ShowText { text }) => seq![
            (
                hover_event_key_of(profile),
                Json::Object(
                    seq![
                        ("action"@, Json::Str("show_text"@)),
                        (hover_text_key_of(profile), component_json(*text, profile, compaction)),
                    ],
                ),
            ),
        ],
        None => Seq::empty(),
    }
}

pub open spec fn with_segment(content: ComponentContent, profile: JsonProfile, compaction: bool) -> Seq<
    (Seq<char>, Json),
>
    decreases content, 0int,
{
    match content {
        ComponentContent::Translatable { arguments, .. } => optional_member(
            arguments@.len() > 0,
            "with"@,
            Json::Array(component_json_all(arguments@, profile, compaction)),
        ),
        _ => Seq::empty(),
    }
}

pub open spec fn extra_segment(component: Component, profile: JsonProfile, compaction: bool) -> Seq<
    (Seq<char>, Json),
>
    decreases component, 0int,
{
    optional_member(
        component.children@.len() > 0,
        "extra"@,
        Json::Array(component_json_all(component.children@, profile, compaction)),
    )
}

/// The members from `bold` to `hoverEvent`, in key order.
pub open spec fn head_members(component: Component, profile: JsonProfile, compaction: bool) -> Seq<
    (Seq<char>, Json),
>
    decreases component, 1int,
{
    flag_member(component.style.bold, "bold"@) + click_segment(component.style, profile)
        + color_segment(component.style, profile) + extra_segment(component, profile, compaction)
        + text_member(component.style.font, "font"@) + hover_segment(
        component.style,
        profile,
        compaction,
    )
}

/// The members from `insertion` to `with`, in key order.
pub open spec fn tail_members(component: Component, profile: JsonProfile, compaction: bool) -> Seq<
    (Seq<char>, Json),
>
    decreases component, 1int,
{
    text_member(component.style.insertion, "insertion"@) + flag_member(
        component.style.italic,
        "italic"@,
    ) + keybind_segment(component.content) + flag_member(
        component.style.obfuscated,
        "obfuscated"@,
    ) + flag_member(component.style.strikethrough, "strikethrough"@) + text_segment(
        component.content,
    ) + translate_segment(component.content) + flag_member(
        component.style.underlined,
        "underlined"@,
    ) + with_segment(component.content, profile, compaction)
}

pub open spec fn component_members(
    component: Component,
    profile: JsonProfile,
    compaction: bool,
) -> Seq<(Seq<char>, Json)>
    decreases component, 2int,
{
    head_members(component, profile, compaction) + tail_members(component, profile, compaction)
}

/// The trees of several components, in order.
pub open spec fn component_json_all(
    components: Seq<Component>,
    profile: JsonProfile,
    compaction: bool,
) -> Seq<Json>
    decreases components, 0int,
{
    if components.len() == 0 {
        Seq::empty()
    } else {
        component_json_all(components.drop_last(), profile, compaction).push(
            component_json(components.last(), profile, compaction),
        )
    }
}

/// The JSON text a client reading this profile receives for a component.
pub open spec fn component_json_text(component: Component, profile: JsonProfile) -> Seq<char> {
    render(component_json(component, profile, true))
}

/// A text component without children is written with no member but its text exactly when
/// its style is empty: every style field that is set adds a member of its own.
pub proof fn lemma_empty_style_writes_only_text(
    component: Component,
    profile: JsonProfile,
    compaction: bool,
)
    requires
        component.content is Text,
        component.children@.len() == 0,
    ensures
        style_is_empty(component.style) <==> component_members(component, profile, compaction)
            == seq![("text"@, Json::Str(component.content->Text_text@))],
        style_is_empty(component.style) && !(compaction && profile_compacts(profile))
            ==> component_json(component, profile, compaction) == Json::Object(
            seq![("text"@, Json::Str(component.content->Text_text@))],
        ),
{
    reveal(click_segment);
    reveal(color_segment);
    reveal(keybind_segment);
    reveal(text_segment);
    reveal(translate_segment);
    let style = component.style;
    let members = component_members(component, profile, compaction);
    let text = seq![("text"@, Json::Str(component.content->Text_text@))];
    assert(extra_segment(component, profile, compaction) =~= Seq::<(Seq<char>, Json)>::empty());
    assert(with_segment(component.content, profile, compaction) =~= Seq::<(Seq<char>, Json)>::empty());
    assert(keybind_segment(component.content) =~= Seq::<(Seq<char>, Json)>::empty());
    assert(translate_segment(component.content) =~= Seq::<(Seq<char>, Json)>::empty());
    assert(text_segment(component.content) =~= text);
    assert(members.len() == flag_member(style.bold, "bold"@).len() + click_segment(style, profile).len()
        + color_segment(style, profile).len() + text_member(style.font, "font"@).len()
        + hover_segment(style, profile, compaction).len() + text_member(style.insertion, "insertion"@).len()
        + flag_member(style.italic, "italic"@).len() + flag_member(style.obfuscated, "obfuscated"@).len()
        + flag_member(style.strikethrough, "strikethrough"@).len() + 1 + flag_member(
        style.underlined,
        "underlined"@,
    ).len());
    if style_is_empty(style) {
        assert(members =~= text);
    }
    if members == text {
        assert(members.len() == 1);
    }
}

/// A profile that cannot show arbitrary colours writes every colour by the key of one of
/// the sixteen named colours, the one it reduces to; never as `#RRGGBB`.
pub proof fn lemma_named_only_profile_writes_names(color: TextColor, profile: JsonProfile)
    requires
        !profile_emits_rgb(profile),
    ensures
        color_text(color, profile) == named_key(named_reduction(color)),
        color_text(color, profile)[0] != '#',
{
    crate::named_color::lemma_keys_start_with_letters(named_reduction(color));
}

fn upper_hex(value: u8) -> (digit: char)
    requires
        value < 16,
    ensures
        digit == upper_hex_digit(value as int),
{
    if value < 10 {
        ('0' as u8 + value) as char
    } else {
        ('A' as u8 + value - 10) as char
    }
}

fn hex_string(rgb: RgbColor) -> (text: String)
    ensures
        text@ == hex_text(rgb),
{
    let mut text = String::new();
    push_char(&mut text, '#');
    push_char(&mut text, upper_hex(rgb.red / 16));
    push_char(&mut text, upper_hex(rgb.red % 16));
    push_char(&mut text, upper_hex(rgb.green / 16));
    push_char(&mut text, upper_hex(rgb.green % 16));
    push_char(&mut text, upper_hex(rgb.blue / 16));
    push_char(&mut text, upper_hex(rgb.blue % 16));
    proof {
        assert(text@ =~= hex_text(rgb));
    }
    text
}

/// The named colour with exactly these channels, if there is one.
fn exact_name(rgb: RgbColor) -> (named: Option<NamedColor>)
    ensures
        match named {
            Some(found) => names_exactly(found, rgb),
            None => forall|other: NamedColor| !names_exactly(other, rgb),
        },
{
    let colors = NamedColor::all();
    let mut index: usize = 0;
    while index < colors.len()
        invariant
            0 <= index <= colors@.len(),
            colors@.len() == 16,
            forall|i: int| 0 <= i < 16 ==> #[trigger] colors@[i] == named_at(i),
            forall|i: int| 0 <= i < index ==> !names_exactly(#[trigger] named_at(i), rgb),
        decreases colors@.len() - index,
    {
        let candidate = colors[index];
        if candidate.rgb() == rgb {
            return Some(candidate);
        }
        index += 1;
    }
    proof {
        assert forall|other: NamedColor| !names_exactly(other, rgb) by {
            assert(named_at(declaration_index(other)) == other);
        }
    }
    None
}

/// Two named colours never share channels.
proof fn lemma_names_have_distinct_values(first: NamedColor, second: NamedColor)
    requires
        named_rgb_value(first) == named_rgb_value(second),
    ensures
        first == second,
{
}

/// Serializes a colour the way the client for this profile expects it.
fn color_value(color: TextColor, profile: JsonProfile) -> (value: JsonValue)
    ensures
        value@ == Json::Str(color_text(color, profile)),
{
    if !profile.emits_rgb() {
        return JsonValue::String(color.to_named().key().to_owned());
    }
    let rgb = color.rgb();
    proof {
        match color {
            TextColor::Named(named) => {
                assert(rgb.red * 65536 + rgb.green * 256 + rgb.blue == named_rgb_value(named).red
                    * 65536 + named_rgb_value(named).green * 256 + named_rgb_value(named).blue);
                assert(rgb == named_rgb_value(named));
            },
            TextColor::Rgb(own) => {},
        }
    }
    match exact_name(rgb) {
        Some(named) => {
            proof {
                let chosen = choose|other: NamedColor| names_exactly(other, rgb_of(color));
                lemma_names_have_distinct_values(named, chosen);
            }
            JsonValue::String(named.key().to_owned())
        },
        None => JsonValue::String(hex_string(rgb)),
    }
}

fn push_member(members: &mut Vec<(String, JsonValue)>, key: &str, value: JsonValue)
    ensures
        json_of_members(final(members)@) == json_of_members(old(members)@).push((key@, value@)),
{
    members.push((key.to_owned(), value));
    proof {
        assert(final(members)@.drop_last() =~= old(members)@);
    }
}

fn click_event_value(event: &ClickEvent, profile: JsonProfile) -> (value: JsonValue)
    ensures
        value@ == click_json(*event, profile),
{
    let mut members: Vec<(String, JsonValue)> = Vec::new();
    push_member(&mut members, "action", JsonValue::String(event.action().to_owned()));
    push_member(
        &mut members,
        profile.click_payload_key(event),
        JsonValue::String(event.value().to_owned()),
    );
    proof {
        assert(json_of_members(members@) =~= seq![
            ("action"@, Json::Str(click_action_name(*event))),
            (click_payload_key_of(profile, *event), Json::Str(click_payload(*event))),
        ]);
    }
    JsonValue::Object(members)
}

fn push_flag(
    members: &mut Vec<(String, JsonValue)>,
    flag: Option<bool>,
    key: &str,
)
    ensures
        json_of_members(final(members)@) == json_of_members(old(members)@) + flag_member(
            flag,
            key@,
        ),
{
    if let Some(value) = flag {
        push_member(members, key, JsonValue::Bool(value));
    }
    proof {
        assert(json_of_members(final(members)@) =~= json_of_members(old(members)@)
            + flag_member(flag, key@));
    }
}

fn push_text(
    members: &mut Vec<(String, JsonValue)>,
    text: &Option<String>,
    key: &str,
)
    ensures
        json_of_members(final(members)@) == json_of_members(old(members)@) + text_member(
            *text,
            key@,
        ),
{
    if let Some(value) = text {
        push_member(members, key, JsonValue::String(value.clone()));
    }
    proof {
        assert(json_of_members(final(members)@) =~= json_of_members(old(members)@)
            + text_member(*text, key@));
    }
}

fn build_list(components: &Vec<Component>, profile: JsonProfile, compaction: bool) -> (value:
    JsonValue)
    ensures
        value@ == Json::Array(component_json_all(components@, profile, compaction)),
    decreases components, 0int,
{
    let mut items: Vec<JsonValue> = Vec::new();
    let mut index: usize = 0;
    while index < components.len()
        invariant
            0 <= index <= components@.len(),
            json_of_items(items@) == component_json_all(
                components@.take(index as int),
                profile,
                compaction,
            ),
        decreases components@.len() - index,
    {
        proof {
            assert(decreases_to!(*components => components@));
            assert(decreases_to!(components@ => components@[index as int]));
        }
        let built = build_value(&components[index], profile, compaction);
        let ghost before = items@;
        items.push(built);
        proof {
            assert(items@.drop_last() =~= before);
            assert(components@.take(index + 1).drop_last() =~= components@.take(index as int));
        }
        index += 1;
    }
    proof {
        assert(components@.take(components@.len() as int) =~= components@);
    }
    JsonValue::Array(items)
}

fn push_click(style: &Style, profile: JsonProfile, members: &mut Vec<(String, JsonValue)>)
    ensures
        json_of_members(final(members)@) == json_of_members(old(members)@) + click_segment(
            *style,
            profile,
        ),
{
    reveal(click_segment);
    if let Some(click) = &style.click_event {
        push_member(members, profile.click_event_key(), click_event_value(click, profile));
    }
    proof {
        assert(json_of_members(final(members)@) =~= json_of_members(old(members)@)
            + click_segment(*style, profile));
    }
}

fn push_color(style: &Style, profile: JsonProfile, members: &mut Vec<(String, JsonValue)>)
    ensures
        json_of_members(final(members)@) == json_of_members(old(members)@) + color_segment(
            *style,
            profile,
        ),
{
    reveal(color_segment);
    if let Some(color) = style.color {
        push_member(members, "color", color_value(color, profile));
    }
    proof {
        assert(json_of_members(final(members)@) =~= json_of_members(old(members)@)
            + color_segment(*style, profile));
    }
}

fn push_extra(
    component: &Component,
    profile: JsonProfile,
    compaction: bool,
    members: &mut Vec<(String, JsonValue)>,
)
    ensures
        json_of_members(final(members)@) == json_of_members(old(members)@) + extra_segment(
            *component,
            profile,
            compaction,
        ),
    decreases component, 1int,
{
    if component.children.len() > 0 {
        push_member(members, "extra", build_list(&component.children, profile, compaction));
    }
    proof {
        assert(json_of_members(final(members)@) =~= json_of_members(old(members)@)
            + extra_segment(*component, profile, compaction));
    }
}

fn push_hover(
    style: &Style,
    profile: JsonProfile,
    compaction: bool,
    members: &mut Vec<(String, JsonValue)>,
)
    ensures
        json_of_members(final(members)@) == json_of_members(old(members)@) + hover_segment(
            *style,
            profile,
            compaction,
        ),
    decreases style, 1int,
{
    if let Some(HoverEvent::ShowText { text }) = &style.hover_event {
        let mut hover: Vec<(String, JsonValue)> = Vec::new();
        push_member(&mut hover, "action", JsonValue::String("show_text".to_owned()));
        push_member(&mut hover, profile.hover_text_key(), build_value(text, profile, compaction));
        proof {
            assert(json_of_members(hover@) =~= seq![
                ("action"@, Json::Str("show_text"@)),
                (hover_text_key_of(profile), component_json(**text, profile, compaction)),
            ]);
        }
        push_member(members, profile.hover_event_key(), JsonValue::Object(hover));
    }
    proof {
        assert(json_of_members(final(members)@) =~= json_of_members(old(members)@)
            + hover_segment(*style, profile, compaction));
    }
}

fn push_content_key(
    content: &ComponentContent,
    want_keybind: bool,
    members: &mut Vec<(String, JsonValue)>,
)
    ensures
        want_keybind ==> json_of_members(final(members)@) == json_of_members(old(members)@)
            + keybind_segment(*content),
        !want_keybind ==> json_of_members(final(members)@) == json_of_members(old(members)@)
            + text_segment(*content) + translate_segment(*content),
{
    reveal(keybind_segment);
    reveal(text_segment);
    reveal(translate_segment);
    if want_keybind {
        if let ComponentContent::Keybind { keybind } = content {
            push_member(members, "keybind", JsonValue::String(keybind.clone()));
        }
    } else {
        match content {
            ComponentContent::Text { text } => {
                push_member(members, "text", JsonValue::String(text.clone()));
            },
            ComponentContent::Translatable { key, .. } => {
                push_member(members, "translate", JsonValue::String(key.clone()));
            },
            _ => {},
        }
    }
    proof {
        if want_keybind {
            assert(json_of_members(final(members)@) =~= json_of_members(old(members)@)
                + keybind_segment(*content));
        } else {
            assert(json_of_members(final(members)@) =~= json_of_members(old(members)@)
                + text_segment(*content) + translate_segment(*content));
        }
    }
}

fn push_with(
    content: &ComponentContent,
    profile: JsonProfile,
    compaction: bool,
    members: &mut Vec<(String, JsonValue)>,
)
    ensures
        json_of_members(final(members)@) == json_of_members(old(members)@) + with_segment(
            *content,
            profile,
            compaction,
        ),
    decreases content, 1int,
{
    if let ComponentContent::Translatable { arguments, .. } = content {
        if arguments.len() > 0 {
            push_member(members, "with", build_list(arguments, profile, compaction));
        }
    }
    proof {
        assert(json_of_members(final(members)@) =~= json_of_members(old(members)@)
            + with_segment(*content, profile, compaction));
    }
}

fn push_head_members(
    component: &Component,
    profile: JsonProfile,
    compaction: bool,
    members: &mut Vec<(String, JsonValue)>,
)
    ensures
        json_of_members(final(members)@) == json_of_members(old(members)@) + head_members(
            *component,
            profile,
            compaction,
        ),
    decreases component, 2int,
{
    let style = &component.style;
    let ghost start = json_of_members(members@);
    push_flag(members, style.bold, "bold");
    let ghost m1 = json_of_members(members@);
    assert(m1 == start + flag_member(component.style.bold, "bold"@));
    push_click(style, profile, members);
    let ghost m2 = json_of_members(members@);
    assert(m2 == m1 + click_segment(component.style, profile));
    push_color(style, profile, members);
    let ghost m3 = json_of_members(members@);
    push_extra(component, profile, compaction, members);
    let ghost m4 = json_of_members(members@);
    push_text(members, &style.font, "font");
    let ghost m5 = json_of_members(members@);
    push_hover(style, profile, compaction, members);
    let ghost m6 = json_of_members(members@);
    proof {
        let a = flag_member(component.style.bold, "bold"@);
        let b = click_segment(component.style, profile);
        let c = color_segment(component.style, profile);
        let d = extra_segment(*component, profile, compaction);
        let e = text_member(component.style.font, "font"@);
        let f = hover_segment(component.style, profile, compaction);
        assert(m6 == start + a + b + c + d + e + f);
        assert(head_members(*component, profile, compaction) == a + b + c + d + e + f);
        lemma_concat_associative(start, a, b);
        lemma_concat_associative(start, a + b, c);
        lemma_concat_associative(start, a + b + c, d);
        lemma_concat_associative(start, a + b + c + d, e);
        lemma_concat_associative(start, a + b + c + d + e, f);
    }
}

fn push_tail_members(
    component: &Component,
    profile: JsonProfile,
    compaction: bool,
    members: &mut Vec<(String, JsonValue)>,
)
    ensures
        json_of_members(final(members)@) == json_of_members(old(members)@) + tail_members(
            *component,
            profile,
            compaction,
        ),
    decreases component, 2int,
{
    let style = &component.style;
    push_text(members, &style.insertion, "insertion");
    push_flag(members, style.italic, "italic");
    push_content_key(&component.content, true, members);
    push_flag(members, style.obfuscated, "obfuscated");
    push_flag(members, style.strikethrough, "strikethrough");
    push_content_key(&component.content, false, members);
    push_flag(members, style.underlined, "underlined");
    push_with(&component.content, profile, compaction, members);
    proof {
        let start = json_of_members(old(members)@);
        lemma_concat_associative(start, text_member(component.style.insertion, "insertion"@), flag_member(component.style.italic, "italic"@));
        lemma_concat_associative(start, text_member(component.style.insertion, "insertion"@) + flag_member(component.style.italic, "italic"@), keybind_segment(component.content));
        lemma_concat_associative(start, text_member(component.style.insertion, "insertion"@) + flag_member(component.style.italic, "italic"@) + keybind_segment(component.content), flag_member(component.style.obfuscated, "obfuscated"@));
        lemma_concat_associative(start, text_member(component.style.insertion, "insertion"@) + flag_member(component.style.italic, "italic"@) + keybind_segment(component.content) + flag_member(component.style.obfuscated, "obfuscated"@), flag_member(component.style.strikethrough, "strikethrough"@));
        lemma_concat_associative(start, text_member(component.style.insertion, "insertion"@) + flag_member(component.style.italic, "italic"@) + keybind_segment(component.content) + flag_member(component.style.obfuscated, "obfuscated"@) + flag_member(component.style.strikethrough, "strikethrough"@), text_segment(component.content));
        lemma_concat_associative(start, text_member(component.style.insertion, "insertion"@) + flag_member(component.style.italic, "italic"@) + keybind_segment(component.content) + flag_member(component.style.obfuscated, "obfuscated"@) + flag_member(component.style.strikethrough, "strikethrough"@) + text_segment(component.content), translate_segment(component.content));
        lemma_concat_associative(start, text_member(component.style.insertion, "insertion"@) + flag_member(component.style.italic, "italic"@) + keybind_segment(component.content) + flag_member(component.style.obfuscated, "obfuscated"@) + flag_member(component.style.strikethrough, "strikethrough"@) + text_segment(component.content) + translate_segment(component.content), flag_member(component.style.underlined, "underlined"@));
        lemma_concat_associative(start, text_member(component.style.insertion, "insertion"@) + flag_member(component.style.italic, "italic"@) + keybind_segment(component.content) + flag_member(component.style.obfuscated, "obfuscated"@) + flag_member(component.style.strikethrough, "strikethrough"@) + text_segment(component.content) + translate_segment(component.content) + flag_member(component.style.underlined, "underlined"@), with_segment(component.content, profile, compaction));
        assert(json_of_members(members@) == json_of_members(old(members)@) + tail_members(
            *component,
            profile,
            compaction,
        ));
    }
}

/// Builds the JSON tree for a component.
pub fn build_value(component: &Component, profile: JsonProfile, compaction: bool) -> (value:
    JsonValue)
    ensures
        value@ == component_json(*component, profile, compaction),
    decreases component, 3int,
{
    if compaction && profile.compacts_plain_text() && component.style.is_empty()
        && component.children.len() == 0 {
        if let ComponentContent::Text { text } = &component.content {
            return JsonValue::String(text.clone());
        }
    }
    let mut members: Vec<(String, JsonValue)> = Vec::new();
    push_head_members(component, profile, compaction, &mut members);
    push_tail_members(component, profile, compaction, &mut members);
    proof {
        assert(json_of_members(members@) =~= component_members(*component, profile, compaction));
    }
    JsonValue::Object(members)
}

/// Serializes a component to the JSON the given client version understands.
///
/// Keys come out in ascending order in every object of the tree.
pub fn to_json_string(component: &Component, profile: JsonProfile) -> (json: String)
    ensures
        json@ == component_json_text(*component, profile),
{
    json_text(&build_value(component, profile, true))
}

} // verus!
