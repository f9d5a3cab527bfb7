use vstd::prelude::*;

use crate::click_event::{click_action_name, click_payload, ClickEvent};
use crate::component::Component;
use crate::component_content::ComponentContent;
use crate::component_json::{
    click_segment, color_segment, component_json, component_json_all,
    component_members, extra_segment, flag_member, head_members, hover_segment, keybind_segment,
    tail_members, text_member, text_segment, translate_segment, with_segment,
};
use crate::hover_event::HoverEvent;
use crate::json::Json;
use crate::json_profile::{
    click_event_key_of, click_payload_key_of, hover_event_key_of, hover_text_key_of, JsonProfile,
};

verus! {

/// Whether `a` sorts strictly before `b`: compared character by character, a proper
/// prefix first.
pub open spec fn sorts_before(a: Seq<char>, b: Seq<char>) -> bool
    decreases a.len(),
{
    if b.len() == 0 {
        false
    } else if a.len() == 0 {
        true
    } else if a[0] != b[0] {
        (a[0] as u32) < (b[0] as u32)
    } else {
        sorts_before(a.drop_first(), b.drop_first())
    }
}

/// Whether an object's keys strictly ascend.
pub open spec fn keys_ascending(members: Seq<(Seq<char>, Json)>) -> bool {
    forall|i: int, j: int|
        0 <= i < j < members.len() ==> sorts_before(#[trigger] members[i].0, #[trigger] members[j].0)
}

/// Whether every object in a JSON tree has strictly ascending keys.
pub open spec fn sorted_json(value: Json) -> bool
    decreases value,
{
    match value {
        Json::Object(members) => keys_ascending(members) && forall|i: int|
            0 <= i < members.len() ==> sorted_json(#[trigger] members[i].1),
        Json::Array(items) => forall|i: int| 0 <= i < items.len() ==> sorted_json(#[trigger] items[i]),
        _ => true,
    }
}

/// Whether every member value of an object is a sorted tree.
pub open spec fn values_sorted(members: Seq<(Seq<char>, Json)>) -> bool {
    forall|i: int| 0 <= i < members.len() ==> sorted_json(#[trigger] members[i].1)
}

/// Whether every key of an object sorts no later than `bound`.
pub open spec fn keys_up_to(members: Seq<(Seq<char>, Json)>, bound: Seq<char>) -> bool {
    forall|i: int|
        0 <= i < members.len() ==> #[trigger] members[i].0 == bound || sorts_before(
            members[i].0,
            bound,
        )
}

proof fn lemma_sorts_before_transitive(a: Seq<char>, b: Seq<char>, c: Seq<char>)
    requires
        sorts_before(a, b),
        sorts_before(b, c),
    ensures
        sorts_before(a, c),
    decreases a.len(),
{
    if a.len() > 0 && a[0] == b[0] && b[0] == c[0] {
        lemma_sorts_before_transitive(a.drop_first(), b.drop_first(), c.drop_first());
    }
}

/// Appending a segment of at most one member, whose key sorts after every key so far,
/// keeps the keys ascending.
proof fn lemma_extend(
    prefix: Seq<(Seq<char>, Json)>,
    segment: Seq<(Seq<char>, Json)>,
    bound: Seq<char>,
    next: Seq<char>,
)
    requires
        keys_ascending(prefix),
        keys_up_to(prefix, bound),
        segment.len() <= 1,
        segment.len() == 1 ==> segment[0].0 == next,
        sorts_before(bound, next),
    ensures
        keys_ascending(prefix + segment),
        keys_up_to(prefix + segment, next),
{
    let whole = prefix + segment;
    assert forall|i: int| 0 <= i < prefix.len() implies sorts_before(
        #[trigger] prefix[i].0,
        next,
    ) by {
        if prefix[i].0 != bound {
            lemma_sorts_before_transitive(prefix[i].0, bound, next);
        }
    }
    assert forall|i: int, j: int| 0 <= i < j < whole.len() implies sorts_before(
        #[trigger] whole[i].0,
        #[trigger] whole[j].0,
    ) by {
        assert(whole[i] == prefix[i]);
        if j < prefix.len() {
            assert(whole[j] == prefix[j]);
        } else {
            assert(whole[j] == segment[0]);
        }
    }
    assert forall|i: int| 0 <= i < whole.len() implies #[trigger] whole[i].0 == next
        || sorts_before(whole[i].0, next) by {
        if i < prefix.len() {
            assert(whole[i] == prefix[i]);
        } else {
            assert(whole[i] == segment[0]);
        }
    }
}

proof fn lemma_values_sorted_concat(first: Seq<(Seq<char>, Json)>, second: Seq<(Seq<char>, Json)>)
    requires
        values_sorted(first),
        values_sorted(second),
    ensures
        values_sorted(first + second),
{
    assert forall|i: int| 0 <= i < (first + second).len() implies sorted_json(
        #[trigger] (first + second)[i].1,
    ) by {
        if i < first.len() {
            assert((first + second)[i] == first[i]);
        } else {
            assert((first + second)[i] == second[i - first.len()]);
        }
    }
}

/// The keys a component's members can have sort in the order they are written.
proof fn lemma_key_chain(profile: JsonProfile)
    ensures
        sorts_before(Seq::empty(), "bold"@),
        sorts_before("bold"@, click_event_key_of(profile)),
        sorts_before(click_event_key_of(profile), "color"@),
        sorts_before("color"@, "extra"@),
        sorts_before("extra"@, "font"@),
        sorts_before("font"@, hover_event_key_of(profile)),
        sorts_before(hover_event_key_of(profile), "insertion"@),
        sorts_before("insertion"@, "italic"@),
        sorts_before("italic"@, "keybind"@),
        sorts_before("keybind"@, "obfuscated"@),
        sorts_before("obfuscated"@, "strikethrough"@),
        sorts_before("strikethrough"@, "text"@),
        sorts_before("text"@, "translate"@),
        sorts_before("translate"@, "underlined"@),
        sorts_before("underlined"@, "with"@),
{
    reveal_strlit("bold");
    reveal_strlit("clickEvent");
    reveal_strlit("click_event");
    reveal_strlit("color");
    reveal_strlit("extra");
    reveal_strlit("font");
    reveal_strlit("hoverEvent");
    reveal_strlit("hover_event");
    reveal_strlit("insertion");
    reveal_strlit("italic");
    reveal_strlit("keybind");
    reveal_strlit("obfuscated");
    reveal_strlit("strikethrough");
    reveal_strlit("text");
    reveal_strlit("translate");
    reveal_strlit("underlined");
    reveal_strlit("with");
    reveal_with_fuel(sorts_before, 3);
    assert("clickEvent"@.drop_first() =~= "lickEvent"@) by {
        reveal_strlit("lickEvent");
    }
    assert("click_event"@.drop_first() =~= "lick_event"@) by {
        reveal_strlit("lick_event");
    }
    assert("color"@.drop_first() =~= "olor"@) by {
        reveal_strlit("olor");
    }
    assert("insertion"@.drop_first() =~= "nsertion"@) by {
        reveal_strlit("nsertion");
    }
    assert("italic"@.drop_first() =~= "talic"@) by {
        reveal_strlit("talic");
    }
    assert("text"@.drop_first() =~= "ext"@) by {
        reveal_strlit("ext");
    }
    assert("translate"@.drop_first() =~= "ranslate"@) by {
        reveal_strlit("ranslate");
    }
}

/// The two members of a hover event object, `action` first, sort in that order.
proof fn lemma_hover_keys(profile: JsonProfile)
    ensures
        sorts_before("action"@, hover_text_key_of(profile)),
{
    reveal_strlit("action");
    reveal_strlit("value");
    reveal_strlit("contents");
}

/// The two members of a click event object, `action` first, sort in that order.
proof fn lemma_event_keys(profile: JsonProfile, event: ClickEvent)
    ensures
        sorts_before("action"@, click_payload_key_of(profile, event)),
{
    reveal_strlit("action");
    reveal_strlit("url");
    reveal_strlit("command");
    reveal_strlit("value");
}

/// Every object in a component's JSON tree has its keys in ascending order, on every
/// profile, whether or not plain text is collapsed.
pub proof fn lemma_component_json_sorted(component: Component, profile: JsonProfile, compaction: bool)
    ensures
        sorted_json(component_json(component, profile, compaction)),
    decreases component, 3int,
{
    lemma_component_members_sorted(component, profile, compaction);
    let members = component_members(component, profile, compaction);
    assert(keys_ascending(members) && values_sorted(members));
    assert(sorted_json(Json::Object(members)));
}

proof fn lemma_component_members_sorted(
    component: Component,
    profile: JsonProfile,
    compaction: bool,
)
    ensures
        keys_ascending(component_members(component, profile, compaction)),
        values_sorted(component_members(component, profile, compaction)),
    decreases component, 2int,
{
    reveal(click_segment);
    reveal(color_segment);
    reveal(keybind_segment);
    reveal(text_segment);
    reveal(translate_segment);
    let style = component.style;
    let content = component.content;
    lemma_all_sorted(component.children@, profile, compaction);
    assert(sorted_json(Json::Array(component_json_all(component.children@, profile, compaction))));
    match style.hover_event {
        Some(HoverEvent::ShowText { text }) => {
            lemma_component_json_sorted(*text, profile, compaction);
            lemma_hover_keys(profile);
            let members = seq![
                ("action"@, Json::Str("show_text"@)),
                (hover_text_key_of(profile), component_json(*text, profile, compaction)),
            ];
            assert(keys_ascending(members));
            assert(sorted_json(members[0].1) && sorted_json(members[1].1));
            assert(sorted_json(Json::Object(members)));
        },
        None => {},
    }
    match style.click_event {
        Some(event) => {
            lemma_event_keys(profile, event);
            let members = seq![
                ("action"@, Json::Str(click_action_name(event))),
                (click_payload_key_of(profile, event), Json::Str(click_payload(event))),
            ];
            assert(keys_ascending(members));
            assert(sorted_json(members[0].1) && sorted_json(members[1].1));
            assert(sorted_json(Json::Object(members)));
        },
        None => {},
    }
    match content {
        ComponentContent::Translatable { arguments, .. } => {
            lemma_all_sorted(arguments@, profile, compaction);
            assert(sorted_json(Json::Array(component_json_all(arguments@, profile, compaction))));
        },
        _ => {},
    }
    let bold = flag_member(style.bold, "bold"@);
    let click = click_segment(style, profile);
    let color = color_segment(style, profile);
    let extra = extra_segment(component, profile, compaction);
    let font = text_member(style.font, "font"@);
    let hover = hover_segment(style, profile, compaction);
    let insertion = text_member(style.insertion, "insertion"@);
    let italic = flag_member(style.italic, "italic"@);
    let keybind = keybind_segment(content);
    let obfuscated = flag_member(style.obfuscated, "obfuscated"@);
    let strikethrough = flag_member(style.strikethrough, "strikethrough"@);
    let text = text_segment(content);
    let translate = translate_segment(content);
    let underlined = flag_member(style.underlined, "underlined"@);
    let with = with_segment(content, profile, compaction);
    lemma_key_chain(profile);
    let empty = Seq::<(Seq<char>, Json)>::empty();
    assert(empty + bold =~= bold);
    lemma_extend(empty, bold, Seq::empty(), "bold"@);
    lemma_extend(bold, click, "bold"@, click_event_key_of(profile));
    lemma_extend(bold + click, color, click_event_key_of(profile), "color"@);
    lemma_extend(bold + click + color, extra, "color"@, "extra"@);
    lemma_extend(bold + click + color + extra, font, "extra"@, "font"@);
    lemma_extend(bold + click + color + extra + font, hover, "font"@, hover_event_key_of(profile));
    let head = bold + click + color + extra + font + hover;
    assert(head == head_members(component, profile, compaction));
    lemma_extend(head, insertion, hover_event_key_of(profile), "insertion"@);
    lemma_extend(head + insertion, italic, "insertion"@, "italic"@);
    lemma_extend(head + insertion + italic, keybind, "italic"@, "keybind"@);
    lemma_extend(head + insertion + italic + keybind, obfuscated, "keybind"@, "obfuscated"@);
    lemma_extend(
        head + insertion + italic + keybind + obfuscated,
        strikethrough,
        "obfuscated"@,
        "strikethrough"@,
    );
    let to_strikethrough = head + insertion + italic + keybind + obfuscated + strikethrough;
    lemma_extend(to_strikethrough, text, "strikethrough"@, "text"@);
    lemma_extend(to_strikethrough + text, translate, "text"@, "translate"@);
    lemma_extend(to_strikethrough + text + translate, underlined, "translate"@, "underlined"@);
    lemma_extend(to_strikethrough + text + translate + underlined, with, "underlined"@, "with"@);
    let tail = tail_members(component, profile, compaction);
    lemma_tail_regroups(head, insertion, italic, keybind, obfuscated, strikethrough, text, translate, underlined, with);
    assert(tail == insertion + italic + keybind + obfuscated + strikethrough + text + translate
        + underlined + with);
    assert(values_sorted(bold) && values_sorted(click) && values_sorted(color));
    assert(values_sorted(extra) && values_sorted(font) && values_sorted(hover));
    assert(values_sorted(insertion) && values_sorted(italic) && values_sorted(keybind));
    assert(values_sorted(obfuscated) && values_sorted(strikethrough) && values_sorted(text));
    assert(values_sorted(translate) && values_sorted(underlined) && values_sorted(with));
    lemma_values_sorted_concat(bold, click);
    lemma_values_sorted_concat(bold + click, color);
    lemma_values_sorted_concat(bold + click + color, extra);
    lemma_values_sorted_concat(bold + click + color + extra, font);
    lemma_values_sorted_concat(bold + click + color + extra + font, hover);
    lemma_values_sorted_concat(insertion, italic);
    lemma_values_sorted_concat(insertion + italic, keybind);
    lemma_values_sorted_concat(insertion + italic + keybind, obfuscated);
    lemma_values_sorted_concat(insertion + italic + keybind + obfuscated, strikethrough);
    lemma_values_sorted_concat(insertion + italic + keybind + obfuscated + strikethrough, text);
    lemma_values_sorted_concat(
        insertion + italic + keybind + obfuscated + strikethrough + text,
        translate,
    );
    lemma_values_sorted_concat(
        insertion + italic + keybind + obfuscated + strikethrough + text + translate,
        underlined,
    );
    lemma_values_sorted_concat(
        insertion + italic + keybind + obfuscated + strikethrough + text + translate + underlined,
        with,
    );
    lemma_values_sorted_concat(head, tail);
    assert(component_members(component, profile, compaction) == head + tail);
}

/// Appending the tail's segments one by one to the head gives the head followed by the
/// whole tail.
proof fn lemma_tail_regroups(
    head: Seq<(Seq<char>, Json)>,
    insertion: Seq<(Seq<char>, Json)>,
    italic: Seq<(Seq<char>, Json)>,
    keybind: Seq<(Seq<char>, Json)>,
    obfuscated: Seq<(Seq<char>, Json)>,
    strikethrough: Seq<(Seq<char>, Json)>,
    text: Seq<(Seq<char>, Json)>,
    translate: Seq<(Seq<char>, Json)>,
    underlined: Seq<(Seq<char>, Json)>,
    with: Seq<(Seq<char>, Json)>,
)
    ensures
        head + insertion + italic + keybind + obfuscated + strikethrough + text + translate
            + underlined + with == head + (insertion + italic + keybind + obfuscated + strikethrough
            + text + translate + underlined + with),
{
    assert(head + insertion + italic + keybind + obfuscated + strikethrough + text + translate
        + underlined + with =~= head + (insertion + italic + keybind + obfuscated + strikethrough
        + text + translate + underlined + with));
}

proof fn lemma_all_sorted(components: Seq<Component>, profile: JsonProfile, compaction: bool)
    ensures
        forall|i: int|
            0 <= i < component_json_all(components, profile, compaction).len() ==> sorted_json(
                #[trigger] component_json_all(components, profile, compaction)[i],
            ),
        component_json_all(components, profile, compaction).len() == components.len(),
    decreases components, 0int,
{
    if components.len() > 0 {
        lemma_all_sorted(components.drop_last(), profile, compaction);
        lemma_component_json_sorted(components.last(), profile, compaction);
    }
}

} // verus!
