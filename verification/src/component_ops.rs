use vstd::prelude::*;

use crate::click_event::ClickEvent;
use crate::component::Component;
use crate::component_content::ComponentContent;
use crate::component_model::{
    click_model, component_model, component_models, content_model,
    lemma_component_models_take, optional_chars, style_model, ComponentModel, StyleModel,
};
use crate::hover_event::HoverEvent;
use crate::connection_action::{action_model, ConnectionAction};
use crate::strs::str_equal;
use crate::style::Style;

verus! {

/// `child` laid over `parent`: whatever the child sets wins, the rest is inherited.
pub open spec fn overlay_model(parent: StyleModel, child: StyleModel) -> StyleModel {
    StyleModel {
        color: if child.color is Some {
            child.color
        } else {
            parent.color
        },
        bold: if child.bold is Some {
            child.bold
        } else {
            parent.bold
        },
        italic: if child.italic is Some {
            child.italic
        } else {
            parent.italic
        },
        underlined: if child.underlined is Some {
            child.underlined
        } else {
            parent.underlined
        },
        strikethrough: if child.strikethrough is Some {
            child.strikethrough
        } else {
            parent.strikethrough
        },
        obfuscated: if child.obfuscated is Some {
            child.obfuscated
        } else {
            parent.obfuscated
        },
        font: if child.font is Some {
            child.font
        } else {
            parent.font
        },
        insertion: if child.insertion is Some {
            child.insertion
        } else {
            parent.insertion
        },
        click_event: if child.click_event is Some {
            child.click_event
        } else {
            parent.click_event
        },
        hover_text: if child.hover_text is Some {
            child.hover_text
        } else {
            parent.hover_text
        },
    }
}

pub fn copy_click(event: &ClickEvent) -> (copy: ClickEvent)
    ensures
        click_model(copy) == click_model(*event),
{
    match event {
        ClickEvent::OpenUrl { url } => ClickEvent::OpenUrl { url: url.clone() },
        ClickEvent::RunCommand { command } => ClickEvent::RunCommand { command: command.clone() },
        ClickEvent::SuggestCommand { command } => ClickEvent::SuggestCommand {
            command: command.clone(),
        },
        ClickEvent::CopyToClipboard { text } => ClickEvent::CopyToClipboard { text: text.clone() },
    }
}

fn copy_text(text: &Option<String>) -> (copy: Option<String>)
    ensures
        optional_chars(copy) == optional_chars(*text),
{
    match text {
        Some(value) => Some(value.clone()),
        None => None,
    }
}

fn copy_optional_click(event: &Option<ClickEvent>) -> (copy: Option<ClickEvent>)
    ensures
        crate::component_model::optional_click(copy) == crate::component_model::optional_click(
            *event,
        ),
{
    match event {
        Some(value) => Some(copy_click(value)),
        None => None,
    }
}

/// A copy of a style, hover text and all.
pub fn copy_style(style: &Style) -> (copy: Style)
    ensures
        copy@ == style@,
    decreases style,
{
    let hover_event = match &style.hover_event {
        Some(HoverEvent::ShowText { text }) => {
            let inner: &Component = &**text;
            Some(HoverEvent::ShowText { text: Box::new(copy_component(inner)) })
        },
        None => None,
    };
    Style {
        color: style.color,
        bold: style.bold,
        italic: style.italic,
        underlined: style.underlined,
        strikethrough: style.strikethrough,
        obfuscated: style.obfuscated,
        font: copy_text(&style.font),
        insertion: copy_text(&style.insertion),
        click_event: copy_optional_click(&style.click_event),
        hover_event,
    }
}

/// A copy of a component and everything it holds.
pub fn copy_component(component: &Component) -> (copy: Component)
    ensures
        copy@ == component@,
    decreases component,
{
    let content = copy_content(&component.content);
    let style = copy_style(&component.style);
    let children = copy_components(&component.children);
    Component { content, style, children }
}

/// Copies of several components.
pub fn copy_components(components: &Vec<Component>) -> (copies: Vec<Component>)
    ensures
        component_models(copies@) == component_models(components@),
    decreases components,
{
    let mut copies: Vec<Component> = Vec::new();
    let mut index: usize = 0;
    proof {
        lemma_component_models_take(components@, 0);
    }
    while index < components.len()
        invariant
            0 <= index <= components@.len(),
            component_models(copies@) == component_models(components@.take(index as int)),
        decreases components@.len() - index,
    {
        proof {
            assert(decreases_to!(*components => components@));
            assert(decreases_to!(components@ => components@[index as int]));
            assert(components@.take(index + 1).drop_last() =~= components@.take(index as int));
        }
        let copy = copy_component(&components[index]);
        let ghost before = copies@;
        copies.push(copy);
        proof {
            assert(copies@.drop_last() =~= before);
        }
        index += 1;
    }
    proof {
        assert(components@.take(index as int) =~= components@);
    }
    copies
}

/// `child` laid over `parent`: whatever the child sets wins, the rest is inherited.
pub fn overlay(parent: &Style, child: &Style) -> (merged: Style)
    ensures
        merged@ == overlay_model(parent@, child@),
{
    let source_hover = if child.hover_event.is_some() {
        &child.hover_event
    } else {
        &parent.hover_event
    };
    let hover_event = match source_hover {
        Some(HoverEvent::ShowText { text }) => {
            let inner: &Component = &**text;
            Some(HoverEvent::ShowText { text: Box::new(copy_component(inner)) })
        },
        None => None,
    };
    Style {
        color: if child.color.is_some() {
            child.color
        } else {
            parent.color
        },
        bold: if child.bold.is_some() {
            child.bold
        } else {
            parent.bold
        },
        italic: if child.italic.is_some() {
            child.italic
        } else {
            parent.italic
        },
        underlined: if child.underlined.is_some() {
            child.underlined
        } else {
            parent.underlined
        },
        strikethrough: if child.strikethrough.is_some() {
            child.strikethrough
        } else {
            parent.strikethrough
        },
        obfuscated: if child.obfuscated.is_some() {
            child.obfuscated
        } else {
            parent.obfuscated
        },
        font: if child.font.is_some() {
            copy_text(&child.font)
        } else {
            copy_text(&parent.font)
        },
        insertion: if child.insertion.is_some() {
            copy_text(&child.insertion)
        } else {
            copy_text(&parent.insertion)
        },
        click_event: if child.click_event.is_some() {
            copy_optional_click(&child.click_event)
        } else {
            copy_optional_click(&parent.click_event)
        },
        hover_event,
    }
}

pub fn text_equal(first: &Option<String>, second: &Option<String>) -> (equal: bool)
    ensures
        equal == (optional_chars(*first) == optional_chars(*second)),
{
    match (first, second) {
        (Some(a), Some(b)) => str_equal(a.as_str(), b.as_str()),
        (None, None) => true,
        _ => false,
    }
}

pub fn click_equal(first: &Option<ClickEvent>, second: &Option<ClickEvent>) -> (equal: bool)
    ensures
        equal == (crate::component_model::optional_click(*first)
            == crate::component_model::optional_click(*second)),
{
    match (first, second) {
        (Some(a), Some(b)) => match (a, b) {
            (ClickEvent::OpenUrl { url: x }, ClickEvent::OpenUrl { url: y }) => str_equal(
                x.as_str(),
                y.as_str(),
            ),
            (ClickEvent::RunCommand { command: x }, ClickEvent::RunCommand { command: y }) =>
                str_equal(x.as_str(), y.as_str()),
            (
                ClickEvent::SuggestCommand { command: x },
                ClickEvent::SuggestCommand { command: y },
            ) => str_equal(x.as_str(), y.as_str()),
            (
                ClickEvent::CopyToClipboard { text: x },
                ClickEvent::CopyToClipboard { text: y },
            ) => str_equal(x.as_str(), y.as_str()),
            _ => false,
        },
        (None, None) => true,
        _ => false,
    }
}

/// Whether two styles would be written the same way.
pub fn style_equal(first: &Style, second: &Style) -> (equal: bool)
    ensures
        equal == (first@ == second@),
    decreases first,
{
    if first.color != second.color || first.bold != second.bold || first.italic != second.italic
        || first.underlined != second.underlined || first.strikethrough != second.strikethrough
        || first.obfuscated != second.obfuscated {
        return false;
    }
    if !text_equal(&first.font, &second.font) || !text_equal(&first.insertion, &second.insertion) {
        return false;
    }
    if !click_equal(&first.click_event, &second.click_event) {
        return false;
    }
    match (&first.hover_event, &second.hover_event) {
        (Some(HoverEvent::ShowText { text: a }), Some(HoverEvent::ShowText { text: b })) => {
            let left: &Component = &**a;
            let right: &Component = &**b;
            component_equal(left, right)
        },
        (None, None) => true,
        _ => false,
    }
}

/// Whether two components are the same tree.
pub fn component_equal(first: &Component, second: &Component) -> (equal: bool)
    ensures
        equal == (first@ == second@),
    decreases first,
{
    let same_content = match (&first.content, &second.content) {
        (ComponentContent::Text { text: a }, ComponentContent::Text { text: b }) => str_equal(
            a.as_str(),
            b.as_str(),
        ),
        (
            ComponentContent::Translatable { key: a, arguments: x },
            ComponentContent::Translatable { key: b, arguments: y },
        ) => str_equal(a.as_str(), b.as_str()) && components_equal(x, y),
        (ComponentContent::Keybind { keybind: a }, ComponentContent::Keybind { keybind: b }) =>
            str_equal(a.as_str(), b.as_str()),
        _ => false,
    };
    if !same_content {
        proof {
            assert(content_model(first.content) != content_model(second.content));
        }
        return false;
    }
    if !style_equal(&first.style, &second.style) {
        return false;
    }
    components_equal(&first.children, &second.children)
}

/// Whether two lists of components are the same trees in the same order.
pub fn components_equal(first: &Vec<Component>, second: &Vec<Component>) -> (equal: bool)
    ensures
        equal == (component_models(first@) == component_models(second@)),
    decreases first,
{
    proof {
        lemma_component_models_take(first@, 0);
        lemma_component_models_take(second@, 0);
    }
    if first.len() != second.len() {
        return false;
    }
    let mut index: usize = 0;
    while index < first.len()
        invariant
            0 <= index <= first@.len(),
            first@.len() == second@.len(),
            component_models(first@).len() == first@.len(),
            component_models(second@).len() == second@.len(),
            forall|i: int|
                0 <= i < first@.len() ==> #[trigger] component_models(first@)[i]
                    == component_model(first@[i]),
            forall|i: int|
                0 <= i < second@.len() ==> #[trigger] component_models(second@)[i]
                    == component_model(second@[i]),
            forall|i: int|
                0 <= i < index ==> component_model(#[trigger] first@[i]) == component_model(
                    second@[i],
                ),
        decreases first@.len() - index,
    {
        proof {
            assert(decreases_to!(*first => first@));
            assert(decreases_to!(first@ => first@[index as int]));
        }
        if !component_equal(&first[index], &second[index]) {
            proof {
                assert(component_models(first@)[index as int] != component_models(second@)[index as int]);
            }
            return false;
        }
        index += 1;
    }
    proof {
        assert(component_models(first@) =~= component_models(second@));
    }
    true
}

/// A copy of a component's content, its arguments copied in full.
pub fn copy_content(content: &ComponentContent) -> (copy: ComponentContent)
    ensures
        content_model(copy) == content_model(*content),
    decreases content,
{
    match content {
        ComponentContent::Text { text } => ComponentContent::Text { text: text.clone() },
        ComponentContent::Translatable { key, arguments } => ComponentContent::Translatable {
            key: key.clone(),
            arguments: copy_components(arguments),
        },
        ComponentContent::Keybind { keybind } => ComponentContent::Keybind {
            keybind: keybind.clone(),
        },
    }
}

impl Clone for Component {
    fn clone(&self) -> (copy: Self)
        ensures
            copy@ == self@,
    {
        copy_component(self)
    }
}

impl Clone for ComponentContent {
    fn clone(&self) -> (copy: Self)
        ensures
            content_model(copy) == content_model(*self),
    {
        copy_content(self)
    }
}

impl Clone for Style {
    fn clone(&self) -> (copy: Self)
        ensures
            copy@ == self@,
    {
        copy_style(self)
    }
}

impl Clone for HoverEvent {
    fn clone(&self) -> (copy: Self)
        ensures
            match (copy, *self) {
                (HoverEvent::ShowText { text: copied }, HoverEvent::ShowText { text: original }) =>
                    component_model(*copied) == component_model(*original),
            },
    {
        match self {
            HoverEvent::ShowText { text } => {
                let inner: &Component = &**text;
                HoverEvent::ShowText { text: Box::new(copy_component(inner)) }
            },
        }
    }
}

impl Clone for ConnectionAction {
    fn clone(&self) -> (copy: Self)
        ensures
            action_model(copy) == action_model(*self),
    {
        match self {
            ConnectionAction::AdoptVersion { version } => ConnectionAction::AdoptVersion { version: *version },
            ConnectionAction::EnterState { state } => ConnectionAction::EnterState { state: *state },
            ConnectionAction::EnterOutgoingState { state } => ConnectionAction::EnterOutgoingState { state: *state },
            ConnectionAction::AdoptForwardedAddress { address } => ConnectionAction::AdoptForwardedAddress {
                address: address.clone(),
            },
            ConnectionAction::SendStatusResponse => ConnectionAction::SendStatusResponse,
            ConnectionAction::SendPongAndClose { payload } => ConnectionAction::SendPongAndClose { payload: *payload },
            ConnectionAction::RequestForwardedPlayerInfo => ConnectionAction::RequestForwardedPlayerInfo,
            ConnectionAction::SendLoginSuccess => ConnectionAction::SendLoginSuccess,
            ConnectionAction::RegisterPlayer => ConnectionAction::RegisterPlayer,
            ConnectionAction::SendBrand => ConnectionAction::SendBrand,
            ConnectionAction::SendKnownPacks => ConnectionAction::SendKnownPacks,
            ConnectionAction::SendRegistryData => ConnectionAction::SendRegistryData,
            ConnectionAction::SendUpdateTags => ConnectionAction::SendUpdateTags,
            ConnectionAction::SendFinishConfiguration => ConnectionAction::SendFinishConfiguration,
            ConnectionAction::SpawnPlayer => ConnectionAction::SpawnPlayer,
            ConnectionAction::SpawnPlayerAfterDelay => ConnectionAction::SpawnPlayerAfterDelay,
            ConnectionAction::Disconnect { reason } => ConnectionAction::Disconnect {
                reason: copy_component(reason),
            },
        }
    }
}

} // verus!
