use vstd::prelude::*;

use crate::click_event::ClickEvent;
use crate::component::Component;
use crate::component_content::ComponentContent;
use crate::hover_event::HoverEvent;
use crate::style::Style;
use crate::text_color::TextColor;

verus! {

/// The mathematical content of a [`ClickEvent`].
pub enum ClickModel {
    OpenUrl(Seq<char>),
    RunCommand(Seq<char>),
    SuggestCommand(Seq<char>),
    CopyToClipboard(Seq<char>),
}

/// The mathematical content of a [`Style`].
pub struct StyleModel {
    pub color: Option<TextColor>,
    pub bold: Option<bool>,
    pub italic: Option<bool>,
    pub underlined: Option<bool>,
    pub strikethrough: Option<bool>,
    pub obfuscated: Option<bool>,
    pub font: Option<Seq<char>>,
    pub insertion: Option<Seq<char>>,
    pub click_event: Option<ClickModel>,
    /// The `show_text` payload of a hover event.
    pub hover_text: Option<Box<ComponentModel>>,
}

/// The mathematical content of a [`ComponentContent`].
pub enum ContentModel {
    Text(Seq<char>),
    Translatable(Seq<char>, Seq<ComponentModel>),
    Keybind(Seq<char>),
}

/// The mathematical content of a [`Component`]: the same tree with every string read as
/// its characters.
pub struct ComponentModel {
    pub content: ContentModel,
    pub style: StyleModel,
    pub children: Seq<ComponentModel>,
}

pub open spec fn click_model(event: ClickEvent) -> ClickModel {
    match event {
        ClickEvent::OpenUrl { url } => ClickModel::OpenUrl(url@),
        ClickEvent::RunCommand { command } => ClickModel::RunCommand(command@),
        ClickEvent::SuggestCommand { command } => ClickModel::SuggestCommand(command@),
        ClickEvent::CopyToClipboard { text } => ClickModel::CopyToClipboard(text@),
    }
}

pub open spec fn optional_chars(text: Option<String>) -> Option<Seq<char>> {
    match text {
        Some(value) => Some(value@),
        None => None,
    }
}

pub open spec fn optional_click(event: Option<ClickEvent>) -> Option<ClickModel> {
    match event {
        Some(value) => Some(click_model(value)),
        None => None,
    }
}

pub open spec fn style_model(style: Style) -> StyleModel
    decreases style,
{
    StyleModel {
        color: style.color,
        bold: style.bold,
        italic: style.italic,
        underlined: style.underlined,
        strikethrough: style.strikethrough,
        obfuscated: style.obfuscated,
        font: optional_chars(style.font),
        insertion: optional_chars(style.insertion),
        click_event: optional_click(style.click_event),
        hover_text: match style.hover_event {
            Some(HoverEvent::ShowText { text }) => Some(Box::new(component_model(*text))),
            None => None,
        },
    }
}

pub open spec fn content_model(content: ComponentContent) -> ContentModel
    decreases content,
{
    match content {
        ComponentContent::Text { text } => ContentModel::Text(text@),
        ComponentContent::Translatable { key, arguments } => ContentModel::Translatable(
            key@,
            component_models(arguments@),
        ),
        ComponentContent::Keybind { keybind } => ContentModel::Keybind(keybind@),
    }
}

pub open spec fn component_model(component: Component) -> ComponentModel
    decreases component,
{
    ComponentModel {
        content: content_model(component.content),
        style: style_model(component.style),
        children: component_models(component.children@),
    }
}

pub open spec fn component_models(components: Seq<Component>) -> Seq<ComponentModel>
    decreases components,
{
    if components.len() == 0 {
        Seq::empty()
    } else {
        component_models(components.drop_last()).push(component_model(components.last()))
    }
}

/// The model of the first `n` components is the first `n` models.
pub proof fn lemma_component_models_take(components: Seq<Component>, n: int)
    requires
        0 <= n <= components.len(),
    ensures
        component_models(components.take(n)) == component_models(components).take(n),
        component_models(components).len() == components.len(),
        forall|i: int|
            0 <= i < components.len() ==> #[trigger] component_models(components)[i]
                == component_model(components[i]),
    decreases components.len(),
{
    if components.len() > 0 {
        if n == components.len() {
            assert(components.take(n) =~= components);
            lemma_component_models_take(components.drop_last(), n - 1);
        } else {
            assert(components.take(n) =~= components.drop_last().take(n));
            lemma_component_models_take(components.drop_last(), n);
        }
        assert(component_models(components).take(n) =~= component_models(
            components.drop_last(),
        ).take(n) || n == components.len());
    }
}

/// The empty style's model.
pub open spec fn empty_style_model() -> StyleModel {
    StyleModel {
        color: None,
        bold: None,
        italic: None,
        underlined: None,
        strikethrough: None,
        obfuscated: None,
        font: None,
        insertion: None,
        click_event: None,
        hover_text: None,
    }
}

/// Unstyled literal text with no children.
pub open spec fn text_model(text: Seq<char>) -> ComponentModel {
    ComponentModel {
        content: ContentModel::Text(text),
        style: empty_style_model(),
        children: Seq::empty(),
    }
}

impl View for Component {
    type V = ComponentModel;

    open spec fn view(&self) -> ComponentModel {
        component_model(*self)
    }
}

} // verus!
