use vstd::prelude::*;

use crate::click_event::ClickEvent;
use crate::hover_event::HoverEvent;
use crate::text_color::TextColor;

verus! {

/// Presentation applied to a component and inherited by its children.
///
/// Every field is optional and three-valued in effect: `None` inherits from the parent,
/// `Some(false)` explicitly switches a decoration off. Collapsing that to a plain `bool`
/// would change what reaches the client, because an absent key and an explicit `false`
/// are different on the wire.
#[derive(Debug, PartialEq)]
pub struct Style {
    pub color: Option<TextColor>,
    pub bold: Option<bool>,
    pub italic: Option<bool>,
    pub underlined: Option<bool>,
    pub strikethrough: Option<bool>,
    pub obfuscated: Option<bool>,
    pub font: Option<String>,
    pub insertion: Option<String>,
    pub click_event: Option<ClickEvent>,
    pub hover_event: Option<HoverEvent>,
}

/// The style that sets nothing.
pub open spec fn empty_style() -> Style {
    Style {
        color: None,
        bold: None,
        italic: None,
        underlined: None,
        strikethrough: None,
        obfuscated: None,
        font: None,
        insertion: None,
        click_event: None,
        hover_event: None,
    }
}

/// Whether serializing this style would emit no keys at all.
pub open spec fn style_is_empty(style: Style) -> bool {
    &&& style.color is None
    &&& style.bold is None
    &&& style.italic is None
    &&& style.underlined is None
    &&& style.strikethrough is None
    &&& style.obfuscated is None
    &&& style.font is None
    &&& style.insertion is None
    &&& style.click_event is None
    &&& style.hover_event is None
}

impl View for Style {
    type V = crate::component_model::StyleModel;

    open spec fn view(&self) -> crate::component_model::StyleModel {
        crate::component_model::style_model(*self)
    }
}

impl Style {
    /// A style that sets nothing, so the component inherits everything from its parent.
    pub fn empty() -> (style: Style)
        ensures
            style == empty_style(),
    {
        Style {
            color: None,
            bold: None,
            italic: None,
            underlined: None,
            strikethrough: None,
            obfuscated: None,
            font: None,
            insertion: None,
            click_event: None,
            hover_event: None,
        }
    }

    /// Whether serializing this style would emit no keys at all.
    pub fn is_empty(&self) -> (empty: bool)
        ensures
            empty == style_is_empty(*self),
    {
        self.color.is_none() && self.bold.is_none() && self.italic.is_none()
            && self.underlined.is_none() && self.strikethrough.is_none()
            && self.obfuscated.is_none() && self.font.is_none() && self.insertion.is_none()
            && self.click_event.is_none() && self.hover_event.is_none()
    }
}

/// A style sets nothing exactly when its model is the empty one.
pub proof fn lemma_empty_style_model(style: Style)
    ensures
        style_is_empty(style) <==> style@ == crate::component_model::empty_style_model(),
{
}

/// An empty style is the only one that sets nothing.
pub proof fn lemma_empty_style_is_empty()
    ensures
        style_is_empty(empty_style()),
{
}

} // verus!
