use vstd::prelude::*;

use crate::component::Component;

verus! {

/// What the client shows when the pointer rests on the text.
///
/// Only `show_text` is modelled: a limbo server has no items or entities to describe.
/// The payload is a component, so hover text carries its own styling.
#[derive(Debug, PartialEq)]
pub enum HoverEvent {
    ShowText { text: Box<Component> },
}

impl HoverEvent {
    /// The `action` value written in JSON.
    pub fn action(&self) -> (action: &'static str)
        ensures
            action@ == "show_text"@,
    {
        match self {
            HoverEvent::ShowText { .. } => "show_text",
        }
    }
}

} // verus!
