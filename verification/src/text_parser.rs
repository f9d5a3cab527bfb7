use vstd::prelude::*;

use crate::component::Component;
use crate::component_from_json::{component_from_json_text, from_json_str};
use crate::component_model::{text_model, ComponentModel};
use crate::legacy_codes::{legacy_codes_to_tags, legacy_tags};
use crate::mini_message::{mini_message_model, parse_mini_message};

verus! {

/// The component a line of configured text describes: nothing for an empty line, the
/// component a raw JSON object describes, or else the MiniMessage the line reads as once
/// its legacy codes are rewritten as tags.
pub open spec fn parsed_text(input: Seq<char>) -> ComponentModel {
    if input.len() == 0 {
        text_model(Seq::empty())
    } else {
        match component_from_json_text(input) {
            Some(component) => component,
            None => mini_message_model(legacy_tags(input)),
        }
    }
}

/// Parses a line of configured text into a component.
///
/// Three notations are accepted, in the order a configuration file is likely to use them:
/// a raw JSON component pasted from elsewhere, legacy `&` or `§` colour codes, and
/// MiniMessage. Legacy codes are rewritten as MiniMessage tags first, so a file mixing
/// the two, which is common in configurations carried between servers, works.
pub fn parse(input: &str) -> (component: Component)
    ensures
        component@ == parsed_text(input@),
{
    if input.is_empty() {
        return Component::empty();
    }
    if let Some(component) = from_json_str(input) {
        return component;
    }
    parse_mini_message(legacy_codes_to_tags(input).as_str())
}

} // verus!
