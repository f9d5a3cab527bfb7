use vstd::prelude::*;

use crate::strs::push_str;
use crate::version::release_name;

use crate::version::ProtocolVersion;

verus! {

/// Why a tag resource could not be flattened into the Update Tags packet's payload.
#[derive(Debug, Clone, PartialEq, Eq)]
pub enum UpdateTagsError {
    /// No rung of the tag ladder serves this version.
    NoTagSet { version: ProtocolVersion },
    /// A registry's value is not a compound of tags.
    RegistryNotCompound { registry: String },
    /// A tag's value is not a list of ints.
    TagNotIntList { registry: String, tag: String },
}

/// The content of an [`UpdateTagsError`].
pub enum TagsFailure {
    NoTagSet(ProtocolVersion),
    RegistryNotCompound(Seq<char>),
    TagNotIntList(Seq<char>, Seq<char>),
}

impl View for UpdateTagsError {
    type V = TagsFailure;

    open spec fn view(&self) -> TagsFailure {
        match *self {
            UpdateTagsError::NoTagSet { version } => TagsFailure::NoTagSet(version),
            UpdateTagsError::RegistryNotCompound { registry } => TagsFailure::RegistryNotCompound(
                registry@,
            ),
            UpdateTagsError::TagNotIntList { registry, tag } => TagsFailure::TagNotIntList(
                registry@,
                tag@,
            ),
        }
    }
}

/// The text an [`UpdateTagsError`] is reported with.
pub open spec fn update_tags_message(error: TagsFailure) -> Seq<char> {
    match error {
        TagsFailure::NoTagSet(version) => "no tag set is defined for "@ + release_name(version),
        TagsFailure::RegistryNotCompound(registry) => "registry `"@ + registry + "` is not a compound"@,
        TagsFailure::TagNotIntList(registry, tag) => "tag `"@ + tag + "` of registry `"@ + registry
            + "` is not a list of ints"@,
    }
}

impl UpdateTagsError {
    /// What went wrong, in words.
    pub fn message(&self) -> (text: String)
        ensures
            text@ == update_tags_message(self@),
    {
        let mut text = String::new();
        match self {
            UpdateTagsError::NoTagSet { version } => {
                push_str(&mut text, "no tag set is defined for ");
                push_str(&mut text, version.name());
            },
            UpdateTagsError::RegistryNotCompound { registry } => {
                push_str(&mut text, "registry `");
                push_str(&mut text, registry.as_str());
                push_str(&mut text, "` is not a compound");
            },
            UpdateTagsError::TagNotIntList { registry, tag } => {
                push_str(&mut text, "tag `");
                push_str(&mut text, tag.as_str());
                push_str(&mut text, "` of registry `");
                push_str(&mut text, registry.as_str());
                push_str(&mut text, "` is not a list of ints");
            },
        }
        proof {
            assert(text@ =~= update_tags_message(self@));
        }
        text
    }
}

} // verus!
