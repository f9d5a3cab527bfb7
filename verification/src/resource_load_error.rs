use vstd::prelude::*;

use crate::strs::push_str;

verus! {

/// Why an embedded dimension resource could not be turned into an NBT compound.
///
/// Both variants mean the shipped binary itself is corrupt rather than that a client
/// misbehaved, so the only sane response is to refuse to start.
#[derive(Debug, Clone, PartialEq, Eq)]
pub enum ResourceLoadError {
    /// The resource is not valid gzip.
    Decompress { resource: &'static str, reason: String },
    /// The resource is not a valid NBT compound.
    Parse { resource: &'static str, reason: String },
}

/// The text a [`ResourceLoadError`] is reported with.
pub open spec fn resource_load_message(error: ResourceLoadError) -> Seq<char> {
    match error {
        ResourceLoadError::Decompress { resource, reason } => "embedded resource `"@ + resource@
            + "` is not valid gzip: "@ + reason@,
        ResourceLoadError::Parse { resource, reason } => "embedded resource `"@ + resource@
            + "` is not a valid nbt compound: "@ + reason@,
    }
}

impl ResourceLoadError {
    /// What went wrong, in words.
    pub fn message(&self) -> (text: String)
        ensures
            text@ == resource_load_message(*self),
    {
        let mut text = String::new();
        match self {
            ResourceLoadError::Decompress { resource, reason } => {
                push_str(&mut text, "embedded resource `");
                push_str(&mut text, resource);
                push_str(&mut text, "` is not valid gzip: ");
                push_str(&mut text, reason.as_str());
            },
            ResourceLoadError::Parse { resource, reason } => {
                push_str(&mut text, "embedded resource `");
                push_str(&mut text, resource);
                push_str(&mut text, "` is not a valid nbt compound: ");
                push_str(&mut text, reason.as_str());
            },
        }
        proof {
            assert(text@ =~= resource_load_message(*self));
        }
        text
    }
}

} // verus!
