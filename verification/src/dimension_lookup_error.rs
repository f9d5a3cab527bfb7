use vstd::prelude::*;

use crate::strs::push_str;
use crate::version::release_name;

use crate::version::ProtocolVersion;

verus! {

/// Why a dimension could not be resolved against every supported protocol version.
#[derive(Debug, Clone, PartialEq, Eq)]
pub enum DimensionLookupError {
    /// The codec sent to `version` defines no dimension named `key`.
    Unresolved { key: &'static str, version: ProtocolVersion },
}

/// The text a [`DimensionLookupError`] is reported with.
pub open spec fn dimension_lookup_message(error: DimensionLookupError) -> Seq<char> {
    match error {
        DimensionLookupError::Unresolved { key, version } => "the codec sent to "@ + release_name(
            version,
        ) + " defines no dimension `"@ + key@ + "`"@,
    }
}

impl DimensionLookupError {
    /// What went wrong, in words.
    pub fn message(&self) -> (text: String)
        ensures
            text@ == dimension_lookup_message(*self),
    {
        let mut text = String::new();
        match self {
            DimensionLookupError::Unresolved { key, version } => {
                push_str(&mut text, "the codec sent to ");
                push_str(&mut text, version.name());
                push_str(&mut text, " defines no dimension `");
                push_str(&mut text, key);
                push_str(&mut text, "`");
            },
        }
        proof {
            assert(text@ =~= dimension_lookup_message(*self));
        }
        text
    }
}

} // verus!
