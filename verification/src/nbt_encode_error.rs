use vstd::prelude::*;

use crate::strs::push_str;

verus! {

/// Why a compound could not be put on the wire.
#[derive(Debug, Clone, PartialEq, Eq)]
pub enum NbtEncodeError {
    /// The encoder refused the compound, for the reason it gave.
    Rejected { reason: String },
    /// The encoded compound did not start with the three-byte header of a named root: its
    /// tag id and the length of an empty name.
    MalformedRootHeader,
}

/// The text an [`NbtEncodeError`] is reported with.
pub open spec fn nbt_encode_message(error: NbtEncodeError) -> Seq<char> {
    match error {
        NbtEncodeError::Rejected { reason } => "the compound could not be encoded: "@ + reason@,
        NbtEncodeError::MalformedRootHeader => "the encoded compound does not start with an empty-named root"@,
    }
}

impl NbtEncodeError {
    /// What went wrong, in words.
    pub fn message(&self) -> (text: String)
        ensures
            text@ == nbt_encode_message(*self),
    {
        let mut text = String::new();
        match self {
            NbtEncodeError::Rejected { reason } => {
                push_str(&mut text, "the compound could not be encoded: ");
                push_str(&mut text, reason.as_str());
            },
            NbtEncodeError::MalformedRootHeader => {
                push_str(&mut text, "the encoded compound does not start with an empty-named root");
            },
        }
        proof {
            assert(text@ =~= nbt_encode_message(*self));
        }
        text
    }
}

} // verus!
