use vstd::prelude::*;

use crate::version::{protocol_number_of, ProtocolVersion};

verus! {

/// How one rung of a version-selection ladder claims a client's protocol version.
///
/// The two comparisons are not interchangeable: turning an equality rung into a lower
/// bound would hand a client the codec of a different release, so every rung records
/// which comparison it was written with.
#[derive(Debug, Clone, Copy, PartialEq, Eq, Structural)]
pub enum VersionMatch {
    /// Claims this release and everything newer that no earlier rung took.
    AtLeast(ProtocolVersion),
    /// Claims exactly one release.
    Exactly(ProtocolVersion),
    /// The trailing rung: claims whatever the rungs above it left over.
    Any,
}

/// Whether a rung claims a version.
pub open spec fn version_matches(rung: VersionMatch, version: ProtocolVersion) -> bool {
    match rung {
        VersionMatch::AtLeast(bound) => protocol_number_of(version) >= protocol_number_of(bound),
        VersionMatch::Exactly(expected) => version == expected,
        VersionMatch::Any => true,
    }
}

impl VersionMatch {
    pub fn matches(self, version: ProtocolVersion) -> (claimed: bool)
        ensures
            claimed == version_matches(self, version),
    {
        match self {
            VersionMatch::AtLeast(bound) => version.at_least(bound),
            VersionMatch::Exactly(expected) => version == expected,
            VersionMatch::Any => true,
        }
    }
}

} // verus!
