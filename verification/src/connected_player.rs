use vstd::prelude::*;

use crate::version::ProtocolVersion;

verus! {

/// What the server remembers about a player who has finished logging in.
#[derive(Debug, Clone, PartialEq, Eq)]
pub struct ConnectedPlayer {
    pub username: String,
    /// The player's UUID as its 128-bit value.
    pub uuid: u128,
    /// The remote address, as `host:port`.
    pub address: String,
    pub version: ProtocolVersion,
}

} // verus!
