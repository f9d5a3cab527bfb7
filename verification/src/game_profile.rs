use vstd::prelude::*;

verus! {

/// Who the server believes the connected player is.
///
/// Both fields fill in over the course of the login sequence, and which step fills them
/// depends on the forwarding mode, so neither can be required up front. The UUID is held
/// as its 128-bit value, most significant byte first.
#[derive(Debug, Clone, PartialEq, Eq)]
pub struct GameProfile {
    pub username: Option<String>,
    pub uuid: Option<u128>,
}

impl GameProfile {
    pub fn unidentified() -> (profile: GameProfile)
        ensures
            profile.username is None,
            profile.uuid is None,
    {
        GameProfile { username: None, uuid: None }
    }
}

} // verus!
