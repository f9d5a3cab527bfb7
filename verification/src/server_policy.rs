use vstd::prelude::*;

use crate::forwarding_mode::ForwardingMode;

verus! {

/// The configured facts the connection state machine consults.
///
/// A narrow view of the configuration rather than the whole of it, so the state machine
/// stays testable without building a full settings file.
#[derive(Debug, Clone, Copy, PartialEq, Eq, Structural)]
pub struct ServerPolicy {
    pub forwarding: ForwardingMode,
    /// Zero or below means no limit, as it does in the configuration file.
    pub max_players: i32,
}

/// Whether a server with this limit is full with `online` players on it.
pub open spec fn policy_full(max_players: int, online: int) -> bool {
    max_players > 0 && online >= max_players
}

impl ServerPolicy {
    pub fn new(forwarding: ForwardingMode, max_players: i32) -> (policy: ServerPolicy)
        ensures
            policy.forwarding == forwarding,
            policy.max_players == max_players,
    {
        ServerPolicy { forwarding, max_players }
    }

    /// Whether no further player may join; a limit of zero or below never fills.
    pub fn is_full(&self, online: i32) -> (full: bool)
        ensures
            full == policy_full(self.max_players as int, online as int),
    {
        self.max_players > 0 && online >= self.max_players
    }
}

} // verus!
