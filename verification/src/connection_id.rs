use vstd::prelude::*;

verus! {

/// A handle for one open connection, unique for the lifetime of the process.
///
/// Deliberately not the player's UUID: in offline mode a UUID is derived from the
/// username, so two players with the same name would collide, the second evicting the
/// first and the first's departure removing the second's entry. A counter cannot collide.
#[derive(Debug, Clone, Copy, PartialEq, Eq, Structural, PartialOrd, Ord, Hash)]
pub struct ConnectionId(pub(crate) u64);

impl View for ConnectionId {
    type V = u64;

    /// The counter value behind the handle.
    closed spec fn view(&self) -> u64 {
        self.0
    }
}

impl ConnectionId {
    pub(crate) fn new(value: u64) -> (id: ConnectionId)
        ensures
            id@ == value,
    {
        ConnectionId(value)
    }

    pub fn value(self) -> (value: u64)
        ensures
            value == self@,
    {
        self.0
    }
}

} // verus!
