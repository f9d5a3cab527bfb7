use vstd::prelude::*;

verus! {

/// Supplies the values the server would otherwise pull from a random number generator.
///
/// Every one of these reaches the wire, so making them an injected dependency is what
/// allows a packet to be compared byte for byte against a reference dump. Calling a
/// global generator inside the encoders would make that impossible.
pub trait IdSource: Send + Sync {
    /// Entity id for the join game packet.
    fn next_entity_id(&self) -> i32;

    /// Teleport id echoed back by the client after a position update.
    fn next_teleport_id(&self) -> i32;

    /// Token the client must return in its keep-alive reply.
    fn next_keep_alive_id(&self) -> i64;

    /// Correlation id for a login plugin request.
    fn next_message_id(&self) -> i32;

    /// A fresh identifier, as a 128-bit UUID value, for something the protocol wants a
    /// UUID for, such as a boss bar.
    fn next_uuid(&self) -> u128;
}

/// An id source that returns the same values every time.
///
/// Not a test double: the packets built once at startup (the boss bar, the join game
/// entity id, the teleport id) are shared by every player, so the server draws each of
/// them exactly once anyway. Handing the encoders a fixed source makes that explicit, and
/// makes a startup snapshot reproducible.
#[derive(Debug, Clone, PartialEq, Eq)]
pub struct FixedIdSource {
    entity_id: i32,
    teleport_id: i32,
    keep_alive_id: i64,
    message_id: i32,
    uuid: u128,
}

impl View for FixedIdSource {
    /// Entity, teleport, keep-alive and message ids, and the UUID, in that order.
    type V = (i32, i32, i64, i32, u128);

    closed spec fn view(&self) -> (i32, i32, i64, i32, u128) {
        (self.entity_id, self.teleport_id, self.keep_alive_id, self.message_id, self.uuid)
    }
}

impl FixedIdSource {
    pub fn new(
        entity_id: i32,
        teleport_id: i32,
        keep_alive_id: i64,
        message_id: i32,
        uuid: u128,
    ) -> (source: FixedIdSource)
        ensures
            source@ == (entity_id, teleport_id, keep_alive_id, message_id, uuid),
    {
        FixedIdSource { entity_id, teleport_id, keep_alive_id, message_id, uuid }
    }
}

impl IdSource for FixedIdSource {
    fn next_entity_id(&self) -> (id: i32)
        ensures
            id == self@.0,
    {
        self.entity_id
    }

    fn next_teleport_id(&self) -> (id: i32)
        ensures
            id == self@.1,
    {
        self.teleport_id
    }

    fn next_keep_alive_id(&self) -> (id: i64)
        ensures
            id == self@.2,
    {
        self.keep_alive_id
    }

    fn next_message_id(&self) -> (id: i32)
        ensures
            id == self@.3,
    {
        self.message_id
    }

    fn next_uuid(&self) -> (uuid: u128)
        ensures
            uuid == self@.4,
    {
        self.uuid
    }
}

} // verus!
