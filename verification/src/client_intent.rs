use vstd::prelude::*;

verus! {

/// What a client says it is connecting for, in the handshake.
#[derive(Debug, Clone, Copy, PartialEq, Eq, Structural)]
pub enum ClientIntent {
    /// Asking for the server list entry, then disconnecting.
    Status,
    /// Joining.
    Login,
    /// Joining after being sent here by another server. Treated exactly as `Login`.
    Transfer,
}

/// The intent a handshake's intent field names.
pub open spec fn intent_for_id(id: int) -> Option<ClientIntent> {
    if id == 1 {
        Some(ClientIntent::Status)
    } else if id == 2 {
        Some(ClientIntent::Login)
    } else if id == 3 {
        Some(ClientIntent::Transfer)
    } else {
        None
    }
}

impl ClientIntent {
    /// Resolves the intent field. Anything else is a client the server will not serve.
    pub fn from_id(id: i32) -> (intent: Option<ClientIntent>)
        ensures
            intent == intent_for_id(id as int),
    {
        match id {
            1 => Some(ClientIntent::Status),
            2 => Some(ClientIntent::Login),
            3 => Some(ClientIntent::Transfer),
            _ => None,
        }
    }

    /// Whether the client means to join rather than ask for the status.
    pub fn is_join(self) -> (joining: bool)
        ensures
            joining == (self != ClientIntent::Status),
    {
        match self {
            ClientIntent::Status => false,
            _ => true,
        }
    }
}

} // verus!
