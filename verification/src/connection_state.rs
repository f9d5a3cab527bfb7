use vstd::prelude::*;

verus! {

/// The phase a connection is in, which decides how packet ids are read.
#[derive(Debug, Clone, Copy, PartialEq, Eq, Structural, Hash)]
pub enum ConnectionState {
    Handshaking,
    Status,
    Login,
    Configuration,
    Play,
}

impl ConnectionState {
    /// Every phase, in the order a connection passes through them.
    pub const ALL: [ConnectionState; 5] = [
        ConnectionState::Handshaking,
        ConnectionState::Status,
        ConnectionState::Login,
        ConnectionState::Configuration,
        ConnectionState::Play,
    ];
}

} // verus!
