use vstd::prelude::*;

use crate::component::Component;
use crate::component_model::ComponentModel;
use crate::connection_state::ConnectionState;
use crate::version::ProtocolVersion;

verus! {

/// Something the runtime must do on behalf of one connection.
///
/// The state machine decides *what* happens and in *what order*; the runtime that owns
/// the socket decides how. Keeping the two apart is what makes the whole login sequence
/// testable without a client, across every supported version.
#[derive(Debug, PartialEq)]
pub enum ConnectionAction {
    /// The client named its protocol version. Both codecs must follow.
    AdoptVersion { version: ProtocolVersion },
    /// Move both codecs to a new phase.
    EnterState { state: ConnectionState },
    /// Move only the outgoing codec. Used at login success on 1.20.2 and later, where the
    /// server starts speaking configuration before the client has acknowledged.
    EnterOutgoingState { state: ConnectionState },
    /// Replace the recorded remote address with one a proxy vouched for.
    AdoptForwardedAddress { address: String },
    SendStatusResponse,
    /// Echo the client's token and hang up, which is how a ping ends.
    SendPongAndClose { payload: i64 },
    /// Ask the client for Velocity's forwarded player data.
    ///
    /// Carries no message id: that is drawn from the runtime's id source and handed back
    /// through `ConnectionFlow::expect_forwarding_reply`, which keeps randomness out of
    /// the decision logic.
    RequestForwardedPlayerInfo,
    SendLoginSuccess,
    /// Count the player as online. Deliberately after login success.
    RegisterPlayer,
    SendBrand,
    SendKnownPacks,
    SendRegistryData,
    SendUpdateTags,
    SendFinishConfiguration,
    /// Send the play-phase burst: join game, abilities, position, and everything the
    /// configuration enables.
    SpawnPlayer,
    /// Send the burst only after a pause: clients up to 1.7.6 drop packets that arrive in
    /// the same breath as the join game packet.
    SpawnPlayerAfterDelay,
    Disconnect { reason: Component },
}

/// The mathematical content of a [`ConnectionAction`].
pub enum ActionModel {
    AdoptVersion(ProtocolVersion),
    EnterState(ConnectionState),
    EnterOutgoingState(ConnectionState),
    AdoptForwardedAddress(Seq<char>),
    SendStatusResponse,
    SendPongAndClose(i64),
    RequestForwardedPlayerInfo,
    SendLoginSuccess,
    RegisterPlayer,
    SendBrand,
    SendKnownPacks,
    SendRegistryData,
    SendUpdateTags,
    SendFinishConfiguration,
    SpawnPlayer,
    SpawnPlayerAfterDelay,
    Disconnect(ComponentModel),
}

pub open spec fn action_model(action: ConnectionAction) -> ActionModel {
    match action {
        ConnectionAction::AdoptVersion { version } => ActionModel::AdoptVersion(version),
        ConnectionAction::EnterState { state } => ActionModel::EnterState(state),
        ConnectionAction::EnterOutgoingState { state } => ActionModel::EnterOutgoingState(state),
        ConnectionAction::AdoptForwardedAddress { address } => ActionModel::AdoptForwardedAddress(
            address@,
        ),
        ConnectionAction::SendStatusResponse => ActionModel::SendStatusResponse,
        ConnectionAction::SendPongAndClose { payload } => ActionModel::SendPongAndClose(payload),
        ConnectionAction::RequestForwardedPlayerInfo => ActionModel::RequestForwardedPlayerInfo,
        ConnectionAction::SendLoginSuccess => ActionModel::SendLoginSuccess,
        ConnectionAction::RegisterPlayer => ActionModel::RegisterPlayer,
        ConnectionAction::SendBrand => ActionModel::SendBrand,
        ConnectionAction::SendKnownPacks => ActionModel::SendKnownPacks,
        ConnectionAction::SendRegistryData => ActionModel::SendRegistryData,
        ConnectionAction::SendUpdateTags => ActionModel::SendUpdateTags,
        ConnectionAction::SendFinishConfiguration => ActionModel::SendFinishConfiguration,
        ConnectionAction::SpawnPlayer => ActionModel::SpawnPlayer,
        ConnectionAction::SpawnPlayerAfterDelay => ActionModel::SpawnPlayerAfterDelay,
        ConnectionAction::Disconnect { reason } => ActionModel::Disconnect(reason@),
    }
}

pub open spec fn action_models(actions: Seq<ConnectionAction>) -> Seq<ActionModel> {
    actions.map_values(|action: ConnectionAction| action_model(action))
}

impl View for ConnectionAction {
    type V = ActionModel;

    open spec fn view(&self) -> ActionModel {
        action_model(*self)
    }
}

} // verus!
