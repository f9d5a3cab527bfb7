use vstd::prelude::*;

use crate::client_intent::ClientIntent;
use crate::component::Component;
use crate::component_model::{
    empty_style_model, optional_chars, ComponentModel, ContentModel, StyleModel,
};
use crate::connection_action::{action_models, ActionModel, ConnectionAction};
use crate::connection_state::ConnectionState;
use crate::forwarding_mode::ForwardingMode;
use crate::game_profile::GameProfile;
use crate::handshake::Handshake;
use crate::login_start::LoginStart;
use crate::named_color::NamedColor;
use crate::server_policy::{policy_full, ServerPolicy};
use crate::serverbound_packet::ServerBoundPacket;
use crate::text_color::TextColor;
use crate::version::{protocol_number_of, version_with_number, ProtocolVersion};

verus! {

/// The mathematical content of a [`ConnectionFlow`].
pub struct FlowModel {
    pub policy: ServerPolicy,
    pub state: ConnectionState,
    pub version: ProtocolVersion,
    pub username: Option<Seq<char>>,
    pub uuid: Option<u128>,
    pub forwarding_request_id: Option<i32>,
}

/// The message a refused client is shown: the text, in red.
pub open spec fn refusal(message: Seq<char>) -> ComponentModel {
    ComponentModel {
        content: ContentModel::Text(message),
        style: StyleModel { color: Some(TextColor::Named(NamedColor::Red)), ..empty_style_model() },
        children: Seq::empty(),
    }
}

pub open spec fn refused_model(message: Seq<char>) -> ActionModel {
    ActionModel::Disconnect(refusal(message))
}

/// Whether clients of this version need the play burst delayed.
pub open spec fn needs_spawn_delay(version: ProtocolVersion) -> bool {
    protocol_number_of(version) <= protocol_number_of(ProtocolVersion::V1_7_6)
}

/// Whether this version has a configuration phase between login and play.
pub open spec fn has_configuration(version: ProtocolVersion) -> bool {
    protocol_number_of(version) >= protocol_number_of(ProtocolVersion::V1_20_2)
}

/// Whether this version negotiates resource packs before receiving registries.
pub open spec fn negotiates_packs(version: ProtocolVersion) -> bool {
    protocol_number_of(version) >= protocol_number_of(ProtocolVersion::V1_20_5)
}

/// A fresh connection under a policy.
pub open spec fn new_flow(policy: ServerPolicy) -> FlowModel {
    FlowModel {
        policy,
        state: ConnectionState::Handshaking,
        version: ProtocolVersion::V1_7_2,
        username: None,
        uuid: None,
        forwarding_request_id: None,
    }
}

/// The flow in a new state.
pub open spec fn in_state(flow: FlowModel, state: ConnectionState) -> FlowModel {
    FlowModel { state, ..flow }
}

/// Entering play: the state changes and the play burst follows, delayed for the oldest
/// clients.
pub open spec fn spawn_step(flow: FlowModel) -> (FlowModel, Seq<ActionModel>) {
    (
        in_state(flow, ConnectionState::Play),
        seq![
            ActionModel::EnterState(ConnectionState::Play),
            if needs_spawn_delay(flow.version) {
                ActionModel::SpawnPlayerAfterDelay
            } else {
                ActionModel::SpawnPlayer
            },
        ],
    )
}

/// The steps that follow a successful login, once the identity is settled: a refusal
/// when a required proxy never answered; otherwise login success and registration, then
/// configuration from 1.20.2 or play before it.
pub open spec fn complete_login_step(flow: FlowModel) -> (FlowModel, Seq<ActionModel>) {
    if flow.policy.forwarding == ForwardingMode::Modern && flow.forwarding_request_id is None {
        (flow, seq![refused_model("You need to connect with Velocity"@)])
    } else if has_configuration(flow.version) {
        (
            in_state(flow, ConnectionState::Configuration),
            seq![
                ActionModel::SendLoginSuccess,
                ActionModel::RegisterPlayer,
                ActionModel::EnterOutgoingState(ConnectionState::Configuration),
            ],
        )
    } else {
        let (spawned, burst) = spawn_step(flow);
        (spawned, seq![ActionModel::SendLoginSuccess, ActionModel::RegisterPlayer] + burst)
    }
}

/// A handshake: a missing intent is refused; an unsupported version is refused in the
/// login phase with the codecs left on the oldest layout; otherwise the version is
/// adopted and the phase the intent asks for entered.
pub open spec fn handshake_step(flow: FlowModel, protocol: int, intent: Option<ClientIntent>) -> (
    FlowModel,
    Seq<ActionModel>,
) {
    match intent {
        None => (flow, seq![refused_model("Invalid handshake intent!"@)]),
        Some(wanted) => match version_with_number(protocol) {
            None => (
                in_state(flow, ConnectionState::Login),
                seq![
                    ActionModel::EnterState(ConnectionState::Login),
                    refused_model("Unsupported client version"@),
                ],
            ),
            Some(version) => {
                let state = if wanted == ClientIntent::Status {
                    ConnectionState::Status
                } else {
                    ConnectionState::Login
                };
                (
                    FlowModel { version, state, ..flow },
                    seq![ActionModel::AdoptVersion(version), ActionModel::EnterState(state)],
                )
            },
        },
    }
}

/// A login start: refused when the server is full; under Velocity forwarding the proxy
/// is asked first; otherwise the name is recorded and login completes.
pub open spec fn login_start_step(flow: FlowModel, username: Seq<char>, online: int) -> (
    FlowModel,
    Seq<ActionModel>,
) {
    if policy_full(flow.policy.max_players as int, online) {
        (flow, seq![refused_model("Too many players connected"@)])
    } else if flow.policy.forwarding == ForwardingMode::Modern {
        (flow, seq![ActionModel::RequestForwardedPlayerInfo])
    } else {
        complete_login_step(FlowModel { username: Some(username), ..flow })
    }
}

/// The client acknowledging login: configuration begins with the brand, then either the
/// known-packs negotiation or the registries and the finish.
pub open spec fn login_acknowledged_step(flow: FlowModel) -> (FlowModel, Seq<ActionModel>) {
    let configuring = in_state(flow, ConnectionState::Configuration);
    if negotiates_packs(flow.version) {
        (
            configuring,
            seq![
                ActionModel::EnterState(ConnectionState::Configuration),
                ActionModel::SendBrand,
                ActionModel::SendKnownPacks,
            ],
        )
    } else {
        (
            configuring,
            seq![
                ActionModel::EnterState(ConnectionState::Configuration),
                ActionModel::SendBrand,
                ActionModel::SendRegistryData,
                ActionModel::SendFinishConfiguration,
            ],
        )
    }
}

/// The registries, tags and finish that answer the client's known packs.
pub open spec fn known_packs_actions() -> Seq<ActionModel> {
    seq![
        ActionModel::SendRegistryData,
        ActionModel::SendUpdateTags,
        ActionModel::SendFinishConfiguration,
    ]
}

/// One decoded packet fed through the flow.
pub open spec fn handle_step(flow: FlowModel, packet: ServerBoundPacket, online: int) -> (
    FlowModel,
    Seq<ActionModel>,
) {
    match packet {
        ServerBoundPacket::Handshake(handshake) => handshake_step(
            flow,
            handshake.protocol as int,
            handshake.intent,
        ),
        ServerBoundPacket::StatusRequest => (flow, seq![ActionModel::SendStatusResponse]),
        ServerBoundPacket::StatusPing { payload } => (
            flow,
            seq![ActionModel::SendPongAndClose(payload)],
        ),
        ServerBoundPacket::LoginStart(login) => login_start_step(flow, login.username@, online),
        ServerBoundPacket::LoginAcknowledged => login_acknowledged_step(flow),
        ServerBoundPacket::KnownPacks => (flow, known_packs_actions()),
        ServerBoundPacket::FinishConfiguration => spawn_step(flow),
        _ => (flow, Seq::empty()),
    }
}

/// The identity a proxy vouched for recorded, and the login resumed.
pub open spec fn forwarded_identity_step(
    flow: FlowModel,
    username: Seq<char>,
    uuid: u128,
    address: Seq<char>,
) -> (FlowModel, Seq<ActionModel>) {
    let identified = FlowModel { username: Some(username), uuid: Some(uuid), ..flow };
    let (completed, actions) = complete_login_step(identified);
    (completed, seq![ActionModel::AdoptForwardedAddress(address)] + actions)
}

/// Drives one connection from its first byte to the play phase.
///
/// Holds no socket and performs no I/O: every step is a decoded packet in and a list of
/// actions out. That is what lets the whole login sequence be replayed for every version
/// in a test.
#[derive(Debug)]
pub struct ConnectionFlow {
    policy: ServerPolicy,
    state: ConnectionState,
    version: ProtocolVersion,
    profile: GameProfile,
    forwarding_request_id: Option<i32>,
}

impl View for ConnectionFlow {
    type V = FlowModel;

    closed spec fn view(&self) -> FlowModel {
        FlowModel {
            policy: self.policy,
            state: self.state,
            version: self.version,
            username: optional_chars(self.profile.username),
            uuid: self.profile.uuid,
            forwarding_request_id: self.forwarding_request_id,
        }
    }
}

fn refused(message: &str) -> (action: ConnectionAction)
    ensures
        action@ == refused_model(message@),
{
    let mut reason = Component::text(message);
    reason.style.color = Some(TextColor::Named(NamedColor::Red));
    ConnectionAction::Disconnect { reason }
}

fn one(action: ConnectionAction) -> (actions: Vec<ConnectionAction>)
    ensures
        action_models(actions@) == seq![action@],
{
    let mut actions: Vec<ConnectionAction> = Vec::new();
    actions.push(action);
    proof {
        assert(action_models(actions@) =~= seq![action@]);
    }
    actions
}

fn push_action(actions: &mut Vec<ConnectionAction>, action: ConnectionAction)
    ensures
        action_models(final(actions)@) == action_models(old(actions)@).push(action@),
{
    actions.push(action);
    proof {
        assert(action_models(final(actions)@) =~= action_models(old(actions)@).push(action@));
    }
}

fn append_actions(actions: &mut Vec<ConnectionAction>, more: Vec<ConnectionAction>)
    ensures
        action_models(final(actions)@) == action_models(old(actions)@) + action_models(more@),
{
    let mut more = more;
    let ghost tail = more@;
    actions.append(&mut more);
    proof {
        assert(action_models(final(actions)@) =~= action_models(old(actions)@) + action_models(
            tail,
        ));
    }
}

impl ConnectionFlow {
    pub fn new(policy: ServerPolicy) -> (flow: ConnectionFlow)
        ensures
            flow@ == new_flow(policy),
    {
        ConnectionFlow {
            policy,
            state: ConnectionState::Handshaking,
            version: ProtocolVersion::MIN,
            profile: GameProfile::unidentified(),
            forwarding_request_id: None,
        }
    }

    pub fn state(&self) -> (state: ConnectionState)
        ensures
            state == self@.state,
    {
        self.state
    }

    pub fn version(&self) -> (version: ProtocolVersion)
        ensures
            version == self@.version,
    {
        self.version
    }

    pub fn profile(&self) -> (profile: &GameProfile)
        ensures
            optional_chars(profile.username) == self@.username,
            profile.uuid == self@.uuid,
    {
        &self.profile
    }

    /// Whether the player has reached a phase where they count towards the online total.
    pub fn is_registered(&self) -> (registered: bool)
        ensures
            registered == (self@.state == ConnectionState::Configuration || self@.state
                == ConnectionState::Play),
    {
        match self.state {
            ConnectionState::Configuration | ConnectionState::Play => true,
            _ => false,
        }
    }

    fn spawn_player(&mut self) -> (actions: Vec<ConnectionAction>)
        ensures
            final(self)@ == spawn_step(old(self)@).0,
            action_models(actions@) == spawn_step(old(self)@).1,
    {
        self.state = ConnectionState::Play;
        let mut actions = one(ConnectionAction::EnterState { state: ConnectionState::Play });
        if ProtocolVersion::V1_7_6.older_than(self.version) {
            push_action(&mut actions, ConnectionAction::SpawnPlayer);
        } else {
            push_action(&mut actions, ConnectionAction::SpawnPlayerAfterDelay);
        }
        actions
    }

    /// The steps that follow a successful login, once the identity is settled.
    ///
    /// From 1.20.2 the server switches its outgoing codec to configuration immediately
    /// and waits for the client to acknowledge; older clients go straight to play.
    pub fn complete_login(&mut self) -> (actions: Vec<ConnectionAction>)
        ensures
            final(self)@ == complete_login_step(old(self)@).0,
            action_models(actions@) == complete_login_step(old(self)@).1,
    {
        if self.policy.forwarding == ForwardingMode::Modern && self.forwarding_request_id.is_none() {
            return one(refused("You need to connect with Velocity"));
        }
        let mut actions = one(ConnectionAction::SendLoginSuccess);
        push_action(&mut actions, ConnectionAction::RegisterPlayer);
        if self.version.at_least(ProtocolVersion::V1_20_2) {
            self.state = ConnectionState::Configuration;
            push_action(
                &mut actions,
                ConnectionAction::EnterOutgoingState { state: ConnectionState::Configuration },
            );
            return actions;
        }
        let burst = self.spawn_player();
        append_actions(&mut actions, burst);
        actions
    }

    fn on_handshake(&mut self, packet: &Handshake) -> (actions: Vec<ConnectionAction>)
        ensures
            final(self)@ == handshake_step(old(self)@, packet.protocol as int, packet.intent).0,
            action_models(actions@) == handshake_step(
                old(self)@,
                packet.protocol as int,
                packet.intent,
            ).1,
    {
        let intent = match packet.intent {
            Some(intent) => intent,
            None => {
                return one(refused("Invalid handshake intent!"));
            },
        };
        let version = match ProtocolVersion::from_number(packet.protocol) {
            Some(version) => version,
            None => {
                // The codecs stay on the oldest layout, which is the only one an unknown
                // client is guaranteed to understand well enough to read a kick screen.
                self.state = ConnectionState::Login;
                let mut actions = one(
                    ConnectionAction::EnterState { state: ConnectionState::Login },
                );
                push_action(&mut actions, refused("Unsupported client version"));
                return actions;
            },
        };
        self.version = version;
        let state = if intent.is_join() {
            ConnectionState::Login
        } else {
            ConnectionState::Status
        };
        self.state = state;
        let mut actions = one(ConnectionAction::AdoptVersion { version });
        push_action(&mut actions, ConnectionAction::EnterState { state });
        actions
    }

    fn on_login_start(&mut self, username: String, online: i32) -> (actions: Vec<
        ConnectionAction,
    >)
        ensures
            final(self)@ == login_start_step(old(self)@, username@, online as int).0,
            action_models(actions@) == login_start_step(old(self)@, username@, online as int).1,
    {
        if self.policy.is_full(online) {
            return one(refused("Too many players connected"));
        }
        if self.policy.forwarding == ForwardingMode::Modern {
            // The identity arrives later, in the plugin response.
            return one(ConnectionAction::RequestForwardedPlayerInfo);
        }
        self.profile.username = Some(username);
        self.complete_login()
    }

    fn on_login_acknowledged(&mut self) -> (actions: Vec<ConnectionAction>)
        ensures
            final(self)@ == login_acknowledged_step(old(self)@).0,
            action_models(actions@) == login_acknowledged_step(old(self)@).1,
    {
        self.state = ConnectionState::Configuration;
        let mut actions = one(ConnectionAction::EnterState { state: ConnectionState::Configuration });
        push_action(&mut actions, ConnectionAction::SendBrand);
        if self.version.at_least(ProtocolVersion::V1_20_5) {
            push_action(&mut actions, ConnectionAction::SendKnownPacks);
            return actions;
        }
        push_action(&mut actions, ConnectionAction::SendRegistryData);
        push_action(&mut actions, ConnectionAction::SendFinishConfiguration);
        actions
    }

    /// Feeds one decoded packet through the flow.
    ///
    /// `online` is the current player count, needed only to enforce the player cap;
    /// passing it in keeps the flow free of shared state.
    pub fn handle(&mut self, packet: ServerBoundPacket, online: i32) -> (actions: Vec<
        ConnectionAction,
    >)
        ensures
            final(self)@ == handle_step(old(self)@, packet, online as int).0,
            action_models(actions@) == handle_step(old(self)@, packet, online as int).1,
    {
        match packet {
            ServerBoundPacket::Handshake(handshake) => self.on_handshake(&handshake),
            ServerBoundPacket::StatusRequest => one(ConnectionAction::SendStatusResponse),
            ServerBoundPacket::StatusPing { payload } => one(
                ConnectionAction::SendPongAndClose { payload },
            ),
            ServerBoundPacket::LoginStart(login) => self.on_login_start(login.username, online),
            ServerBoundPacket::LoginAcknowledged => self.on_login_acknowledged(),
            ServerBoundPacket::KnownPacks => {
                let mut actions = one(ConnectionAction::SendRegistryData);
                push_action(&mut actions, ConnectionAction::SendUpdateTags);
                push_action(&mut actions, ConnectionAction::SendFinishConfiguration);
                actions
            },
            ServerBoundPacket::FinishConfiguration => self.spawn_player(),
            _ => {
                let actions: Vec<ConnectionAction> = Vec::new();
                proof {
                    assert(action_models(actions@) =~= Seq::<ActionModel>::empty());
                }
                actions
            },
        }
    }

    /// Records the identity a proxy vouched for, and resumes the login.
    pub fn accept_forwarded_identity(&mut self, username: String, uuid: u128, address: String) -> (actions: Vec<ConnectionAction>)
        ensures
            final(self)@ == forwarded_identity_step(old(self)@, username@, uuid, address@).0,
            action_models(actions@) == forwarded_identity_step(
                old(self)@,
                username@,
                uuid,
                address@,
            ).1,
    {
        self.profile.username = Some(username);
        self.profile.uuid = Some(uuid);
        let mut actions = one(ConnectionAction::AdoptForwardedAddress { address });
        let rest = self.complete_login();
        append_actions(&mut actions, rest);
        actions
    }

    /// Notes which login plugin request the server sent, so a reply can be matched to it.
    pub fn expect_forwarding_reply(&mut self, message_id: i32)
        ensures
            final(self)@ == (FlowModel { forwarding_request_id: Some(message_id), ..old(self)@ }),
    {
        self.forwarding_request_id = Some(message_id);
    }

    /// Whether a login plugin reply answers the request the server sent.
    pub fn forwarding_reply_matches(&self, message_id: i32) -> (matches: bool)
        ensures
            matches == (self@.forwarding_request_id == Some(message_id)),
    {
        match self.forwarding_request_id {
            Some(expected) => expected == message_id,
            None => false,
        }
    }

    /// Sets the offline-mode identity, once it has been derived from the username.
    pub fn adopt_offline_identity(&mut self, uuid: u128)
        ensures
            final(self)@ == (FlowModel { uuid: Some(uuid), ..old(self)@ }),
    {
        self.profile.uuid = Some(uuid);
    }
}

/// A client of `version` joining from a fresh connection: handshake, login start, and,
/// where the version has them, the acknowledgement, the known packs and the finish of
/// configuration.
pub open spec fn join_sequence(
    policy: ServerPolicy,
    version: ProtocolVersion,
    username: Seq<char>,
    online: int,
) -> (FlowModel, Seq<ActionModel>) {
    let (shaken, greeted) = handshake_step(
        new_flow(policy),
        protocol_number_of(version),
        Some(ClientIntent::Login),
    );
    let (logged, login_actions) = login_start_step(shaken, username, online);
    if has_configuration(version) {
        let (configuring, acknowledged) = login_acknowledged_step(logged);
        let negotiated = if negotiates_packs(version) {
            known_packs_actions()
        } else {
            Seq::empty()
        };
        let (playing, burst) = spawn_step(configuring);
        (playing, greeted + login_actions + acknowledged + negotiated + burst)
    } else {
        (logged, greeted + login_actions)
    }
}

/// Every supported version that joins a server with room and without Velocity
/// forwarding reaches play and counts as online: it receives login success, is
/// registered, and is spawned.
pub proof fn lemma_every_version_joins(
    policy: ServerPolicy,
    version: ProtocolVersion,
    username: Seq<char>,
    online: int,
)
    requires
        policy.forwarding != ForwardingMode::Modern,
        !policy_full(policy.max_players as int, online),
    ensures
        join_sequence(policy, version, username, online).0.state == ConnectionState::Play,
        join_sequence(policy, version, username, online).1.contains(ActionModel::SendLoginSuccess),
        join_sequence(policy, version, username, online).1.contains(ActionModel::RegisterPlayer),
        join_sequence(policy, version, username, online).1.contains(
            if needs_spawn_delay(version) {
                ActionModel::SpawnPlayerAfterDelay
            } else {
                ActionModel::SpawnPlayer
            },
        ),
{
    crate::version::lemma_version_with_number(version);
    let (shaken, greeted) = handshake_step(
        new_flow(policy),
        protocol_number_of(version),
        Some(ClientIntent::Login),
    );
    assert(shaken.version == version);
    let (logged, login_actions) = login_start_step(shaken, username, online);
    let spawn = if needs_spawn_delay(version) {
        ActionModel::SpawnPlayerAfterDelay
    } else {
        ActionModel::SpawnPlayer
    };
    let all = join_sequence(policy, version, username, online).1;
    if has_configuration(version) {
        let (configuring, acknowledged) = login_acknowledged_step(logged);
        let negotiated = if negotiates_packs(version) {
            known_packs_actions()
        } else {
            Seq::empty()
        };
        let (playing, burst) = spawn_step(configuring);
        assert(all[2] == ActionModel::SendLoginSuccess);
        assert(all[3] == ActionModel::RegisterPlayer);
        assert(all[all.len() - 1] == spawn);
    } else {
        assert(all[2] == ActionModel::SendLoginSuccess);
        assert(all[3] == ActionModel::RegisterPlayer);
        assert(all[5] == spawn);
    }
}

/// A run of decoded packets fed through the flow one [`ConnectionFlow::handle`] call at a
/// time, at a fixed player count: where the flow ends up, and every action in order.
pub open spec fn handle_all(flow: FlowModel, packets: Seq<ServerBoundPacket>, online: int) -> (
    FlowModel,
    Seq<ActionModel>,
)
    decreases packets.len(),
{
    if packets.len() == 0 {
        (flow, Seq::empty())
    } else {
        let (next, actions) = handle_step(flow, packets[0], online);
        let (end, rest) = handle_all(next, packets.drop_first(), online);
        (end, actions + rest)
    }
}

/// What a client of `version` sends to join: its handshake and login start, then, from
/// 1.20.2, the login acknowledgement, its known packs from 1.20.5, and the end of
/// configuration.
pub open spec fn join_packets(
    version: ProtocolVersion,
    handshake: Handshake,
    login: LoginStart,
) -> Seq<ServerBoundPacket> {
    let opening = seq![ServerBoundPacket::Handshake(handshake), ServerBoundPacket::LoginStart(login)];
    if has_configuration(version) {
        let packs = if negotiates_packs(version) {
            seq![ServerBoundPacket::KnownPacks]
        } else {
            Seq::empty()
        };
        opening + seq![ServerBoundPacket::LoginAcknowledged] + packs + seq![
            ServerBoundPacket::FinishConfiguration,
        ]
    } else {
        opening
    }
}

/// Feeding a fresh flow the packets a client sends to join, one `handle` call each, does
/// what [`join_sequence`] describes; so, by [`lemma_every_version_joins`], every supported
/// version that joins a server with room and without Velocity forwarding reaches play,
/// receives login success, is registered and is spawned.
pub proof fn lemma_handled_join_reaches_play(
    policy: ServerPolicy,
    version: ProtocolVersion,
    handshake: Handshake,
    login: LoginStart,
    online: int,
)
    requires
        handshake.protocol == protocol_number_of(version),
        handshake.intent == Some(ClientIntent::Login),
        policy.forwarding != ForwardingMode::Modern,
        !policy_full(policy.max_players as int, online),
    ensures
        handle_all(new_flow(policy), join_packets(version, handshake, login), online) == join_sequence(
            policy,
            version,
            login.username@,
            online,
        ),
        handle_all(new_flow(policy), join_packets(version, handshake, login), online).0.state
            == ConnectionState::Play,
        handle_all(new_flow(policy), join_packets(version, handshake, login), online).1.contains(
            ActionModel::SendLoginSuccess,
        ),
        handle_all(new_flow(policy), join_packets(version, handshake, login), online).1.contains(
            ActionModel::RegisterPlayer,
        ),
        handle_all(new_flow(policy), join_packets(version, handshake, login), online).1.contains(
            if needs_spawn_delay(version) {
                ActionModel::SpawnPlayerAfterDelay
            } else {
                ActionModel::SpawnPlayer
            },
        ),
{
    lemma_every_version_joins(policy, version, login.username@, online);
    let packets = join_packets(version, handshake, login);
    let (shaken, greeted) = handshake_step(
        new_flow(policy),
        protocol_number_of(version),
        Some(ClientIntent::Login),
    );
    let (logged, login_actions) = login_start_step(shaken, login.username@, online);
    let tail = packets.drop_first().drop_first();
    assert(handle_all(new_flow(policy), packets, online).0 == handle_all(shaken, packets.drop_first(), online).0);
    assert(handle_all(new_flow(policy), packets, online).1 == greeted + handle_all(shaken, packets.drop_first(), online).1);
    assert(handle_all(shaken, packets.drop_first(), online).0 == handle_all(logged, tail, online).0);
    assert(handle_all(shaken, packets.drop_first(), online).1 == login_actions + handle_all(logged, tail, online).1);
    if has_configuration(version) {
        let (configuring, acknowledged) = login_acknowledged_step(logged);
        let (playing, burst) = spawn_step(configuring);
        let rest = tail.drop_first();
        assert(handle_all(logged, tail, online).0 == handle_all(configuring, rest, online).0);
        assert(handle_all(logged, tail, online).1 == acknowledged + handle_all(configuring, rest, online).1);
        if negotiates_packs(version) {
            assert(rest =~= seq![ServerBoundPacket::KnownPacks, ServerBoundPacket::FinishConfiguration]);
            assert(rest.drop_first() =~= seq![ServerBoundPacket::FinishConfiguration]);
            assert(rest.drop_first().drop_first() =~= Seq::<ServerBoundPacket>::empty());
            let last = rest.drop_first();
            assert(handle_step(configuring, last[0], online) == (playing, burst));
            assert(handle_all(playing, last.drop_first(), online) == (playing, Seq::<ActionModel>::empty()));
            assert(handle_all(configuring, last, online).1 =~= burst);
            assert(handle_all(configuring, last, online).0 == playing);
            assert(handle_step(configuring, rest[0], online) == (configuring, known_packs_actions()));
            assert(handle_all(configuring, rest, online).1 =~= known_packs_actions() + burst);
            assert(handle_all(configuring, rest, online).0 == playing);
        } else {
            assert(rest =~= seq![ServerBoundPacket::FinishConfiguration]);
            assert(rest.drop_first() =~= Seq::<ServerBoundPacket>::empty());
            assert(handle_step(configuring, rest[0], online) == (playing, burst));
            assert(handle_all(playing, rest.drop_first(), online) == (playing, Seq::<ActionModel>::empty()));
            assert(handle_all(configuring, rest, online).1 =~= burst);
            assert(handle_all(configuring, rest, online).0 == playing);
        }
        assert(handle_all(new_flow(policy), packets, online).1 =~= join_sequence(
            policy,
            version,
            login.username@,
            online,
        ).1);
    } else {
        assert(tail =~= Seq::<ServerBoundPacket>::empty());
        assert(handle_all(new_flow(policy), packets, online).1 =~= join_sequence(
            policy,
            version,
            login.username@,
            online,
        ).1);
    }
}

/// A client older than the configuration phase goes from login straight to play: it is
/// never moved into configuration and never sent registries.
pub proof fn lemma_old_clients_skip_configuration(
    policy: ServerPolicy,
    version: ProtocolVersion,
    username: Seq<char>,
    online: int,
)
    requires
        policy.forwarding != ForwardingMode::Modern,
        !policy_full(policy.max_players as int, online),
        !has_configuration(version),
    ensures
        !join_sequence(policy, version, username, online).1.contains(
            ActionModel::EnterState(ConnectionState::Configuration),
        ),
        !join_sequence(policy, version, username, online).1.contains(ActionModel::SendRegistryData),
{
    crate::version::lemma_version_with_number(version);
    let all = join_sequence(policy, version, username, online).1;
    assert(all.len() == 6);
    assert(all[0] == ActionModel::AdoptVersion(version));
    assert(all[1] == ActionModel::EnterState(ConnectionState::Login));
}

/// A handshake naming a protocol no release uses is refused in the login phase, and the
/// connection keeps the version it had, so the refusal goes out in a layout the client
/// can read.
pub proof fn lemma_unsupported_version_refused(
    flow: FlowModel,
    protocol: int,
    intent: ClientIntent,
)
    requires
        !crate::version::is_supported_number(protocol),
    ensures
        handshake_step(flow, protocol, Some(intent)).0.state == ConnectionState::Login,
        handshake_step(flow, protocol, Some(intent)).0.version == flow.version,
        handshake_step(flow, protocol, Some(intent)).1.last() is Disconnect,
{
}

/// A full server refuses a login before doing anything else, and the connection stays
/// where it was.
pub proof fn lemma_full_server_refuses(flow: FlowModel, username: Seq<char>, online: int)
    requires
        policy_full(flow.policy.max_players as int, online),
    ensures
        login_start_step(flow, username, online).0 == flow,
        login_start_step(flow, username, online).1 == seq![
            refused_model("Too many players connected"@),
        ],
{
}

/// Under Velocity forwarding, a login start only asks the proxy; and without the proxy's
/// reply a login cannot complete.
pub proof fn lemma_modern_forwarding_waits_for_the_proxy(
    flow: FlowModel,
    username: Seq<char>,
    online: int,
)
    requires
        flow.policy.forwarding == ForwardingMode::Modern,
        !policy_full(flow.policy.max_players as int, online),
    ensures
        login_start_step(flow, username, online).1 == seq![ActionModel::RequestForwardedPlayerInfo],
        login_start_step(flow, username, online).0 == flow,
        flow.forwarding_request_id is None ==> complete_login_step(flow).1 == seq![
            refused_model("You need to connect with Velocity"@),
        ],
{
}

/// A reply matches exactly the request the flow was told to expect.
pub proof fn lemma_reply_matches_expected_request(flow: FlowModel, expected: i32, reply: i32)
    ensures
        (FlowModel { forwarding_request_id: Some(expected), ..flow }).forwarding_request_id
            == Some(reply) <==> reply == expected,
{
}

/// A handshake never counts a fresh connection as online: whatever it carries, the
/// connection ends up handshaking, asking for status or logging in.
pub proof fn lemma_handshake_never_registers(
    policy: ServerPolicy,
    protocol: int,
    intent: Option<ClientIntent>,
)
    ensures
        ({
            let state = handshake_step(new_flow(policy), protocol, intent).0.state;
            state != ConnectionState::Configuration && state != ConnectionState::Play
        }),
{
}

} // verus!
