use limbo::connected_player::ConnectedPlayer;
use limbo::connection_registry::ConnectionRegistry;
use limbo::game_profile::GameProfile;
use limbo::id_source::{FixedIdSource, IdSource};
use limbo::version::ProtocolVersion;

fn player(username: &str) -> ConnectedPlayer {
    ConnectedPlayer {
        username: username.to_owned(),
        // Offline-mode UUIDs are derived from the username, so two players with the
        // same name genuinely share one.
        uuid: uuid::Uuid::from_u128(7).as_u128(),
        address: "127.0.0.1:25565".to_owned(),
        version: ProtocolVersion::V1_20_5,
    }
}

#[test]
fn given_two_players_sharing_a_uuid_when_both_join_then_both_are_counted() {
    let mut registry = ConnectionRegistry::empty();

    registry.add(player("Notch"));
    registry.add(player("Notch"));

    assert_eq!(registry.count(), 2);
}

#[test]
fn given_two_players_sharing_a_uuid_when_one_leaves_then_the_other_stays_online() {
    let mut registry = ConnectionRegistry::empty();
    let first = registry.add(player("Notch"));
    registry.add(player("Notch"));

    registry.remove(first);

    assert_eq!(registry.count(), 1);
}

#[test]
fn given_a_handle_already_removed_when_removed_again_then_the_count_is_unchanged() {
    let mut registry = ConnectionRegistry::empty();
    let id = registry.add(player("Notch"));

    assert!(registry.remove(id).is_some());
    assert!(registry.remove(id).is_none());
    assert_eq!(registry.count(), 0);
}

#[test]
fn handles_count_up_and_names_follow_the_joining_order() {
    let mut registry = ConnectionRegistry::empty();
    let a = registry.add(player("Alex"));
    let b = registry.add(player("Steve"));
    assert_eq!(a.value(), 0);
    assert_eq!(b.value(), 1);
    assert_eq!(registry.usernames(), vec!["Alex".to_owned(), "Steve".to_owned()]);
    assert_eq!(registry.remove(a).map(|p| p.username), Some("Alex".to_owned()));
    assert_eq!(registry.usernames(), vec!["Steve".to_owned()]);
}

#[test]
fn a_fixed_id_source_hands_out_the_same_values_every_time() {
    let source = FixedIdSource::new(1, 2, 3, 4, 5);
    for _ in 0..2 {
        assert_eq!(source.next_entity_id(), 1);
        assert_eq!(source.next_teleport_id(), 2);
        assert_eq!(source.next_keep_alive_id(), 3);
        assert_eq!(source.next_message_id(), 4);
        assert_eq!(source.next_uuid(), 5);
    }
    let profile = GameProfile::unidentified();
    assert_eq!(profile.username, None);
    assert_eq!(profile.uuid, None);
}
