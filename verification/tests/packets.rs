use bytes::BufMut;
use limbo::byte_reader::{ByteReader, PacketDecodeError};
use limbo::client_intent::ClientIntent;
use limbo::connection_flow::ConnectionFlow;
use limbo::connection_state::ConnectionState;
use limbo::forwarding_mode::ForwardingMode;
use limbo::handshake::Handshake;
use limbo::login_start::LoginStart;
use limbo::server_policy::ServerPolicy;
use limbo::serverbound_packet::{PacketKind, ServerBoundPacket};
use limbo::version::ProtocolVersion;

fn write_var_int(buffer: &mut Vec<u8>, value: i32) {
    let mut bits = value as u32;
    loop {
        if bits & !0x7F == 0 {
            buffer.put_u8(bits as u8);
            return;
        }
        buffer.put_u8((bits & 0x7F) as u8 | 0x80);
        bits >>= 7;
    }
}

fn write_string(buffer: &mut Vec<u8>, text: &str) {
    write_var_int(buffer, text.len() as i32);
    buffer.put_slice(text.as_bytes());
}

fn handshake_bytes(protocol: i32, host: &str, intent: i32) -> Vec<u8> {
    let mut buffer = Vec::new();
    write_var_int(&mut buffer, protocol);
    write_string(&mut buffer, host);
    buffer.put_u16(25565);
    write_var_int(&mut buffer, intent);
    buffer
}

fn decode(
    kind: Option<PacketKind>,
    version: ProtocolVersion,
    bytes: Vec<u8>,
) -> (Result<Option<ServerBoundPacket>, PacketDecodeError>, ByteReader) {
    let mut reader = ByteReader::new(bytes);
    let packet = ServerBoundPacket::decode(kind, version, &mut reader);
    (packet, reader)
}

#[test]
fn given_a_handshake_when_decoded_then_its_fields_survive_intact() {
    let (packet, _) = decode(
        Some(PacketKind::Handshake),
        ProtocolVersion::MIN,
        handshake_bytes(766, "limbo.example.com", 2),
    );

    assert_eq!(
        packet,
        Ok(Some(ServerBoundPacket::Handshake(Handshake {
            protocol: 766,
            host: "limbo.example.com".to_owned(),
            port: 25565,
            intent: Some(ClientIntent::Login),
        })))
    );
}

#[test]
fn given_an_unknown_intent_when_decoded_then_it_is_reported_as_absent_not_as_an_error() {
    let (packet, _) = decode(
        Some(PacketKind::Handshake),
        ProtocolVersion::MIN,
        handshake_bytes(766, "host", 99),
    );
    let Ok(Some(ServerBoundPacket::Handshake(handshake))) = packet else {
        panic!("handshake must decode");
    };

    assert_eq!(handshake.intent, None);
}

#[test]
fn given_an_id_the_server_ignores_when_decoded_then_the_frame_is_dropped_quietly() {
    let (packet, _) = decode(None, ProtocolVersion::V1_20_5, Vec::new());

    assert_eq!(packet, Ok(None));
}

#[test]
fn given_a_keep_alive_when_decoded_then_its_width_follows_the_version() {
    let mut modern = Vec::new();
    modern.put_i64(1234567890);
    assert_eq!(
        decode(Some(PacketKind::KeepAlive), ProtocolVersion::V1_20_5, modern).0,
        Ok(Some(ServerBoundPacket::KeepAlive { id: 1234567890 }))
    );

    let mut legacy = Vec::new();
    write_var_int(&mut legacy, 4242);
    assert_eq!(
        decode(Some(PacketKind::KeepAlive), ProtocolVersion::V1_8, legacy).0,
        Ok(Some(ServerBoundPacket::KeepAlive { id: 4242 }))
    );

    let mut oldest = Vec::new();
    oldest.put_i32(-7);
    assert_eq!(
        decode(Some(PacketKind::KeepAlive), ProtocolVersion::V1_7_6, oldest).0,
        Ok(Some(ServerBoundPacket::KeepAlive { id: -7 }))
    );
}

#[test]
fn given_a_login_start_from_1_19_when_decoded_then_the_signing_key_is_stepped_over() {
    let mut buffer = Vec::new();
    write_string(&mut buffer, "Notch");
    buffer.put_u8(1); // a key follows
    buffer.put_i64(0);
    write_var_int(&mut buffer, 4);
    buffer.put_slice(&[1, 2, 3, 4]);
    write_var_int(&mut buffer, 2);
    buffer.put_slice(&[5, 6]);

    let (packet, reader) = decode(Some(PacketKind::LoginStart), ProtocolVersion::V1_19, buffer);

    assert_eq!(
        packet,
        Ok(Some(ServerBoundPacket::LoginStart(LoginStart {
            username: "Notch".to_owned(),
            uuid: None,
        })))
    );
    assert!(!reader.has_remaining(), "the key must be fully consumed");
}

#[test]
fn given_a_login_start_from_1_20_2_when_decoded_then_the_uuid_has_no_preceding_flag() {
    let mut buffer = Vec::new();
    write_string(&mut buffer, "Notch");
    buffer.put_u128(uuid::Uuid::from_u128(42).as_u128());

    let (packet, _) = decode(Some(PacketKind::LoginStart), ProtocolVersion::V1_20_2, buffer);

    assert_eq!(
        packet,
        Ok(Some(ServerBoundPacket::LoginStart(LoginStart {
            username: "Notch".to_owned(),
            uuid: Some(uuid::Uuid::from_u128(42).as_u128()),
        })))
    );
}

#[test]
fn given_more_known_packs_than_allowed_when_decoded_then_it_is_rejected() {
    let mut buffer = Vec::new();
    write_var_int(&mut buffer, 1000);

    let (packet, _) = decode(Some(PacketKind::KnownPacks), ProtocolVersion::V1_20_5, buffer);

    assert!(matches!(
        packet,
        Err(PacketDecodeError::ByteArrayTooLong { .. })
    ));
}

#[test]
fn given_a_truncated_handshake_when_decoded_then_it_errors_instead_of_panicking() {
    let mut buffer = Vec::new();
    write_var_int(&mut buffer, 766);
    write_string(&mut buffer, "host");

    let (packet, _) = decode(Some(PacketKind::Handshake), ProtocolVersion::MIN, buffer);

    assert!(packet.is_err());
}

#[test]
fn given_a_decoded_handshake_from_the_wire_when_run_through_the_flow_then_it_agrees() {
    let mut buffer = Vec::new();
    write_var_int(&mut buffer, ProtocolVersion::V1_21_5.number());
    write_string(&mut buffer, "limbo.example.com");
    buffer.put_u16(25565);
    write_var_int(&mut buffer, 2);

    let (decoded, _) = decode(Some(PacketKind::Handshake), ProtocolVersion::MIN, buffer);
    let Ok(Some(packet)) = decoded else {
        panic!("handshake must decode");
    };

    let mut flow = ConnectionFlow::new(ServerPolicy::new(ForwardingMode::Direct, 100));
    flow.handle(packet, 0);

    assert_eq!(flow.version(), ProtocolVersion::V1_21_5);
    assert_eq!(flow.state(), ConnectionState::Login);
}

#[test]
fn a_login_start_from_1_19_1_reads_the_uuid_behind_its_flag() {
    let mut buffer = Vec::new();
    write_string(&mut buffer, "Alex");
    buffer.put_u8(0); // no key
    buffer.put_u8(1); // a uuid follows
    buffer.put_u128(7);
    let (packet, reader) = decode(Some(PacketKind::LoginStart), ProtocolVersion::V1_19_1, buffer);
    assert_eq!(
        packet,
        Ok(Some(ServerBoundPacket::LoginStart(LoginStart {
            username: "Alex".to_owned(),
            uuid: Some(7),
        })))
    );
    assert!(!reader.has_remaining());
}

#[test]
fn a_username_longer_than_sixteen_characters_is_refused() {
    let mut buffer = Vec::new();
    write_string(&mut buffer, "seventeen_letters");
    let (packet, _) = decode(Some(PacketKind::LoginStart), ProtocolVersion::V1_8, buffer);
    assert_eq!(
        packet,
        Err(PacketDecodeError::StringTooLong { actual: 17, limit: 16 })
    );
}

#[test]
fn plugin_payloads_are_kept_whole_and_capped() {
    let mut buffer = Vec::new();
    write_string(&mut buffer, "minecraft:brand");
    buffer.put_slice(b"vanilla");
    let (packet, reader) = decode(Some(PacketKind::PluginMessage), ProtocolVersion::V1_21, buffer);
    match packet {
        Ok(Some(ServerBoundPacket::PluginMessage(message))) => {
            assert_eq!(message.channel, "minecraft:brand");
            assert_eq!(message.data, b"vanilla".to_vec());
        }
        other => panic!("unexpected {other:?}"),
    }
    assert_eq!(reader.remaining(), 0);

    let mut oversized = Vec::new();
    write_var_int(&mut oversized, 3);
    oversized.put_u8(1);
    oversized.put_slice(&vec![0u8; 40000]);
    assert_eq!(
        decode(Some(PacketKind::LoginPluginResponse), ProtocolVersion::V1_21, oversized).0,
        Err(PacketDecodeError::ByteArrayTooLong { actual: 40000, limit: 32767 })
    );
}

#[test]
fn var_ints_are_read_in_seven_bit_groups_and_cut_off_after_five_bytes() {
    let mut reader = ByteReader::new(vec![0xFF, 0xFF, 0xFF, 0xFF, 0x0F]);
    assert_eq!(reader.read_var_int(), Ok(-1));
    let mut reader = ByteReader::new(vec![0xDD, 0xC7, 0x01]);
    assert_eq!(reader.read_var_int(), Ok(25565));
    let mut reader = ByteReader::new(vec![0x80, 0x80, 0x80, 0x80, 0x80, 0x01]);
    assert_eq!(reader.read_var_int(), Err(PacketDecodeError::VarIntTooLong));
    let mut reader = ByteReader::new(vec![0x80]);
    assert_eq!(reader.read_var_int(), Err(PacketDecodeError::UnexpectedEnd));
}

#[test]
fn a_known_packs_list_within_bounds_is_consumed_and_status_packets_need_no_bytes() {
    let mut buffer = Vec::new();
    write_var_int(&mut buffer, 1);
    write_string(&mut buffer, "minecraft");
    write_string(&mut buffer, "core");
    write_string(&mut buffer, "1.21");
    let (packet, reader) = decode(Some(PacketKind::KnownPacks), ProtocolVersion::V1_21, buffer);
    assert_eq!(packet, Ok(Some(ServerBoundPacket::KnownPacks)));
    assert!(!reader.has_remaining());
    assert_eq!(
        decode(Some(PacketKind::StatusRequest), ProtocolVersion::V1_21, Vec::new()).0,
        Ok(Some(ServerBoundPacket::StatusRequest))
    );
    let mut ping = Vec::new();
    ping.put_i64(-5);
    assert_eq!(
        decode(Some(PacketKind::StatusPing), ProtocolVersion::V1_21, ping).0,
        Ok(Some(ServerBoundPacket::StatusPing { payload: -5 }))
    );
    let mut negative = Vec::new();
    write_var_int(&mut negative, -3);
    assert_eq!(
        decode(Some(PacketKind::KnownPacks), ProtocolVersion::V1_21, negative).0,
        Err(PacketDecodeError::ByteArrayTooLong { actual: 3, limit: 16 })
    );
}

#[test]
fn given_a_negative_length_prefix_when_a_string_is_read_then_it_is_refused() {
    let mut buffer = Vec::new();
    write_var_int(&mut buffer, -3);
    buffer.put_slice(b"abc");
    let mut reader = ByteReader::new(buffer);

    assert_eq!(
        reader.read_string(16),
        Err(PacketDecodeError::NegativeLength { length: -3 })
    );
}

#[test]
fn given_bytes_that_are_not_utf8_when_a_string_is_read_then_it_is_refused() {
    let mut buffer = Vec::new();
    write_var_int(&mut buffer, 2);
    buffer.put_slice(&[0xC3, 0x28]);
    let mut reader = ByteReader::new(buffer);

    assert_eq!(reader.read_string(16), Err(PacketDecodeError::InvalidUtf8));
}

#[test]
fn a_decode_error_reports_itself_in_words() {
    assert_eq!(PacketDecodeError::NegativeLength { length: -12 }.message(), "negative length -12");
    assert_eq!(
        PacketDecodeError::StringTooLong { actual: 300, limit: 64 }.message(),
        "a string of length 300 exceeds its limit of 64"
    );
    assert_eq!(PacketDecodeError::UnexpectedEnd.message(), "the frame ended before the value did");
}
