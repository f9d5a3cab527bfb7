//! Throws malformed and adversarial bytes at every decoder.
//!
//! These tests assert only that nothing panics and nothing hangs: what a decoder returns
//! for nonsense is covered by the targeted tests beside each decoder. Which decoder a
//! frame reaches is decided by the packet kind its id maps to, so every kind, and no kind
//! at all, stands in for the ids a client can send.

use limbo::byte_reader::ByteReader;
use limbo::serverbound_packet::{PacketKind, ServerBoundPacket};
use limbo::version::ProtocolVersion;

const KINDS: [Option<PacketKind>; 11] = [
    None,
    Some(PacketKind::Handshake),
    Some(PacketKind::StatusRequest),
    Some(PacketKind::StatusPing),
    Some(PacketKind::LoginStart),
    Some(PacketKind::LoginPluginResponse),
    Some(PacketKind::LoginAcknowledged),
    Some(PacketKind::PluginMessage),
    Some(PacketKind::FinishConfiguration),
    Some(PacketKind::KnownPacks),
    Some(PacketKind::KeepAlive),
];

const VERSIONS: [ProtocolVersion; 7] = [
    ProtocolVersion::V1_7_2,
    ProtocolVersion::V1_8,
    ProtocolVersion::V1_16_4,
    ProtocolVersion::V1_19_1,
    ProtocolVersion::V1_20_2,
    ProtocolVersion::V1_20_5,
    ProtocolVersion::V26_2,
];

/// Xorshift, so a failure is reproducible from its seed alone and no dependency is needed.
struct Noise {
    state: u64,
}

impl Noise {
    fn seeded(seed: u64) -> Self {
        Self { state: seed | 1 }
    }

    fn next_byte(&mut self) -> u8 {
        self.state ^= self.state << 13;
        self.state ^= self.state >> 7;
        self.state ^= self.state << 17;
        (self.state >> 24) as u8
    }

    fn bytes(&mut self, length: usize) -> Vec<u8> {
        (0..length).map(|_| self.next_byte()).collect()
    }
}

#[test]
fn given_random_bytes_on_any_route_when_decoded_then_nothing_panics() {
    let mut noise = Noise::seeded(0x5EED_1234_ABCD_0001);
    let mut reached_a_decoder = 0;

    for version in VERSIONS {
        for kind in KINDS {
            for length in [0, 1, 2, 3, 7, 16, 64, 300, 5000] {
                let mut reader = ByteReader::new(noise.bytes(length));
                match ServerBoundPacket::decode(kind, version, &mut reader) {
                    Ok(None) => {}
                    Ok(Some(_)) | Err(_) => reached_a_decoder += 1,
                }
            }
        }
    }

    assert!(
        reached_a_decoder > 400,
        "only {reached_a_decoder} inputs reached a decoder"
    );
}

#[test]
fn given_a_truncation_of_a_valid_packet_when_decoded_then_nothing_panics() {
    let mut noise = Noise::seeded(0xC0FF_EE00_1111_2222);

    for version in VERSIONS {
        for kind in KINDS {
            let frame = noise.bytes(64);
            for cut in 0..frame.len() {
                let mut reader = ByteReader::new(frame[..cut].to_vec());
                let _ = ServerBoundPacket::decode(kind, version, &mut reader);
            }
        }
    }
}

#[test]
fn given_lengths_that_claim_far_more_than_arrives_when_decoded_then_nothing_is_allocated() {
    let claims: [&[u8]; 5] = [
        &[0xF7, 0xFF, 0xFF, 0xFF, 0x0F],
        &[0xFF, 0xFF, 0xFF, 0xFF, 0x07],
        &[0x80, 0x80, 0x80, 0x80, 0x08],
        &[0xFF, 0xFF, 0x7F],
        &[0x7F],
    ];

    for version in VERSIONS {
        for kind in KINDS {
            for claim in claims {
                let mut reader = ByteReader::new(claim.to_vec());
                let _ = ServerBoundPacket::decode(kind, version, &mut reader);
            }
        }
    }
}
