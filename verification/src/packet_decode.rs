use vstd::prelude::*;

use crate::byte_reader::{
    byte_array_at, fixed_at, signed32, signed64, string_at, var_int_at, ByteReader,
    PacketDecodeError,
};
use crate::client_intent::{intent_for_id, ClientIntent};
use crate::handshake::Handshake;
use crate::login_plugin_response::LoginPluginResponse;
use crate::login_start::LoginStart;
use crate::plugin_message::PluginMessage;
use crate::serverbound_packet::{PacketKind, ServerBoundPacket};
use crate::version::{protocol_number_of, ProtocolVersion};

verus! {

/// Longest host a client may claim to have connected to. Proxies pack forwarded player
/// data into this field separated by NUL bytes, so it runs far longer than a hostname.
pub const MAX_HOST_LENGTH: usize = 255;

/// Usernames have been capped at sixteen characters since the beginning.
pub const MAX_USERNAME_LENGTH: usize = 16;

/// Sizes the chat-signing key blob was capped at while it existed.
pub const MAX_PUBLIC_KEY_LENGTH: usize = 512;

pub const MAX_KEY_SIGNATURE_LENGTH: usize = 4096;

/// Channel names are namespaced keys, which the protocol caps well below this.
pub const MAX_CHANNEL_LENGTH: usize = 256;

/// The largest payload the server accepts on a plugin channel or in a login plugin reply.
pub const MAX_PAYLOAD_LENGTH: usize = 32767;

/// A client may advertise at most this many resource packs it already has.
pub const MAX_KNOWN_PACKS: i32 = 16;

/// Namespace, id and version strings inside a known-pack entry.
pub const MAX_KNOWN_PACK_FIELD_LENGTH: usize = 256;

/// The mathematical content of a [`ServerBoundPacket`].
pub enum PacketModel {
    /// Protocol number, host, port and intent.
    Handshake(i32, Seq<char>, u16, Option<ClientIntent>),
    StatusRequest,
    StatusPing(i64),
    /// Username and UUID.
    LoginStart(Seq<char>, Option<u128>),
    /// Message id, whether the client understood, and the data.
    LoginPluginResponse(i32, bool, Seq<u8>),
    LoginAcknowledged,
    /// Channel and data.
    PluginMessage(Seq<char>, Seq<u8>),
    FinishConfiguration,
    KnownPacks,
    KeepAlive(i64),
}

pub open spec fn packet_model(packet: ServerBoundPacket) -> PacketModel {
    match packet {
        ServerBoundPacket::Handshake(h) => PacketModel::Handshake(h.protocol, h.host@, h.port, h.intent),
        ServerBoundPacket::StatusRequest => PacketModel::StatusRequest,
        ServerBoundPacket::StatusPing { payload } => PacketModel::StatusPing(payload),
        ServerBoundPacket::LoginStart(l) => PacketModel::LoginStart(l.username@, l.uuid),
        ServerBoundPacket::LoginPluginResponse(r) => PacketModel::LoginPluginResponse(
            r.message_id,
            r.successful,
            r.data@,
        ),
        ServerBoundPacket::LoginAcknowledged => PacketModel::LoginAcknowledged,
        ServerBoundPacket::PluginMessage(m) => PacketModel::PluginMessage(m.channel@, m.data@),
        ServerBoundPacket::FinishConfiguration => PacketModel::FinishConfiguration,
        ServerBoundPacket::KnownPacks => PacketModel::KnownPacks,
        ServerBoundPacket::KeepAlive { id } => PacketModel::KeepAlive(id),
    }
}

/// A handshake at `at`: protocol number, host, port and intent, and the position after.
pub open spec fn handshake_at(bytes: Seq<u8>, at: int) -> Result<(PacketModel, int), PacketDecodeError> {
    match var_int_at(bytes, at) {
        Err(e) => Err(e),
        Ok((protocol, p1)) => match string_at(bytes, p1, MAX_HOST_LENGTH as int) {
            Err(e) => Err(e),
            Ok((host, p2)) => match fixed_at(bytes, p2, 2) {
                Err(e) => Err(e),
                Ok((port, p3)) => match var_int_at(bytes, p3) {
                    Err(e) => Err(e),
                    Ok((intent, p4)) => Ok(
                        (
                            PacketModel::Handshake(protocol, host, port as u16, intent_for_id(intent as int)),
                            p4,
                        ),
                    ),
                },
            },
        },
    }
}

/// The chat-signing key 1.19 clients may send, stepped over: a flag, then an expiry and
/// two length-prefixed blobs when the flag is set.
pub open spec fn public_key_skipped(bytes: Seq<u8>, at: int) -> Result<int, PacketDecodeError> {
    match fixed_at(bytes, at, 1) {
        Err(e) => Err(e),
        Ok((flag, p1)) => if flag == 0 {
            Ok(p1)
        } else {
            match fixed_at(bytes, p1, 8) {
                Err(e) => Err(e),
                Ok((_, p2)) => match byte_array_at(bytes, p2, MAX_PUBLIC_KEY_LENGTH as int) {
                    Err(e) => Err(e),
                    Ok((_, p3)) => match byte_array_at(bytes, p3, MAX_KEY_SIGNATURE_LENGTH as int) {
                        Err(e) => Err(e),
                        Ok((_, p4)) => Ok(p4),
                    },
                },
            }
        },
    }
}

/// Whether a version sends the chat-signing key in its login start.
pub open spec fn sends_public_key(version: ProtocolVersion) -> bool {
    protocol_number_of(ProtocolVersion::V1_19) <= protocol_number_of(version) <= protocol_number_of(
        ProtocolVersion::V1_19_1,
    )
}

/// The UUID a login start carries: none before 1.19.1, one behind a flag until 1.20.2,
/// and one unconditionally after.
pub open spec fn login_uuid_at(bytes: Seq<u8>, at: int, version: ProtocolVersion) -> Result<
    (Option<u128>, int),
    PacketDecodeError,
> {
    if protocol_number_of(version) < protocol_number_of(ProtocolVersion::V1_19_1) {
        Ok((None, at))
    } else if protocol_number_of(version) >= protocol_number_of(ProtocolVersion::V1_20_2) {
        match fixed_at(bytes, at, 16) {
            Err(e) => Err(e),
            Ok((uuid, p)) => Ok((Some(uuid as u128), p)),
        }
    } else {
        match fixed_at(bytes, at, 1) {
            Err(e) => Err(e),
            Ok((flag, p1)) => if flag == 0 {
                Ok((None, p1))
            } else {
                match fixed_at(bytes, p1, 16) {
                    Err(e) => Err(e),
                    Ok((uuid, p2)) => Ok((Some(uuid as u128), p2)),
                }
            },
        }
    }
}

/// A login start at `at` from a client of `version`.
pub open spec fn login_start_at(bytes: Seq<u8>, at: int, version: ProtocolVersion) -> Result<
    (PacketModel, int),
    PacketDecodeError,
> {
    match string_at(bytes, at, MAX_USERNAME_LENGTH as int) {
        Err(e) => Err(e),
        Ok((username, p1)) => {
            let skipped = if sends_public_key(version) {
                public_key_skipped(bytes, p1)
            } else {
                Ok(p1)
            };
            match skipped {
                Err(e) => Err(e),
                Ok(p2) => match login_uuid_at(bytes, p2, version) {
                    Err(e) => Err(e),
                    Ok((uuid, p3)) => Ok((PacketModel::LoginStart(username, uuid), p3)),
                },
            }
        },
    }
}

/// Everything from `at` to the end, as a payload no longer than the limit.
pub open spec fn payload_at(bytes: Seq<u8>, at: int) -> Result<(Seq<u8>, int), PacketDecodeError> {
    if bytes.len() - at > MAX_PAYLOAD_LENGTH {
        Err(
            PacketDecodeError::ByteArrayTooLong {
                actual: (bytes.len() - at) as usize,
                limit: MAX_PAYLOAD_LENGTH,
            },
        )
    } else {
        Ok((bytes.subrange(at, bytes.len() as int), bytes.len() as int))
    }
}

pub open spec fn plugin_message_at(bytes: Seq<u8>, at: int) -> Result<(PacketModel, int), PacketDecodeError> {
    match string_at(bytes, at, MAX_CHANNEL_LENGTH as int) {
        Err(e) => Err(e),
        Ok((channel, p1)) => match payload_at(bytes, p1) {
            Err(e) => Err(e),
            Ok((data, p2)) => Ok((PacketModel::PluginMessage(channel, data), p2)),
        },
    }
}

pub open spec fn login_plugin_response_at(bytes: Seq<u8>, at: int) -> Result<
    (PacketModel, int),
    PacketDecodeError,
> {
    match var_int_at(bytes, at) {
        Err(e) => Err(e),
        Ok((message_id, p1)) => match fixed_at(bytes, p1, 1) {
            Err(e) => Err(e),
            Ok((flag, p2)) => match payload_at(bytes, p2) {
                Err(e) => Err(e),
                Ok((data, p3)) => Ok(
                    (PacketModel::LoginPluginResponse(message_id, flag != 0, data), p3),
                ),
            },
        },
    }
}

/// `count` strings of a known-pack list stepped over, from `at`.
pub open spec fn strings_skipped(bytes: Seq<u8>, at: int, count: int) -> Result<int, PacketDecodeError>
    decreases count,
{
    if count <= 0 {
        Ok(at)
    } else {
        match string_at(bytes, at, MAX_KNOWN_PACK_FIELD_LENGTH as int) {
            Err(e) => Err(e),
            Ok((_, next)) => strings_skipped(bytes, next, count - 1),
        }
    }
}

/// A known-packs list stepped over: a count of at most sixteen, then three strings each.
pub open spec fn known_packs_skipped(bytes: Seq<u8>, at: int) -> Result<int, PacketDecodeError> {
    match var_int_at(bytes, at) {
        Err(e) => Err(e),
        Ok((count, p1)) => if count < 0 || count > MAX_KNOWN_PACKS {
            Err(
                PacketDecodeError::ByteArrayTooLong {
                    actual: (if count < 0 {
                        -count
                    } else {
                        count as int
                    }) as usize,
                    limit: MAX_KNOWN_PACKS as usize,
                },
            )
        } else {
            strings_skipped(bytes, p1, 3 * count)
        },
    }
}

/// A keep-alive token, whose width changed twice: four bytes, then a VarInt from 1.8,
/// then eight bytes from 1.12.2.
pub open spec fn keep_alive_at(bytes: Seq<u8>, at: int, version: ProtocolVersion) -> Result<
    (i64, int),
    PacketDecodeError,
> {
    if protocol_number_of(version) >= protocol_number_of(ProtocolVersion::V1_12_2) {
        match fixed_at(bytes, at, 8) {
            Err(e) => Err(e),
            Ok((bits, p)) => Ok((signed64(bits as int) as i64, p)),
        }
    } else if protocol_number_of(version) >= protocol_number_of(ProtocolVersion::V1_8) {
        match var_int_at(bytes, at) {
            Err(e) => Err(e),
            Ok((value, p)) => Ok((value as i64, p)),
        }
    } else {
        match fixed_at(bytes, at, 4) {
            Err(e) => Err(e),
            Ok((bits, p)) => Ok((signed32(bits as int) as i64, p)),
        }
    }
}

/// The packet of kind `kind` at `at`, from a client of `version`; `None` for a kind the
/// server does not act on.
pub open spec fn packet_at(
    kind: Option<PacketKind>,
    version: ProtocolVersion,
    bytes: Seq<u8>,
    at: int,
) -> Result<(Option<PacketModel>, int), PacketDecodeError> {
    match kind {
        None => Ok((None, at)),
        Some(PacketKind::Handshake) => match handshake_at(bytes, at) {
            Err(e) => Err(e),
            Ok((packet, p)) => Ok((Some(packet), p)),
        },
        Some(PacketKind::StatusRequest) => Ok((Some(PacketModel::StatusRequest), at)),
        Some(PacketKind::StatusPing) => match fixed_at(bytes, at, 8) {
            Err(e) => Err(e),
            Ok((bits, p)) => Ok((Some(PacketModel::StatusPing(signed64(bits as int) as i64)), p)),
        },
        Some(PacketKind::LoginStart) => match login_start_at(bytes, at, version) {
            Err(e) => Err(e),
            Ok((packet, p)) => Ok((Some(packet), p)),
        },
        Some(PacketKind::LoginPluginResponse) => match login_plugin_response_at(bytes, at) {
            Err(e) => Err(e),
            Ok((packet, p)) => Ok((Some(packet), p)),
        },
        Some(PacketKind::LoginAcknowledged) => Ok((Some(PacketModel::LoginAcknowledged), at)),
        Some(PacketKind::PluginMessage) => match plugin_message_at(bytes, at) {
            Err(e) => Err(e),
            Ok((packet, p)) => Ok((Some(packet), p)),
        },
        Some(PacketKind::FinishConfiguration) => Ok((Some(PacketModel::FinishConfiguration), at)),
        Some(PacketKind::KnownPacks) => match known_packs_skipped(bytes, at) {
            Err(e) => Err(e),
            Ok(p) => Ok((Some(PacketModel::KnownPacks), p)),
        },
        Some(PacketKind::KeepAlive) => match keep_alive_at(bytes, at, version) {
            Err(e) => Err(e),
            Ok((id, p)) => Ok((Some(PacketModel::KeepAlive(id)), p)),
        },
    }
}

/// A frame is dropped, with nothing read from it, exactly when its id names none of the
/// packets the server acts on; a packet of a kind it reads is either decoded or refused.
pub proof fn lemma_only_unknown_kinds_are_dropped(
    kind: Option<PacketKind>,
    version: ProtocolVersion,
    bytes: Seq<u8>,
    at: int,
)
    ensures
        (packet_at(kind, version, bytes, at) matches Ok((None, _))) <==> kind is None,
        kind is None ==> packet_at(kind, version, bytes, at) == Ok::<
            (Option<PacketModel>, int),
            PacketDecodeError,
        >((None, at)),
{
}

/// A login plugin response reports success exactly when the byte after its message id is
/// not zero, and carries that message id.
pub proof fn lemma_plugin_response_success_flag(version: ProtocolVersion, bytes: Seq<u8>, at: int)
    ensures
        packet_at(Some(PacketKind::LoginPluginResponse), version, bytes, at) matches Ok(
            (Some(PacketModel::LoginPluginResponse(message_id, successful, _data)), _after),
        ) ==> var_int_at(bytes, at) matches Ok((id, flag_at)) && message_id == id && 0 <= flag_at
            < bytes.len() && successful == (bytes[flag_at] != 0),
{
    match var_int_at(bytes, at) {
        Ok((id, flag_at)) => {
            if 0 <= flag_at && flag_at + 1 <= bytes.len() {
                let one = bytes.subrange(flag_at, flag_at + 1);
                assert(one.drop_last() =~= Seq::<u8>::empty());
                assert(one.last() == bytes[flag_at]);
                assert(crate::byte_reader::big_endian(one.drop_last()) == 0);
                assert(crate::byte_reader::big_endian(one) == bytes[flag_at] as nat);
            }
        },
        Err(_) => {},
    }
}

} // verus!
