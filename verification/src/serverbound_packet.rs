use vstd::prelude::*;

use crate::byte_reader::{lemma_fixed_bound, lemma_power256_values, ByteReader, PacketDecodeError};
use crate::handshake::Handshake;
use crate::packet_decode::{
    keep_alive_at, known_packs_skipped, packet_at, packet_model, strings_skipped, PacketModel,
    MAX_KNOWN_PACKS, MAX_KNOWN_PACK_FIELD_LENGTH,
};
use crate::version::ProtocolVersion;
use crate::login_plugin_response::LoginPluginResponse;
use crate::login_start::LoginStart;
use crate::plugin_message::PluginMessage;

verus! {

/// The packets the server acts on, as a connection's phase and version name them.
#[derive(Debug, Clone, Copy, PartialEq, Eq, Structural)]
pub enum PacketKind {
    Handshake,
    StatusRequest,
    StatusPing,
    LoginStart,
    LoginPluginResponse,
    LoginAcknowledged,
    PluginMessage,
    FinishConfiguration,
    KnownPacks,
    KeepAlive,
}

/// Everything the server understands from a client.
///
/// A limbo server reads ten packets out of the hundred-odd the protocol defines. The rest
/// are recognised by id and dropped, which is why decoding returns an `Option` rather than
/// failing on an id it has no use for.
#[derive(Debug, Clone, PartialEq, Eq)]
pub enum ServerBoundPacket {
    Handshake(Handshake),
    StatusRequest,
    StatusPing { payload: i64 },
    LoginStart(LoginStart),
    LoginPluginResponse(LoginPluginResponse),
    LoginAcknowledged,
    PluginMessage(PluginMessage),
    FinishConfiguration,
    KnownPacks,
    KeepAlive { id: i64 },
}

/// Consumes a known-packs list without keeping it.
///
/// The server answers the same way regardless of what the client already has, but the
/// list still has to be validated: an unbounded count here would be a client telling the
/// server how much work to do.
fn skip_known_packs(buffer: &mut ByteReader) -> (skipped: Result<(), PacketDecodeError>)
    ensures
        final(buffer)@.0 == old(buffer)@.0,
        match known_packs_skipped(old(buffer)@.0, old(buffer)@.1) {
            Ok(after) => skipped is Ok && final(buffer)@.1 == after,
            Err(error) => skipped == Err::<(), PacketDecodeError>(error),
        },
{
    let count = match buffer.read_var_int() {
        Ok(value) => value,
        Err(error) => return Err(error),
    };
    if count < 0 || count > MAX_KNOWN_PACKS {
        let magnitude: usize = if count < 0 {
            (-(count as i64)) as usize
        } else {
            count as usize
        };
        return Err(
            PacketDecodeError::ByteArrayTooLong { actual: magnitude, limit: MAX_KNOWN_PACKS as usize },
        );
    }
    let total: i32 = 3 * count;
    let mut left: i32 = total;
    while left > 0
        invariant
            0 <= left <= total,
            buffer@.0 == old(buffer)@.0,
            strings_skipped(buffer@.0, buffer@.1, left as int) == known_packs_skipped(
                old(buffer)@.0,
                old(buffer)@.1,
            ),
        decreases left,
    {
        if let Err(error) = buffer.read_string(MAX_KNOWN_PACK_FIELD_LENGTH) {
            return Err(error);
        }
        left -= 1;
    }
    Ok(())
}

/// Reads a keep-alive token, which changed width twice.
fn read_keep_alive(buffer: &mut ByteReader, version: ProtocolVersion) -> (id: Result<
    i64,
    PacketDecodeError,
>)
    ensures
        final(buffer)@.0 == old(buffer)@.0,
        match keep_alive_at(old(buffer)@.0, old(buffer)@.1, version) {
            Ok((expected, after)) => id == Ok::<i64, PacketDecodeError>(expected) && final(buffer)@.1
                == after,
            Err(error) => id == Err::<i64, PacketDecodeError>(error),
        },
{
    proof {
        lemma_fixed_bound(old(buffer)@.0, old(buffer)@.1, 4);
        lemma_power256_values();
    }
    if version.at_least(ProtocolVersion::V1_12_2) {
        buffer.read_i64()
    } else if version.at_least(ProtocolVersion::V1_8) {
        match buffer.read_var_int() {
            Ok(value) => Ok(value as i64),
            Err(error) => Err(error),
        }
    } else {
        match buffer.read_i32() {
            Ok(value) => Ok(value as i64),
            Err(error) => Err(error),
        }
    }
}

impl ServerBoundPacket {
    /// Decodes a packet of the kind its connection's phase, version and id name.
    ///
    /// `kind` is `None` for an id the server does not act on, and so is the result: the
    /// caller drops the frame and carries on. `Err` means the bytes were malformed, which
    /// ends the connection.
    pub fn decode(
        kind: Option<PacketKind>,
        version: ProtocolVersion,
        buffer: &mut ByteReader,
    ) -> (decoded: Result<Option<ServerBoundPacket>, PacketDecodeError>)
        ensures
            final(buffer)@.0 == old(buffer)@.0,
            match packet_at(kind, version, old(buffer)@.0, old(buffer)@.1) {
                Ok((Some(model), after)) => decoded matches Ok(Some(packet)) && packet_model(packet)
                    == model && final(buffer)@.1 == after,
                Ok((None, after)) => decoded matches Ok(None) && final(buffer)@.1 == after,
                Err(error) => decoded == Err::<Option<ServerBoundPacket>, PacketDecodeError>(
                    error,
                ),
            },
    {
        let kind = match kind {
            Some(kind) => kind,
            None => return Ok(None),
        };
        let packet = match kind {
            PacketKind::Handshake => match Handshake::decode(buffer) {
                Ok(handshake) => ServerBoundPacket::Handshake(handshake),
                Err(error) => return Err(error),
            },
            PacketKind::StatusRequest => ServerBoundPacket::StatusRequest,
            PacketKind::StatusPing => match buffer.read_i64() {
                Ok(payload) => ServerBoundPacket::StatusPing { payload },
                Err(error) => return Err(error),
            },
            PacketKind::LoginStart => match LoginStart::decode(buffer, version) {
                Ok(login) => ServerBoundPacket::LoginStart(login),
                Err(error) => return Err(error),
            },
            PacketKind::LoginPluginResponse => match LoginPluginResponse::decode(buffer) {
                Ok(response) => ServerBoundPacket::LoginPluginResponse(response),
                Err(error) => return Err(error),
            },
            PacketKind::LoginAcknowledged => ServerBoundPacket::LoginAcknowledged,
            PacketKind::PluginMessage => match PluginMessage::decode(buffer) {
                Ok(message) => ServerBoundPacket::PluginMessage(message),
                Err(error) => return Err(error),
            },
            PacketKind::FinishConfiguration => ServerBoundPacket::FinishConfiguration,
            PacketKind::KnownPacks => match skip_known_packs(buffer) {
                Ok(()) => ServerBoundPacket::KnownPacks,
                Err(error) => return Err(error),
            },
            PacketKind::KeepAlive => match read_keep_alive(buffer, version) {
                Ok(id) => ServerBoundPacket::KeepAlive { id },
                Err(error) => return Err(error),
            },
        };
        Ok(Some(packet))
    }
}

} // verus!
