use vstd::prelude::*;

use crate::byte_reader::{ByteReader, PacketDecodeError};
use crate::packet_decode::{
    login_start_at, login_uuid_at, public_key_skipped, sends_public_key, PacketModel,
    MAX_KEY_SIGNATURE_LENGTH, MAX_PUBLIC_KEY_LENGTH, MAX_USERNAME_LENGTH,
};
use crate::version::ProtocolVersion;

verus! {

/// The client asking to join, naming itself.
#[derive(Debug, Clone, PartialEq, Eq)]
pub struct LoginStart {
    pub username: String,
    /// Present from 1.19.1, as its 128-bit value. The server does not trust it: an
    /// offline-mode identity is derived from the username instead, and a proxy overrides
    /// both.
    pub uuid: Option<u128>,
}

impl LoginStart {
    /// Reads and discards the chat-signing key 1.19 and 1.19.1 clients send.
    ///
    /// A limbo server verifies no chat, but the bytes still have to be consumed or every
    /// field after them is misread.
    fn skip_public_key(buffer: &mut ByteReader) -> (skipped: Result<(), PacketDecodeError>)
        ensures
            final(buffer)@.0 == old(buffer)@.0,
            match public_key_skipped(old(buffer)@.0, old(buffer)@.1) {
                Ok(after) => skipped is Ok && final(buffer)@.1 == after,
                Err(error) => skipped == Err::<(), PacketDecodeError>(error),
            },
    {
        match buffer.read_bool() {
            Ok(false) => return Ok(()),
            Ok(true) => {},
            Err(error) => return Err(error),
        }
        if let Err(error) = buffer.read_i64() {
            return Err(error);
        }
        if let Err(error) = buffer.read_byte_array(MAX_PUBLIC_KEY_LENGTH) {
            return Err(error);
        }
        if let Err(error) = buffer.read_byte_array(MAX_KEY_SIGNATURE_LENGTH) {
            return Err(error);
        }
        Ok(())
    }

    fn read_uuid_field(buffer: &mut ByteReader, version: ProtocolVersion) -> (uuid: Result<
        Option<u128>,
        PacketDecodeError,
    >)
        ensures
            final(buffer)@.0 == old(buffer)@.0,
            match login_uuid_at(old(buffer)@.0, old(buffer)@.1, version) {
                Ok((expected, after)) => uuid == Ok::<Option<u128>, PacketDecodeError>(expected)
                    && final(buffer)@.1 == after,
                Err(error) => uuid == Err::<Option<u128>, PacketDecodeError>(error),
            },
    {
        if version.older_than(ProtocolVersion::V1_19_1) {
            return Ok(None);
        }
        // From 1.20.2 the field is unconditional; before that a flag precedes it.
        if !version.at_least(ProtocolVersion::V1_20_2) {
            match buffer.read_bool() {
                Ok(false) => return Ok(None),
                Ok(true) => {},
                Err(error) => return Err(error),
            }
        }
        match buffer.read_uuid() {
            Ok(value) => Ok(Some(value)),
            Err(error) => Err(error),
        }
    }

    pub fn decode(buffer: &mut ByteReader, version: ProtocolVersion) -> (decoded: Result<
        LoginStart,
        PacketDecodeError,
    >)
        ensures
            final(buffer)@.0 == old(buffer)@.0,
            match login_start_at(old(buffer)@.0, old(buffer)@.1, version) {
                Ok((model, after)) => decoded matches Ok(login) && model == PacketModel::LoginStart(
                    login.username@,
                    login.uuid,
                ) && final(buffer)@.1 == after,
                Err(error) => decoded == Err::<LoginStart, PacketDecodeError>(error),
            },
    {
        let username = match buffer.read_string(MAX_USERNAME_LENGTH) {
            Ok(value) => value,
            Err(error) => return Err(error),
        };
        if version.at_least(ProtocolVersion::V1_19) && ProtocolVersion::V1_19_1.at_least(version) {
            if let Err(error) = LoginStart::skip_public_key(buffer) {
                return Err(error);
            }
        }
        let uuid = match LoginStart::read_uuid_field(buffer, version) {
            Ok(value) => value,
            Err(error) => return Err(error),
        };
        Ok(LoginStart { username, uuid })
    }
}

} // verus!
