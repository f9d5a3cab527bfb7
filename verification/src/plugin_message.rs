use vstd::prelude::*;

use crate::byte_reader::{ByteReader, PacketDecodeError};
use crate::packet_decode::{plugin_message_at, PacketModel, MAX_CHANNEL_LENGTH, MAX_PAYLOAD_LENGTH};

verus! {

/// A message on a named channel. The server reads none of them, but must consume them
/// without losing frame alignment.
#[derive(Debug, Clone, PartialEq, Eq)]
pub struct PluginMessage {
    pub channel: String,
    pub data: Vec<u8>,
}

impl PluginMessage {
    pub fn decode(buffer: &mut ByteReader) -> (decoded: Result<PluginMessage, PacketDecodeError>)
        ensures
            final(buffer)@.0 == old(buffer)@.0,
            match plugin_message_at(old(buffer)@.0, old(buffer)@.1) {
                Ok((model, after)) => decoded matches Ok(message) && model
                    == PacketModel::PluginMessage(message.channel@, message.data@) && final(buffer)@.1
                    == after,
                Err(error) => decoded == Err::<PluginMessage, PacketDecodeError>(error),
            },
    {
        let channel = match buffer.read_string(MAX_CHANNEL_LENGTH) {
            Ok(value) => value,
            Err(error) => return Err(error),
        };
        let remaining = buffer.remaining();
        if remaining > MAX_PAYLOAD_LENGTH {
            return Err(
                PacketDecodeError::ByteArrayTooLong { actual: remaining, limit: MAX_PAYLOAD_LENGTH },
            );
        }
        let data = buffer.read_rest();
        Ok(PluginMessage { channel, data })
    }
}

} // verus!
