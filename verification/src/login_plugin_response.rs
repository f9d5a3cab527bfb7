use vstd::prelude::*;

use crate::byte_reader::{ByteReader, PacketDecodeError};
use crate::packet_decode::{login_plugin_response_at, PacketModel, MAX_PAYLOAD_LENGTH};

verus! {

/// A client's answer to a login plugin request. Velocity's forwarded player data
/// arrives this way.
#[derive(Debug, Clone, PartialEq, Eq)]
pub struct LoginPluginResponse {
    pub message_id: i32,
    /// False when the client did not understand the channel, in which case there is no
    /// data and forwarding cannot proceed.
    pub successful: bool,
    pub data: Vec<u8>,
}

impl LoginPluginResponse {
    pub fn decode(buffer: &mut ByteReader) -> (decoded: Result<LoginPluginResponse, PacketDecodeError>)
        ensures
            final(buffer)@.0 == old(buffer)@.0,
            match login_plugin_response_at(old(buffer)@.0, old(buffer)@.1) {
                Ok((model, after)) => decoded matches Ok(response) && model
                    == PacketModel::LoginPluginResponse(
                    response.message_id,
                    response.successful,
                    response.data@,
                ) && final(buffer)@.1 == after,
                Err(error) => decoded == Err::<LoginPluginResponse, PacketDecodeError>(error),
            },
    {
        let message_id = match buffer.read_var_int() {
            Ok(value) => value,
            Err(error) => return Err(error),
        };
        let successful = match buffer.read_bool() {
            Ok(value) => value,
            Err(error) => return Err(error),
        };
        let remaining = buffer.remaining();
        if remaining > MAX_PAYLOAD_LENGTH {
            return Err(
                PacketDecodeError::ByteArrayTooLong { actual: remaining, limit: MAX_PAYLOAD_LENGTH },
            );
        }
        let data = buffer.read_rest();
        Ok(LoginPluginResponse { message_id, successful, data })
    }
}

} // verus!
