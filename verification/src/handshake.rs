use vstd::prelude::*;

use crate::byte_reader::{ByteReader, PacketDecodeError};
use crate::client_intent::ClientIntent;
use crate::packet_decode::{handshake_at, PacketModel, MAX_HOST_LENGTH};

verus! {

/// The first packet of every connection, naming the protocol version and what follows.
#[derive(Debug, Clone, PartialEq, Eq)]
pub struct Handshake {
    /// Raw protocol number, before checking whether the server supports it. Kept raw so
    /// an unsupported client can be told its own version back.
    pub protocol: i32,
    /// The address the client believes it connected to. Carries forwarded player data
    /// under BungeeCord and BungeeGuard forwarding.
    pub host: String,
    pub port: u16,
    pub intent: Option<ClientIntent>,
}

impl Handshake {
    pub fn decode(buffer: &mut ByteReader) -> (decoded: Result<Handshake, PacketDecodeError>)
        ensures
            final(buffer)@.0 == old(buffer)@.0,
            match handshake_at(old(buffer)@.0, old(buffer)@.1) {
                Ok((model, after)) => decoded matches Ok(handshake) && model == PacketModel::Handshake(
                    handshake.protocol,
                    handshake.host@,
                    handshake.port,
                    handshake.intent,
                ) && final(buffer)@.1 == after,
                Err(error) => decoded == Err::<Handshake, PacketDecodeError>(error),
            },
    {
        let protocol = match buffer.read_var_int() {
            Ok(value) => value,
            Err(error) => return Err(error),
        };
        let host = match buffer.read_string(MAX_HOST_LENGTH) {
            Ok(value) => value,
            Err(error) => return Err(error),
        };
        let port = match buffer.read_u16() {
            Ok(value) => value,
            Err(error) => return Err(error),
        };
        let intent = match buffer.read_var_int() {
            Ok(value) => ClientIntent::from_id(value),
            Err(error) => return Err(error),
        };
        Ok(Handshake { protocol, host, port, intent })
    }
}

} // verus!
