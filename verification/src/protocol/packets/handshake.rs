//! The handshake that opens every connection.

use vstd::prelude::*;

use crate::protocol::error::ProtocolError;
use crate::protocol::packet::ServerPacket;
use crate::protocol::varint::{spec_read_string, spec_read_u16, spec_read_varint, PacketReader};
use crate::protocol::version::ProtocolVersion;
use crate::protocol::ConnectionState;

verus! {

/// The handshake: the client's protocol number, the address and port it
/// dialled, and the state it asks for next (status or login).
#[derive(Debug, Clone)]
pub struct SHandshake {
    pub protocol_version: i32,
    pub server_address: String,
    pub server_port: u16,
    pub next_state: ConnectionState,
}

/// A handshake with its address taken by its characters.
pub struct HandshakeView {
    pub protocol_version: i32,
    pub server_address: Seq<char>,
    pub server_port: u16,
    pub next_state: ConnectionState,
}

impl View for SHandshake {
    type V = HandshakeView;

    open spec fn view(&self) -> HandshakeView {
        HandshakeView {
            protocol_version: self.protocol_version,
            server_address: self.server_address@,
            server_port: self.server_port,
            next_state: self.next_state,
        }
    }
}

/// The state that a handshake's next-state number asks for: `1` is status,
/// `2` is login, and anything else is refused.
pub open spec fn next_state_of(n: i32) -> Option<ConnectionState> {
    if n == 1 {
        Some(ConnectionState::Status)
    } else if n == 2 {
        Some(ConnectionState::Login)
    } else {
        None
    }
}

impl ServerPacket for SHandshake {
    /// A VarInt protocol number, a string address, a big-endian `u16` port and
    /// a VarInt next state, read in this order; the first failure is returned.
    open spec fn spec_read(data: Seq<u8>, pos: nat) -> (Result<HandshakeView, ProtocolError>, nat) {
        let (a, p1) = spec_read_varint(data, pos);
        match a {
            Err(e) => (Err(e), p1),
            Ok(protocol_version) => {
                let (b, p2) = spec_read_string(data, p1);
                match b {
                    Err(e) => (Err(e), p2),
                    Ok(server_address) => {
                        let (c, p3) = spec_read_u16(data, p2);
                        match c {
                            Err(e) => (Err(e), p3),
                            Ok(server_port) => {
                                let (d, p4) = spec_read_varint(data, p3);
                                match d {
                                    Err(e) => (Err(e), p4),
                                    Ok(n) => match next_state_of(n) {
                                        Some(next_state) => (
                                            Ok(
                                                HandshakeView {
                                                    protocol_version,
                                                    server_address,
                                                    server_port,
                                                    next_state,
                                                },
                                            ),
                                            p4,
                                        ),
                                        None => (Err(ProtocolError::Decode("invalid next state")), p4),
                                    },
                                }
                            },
                        }
                    },
                }
            },
        }
    }

    open spec fn spec_packet_id() -> i32 {
        0x00
    }

    fn packet_id(_version: ProtocolVersion) -> (id: i32) {
        0x00
    }

    fn read(buf: &mut PacketReader, _version: ProtocolVersion) -> (r: Result<Self, ProtocolError>) {
        let protocol_version = buf.read_varint()?;
        let server_address = buf.read_string()?.to_string();
        let server_port = buf.read_u16_be()?;
        let next_state = match buf.read_varint()? {
            1 => ConnectionState::Status,
            2 => ConnectionState::Login,
            _ => {
                return Err(ProtocolError::Decode("invalid next state"));
            },
        };

        Ok(Self { protocol_version, server_address, server_port, next_state })
    }
}

} // verus!
