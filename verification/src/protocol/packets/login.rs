//! The first packet of the login state.

use vstd::prelude::*;

use crate::protocol::error::ProtocolError;
use crate::protocol::packet::ServerPacket;
use crate::protocol::varint::{spec_read_string, PacketReader};
use crate::protocol::version::ProtocolVersion;

verus! {

/// The start of a login: the player's name.
#[derive(Debug, Clone)]
pub struct SLoginStart {
    pub username: String,
}

impl View for SLoginStart {
    type V = Seq<char>;

    open spec fn view(&self) -> Seq<char> {
        self.username@
    }
}

impl ServerPacket for SLoginStart {
    /// One string field, the user name.
    open spec fn spec_read(data: Seq<u8>, pos: nat) -> (Result<Seq<char>, ProtocolError>, nat) {
        spec_read_string(data, pos)
    }

    open spec fn spec_packet_id() -> i32 {
        0x00
    }

    fn packet_id(_version: ProtocolVersion) -> (id: i32) {
        0x00
    }

    fn read(buf: &mut PacketReader, _version: ProtocolVersion) -> (r: Result<Self, ProtocolError>) {
        let username = buf.read_string()?.to_string();
        Ok(Self { username })
    }
}

} // verus!
