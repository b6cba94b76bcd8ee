//! What every packet type offers.

use vstd::prelude::*;

use crate::protocol::error::ProtocolError;
use crate::protocol::varint::{view_result, varint_of, PacketReader, PacketWriter};
use crate::protocol::version::ProtocolVersion;

verus! {

/// A packet that a client sends to the server.
pub trait ServerPacket: Sized + View {
    /// What reading this packet from `data` at `pos` gives, with the position
    /// that the reader is left at.
    spec fn spec_read(data: Seq<u8>, pos: nat) -> (Result<Self::V, ProtocolError>, nat);

    /// The id of this packet.
    spec fn spec_packet_id() -> i32;

    fn read(buf: &mut PacketReader, version: ProtocolVersion) -> (r: Result<Self, ProtocolError>)
        ensures
            final(buf).data() == old(buf).data(),
            (view_result(r), final(buf).pos()) == Self::spec_read(old(buf).data(), old(buf).pos()),
    ;

    fn packet_id(version: ProtocolVersion) -> (id: i32)
        ensures
            id == Self::spec_packet_id(),
    ;
}

/// A packet that the server sends to a client.
pub trait ClientPacket: Sized + View {
    /// What reading this packet from `data` at `pos` gives, with the position
    /// that the reader is left at.
    spec fn spec_read(data: Seq<u8>, pos: nat) -> (Result<Self::V, ProtocolError>, nat);

    /// The id of this packet.
    spec fn spec_packet_id() -> i32;

    /// The bytes that `write` appends for a packet with this view.
    spec fn spec_body(v: Self::V) -> Seq<u8>;

    fn read(buf: &mut PacketReader, version: ProtocolVersion) -> (r: Result<Self, ProtocolError>)
        ensures
            final(buf).data() == old(buf).data(),
            (view_result(r), final(buf).pos()) == Self::spec_read(old(buf).data(), old(buf).pos()),
    ;

    fn write(&self, buf: &mut PacketWriter, version: ProtocolVersion)
        ensures
            final(buf)@ == old(buf)@ + Self::spec_body(self@),
    ;

    fn packet_id(version: ProtocolVersion) -> (id: i32)
        ensures
            id == Self::spec_packet_id(),
    ;

    /// The packet's id as a VarInt followed by its body.
    fn encode(&self, version: ProtocolVersion) -> (r: Result<Vec<u8>, ProtocolError>)
        ensures
            r matches Ok(bytes) && bytes@ == varint_of(Self::spec_packet_id()) + Self::spec_body(
                self@,
            ),
    {
        let mut writer = PacketWriter::new();
        writer.write_varint(Self::packet_id(version));
        self.write(&mut writer, version);
        Ok(writer.finish())
    }
}

} // verus!
