//! The status exchange: request, response, ping and pong.

use vstd::prelude::*;

use crate::protocol::error::ProtocolError;
use crate::protocol::packet::{ClientPacket, ServerPacket};
use crate::protocol::varint::{
    be_bytes, lemma_read_written_i64, lemma_read_written_string, spec_read_i64, spec_read_string,
    string_field, PacketReader, PacketWriter, MAX_STRING_LEN,
};
use crate::protocol::version::ProtocolVersion;
use vstd::utf8::encode_utf8;

verus! {

/// A client's request for the server status; it has no fields.
#[derive(Debug, Clone, Copy)]
pub struct SRequest;

impl View for SRequest {
    type V = SRequest;

    open spec fn view(&self) -> SRequest {
        *self
    }
}

impl ServerPacket for SRequest {
    /// Reads nothing.
    open spec fn spec_read(data: Seq<u8>, pos: nat) -> (Result<SRequest, ProtocolError>, nat) {
        (Ok(SRequest), pos)
    }

    open spec fn spec_packet_id() -> i32 {
        0x00
    }

    fn packet_id(_version: ProtocolVersion) -> (id: i32) {
        0x00
    }

    fn read(_buf: &mut PacketReader, _version: ProtocolVersion) -> (r: Result<Self, ProtocolError>) {
        Ok(Self)
    }
}

/// The server status, as a JSON document.
#[derive(Debug, Clone)]
pub struct CResponse {
    pub json: String,
}

impl View for CResponse {
    type V = Seq<char>;

    open spec fn view(&self) -> Seq<char> {
        self.json@
    }
}

impl ClientPacket for CResponse {
    /// One string field, the JSON text.
    open spec fn spec_read(data: Seq<u8>, pos: nat) -> (Result<Seq<char>, ProtocolError>, nat) {
        spec_read_string(data, pos)
    }

    open spec fn spec_packet_id() -> i32 {
        0x00
    }

    open spec fn spec_body(v: Seq<char>) -> Seq<u8> {
        string_field(v)
    }

    fn packet_id(_version: ProtocolVersion) -> (id: i32) {
        0x00
    }

    fn read(buf: &mut PacketReader, _version: ProtocolVersion) -> (r: Result<Self, ProtocolError>) {
        let json = buf.read_string()?.to_string();
        Ok(Self { json })
    }

    fn write(&self, buf: &mut PacketWriter, _version: ProtocolVersion) {
        buf.write_string(self.json.as_str());
    }
}

/// A client's ping, carrying a time stamp to be echoed.
#[derive(Debug, Clone, Copy)]
pub struct SPing {
    pub time: i64,
}

impl View for SPing {
    type V = SPing;

    open spec fn view(&self) -> SPing {
        *self
    }
}

impl ServerPacket for SPing {
    /// One big-endian `i64`, the time stamp.
    open spec fn spec_read(data: Seq<u8>, pos: nat) -> (Result<SPing, ProtocolError>, nat) {
        let (t, p) = spec_read_i64(data, pos);
        match t {
            Ok(time) => (Ok(SPing { time }), p),
            Err(e) => (Err(e), p),
        }
    }

    open spec fn spec_packet_id() -> i32 {
        0x01
    }

    fn packet_id(_version: ProtocolVersion) -> (id: i32) {
        0x01
    }

    fn read(buf: &mut PacketReader, _version: ProtocolVersion) -> (r: Result<Self, ProtocolError>) {
        let time = buf.read_i64_be()?;
        Ok(Self { time })
    }
}

/// The server's answer to a ping, echoing its time stamp.
#[derive(Debug, Clone, Copy)]
pub struct CPong {
    pub time: i64,
}

impl View for CPong {
    type V = CPong;

    open spec fn view(&self) -> CPong {
        *self
    }
}

impl ClientPacket for CPong {
    /// One big-endian `i64`, the time stamp.
    open spec fn spec_read(data: Seq<u8>, pos: nat) -> (Result<CPong, ProtocolError>, nat) {
        let (t, p) = spec_read_i64(data, pos);
        match t {
            Ok(time) => (Ok(CPong { time }), p),
            Err(e) => (Err(e), p),
        }
    }

    open spec fn spec_packet_id() -> i32 {
        0x01
    }

    open spec fn spec_body(v: CPong) -> Seq<u8> {
        be_bytes((v.time as u64) as nat, 8)
    }

    fn packet_id(_version: ProtocolVersion) -> (id: i32) {
        0x01
    }

    fn read(buf: &mut PacketReader, _version: ProtocolVersion) -> (r: Result<Self, ProtocolError>) {
        let time = buf.read_i64_be()?;
        Ok(Self { time })
    }

    fn write(&self, buf: &mut PacketWriter, _version: ProtocolVersion) {
        buf.write_i64_be(self.time);
    }
}

/// A status response that was written is read back, for any JSON text of at
/// most `MAX_STRING_LEN` bytes of UTF-8.
pub proof fn lemma_response_roundtrip(json: Seq<char>, rest: Seq<u8>)
    requires
        encode_utf8(json).len() <= MAX_STRING_LEN,
    ensures
        <CResponse as ClientPacket>::spec_read(<CResponse as ClientPacket>::spec_body(json) + rest, 0)
            == (Ok::<Seq<char>, ProtocolError>(json), string_field(json).len()),
{
    lemma_read_written_string(Seq::empty(), json, rest);
    assert(Seq::<u8>::empty() + string_field(json) + rest =~= string_field(json) + rest);
}

/// A pong that was written is read back.
pub proof fn lemma_pong_roundtrip(p: CPong, rest: Seq<u8>)
    ensures
        <CPong as ClientPacket>::spec_read(<CPong as ClientPacket>::spec_body(p) + rest, 0)
            == (Ok::<CPong, ProtocolError>(p), 8nat),
{
    lemma_read_written_i64(Seq::empty(), p.time, rest);
    assert(Seq::<u8>::empty() + be_bytes((p.time as u64) as nat, 8) + rest =~= be_bytes(
        (p.time as u64) as nat,
        8,
    ) + rest);
}

} // verus!
