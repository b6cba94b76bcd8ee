//! The decoder of serverbound packets and its connection-state machine.

use vstd::prelude::*;

use crate::protocol::error::ProtocolError;
use crate::protocol::packet::ServerPacket;
use crate::protocol::packets::handshake::{HandshakeView, SHandshake};
use crate::protocol::packets::login::SLoginStart;
use crate::protocol::packets::status::{SPing, SRequest};
use crate::protocol::varint::{
    be_bytes, decode_varint, lemma_be_roundtrip, spec_read_string, spec_read_u16, spec_read_varint, encode_varint, lemma_read_written_i64, lemma_read_written_string,
    lemma_read_written_u16, lemma_read_written_varint, lemma_varint_roundtrip, string_field,
    varint_of, varint_read, view_result, PacketReader, MAX_STRING_LEN,
};
use crate::protocol::packets::handshake::next_state_of;
use vstd::utf8::encode_utf8;
use crate::protocol::version::ProtocolVersion;
use crate::protocol::{ConnectionState, Direction};

verus! {

/// A serverbound packet as the decoder returns it.
#[derive(Debug)]
pub enum DecodedServerPacket {
    Handshake(SHandshake),
    StatusRequest(SRequest),
    StatusPing(SPing),
    LoginStart(SLoginStart),
    /// A packet that the decoder does not read, with the bytes after its id.
    Unknown { id: i32, data: Vec<u8> },
}

/// A decoded packet with its strings and bytes taken by their views.
pub enum DecodedView {
    Handshake(HandshakeView),
    StatusRequest,
    StatusPing(SPing),
    LoginStart(Seq<char>),
    Unknown { id: i32, data: Seq<u8> },
}

impl View for DecodedServerPacket {
    type V = DecodedView;

    open spec fn view(&self) -> DecodedView {
        match self {
            DecodedServerPacket::Handshake(h) => DecodedView::Handshake(h@),
            DecodedServerPacket::StatusRequest(_) => DecodedView::StatusRequest,
            DecodedServerPacket::StatusPing(p) => DecodedView::StatusPing(*p),
            DecodedServerPacket::LoginStart(l) => DecodedView::LoginStart(l@),
            DecodedServerPacket::Unknown { id, data } => DecodedView::Unknown { id: *id, data: data@ },
        }
    }
}

/// The id of a decoded packet: `0x00` for the handshake, the status request
/// and the login start, `0x01` for the ping, and its own id for an unknown one.
pub open spec fn spec_packet_id(p: DecodedView) -> i32 {
    match p {
        DecodedView::Handshake(_) => 0x00,
        DecodedView::StatusRequest => 0x00,
        DecodedView::StatusPing(_) => 0x01,
        DecodedView::LoginStart(_) => 0x00,
        DecodedView::Unknown { id, .. } => id,
    }
}

/// The bytes that `encode` gives: the packet id as a VarInt, followed by the
/// carried bytes for an unknown packet and by nothing for the others.
pub open spec fn spec_encode(p: DecodedView) -> Seq<u8> {
    match p {
        DecodedView::Unknown { id, data } => varint_of(id) + data,
        _ => varint_of(spec_packet_id(p)),
    }
}

impl DecodedServerPacket {
    pub fn packet_id(&self) -> (id: i32)
        ensures
            id == spec_packet_id(self@),
    {
        match self {
            Self::Handshake(_) => 0x00,
            Self::StatusRequest(_) => 0x00,
            Self::StatusPing(_) => 0x01,
            Self::LoginStart(_) => 0x00,
            Self::Unknown { id, .. } => *id,
        }
    }

    pub fn encode(&self, _version: ProtocolVersion) -> (out: Vec<u8>)
        ensures
            out@ == spec_encode(self@),
    {
        match self {
            Self::Unknown { id, data } => {
                let mut out = Vec::new();
                encode_varint(&mut out, *id);
                let mut i: usize = 0;
                while i < data.len()
                    invariant
                        i <= data@.len(),
                        out@ == varint_of(*id) + data@.take(i as int),
                    decreases data@.len() - i,
                {
                    out.push(data[i]);
                    i = i + 1;
                    assert(out@ =~= varint_of(*id) + data@.take(i as int));
                }
                assert(data@.take(i as int) =~= data@);
                out
            },
            _ => {
                let packet_id = self.packet_id();
                let mut out = Vec::new();
                encode_varint(&mut out, packet_id);
                assert(out@ =~= varint_of(packet_id));
                out
            },
        }
    }
}

/// The decoder's state: the connection state and the protocol version.
pub struct DecoderView {
    pub state: ConnectionState,
    pub version: ProtocolVersion,
}

/// Decodes serverbound frames, following the connection from the handshake
/// into the status or login state.
pub struct PacketDecoder {
    state: ConnectionState,
    version: ProtocolVersion,
}

impl View for PacketDecoder {
    type V = DecoderView;

    closed spec fn view(&self) -> DecoderView {
        DecoderView { state: self.state, version: self.version }
    }
}

/// The error for the bytes of a packet that its reader left.
pub open spec fn unconsumed(len: nat, end: nat) -> ProtocolError {
    ProtocolError::UnconsumedBytes { remaining: (len - end) as usize }
}

/// The error for a packet id that the state does not know.
pub open spec fn unknown_id(id: i32, state: ConnectionState) -> ProtocolError {
    ProtocolError::UnknownPacketId { id, state, direction: Direction::Serverbound }
}

/// What decoding `frame` (a packet id, then the packet) does in state `st`:
/// the packet or the error, and the state after it.
///
/// - Handshake state: id `0x00` is the handshake, which must take the whole
///   frame; it moves the decoder to the state that the handshake asks for and
///   to the protocol version that it names, when the decoder knows that
///   version. Any other id is refused.
/// - Status state: `0x00` is the status request and `0x01` the ping, each of
///   which must take the whole frame; any other id is refused.
/// - Login state: `0x00` is the login start; other ids are returned unknown.
/// - Any other state: every packet is returned unknown.
///
/// A failure leaves the state as it was.
pub open spec fn spec_decode_serverbound(st: DecoderView, frame: Seq<u8>) -> (
    Result<DecodedView, ProtocolError>,
    DecoderView,
) {
    match varint_read(frame) {
        None => (Err(ProtocolError::VarIntTooLarge), st),
        Some((id, k)) => {
            let body = frame.skip(k as int);
            match st.state {
                ConnectionState::Handshake => if id == 0x00 {
                    let (r, end) = <SHandshake as ServerPacket>::spec_read(body, 0);
                    match r {
                        Err(e) => (Err(e), st),
                        Ok(h) => if end != body.len() {
                            (Err(unconsumed(body.len(), end)), st)
                        } else {
                            (
                                Ok(DecodedView::Handshake(h)),
                                DecoderView {
                                    state: h.next_state,
                                    version: match ProtocolVersion::spec_from_protocol(
                                        h.protocol_version,
                                    ) {
                                        Some(v) => v,
                                        None => st.version,
                                    },
                                },
                            )
                        },
                    }
                } else {
                    (Err(unknown_id(id, st.state)), st)
                },
                ConnectionState::Status => if id == 0x00 {
                    if body.len() != 0 {
                        (Err(unconsumed(body.len(), 0)), st)
                    } else {
                        (Ok(DecodedView::StatusRequest), st)
                    }
                } else if id == 0x01 {
                    let (r, end) = <SPing as ServerPacket>::spec_read(body, 0);
                    match r {
                        Err(e) => (Err(e), st),
                        Ok(p) => if end != body.len() {
                            (Err(unconsumed(body.len(), end)), st)
                        } else {
                            (Ok(DecodedView::StatusPing(p)), st)
                        },
                    }
                } else {
                    (Err(unknown_id(id, st.state)), st)
                },
                ConnectionState::Login => if id == 0x00 {
                    let (r, _end) = <SLoginStart as ServerPacket>::spec_read(body, 0);
                    match r {
                        Err(e) => (Err(e), st),
                        Ok(name) => (Ok(DecodedView::LoginStart(name)), st),
                    }
                } else {
                    (Ok(DecodedView::Unknown { id, data: body }), st)
                },
                _ => (Ok(DecodedView::Unknown { id, data: body }), st),
            }
        },
    }
}

impl PacketDecoder {
    /// A decoder in the handshake state, assuming version 1.21 until the
    /// handshake names another.
    pub fn new() -> (d: Self)
        ensures
            d@ == (DecoderView { state: ConnectionState::Handshake, version: ProtocolVersion::V1_21 }),
    {
        Self { state: ConnectionState::Handshake, version: ProtocolVersion::V1_21 }
    }

    pub fn state(&self) -> (s: ConnectionState)
        ensures
            s == self@.state,
    {
        self.state
    }

    pub fn version(&self) -> (v: ProtocolVersion)
        ensures
            v == self@.version,
    {
        self.version
    }

    /// Decodes one serverbound frame: a VarInt packet id, then the packet.
    pub fn decode_serverbound(&mut self, frame: &[u8]) -> (r: Result<DecodedServerPacket, ProtocolError>)
        ensures
            (view_result(r), final(self)@) == spec_decode_serverbound(old(self)@, frame@),
    {
        let mut buf: &[u8] = frame;
        let packet_id = decode_varint(&mut buf)?;
        let mut reader = PacketReader::new(buf);
        proof {
            assert(buf@.skip(0) =~= buf@);
        }

        match self.state {
            ConnectionState::Handshake => match packet_id {
                0x00 => {
                    let pkt = SHandshake::read(&mut reader, self.version)?;
                    reader.ensure_consumed()?;
                    self.version = ProtocolVersion::from_protocol(pkt.protocol_version).unwrap_or(
                        self.version,
                    );
                    self.state = pkt.next_state;
                    Ok(DecodedServerPacket::Handshake(pkt))
                },
                _ => Err(
                    ProtocolError::UnknownPacketId {
                        id: packet_id,
                        state: self.state,
                        direction: Direction::Serverbound,
                    },
                ),
            },
            ConnectionState::Status => match packet_id {
                0x00 => {
                    let pkt = SRequest::read(&mut reader, self.version)?;
                    reader.ensure_consumed()?;
                    Ok(DecodedServerPacket::StatusRequest(pkt))
                },
                0x01 => {
                    let pkt = SPing::read(&mut reader, self.version)?;
                    reader.ensure_consumed()?;
                    Ok(DecodedServerPacket::StatusPing(pkt))
                },
                _ => Err(
                    ProtocolError::UnknownPacketId {
                        id: packet_id,
                        state: self.state,
                        direction: Direction::Serverbound,
                    },
                ),
            },
            ConnectionState::Login => match packet_id {
                0x00 => {
                    let pkt = SLoginStart::read(&mut reader, self.version)?;
                    Ok(DecodedServerPacket::LoginStart(pkt))
                },
                _ => Ok(
                    DecodedServerPacket::Unknown {
                        id: packet_id,
                        data: vstd::slice::slice_to_vec(reader.read_remaining()),
                    },
                ),
            },
            _ => Ok(
                DecodedServerPacket::Unknown {
                    id: packet_id,
                    data: vstd::slice::slice_to_vec(reader.read_remaining()),
                },
            ),
        }
    }

    /// Clientbound frames are not decoded yet: every frame is accepted and
    /// the decoder does not change.
    pub fn decode_clientbound(&mut self, _frame: &[u8]) -> (r: Result<(), ProtocolError>)
        ensures
            r == Ok::<(), ProtocolError>(()),
            final(self)@ == old(self)@,
    {
        Ok(())
    }
}

impl Default for PacketDecoder {
    fn default() -> (d: Self)
        ensures
            d@ == (DecoderView { state: ConnectionState::Handshake, version: ProtocolVersion::V1_21 }),
    {
        Self::new()
    }
}


// ----------------------------------------------------------------------------
// Laws of the decoder
// ----------------------------------------------------------------------------

/// The connection state changes only through a handshake, decoded in the
/// handshake state, and then to the status or the login state that the
/// handshake asks for. A failed decode changes nothing, and the decoder never
/// leaves the status, login, configuration or play state.
pub proof fn lemma_decoder_transitions(st: DecoderView, frame: Seq<u8>)
    ensures
        ({
            let (r, after) = spec_decode_serverbound(st, frame);
            &&& r is Err ==> after == st
            &&& st.state != ConnectionState::Handshake ==> after == st
            &&& after != st ==> st.state == ConnectionState::Handshake && (r matches Ok(
                DecodedView::Handshake(h),
            ) && after.state == h.next_state)
            &&& (after.state == ConnectionState::Handshake || after.state
                == ConnectionState::Status || after.state == ConnectionState::Login)
                || after.state == st.state
        }),
{
}

/// A decoded packet reports the id that its frame carries.
pub proof fn lemma_decoded_packet_id(st: DecoderView, frame: Seq<u8>)
    ensures
        spec_decode_serverbound(st, frame).0 matches Ok(p) ==> (varint_read(frame) matches Some(
            (id, _),
        ) && spec_packet_id(p) == id),
{
}

/// An unknown packet that the decoder passes through is encoded back to a
/// frame that decodes to the same packet, in the states where that id is not
/// read (login for ids other than `0x00`, configuration and play).
pub proof fn lemma_unknown_roundtrip(st: DecoderView, id: i32, data: Seq<u8>)
    requires
        st.state == ConnectionState::Config || st.state == ConnectionState::Play || (st.state
            == ConnectionState::Login && id != 0x00),
    ensures
        spec_decode_serverbound(st, spec_encode(DecodedView::Unknown { id, data })) == (
            Ok::<DecodedView, ProtocolError>(DecodedView::Unknown { id, data }),
            st,
        ),
{
    lemma_varint_roundtrip(id, data);
    assert((varint_of(id) + data).skip(varint_of(id).len() as int) =~= data);
}

/// The frame of a handshake, as a writer lays it out: the id `0x00`, the
/// protocol number, the address, the port and the next-state number.
pub open spec fn handshake_frame(
    protocol_version: i32,
    address: Seq<char>,
    port: u16,
    next: i32,
) -> Seq<u8> {
    varint_of(0) + varint_of(protocol_version) + string_field(address) + be_bytes(port as nat, 2)
        + varint_of(next)
}

/// A handshake frame with a next-state number of `1` or `2` and an address of
/// at most `MAX_STRING_LEN` bytes is decoded, in the handshake state, to the
/// handshake it was written from; the decoder moves to the state it asks for
/// and to the version it names, when that version is known.
#[verifier::rlimit(50)]
pub proof fn lemma_handshake_frame_decodes(
    st: DecoderView,
    protocol_version: i32,
    address: Seq<char>,
    port: u16,
    next: i32,
)
    requires
        st.state == ConnectionState::Handshake,
        encode_utf8(address).len() <= MAX_STRING_LEN,
        next == 1 || next == 2,
    ensures
        ({
            let h = HandshakeView {
                protocol_version,
                server_address: address,
                server_port: port,
                next_state: next_state_of(next).unwrap(),
            };
            let version = match ProtocolVersion::spec_from_protocol(protocol_version) {
                Some(v) => v,
                None => st.version,
            };
            spec_decode_serverbound(st, handshake_frame(protocol_version, address, port, next)) == (
                Ok::<DecodedView, ProtocolError>(DecodedView::Handshake(h)),
                DecoderView { state: h.next_state, version },
            )
        }),
{
    let frame = handshake_frame(protocol_version, address, port, next);
    let e = Seq::<u8>::empty();
    let a = varint_of(protocol_version);
    let b = string_field(address);
    let c = be_bytes(port as nat, 2);
    let d = varint_of(next);
    let body = a + b + c + d;
    assert(frame =~= varint_of(0) + body);
    lemma_varint_roundtrip(0, body);
    assert(frame.skip(varint_of(0).len() as int) =~= body);
    lemma_be_roundtrip(port as nat, 2);
    assert(body =~= e + a + (b + c + d));
    lemma_read_written_varint(e, protocol_version, b + c + d);
    assert(spec_read_varint(body, 0) == (Ok::<i32, ProtocolError>(protocol_version), a.len()));
    assert(body =~= (e + a) + b + (c + d));
    lemma_read_written_string(e + a, address, c + d);
    assert(spec_read_string(body, a.len()) == (Ok::<Seq<char>, ProtocolError>(address), a.len() + b.len()));
    assert(body =~= (e + a + b) + c + d);
    lemma_read_written_u16(e + a + b, port, d);
    assert(spec_read_u16(body, a.len() + b.len()) == (Ok::<u16, ProtocolError>(port), a.len() + b.len() + 2));
    assert(body =~= (e + a + b + c) + d + e);
    lemma_read_written_varint(e + a + b + c, next, e);
    assert(spec_read_varint(body, a.len() + b.len() + 2) == (Ok::<i32, ProtocolError>(next), body.len()));
    let h = HandshakeView {
        protocol_version,
        server_address: address,
        server_port: port,
        next_state: next_state_of(next).unwrap(),
    };
    assert(<SHandshake as ServerPacket>::spec_read(body, 0) == (Ok::<HandshakeView, ProtocolError>(h), body.len()));
}

/// A status request frame, the id `0x00` alone, is decoded in the status state.
pub proof fn lemma_status_request_decodes(st: DecoderView)
    requires
        st.state == ConnectionState::Status,
    ensures
        spec_decode_serverbound(st, varint_of(0)) == (
            Ok::<DecodedView, ProtocolError>(DecodedView::StatusRequest),
            st,
        ),
{
    lemma_varint_roundtrip(0, Seq::empty());
    assert(varint_of(0) + Seq::<u8>::empty() =~= varint_of(0));
    assert(varint_of(0).skip(varint_of(0).len() as int) =~= Seq::<u8>::empty());
}

/// A ping frame, the id `0x01` and a big-endian `i64`, is decoded in the
/// status state to a ping with that time stamp.
pub proof fn lemma_ping_frame_decodes(st: DecoderView, time: i64)
    requires
        st.state == ConnectionState::Status,
    ensures
        spec_decode_serverbound(st, varint_of(1) + be_bytes((time as u64) as nat, 8)) == (
            Ok::<DecodedView, ProtocolError>(DecodedView::StatusPing(SPing { time })),
            st,
        ),
{
    let body = be_bytes((time as u64) as nat, 8);
    lemma_be_roundtrip((time as u64) as nat, 8);
    lemma_varint_roundtrip(1, body);
    assert((varint_of(1) + body).skip(varint_of(1).len() as int) =~= body);
    let e = Seq::<u8>::empty();
    assert(body =~= e + body + e);
    lemma_read_written_i64(e, time, e);
}

/// A login start frame, the id `0x00` and a user name of at most
/// `MAX_STRING_LEN` bytes, is decoded in the login state to that name,
/// whatever bytes follow the name.
pub proof fn lemma_login_start_decodes(st: DecoderView, name: Seq<char>, rest: Seq<u8>)
    requires
        st.state == ConnectionState::Login,
        encode_utf8(name).len() <= MAX_STRING_LEN,
    ensures
        spec_decode_serverbound(st, varint_of(0) + string_field(name) + rest) == (
            Ok::<DecodedView, ProtocolError>(DecodedView::LoginStart(name)),
            st,
        ),
{
    let body = string_field(name) + rest;
    assert(varint_of(0) + string_field(name) + rest =~= varint_of(0) + body);
    lemma_varint_roundtrip(0, body);
    assert((varint_of(0) + body).skip(varint_of(0).len() as int) =~= body);
    let e = Seq::<u8>::empty();
    assert(body =~= e + string_field(name) + rest);
    lemma_read_written_string(e, name, rest);
}

} // verus!
