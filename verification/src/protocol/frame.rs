//! Frames: a VarInt length followed by that many bytes. The transport reads
//! and writes them; this module decides what the bytes are.

use vstd::prelude::*;

use crate::protocol::error::ProtocolError;
use crate::protocol::varint::{encode_varint, lemma_varint_roundtrip, varint_of, varint_read};

verus! {

/// The largest frame that the proxy accepts, in bytes.
pub const MAX_PACKET_SIZE: usize = 2_097_152;

/// The bytes of a frame around `data`: its length as a VarInt, then the data.
pub open spec fn spec_frame(data: Seq<u8>) -> Seq<u8> {
    varint_of(((data.len() as usize) as i32)) + data
}

/// What a frame's length prefix, read as a VarInt, allows: a length above
/// `MAX_PACKET_SIZE` (a negative VarInt counts as a huge length) is too
/// large, and zero is refused; otherwise the frame has that many bytes.
pub open spec fn spec_frame_length(length: i32) -> Result<usize, ProtocolError> {
    let n = length as usize;
    if n > MAX_PACKET_SIZE {
        Err(ProtocolError::PacketTooLarge { size: n, max: MAX_PACKET_SIZE })
    } else if n == 0 {
        Err(ProtocolError::Decode("zero-length packet"))
    } else {
        Ok(n)
    }
}

/// Checks a frame's length prefix before its bytes are read.
pub fn check_frame_length(length: i32) -> (r: Result<usize, ProtocolError>)
    ensures
        r == spec_frame_length(length),
{
    let length = #[verifier::truncate] (length as usize);
    if length > MAX_PACKET_SIZE {
        return Err(ProtocolError::PacketTooLarge { size: length, max: MAX_PACKET_SIZE });
    }
    if length == 0 {
        return Err(ProtocolError::Decode("zero-length packet"));
    }
    Ok(length)
}

/// The bytes that the transport sends for one frame holding `data`.
pub fn encode_frame(data: &[u8]) -> (out: Vec<u8>)
    ensures
        out@ == spec_frame(data@),
{
    let mut buf = Vec::new();
    let length = #[verifier::truncate] (data.len() as i32);
    encode_varint(&mut buf, length);
    let mut i: usize = 0;
    while i < data.len()
        invariant
            i <= data@.len(),
            length == ((data@.len() as usize) as i32),
            buf@ == varint_of(length) + data@.take(i as int),
        decreases data@.len() - i,
    {
        buf.push(data[i]);
        i = i + 1;
        assert(buf@ =~= varint_of(length) + data@.take(i as int));
    }
    assert(data@.take(i as int) =~= data@);
    buf
}

/// A frame that the transport wrote around `data`, of one to
/// `MAX_PACKET_SIZE` bytes, is read back: its length prefix is accepted and
/// gives the length of `data`, and `data` follows it.
pub proof fn lemma_frame_roundtrip(data: Seq<u8>, rest: Seq<u8>)
    requires
        0 < data.len() <= MAX_PACKET_SIZE,
    ensures
        ({
            let bytes = spec_frame(data) + rest;
            let len_v = ((data.len() as usize) as i32);
            &&& varint_read(bytes) == Some((len_v, varint_of(len_v).len()))
            &&& spec_frame_length(len_v) == Ok::<usize, ProtocolError>(data.len() as usize)
            &&& bytes.skip(varint_of(len_v).len() as int).take(data.len() as int) == data
        }),
{
    let len_v = ((data.len() as usize) as i32);
    lemma_varint_roundtrip(len_v, data + rest);
    assert(spec_frame(data) + rest =~= varint_of(len_v) + (data + rest));
    assert((varint_of(len_v) + (data + rest)).skip(varint_of(len_v).len() as int).take(
        data.len() as int,
    ) =~= data);
}

} // verus!
