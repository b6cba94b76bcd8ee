//! Errors of the protocol layer.

use vstd::prelude::*;

use crate::protocol::ConnectionState;
use crate::protocol::Direction;

verus! {

/// `std::io::Error`, carried by the `Io` variant for the transport that
/// reads and writes frames; nothing in this library inspects it.
#[verifier::external_type_specification]
#[verifier::external_body]
pub struct ExIoError(std::io::Error);

/// What can go wrong while reading or decoding packets.
#[derive(Debug)]
pub enum ProtocolError {
    Io(std::io::Error),
    VarIntTooLarge,
    UnknownPacketId { id: i32, state: ConnectionState, direction: Direction },
    PacketTooLarge { size: usize, max: usize },
    UnconsumedBytes { remaining: usize },
    StringTooLong { len: usize, max: usize },
    Decode(&'static str),
}

} // verus!
