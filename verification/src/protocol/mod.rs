//! Protocol types shared by the reader, the writer and the decoder.

pub mod decode;
pub mod error;
pub mod forwarding;
pub mod frame;
pub mod packet;
pub mod packets;
pub mod varint;
pub mod version;

use vstd::prelude::*;

verus! {

/// The state of a connection, which decides how packet ids are read.
#[derive(Debug, Clone, Copy, PartialEq, Eq, Hash, Structural)]
pub enum ConnectionState {
    Handshake,
    Status,
    Login,
    Config,
    Play,
}

impl ConnectionState {
    /// The upper-case name of the state, as the proxy prints it.
    pub fn name(&self) -> (s: &'static str)
        ensures
            s@ == self.spec_name(),
    {
        match self {
            ConnectionState::Handshake => "HANDSHAKE",
            ConnectionState::Status => "STATUS",
            ConnectionState::Login => "LOGIN",
            ConnectionState::Config => "CONFIG",
            ConnectionState::Play => "PLAY",
        }
    }

    pub open spec fn spec_name(&self) -> Seq<char> {
        match self {
            ConnectionState::Handshake => "HANDSHAKE"@,
            ConnectionState::Status => "STATUS"@,
            ConnectionState::Login => "LOGIN"@,
            ConnectionState::Config => "CONFIG"@,
            ConnectionState::Play => "PLAY"@,
        }
    }
}

/// The direction in which a packet travels.
#[derive(Debug, Clone, Copy, PartialEq, Eq, Hash, Structural)]
pub enum Direction {
    Serverbound,
    Clientbound,
}

impl Direction {
    /// The upper-case name of the direction, as the proxy prints it.
    pub fn name(&self) -> (s: &'static str)
        ensures
            s@ == self.spec_name(),
    {
        match self {
            Direction::Serverbound => "SERVERBOUND",
            Direction::Clientbound => "CLIENTBOUND",
        }
    }

    pub open spec fn spec_name(&self) -> Seq<char> {
        match self {
            Direction::Serverbound => "SERVERBOUND"@,
            Direction::Clientbound => "CLIENTBOUND"@,
        }
    }
}

} // verus!
