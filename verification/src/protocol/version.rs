//! Protocol versions that the proxy knows by number.

use vstd::prelude::*;

verus! {

/// A protocol version that the proxy knows.
#[derive(Debug, Clone, Copy, PartialEq, Eq, Hash, Structural)]
pub enum ProtocolVersion {
    /// Java Edition 1.21, protocol number 767.
    V1_21,
}

impl ProtocolVersion {
    pub open spec fn spec_protocol(self) -> i32 {
        match self {
            ProtocolVersion::V1_21 => 767,
        }
    }

    pub open spec fn spec_from_protocol(number: i32) -> Option<ProtocolVersion> {
        if number == 767 {
            Some(ProtocolVersion::V1_21)
        } else {
            None
        }
    }

    /// The protocol number that the handshake carries for this version.
    pub fn protocol(&self) -> (n: i32)
        ensures
            n == self.spec_protocol(),
    {
        match self {
            ProtocolVersion::V1_21 => 767,
        }
    }

    /// The version with the given protocol number, if the proxy knows it.
    pub fn from_protocol(number: i32) -> (v: Option<ProtocolVersion>)
        ensures
            v == Self::spec_from_protocol(number),
            v matches Some(x) ==> x.spec_protocol() == number,
    {
        if number == 767 {
            Some(ProtocolVersion::V1_21)
        } else {
            None
        }
    }
}

} // verus!
