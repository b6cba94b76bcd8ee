//! The packets that the proxy reads and writes.

pub mod handshake;
pub mod login;
pub mod status;
