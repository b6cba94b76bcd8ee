//! Dexdey: the Minecraft proxy's protocol layer, verified.
//!
//! The library holds the wire format (VarInts, packet fields, frames), the
//! serverbound packet decoder and its connection-state machine, the Velocity
//! modern-forwarding messages, and the choice of the forwarding secret.

pub mod config;
pub mod plugin;
pub mod protocol;
