//! Session synchronization library for a small networked arena game.
//!
//! The library models multiplayer game sessions: a registry of sessions
//! keyed by opaque identifiers, a command dispatcher that resolves decoded
//! requests against the registry, a byte-level wire codec for the JSON
//! command protocol, and the client-side state synchronization steps.

pub mod client;
pub mod codec;
pub mod laws;
pub mod model;
pub mod num;
pub mod physics;
pub mod server;
pub mod wire;
