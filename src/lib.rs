//! Multi-room chat lobby: the wire protocol, the server's authoritative state
//! engine with its response model, audience routing, and the client mirror.

pub mod protocol;
pub mod history;
pub mod error;
pub mod response;
pub mod state;
pub mod server;
pub mod client;
