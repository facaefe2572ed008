//! Client-side message routing and connection lifecycle for a real-time
//! multiplayer transport with a single authoritative host.
pub mod client;
pub mod connection;
pub mod frame;
pub mod router;
