//! A bidirectional UDP relay driven through a line-oriented text protocol:
//! datagram payloads travel as base64 lines, a multiplexed listener learns
//! peers and names them by small session ids, and a single-target relay
//! locks onto its first peer and queues sends until a target is known.
pub mod b64;
pub mod config;
pub mod frame;
pub mod peer_lock;
pub mod registry;
pub mod relay;
