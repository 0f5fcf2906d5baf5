//! Peer-admission and connection-handshake layer of a decentralized
//! peer-to-peer overlay network.
//!
//! The crate models the handshake coordinator: the component that
//! multiplexes concurrent inbound and outbound connection negotiations,
//! implements the gateway-mediated multi-hop admission protocol, and
//! forwards join requests across the network with loop avoidance and
//! hop limits. Transport dialing, wire codecs and the event loop itself
//! live outside; the decisions they feed are made here.

pub mod errors;
pub mod events;
pub mod forward;
pub mod handler;
pub mod message;
pub mod testing;
pub mod types;
