//! Typed failure reasons surfaced by the handshake layer.

use vstd::prelude::*;
use crate::message::NetMessage;
use crate::types::Address;

verus! {

/// Failure of the raw transport while dialing or carrying a
/// negotiation.
#[derive(Clone, Copy, PartialEq, Eq, Structural, Debug)]
pub enum TransportError {
    /// The dial or exchange did not complete in time.
    Timeout,
    /// The remote endpoint could not be reached or refused the channel.
    ConnectionEstablishmentFailure,
}

/// Why a handshake, or one of its negotiations, failed.
///
/// Every per-negotiation error is caught at that negotiation's boundary
/// and turned into one terminal event; only the closure of the
/// coordinator's own command channel is fatal to the whole component.
#[derive(Clone, Debug)]
pub enum HandshakeError {
    /// Dial-level failure, surfaced as an outbound-connection failure.
    TransportError(TransportError),
    /// An internal mailbox's peer task has exited. Fatal to the whole
    /// coordinator only on its own primary input channels.
    ChannelClosed,
    /// A message inconsistent with the negotiation's expected next
    /// step. Terminates only that negotiation.
    UnexpectedMessage(Box<NetMessage>),
    /// The peer closed the transport mid-negotiation.
    ConnectionClosed(Address),
    /// Malformed wire payload; the codec's rendering of the fault, if
    /// one was kept. Terminates only that negotiation.
    Serialization(Option<String>),
}

} // verus!
