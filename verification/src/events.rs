//! The tagged-union vocabulary the coordinator consumes and produces.
//!
//! [`Event`] is the externally observable outcome vocabulary, consumed
//! by the node's connection manager. [`InternalEvent`] is strictly
//! internal to the coordinator's loop; keeping the two apart prevents
//! retry and bookkeeping detail from leaking to consumers.

use vstd::prelude::*;
use crate::errors::HandshakeError;
use crate::errors::TransportError;
use crate::message::NetMessage;
use crate::types::Address;
use crate::types::PeerConnection;
use crate::types::PeerId;
use crate::types::Transaction;
use crate::types::ForwardInfo;
use crate::types::InboundGwJoinRequest;

verus! {

/// Externally observable outcome of one resolved negotiation. Each
/// negotiation handled to completion produces exactly one of the
/// terminal variants (see [`terminal_tx`]).
#[derive(Debug)]
pub enum Event {
    /// An inbound connection was admitted at a gateway, carrying the
    /// live channel and, when the request was also relayed onward, the
    /// pending forward.
    InboundConnection {
        id: Transaction,
        conn: PeerConnection,
        joiner: PeerId,
        forward_info: Option<Box<ForwardInfo>>,
    },
    /// An outbound connection to a regular peer was established.
    OutboundConnectionSuccessful {
        peer_id: PeerId,
        tx: Transaction,
        connection: PeerConnection,
    },
    /// An outbound connection failed to be established.
    OutboundConnectionFailed {
        peer_id: PeerId,
        tx: Transaction,
        error: HandshakeError,
    },
    /// An outbound connection to a gateway was rejected.
    OutboundGatewayConnectionRejected { peer_id: PeerId, tx: Transaction },
    /// An inbound connection at a gateway was rejected.
    InboundConnectionRejected { peer_id: PeerId, tx: Transaction },
    /// An outbound connection to a gateway was admitted and can be
    /// handed to the connection manager.
    OutboundGatewayConnectionSuccessful {
        peer_id: PeerId,
        tx: Transaction,
        connection: PeerConnection,
        remaining_checks: usize,
    },
    /// Clean up a transaction that was completed or duplicate.
    RemoveTransaction(Transaction),
    /// Wait for replies, via another peer, to a forwarded connection
    /// attempt.
    TransientForwardTransaction {
        target: Address,
        tx: Transaction,
        forward_to: PeerId,
        msg: Box<NetMessage>,
    },
}

/// The transaction an event terminates, if the event is terminal: a
/// success, failure or rejection that resolves one negotiation for
/// good. Cleanup notices and forward requests terminate nothing.
pub open spec fn terminal_tx(e: Event) -> Option<Transaction> {
    match e {
        Event::InboundConnection { id, .. } => Some(id),
        Event::OutboundConnectionSuccessful { tx, .. } => Some(tx),
        Event::OutboundConnectionFailed { tx, .. } => Some(tx),
        Event::OutboundGatewayConnectionRejected { tx, .. } => Some(tx),
        Event::InboundConnectionRejected { tx, .. } => Some(tx),
        Event::OutboundGatewayConnectionSuccessful { tx, .. } => Some(tx),
        Event::RemoveTransaction(_) => None,
        Event::TransientForwardTransaction { .. } => None,
    }
}

/// How many of the events in `es` are terminal for `tx`.
pub open spec fn count_terminal(es: Seq<Event>, tx: Transaction) -> nat
    decreases es.len(),
{
    if es.len() == 0 {
        0
    } else {
        (if terminal_tx(es[0]) == Some(tx) {
            1nat
        } else {
            0nat
        }) + count_terminal(es.drop_first(), tx)
    }
}

/// Loop-internal transitions of the coordinator: one is produced each
/// iteration by whichever pending source settles first, and interpreted
/// by the coordinator's dispatch.
#[derive(Debug)]
pub enum InternalEvent {
    /// A gateway received a join request from a new joiner.
    InboundGwJoinRequest(InboundGwJoinRequest),
    /// A transport dial to a regular peer succeeded.
    OutboundConnEstablished(PeerId, Transaction, PeerConnection),
    /// A transport dial to a gateway succeeded; the second count is the
    /// maximum hops-to-live of the attempt, which bounds the admission
    /// checks.
    OutboundGwConnEstablished(PeerId, Transaction, PeerConnection, usize),
    /// A transport dial failed.
    OutboundConnFailed(PeerId, Transaction, TransportError),
    /// The gateway itself confirmed the admission, not just a
    /// third-party vote.
    OutboundGwConnConfirmed(Transaction),
    /// Peer-initiated or policy-driven teardown of an inbound channel.
    DropInboundConnection(Address),
    /// A probed peer replied to an acceptance check.
    RemoteConnectionAttempt { remote: PeerId, tx: Transaction, accepted: bool },
    /// The previous probe settled; budget may remain for another.
    NextCheck(Transaction),
    /// An admission fully resolved elsewhere; discard its tally.
    FinishedOutboundConnProcess(Transaction),
    /// A wire message arrived on the channel of a transient connection.
    TransientMsg(Transaction, Box<NetMessage>),
    /// The reply to a forwarded join arrived at the gateway that
    /// relayed it, carrying the joiner's channel back.
    TransientReply(Transaction, bool, PeerConnection),
}

/// Commands by which other subsystems ask the coordinator to establish
/// or tear down connections. Submission fails if the coordinator has
/// shut down, which the caller treats as fatal.
#[derive(Debug)]
pub enum ExternConnection {
    /// Request a new outbound negotiation. A request that repeats the
    /// transaction of one already in flight is an idempotent no-op.
    Establish { peer: PeerId, tx: Transaction, is_gw: bool },
    /// Request teardown of any state held for `peer`. Idempotent: a
    /// second request for an absent peer is a no-op, not an error.
    Dropped { peer: PeerId },
}

/// A transport dial the coordinator asks its surrounding loop to start.
#[derive(Clone, Copy, PartialEq, Eq, Structural, Debug)]
pub struct DialRequest {
    pub peer: PeerId,
    pub tx: Transaction,
    pub is_gw: bool,
}

} // verus!
