//! The wire-level `Connect` message family the handshake carries.
//!
//! Only the connect operations travel through this layer; every message
//! is correlated to its negotiation by the [`Transaction`] it carries.

use vstd::prelude::*;
use crate::types::PeerId;
use crate::types::PeerKeyLocation;
use crate::types::Transaction;

verus! {

/// Requests a joiner may send, or have forwarded on its behalf, while
/// it negotiates admission.
#[derive(Clone, Debug)]
pub enum ConnectRequest {
    /// A join attempt: admit `joiner`, forwarding at most `hops_to_live`
    /// more times and never back to a peer in `skip_list`.
    StartJoinReq {
        joiner: PeerKeyLocation,
        hops_to_live: usize,
        max_hops_to_live: usize,
        skip_list: Vec<PeerId>,
    },
    /// A probe asking an existing ring member whether it would accept
    /// `joiner` as a topology neighbour.
    CheckConnectivity { joiner: PeerKeyLocation },
    /// Control message instructing a transient peer to end the
    /// negotiation it holds for `joiner`.
    CleanConnection { joiner: PeerKeyLocation },
}

/// Replies produced while a join negotiation resolves.
#[derive(Clone, Debug)]
pub enum ConnectResponse {
    /// Outcome of one admission check: whether the probed peer accepts
    /// `joiner`.
    AcceptedBy { accepted: bool, joiner: PeerKeyLocation },
}

/// One connect operation message, tagged with its owning transaction.
#[derive(Clone, Debug)]
pub enum ConnectMsg {
    Request { id: Transaction, msg: ConnectRequest },
    Response { id: Transaction, msg: ConnectResponse },
}

/// First protocol version of the network message envelope.
#[derive(Clone, Debug)]
pub enum NetMessageV1 {
    Connect(ConnectMsg),
}

/// The network message envelope, versioned so the wire format can
/// evolve.
#[derive(Clone, Debug)]
pub enum NetMessage {
    V1(NetMessageV1),
}

/// Whether `m` is the exact control message that ends the transient
/// negotiation identified by `tx` for `joiner`: a `CleanConnection`
/// request carrying that very transaction and that very joiner.
pub open spec fn is_clean_connection_for(m: NetMessage, tx: Transaction, joiner: PeerId) -> bool {
    match m {
        NetMessage::V1(
            NetMessageV1::Connect(
                ConnectMsg::Request { id, msg: ConnectRequest::CleanConnection { joiner: j } },
            ),
        ) => id == tx && j.peer == joiner,
        _ => false,
    }
}

/// Whether `m` has the shape of a `CleanConnection` request at all,
/// whatever transaction or joiner it names.
pub open spec fn is_clean_connection_shaped(m: NetMessage) -> bool {
    match m {
        NetMessage::V1(
            NetMessageV1::Connect(
                ConnectMsg::Request { id: _, msg: ConnectRequest::CleanConnection { joiner: _ } },
            ),
        ) => true,
        _ => false,
    }
}

/// Whether `m` has the shape of a `CleanConnection` request,
/// executable form of [`is_clean_connection_shaped`].
pub fn is_clean_connection_shape(m: &NetMessage) -> (r: bool)
    ensures
        r == is_clean_connection_shaped(*m),
{
    match m {
        NetMessage::V1(
            NetMessageV1::Connect(
                ConnectMsg::Request { id: _, msg: ConnectRequest::CleanConnection { joiner: _ } },
            ),
        ) => true,
        _ => false,
    }
}

} // verus!
