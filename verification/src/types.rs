//! Identities, transactions and the per-negotiation records kept by the
//! handshake coordinator.

use vstd::prelude::*;
use crate::message::NetMessage;
use crate::message::NetMessageV1;
use crate::message::ConnectMsg;
use crate::message::ConnectRequest;
use crate::message::is_clean_connection_for;

verus! {

/// Network address of a peer: an IPv4 host and a port.
///
/// Addresses key the coordinator's `connecting` and `connected` tables;
/// [`Address::key`] packs one injectively into a `u64` for that purpose.
#[derive(Clone, Copy, PartialEq, Eq, Structural, Hash, Debug)]
pub struct Address {
    pub ip: u32,
    pub port: u16,
}

/// The `u64` table key an address packs into: the host in the high bits,
/// the port in the low 16.
pub open spec fn addr_key(a: Address) -> u64 {
    ((a.ip as u64) << 16) | (a.port as u64)
}

/// Packing an address into its table key loses nothing: equal keys mean
/// equal addresses.
pub proof fn lemma_addr_key_injective(a: Address, b: Address)
    ensures
        addr_key(a) == addr_key(b) ==> a == b,
{
    let (ia, pa, ib, pb) = (a.ip, a.port, b.ip, b.port);
    assert((((ia as u64) << 16) | (pa as u64)) == (((ib as u64) << 16) | (pb as u64)) ==> ia == ib
        && pa == pb) by (bit_vector);
}

impl Address {
    /// Packs the address into its table key.
    pub fn key(&self) -> (r: u64)
        ensures
            r == addr_key(*self),
    {
        ((self.ip as u64) << 16) | (self.port as u64)
    }
}

/// Stable logical identity of a network participant: an opaque key
/// together with its network address. Identities are never reissued;
/// equality is identity.
#[derive(Clone, Copy, PartialEq, Eq, Structural, Hash, Debug)]
pub struct PeerId {
    pub key: u64,
    pub addr: Address,
}

/// A peer identity together with its (optional) position on the ring,
/// as carried inside connect messages.
#[derive(Clone, Copy, PartialEq, Eq, Structural, Debug)]
pub struct PeerKeyLocation {
    pub peer: PeerId,
}

/// Unique identifier correlating all messages of one logical handshake
/// attempt, generated once per attempt and never reissued.
#[derive(Clone, Copy, PartialEq, Eq, Structural, Hash, Debug)]
pub struct Transaction(pub u64);

/// An established, authenticated point-to-point channel to a peer.
///
/// Owned exclusively by whichever component currently holds it and
/// handed off by move, never copied: the coordinator keeps it while a
/// negotiation is unconfirmed and surrenders it inside the terminal
/// event.
#[derive(Debug)]
pub struct PeerConnection {
    pub remote: PeerId,
}

/// A single pending forward: the message to relay and the peer to
/// relay it to. Transient, consumed when dispatched.
#[derive(Debug)]
pub struct ForwardInfo {
    pub target: PeerId,
    pub msg: NetMessage,
}

/// A join request received at a gateway from a joiner that is not yet
/// admitted, together with the unconfirmed channel it arrived on.
#[derive(Debug)]
pub struct InboundGwJoinRequest {
    pub conn: PeerConnection,
    pub id: Transaction,
    pub joiner: PeerId,
    pub hops_to_live: usize,
    pub max_hops_to_live: usize,
    pub skip_list: Vec<PeerId>,
}

/// A join request forwarded on behalf of a joiner that has not yet been
/// admitted: created when a gateway probes another ring member about
/// accepting `joiner`, destroyed when that probe's reply arrives or the
/// transaction is abandoned.
#[derive(Debug)]
pub struct TransientConnection {
    pub tx: Transaction,
    pub joiner: PeerId,
    pub max_hops_to_live: usize,
    pub hops_to_live: usize,
    pub skip_list: Vec<PeerId>,
}

impl TransientConnection {
    /// Recognizes, among arbitrary inbound wire messages, the control
    /// message instructing this transient peer to end its negotiation:
    /// a `CleanConnection` for exactly the tracked transaction and
    /// joiner. Any other combination is a stale retransmission or a
    /// protocol violation and must never terminate unrelated state, so
    /// it is not treated as a drop.
    pub fn is_drop_connection_message(&self, net_message: &NetMessage) -> (r: bool)
        ensures
            r == is_clean_connection_for(*net_message, self.tx, self.joiner),
    {
        if let NetMessage::V1(
            NetMessageV1::Connect(
                ConnectMsg::Request { id, msg: ConnectRequest::CleanConnection { joiner } },
            ),
        ) = net_message {
            *id == self.tx && joiner.peer == self.joiner
        } else {
            false
        }
    }
}

/// The vote tally for one gateway-mediated admission, owned exclusively
/// by the coordinator for the duration of the admission and destroyed
/// on finalization.
#[derive(Debug)]
pub struct AcceptedTracker {
    /// The gateway conducting the admission.
    pub gw_peer: PeerKeyLocation,
    /// The live channel to that gateway, surrendered on finalization.
    pub gw_conn: PeerConnection,
    /// Whether the gateway's own decision has been applied to the tally.
    pub gw_accepted_processed: bool,
    /// Whether the gateway itself has decided to accept.
    pub gw_accepted: bool,
    /// Checks not yet resolved, at most `total_checks`.
    pub remaining_checks: usize,
    /// Checks that returned "will accept", at most `total_checks`.
    pub accepted: usize,
    /// Target number of peers to probe; equal to the maximum
    /// hops-to-live of the attempt.
    pub total_checks: usize,
    /// The transaction of the admission this tally belongs to.
    pub tx: Transaction,
}

impl AcceptedTracker {
    /// Vote accounting invariant, kept at every point of the tracker's
    /// life: votes already counted plus checks still unresolved never
    /// exceed the checks issued in total.
    pub open spec fn wf(&self) -> bool {
        self.accepted + self.remaining_checks <= self.total_checks
    }

    /// The admission policy, applied once, when the last check
    /// resolves: a strict majority of the `total_checks` probed peers
    /// must have accepted, or the gateway itself must have confirmed
    /// the joiner.
    pub open spec fn admitted(&self) -> bool {
        2 * self.accepted > self.total_checks || self.gw_accepted
    }

    /// A fresh tally for an admission conducted by `gw_peer` over
    /// `total_checks` probes, none resolved yet.
    pub fn new(gw_peer: PeerKeyLocation, gw_conn: PeerConnection, tx: Transaction,
        total_checks: usize) -> (r: Self)
        ensures
            r.wf(),
            r == (AcceptedTracker {
                gw_peer,
                gw_conn,
                gw_accepted_processed: false,
                gw_accepted: false,
                remaining_checks: total_checks,
                accepted: 0,
                total_checks,
                tx,
            }),
    {
        AcceptedTracker {
            gw_peer,
            gw_conn,
            gw_accepted_processed: false,
            gw_accepted: false,
            remaining_checks: total_checks,
            accepted: 0,
            total_checks,
            tx,
        }
    }

    /// Counts the reply of one probed peer: one fewer check is
    /// unresolved, and an affirmative reply raises the tally.
    pub fn register_vote(&mut self, vote: bool)
        requires
            old(self).wf(),
            old(self).remaining_checks > 0,
        ensures
            final(self).wf(),
            final(self).remaining_checks == old(self).remaining_checks - 1,
            final(self).accepted == old(self).accepted + (if vote { 1int } else { 0 }),
            final(self).gw_peer == old(self).gw_peer,
            final(self).gw_conn == old(self).gw_conn,
            final(self).gw_accepted == old(self).gw_accepted,
            final(self).gw_accepted_processed == old(self).gw_accepted_processed,
            final(self).total_checks == old(self).total_checks,
            final(self).tx == old(self).tx,
    {
        self.remaining_checks = self.remaining_checks - 1;
        if vote {
            self.accepted = self.accepted + 1;
        }
    }

    /// Applies the gateway's own affirmative decision to the tally.
    pub fn confirm_gateway(&mut self)
        ensures
            *final(self) == (AcceptedTracker {
                gw_accepted: true,
                gw_accepted_processed: true,
                ..*old(self)
            }),
            old(self).wf() ==> final(self).wf(),
    {
        self.gw_accepted = true;
        self.gw_accepted_processed = true;
    }

    /// Whether every check has resolved, so the admission finalizes now.
    pub fn is_complete(&self) -> (r: bool)
        ensures
            r == (self.remaining_checks == 0),
    {
        self.remaining_checks == 0
    }

    /// Whether the resolved checks admit the joiner, under the policy
    /// of [`AcceptedTracker::admitted`].
    pub fn is_admitted(&self) -> (r: bool)
        ensures
            r == self.admitted(),
    {
        let by_majority: bool = self.accepted > self.total_checks / 2;
        proof {
            assert(by_majority == (2 * self.accepted > self.total_checks)) by (nonlinear_arith)
                requires
                    by_majority == (self.accepted > self.total_checks / 2),
            ;
        }
        by_majority || self.gw_accepted
    }
}

} // verus!
