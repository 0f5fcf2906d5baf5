//! The handshake coordinator: single owner of all handshake state.
//!
//! The coordinator sits in one cooperative loop that races four
//! pending sources (outbound dials, unconfirmed inbound connections,
//! wire traffic on transient channels, external commands); whichever
//! settles first yields one [`InternalEvent`], and the dispatch here
//! interprets it. The loop plumbing itself (transport, channels,
//! suspension) lives outside; every decision it needs is taken by the
//! verified transitions of this module, which consume an event plus a
//! read snapshot of the router and produce the next state, the
//! externally visible [`Event`]s, and the work to start.

use vstd::prelude::*;
use vstd::hash_map::HashMapWithView;
use vstd::hash_set::HashSetWithView;
use crate::errors::HandshakeError;
use crate::errors::TransportError;
use crate::events::DialRequest;
use crate::events::Event;
use crate::events::ExternConnection;
use crate::events::InternalEvent;
use crate::events::count_terminal;
use crate::events::terminal_tx;
use crate::message::ConnectMsg;
use crate::message::ConnectRequest;
use crate::message::NetMessage;
use crate::message::NetMessageV1;
use crate::types::AcceptedTracker;
use crate::types::Address;
use crate::types::ForwardInfo;
use crate::types::InboundGwJoinRequest;
use crate::types::PeerConnection;
use crate::types::PeerId;
use crate::types::PeerKeyLocation;
use crate::forward::eligible_of;
use crate::forward::select_forward_targets;
use crate::forward::take_at_most;
use crate::message::is_clean_connection_for;
use crate::message::is_clean_connection_shape;
use crate::message::is_clean_connection_shaped;
use crate::types::Transaction;
use crate::types::TransientConnection;
use crate::types::addr_key;

verus! {

broadcast use vstd::std_specs::hash::group_hash_axioms;

/// What one outbound dial in flight was started for.
#[derive(Clone, Copy, PartialEq, Eq, Structural, Debug)]
pub struct DialState {
    pub peer: PeerId,
    pub is_gw: bool,
}

/// The coordinator's state as contracts see it: its five tables, each
/// keyed by the packed address ([`addr_key`]) or by the transaction
/// number it concerns.
pub struct CoordView {
    /// This node's own identity, appended to skip lists it forwards.
    pub this_peer: PeerId,
    /// In-flight attempts: address to the transaction currently
    /// negotiating it.
    pub connecting: Map<u64, Transaction>,
    /// Addresses with a completed, promoted connection.
    pub connected: Set<u64>,
    /// Transport dials in flight, by transaction number.
    pub dials: Map<u64, DialState>,
    /// Gateway-admission vote tallies, by transaction number.
    pub trackers: Map<u64, AcceptedTracker>,
    /// Forwarded joins awaiting a reply, by transaction number.
    pub transient: Map<u64, TransientConnection>,
}

/// Whether `tx` has in-flight bookkeeping: a dial, a vote tally or a
/// transient forward. A transaction that is not active can only reach
/// a terminal event through a fresh activation.
pub open spec fn active(v: CoordView, tx: Transaction) -> bool {
    v.dials.contains_key(tx.0) || v.trackers.contains_key(tx.0) || v.transient.contains_key(tx.0)
}

/// The coordinator's invariants:
/// an address appears in at most one of `connecting` and `connected`;
/// each table keyed by transaction holds records for exactly that
/// transaction, one table per transaction at a time; and every vote
/// tally obeys its accounting invariant with at least one check still
/// unresolved (a tally whose last check resolves is finalized and
/// removed in the same transition).
pub open spec fn wf_view(v: CoordView) -> bool {
    &&& forall|k: u64| #[trigger] v.connecting.contains_key(k) ==> !v.connected.contains(k)
    &&& forall|k: u64| #[trigger] v.trackers.contains_key(k) ==> v.trackers[k].wf()
        && v.trackers[k].remaining_checks >= 1 && v.trackers[k].tx.0 == k
    &&& forall|k: u64| #[trigger] v.transient.contains_key(k) ==> v.transient[k].tx.0 == k
    &&& forall|k: u64| #[trigger] v.dials.contains_key(k) ==> !v.trackers.contains_key(k)
        && !v.transient.contains_key(k)
    &&& forall|k: u64| #[trigger] v.trackers.contains_key(k) ==> !v.transient.contains_key(k)
}

/// One step of the coordinator: the input it consumed, a command or an
/// internal event.
pub enum StepInput {
    Command(ExternConnection),
    Internal(InternalEvent),
}

/// Whether consuming `input` is the step that may newly activate `tx`:
/// only an `Establish` command for `tx` or the arrival of a join
/// request owned by `tx` ever does.
pub open spec fn activates(input: StepInput, tx: Transaction) -> bool {
    match input {
        StepInput::Command(ExternConnection::Establish { tx: t, .. }) => t == tx,
        StepInput::Internal(InternalEvent::InboundGwJoinRequest(req)) => req.id == tx,
        _ => false,
    }
}

/// What every coordinator transition guarantees about terminal events,
/// for every transaction at once: a single step emits at most one
/// terminal event for `tx`; it emits one only if `tx` was active
/// before the step, or the step is the one that activates it, and then
/// `tx` is no longer active afterwards; and a step never activates a
/// transaction other than its own.
///
/// [`lemma_at_most_one_terminal_event`] turns these step guarantees
/// into the run-level law.
pub open spec fn step_ok(pre: CoordView, input: StepInput, post: CoordView, out: Seq<Event>) -> bool {
    &&& forall|tx: Transaction| #[trigger] count_terminal(out, tx) <= 1
    &&& forall|tx: Transaction| #[trigger] count_terminal(out, tx) == 1 ==> ((active(pre, tx)
        || activates(input, tx)) && !active(post, tx))
    &&& forall|tx: Transaction| #[trigger] active(post, tx) ==> active(pre, tx) || activates(
        input,
        tx,
    )
}

/// Tearing down `addr`: the attempt currently negotiating the address
/// leaves `connecting`, and with it go its dial, its vote tally and
/// its transient record; the address also leaves `connected`. Applied
/// for both the external `Dropped` command and the internal inbound
/// teardown. A record of an attempt that a newer transaction to the
/// same address has already superseded no longer owns the `connecting`
/// slot; it resolves through its own transition.
pub open spec fn drop_addr_spec(v: CoordView, addr: Address) -> CoordView {
    let k = addr_key(addr);
    if v.connecting.contains_key(k) {
        let t = v.connecting[k].0;
        CoordView {
            connecting: v.connecting.remove(k),
            connected: v.connected.remove(k),
            dials: v.dials.remove(t),
            trackers: v.trackers.remove(t),
            transient: v.transient.remove(t),
            ..v
        }
    } else {
        CoordView { connecting: v.connecting.remove(k), connected: v.connected.remove(k), ..v }
    }
}

/// The `connecting` table with the slot for `addr` cleared, provided
/// that slot still belongs to `tx`: a slot taken over by a newer
/// transaction is left to its owner.
pub open spec fn clear_slot(connecting: Map<u64, Transaction>, addr: Address,
    tx: Transaction) -> Map<u64, Transaction> {
    let k = addr_key(addr);
    if connecting.contains_key(k) && connecting[k] == tx {
        connecting.remove(k)
    } else {
        connecting
    }
}

/// Effect of an `Establish{peer, tx, is_gw}` command: a duplicate
/// transaction is an idempotent no-op; an already connected address
/// only has the transaction cleaned up; otherwise the attempt takes
/// the `connecting` slot, the dial is recorded and requested.
pub open spec fn establish_post(v: CoordView, peer: PeerId, tx: Transaction, is_gw: bool,
    post: CoordView, out: Seq<Event>, dial: Option<DialRequest>) -> bool {
    if active(v, tx) {
        post == v && out =~= Seq::<Event>::empty() && dial is None
    } else if v.connected.contains(addr_key(peer.addr)) {
        post == v && out =~= seq![Event::RemoveTransaction(tx)] && dial is None
    } else {
        &&& post == (CoordView {
            connecting: v.connecting.insert(addr_key(peer.addr), tx),
            dials: v.dials.insert(tx.0, DialState { peer, is_gw }),
            ..v
        })
        &&& out =~= Seq::<Event>::empty()
        &&& dial == Some(DialRequest { peer, tx, is_gw })
    }
}

/// Effect of a settled regular dial: if the dial still owns the
/// `connecting` slot for its address, the address is promoted to
/// `connected` and the success is emitted; a dial superseded or torn
/// down meanwhile only has its transaction cleaned up.
pub open spec fn outbound_established_post(v: CoordView, peer: PeerId, tx: Transaction,
    conn: PeerConnection, post: CoordView, out: Seq<Event>) -> bool {
    let ka = addr_key(peer.addr);
    if v.dials.contains_key(tx.0) && v.connecting.contains_key(ka) && v.connecting[ka] == tx {
        post == (CoordView {
            connecting: v.connecting.remove(ka),
            connected: v.connected.insert(ka),
            dials: v.dials.remove(tx.0),
            ..v
        }) && out =~= seq![
            Event::OutboundConnectionSuccessful { peer_id: peer, tx, connection: conn },
        ]
    } else {
        post == (CoordView {
            dials: if v.dials.contains_key(tx.0) {
                v.dials.remove(tx.0)
            } else {
                v.dials
            },
            ..v
        }) && out =~= seq![Event::RemoveTransaction(tx)]
    }
}

/// Effect of a failed dial: the failure is surfaced once, for exactly
/// the transaction that dialed; a `connecting` slot taken over by a
/// concurrent attempt is unaffected. A failure for a dial already torn
/// down is discarded without an event.
pub open spec fn outbound_failed_post(v: CoordView, peer: PeerId, tx: Transaction,
    error: TransportError, post: CoordView, out: Seq<Event>) -> bool {
    if v.dials.contains_key(tx.0) {
        post == (CoordView {
            connecting: clear_slot(v.connecting, peer.addr, tx),
            dials: v.dials.remove(tx.0),
            ..v
        }) && out =~= seq![
            Event::OutboundConnectionFailed {
                peer_id: peer,
                tx,
                error: HandshakeError::TransportError(error),
            },
        ]
    } else {
        post == v && out =~= Seq::<Event>::empty()
    }
}

/// Effect of a settled gateway dial: if the dial still owns the
/// `connecting` slot, the admission begins with a fresh tally over
/// `max_hops_to_live` checks — or, with no checks to make, is rejected
/// at once; a dial superseded or torn down meanwhile only has its
/// transaction cleaned up.
pub open spec fn gw_established_post(v: CoordView, peer: PeerId, tx: Transaction,
    conn: PeerConnection, max_hops_to_live: usize, post: CoordView, out: Seq<Event>) -> bool {
    let ka = addr_key(peer.addr);
    if v.dials.contains_key(tx.0) && v.connecting.contains_key(ka) && v.connecting[ka] == tx {
        if max_hops_to_live == 0 {
            post == (CoordView {
                connecting: v.connecting.remove(ka),
                dials: v.dials.remove(tx.0),
                ..v
            }) && out =~= seq![Event::OutboundGatewayConnectionRejected { peer_id: peer, tx }]
        } else {
            post == (CoordView {
                dials: v.dials.remove(tx.0),
                trackers: v.trackers.insert(
                    tx.0,
                    AcceptedTracker {
                        gw_peer: PeerKeyLocation { peer },
                        gw_conn: conn,
                        gw_accepted_processed: false,
                        gw_accepted: false,
                        remaining_checks: max_hops_to_live,
                        accepted: 0,
                        total_checks: max_hops_to_live,
                        tx,
                    },
                ),
                ..v
            }) && out =~= Seq::<Event>::empty()
        }
    } else {
        post == (CoordView {
            dials: if v.dials.contains_key(tx.0) {
                v.dials.remove(tx.0)
            } else {
                v.dials
            },
            ..v
        }) && out =~= seq![Event::RemoveTransaction(tx)]
    }
}

/// Effect of one acceptance-check reply: the vote is counted; when the
/// last check resolves the admission finalizes, exactly once, under
/// the policy of [`AcceptedTracker::admitted`]. A vote for an unknown
/// transaction is stale and is discarded.
pub open spec fn vote_post(v: CoordView, tx: Transaction, accepted: bool, post: CoordView,
    out: Seq<Event>) -> bool {
    if v.trackers.contains_key(tx.0) {
        let t = v.trackers[tx.0];
        let t2 = AcceptedTracker {
            remaining_checks: (t.remaining_checks - 1) as usize,
            accepted: (t.accepted + if accepted {
                1int
            } else {
                0
            }) as usize,
            ..t
        };
        let ka = addr_key(t.gw_peer.peer.addr);
        if t2.remaining_checks == 0 {
            if t2.admitted() {
                post == (CoordView {
                    trackers: v.trackers.remove(tx.0),
                    connecting: v.connecting.remove(ka),
                    connected: v.connected.insert(ka),
                    ..v
                }) && out =~= seq![
                    Event::OutboundGatewayConnectionSuccessful {
                        peer_id: t.gw_peer.peer,
                        tx,
                        connection: t.gw_conn,
                        remaining_checks: 0,
                    },
                ]
            } else {
                post == (CoordView {
                    trackers: v.trackers.remove(tx.0),
                    connecting: clear_slot(v.connecting, t.gw_peer.peer.addr, tx),
                    ..v
                }) && out =~= seq![
                    Event::OutboundGatewayConnectionRejected { peer_id: t.gw_peer.peer, tx },
                ]
            }
        } else {
            post == (CoordView { trackers: v.trackers.insert(tx.0, t2), ..v }) && out =~= Seq::<
                Event,
            >::empty()
        }
    } else {
        post == v && out =~= Seq::<Event>::empty()
    }
}

/// Effect of the gateway's own confirmation: the tally records the
/// decision and that it has been applied; checks still unresolved keep
/// the admission open.
pub open spec fn gw_confirmed_post(v: CoordView, tx: Transaction, post: CoordView,
    out: Seq<Event>) -> bool {
    if v.trackers.contains_key(tx.0) {
        post == (CoordView {
            trackers: v.trackers.insert(
                tx.0,
                AcceptedTracker { gw_accepted: true, gw_accepted_processed: true, ..v.trackers[tx.0] },
            ),
            ..v
        }) && out =~= Seq::<Event>::empty()
    } else {
        post == v && out =~= Seq::<Event>::empty()
    }
}

/// Effect of polling the next check: while the admission identified by
/// `tx` is open, the next connectivity probe is issued to the router's
/// candidate; otherwise nothing is.
pub open spec fn next_check_post(v: CoordView, tx: Transaction, candidate: PeerId,
    probe: Option<ForwardInfo>) -> bool {
    if v.trackers.contains_key(tx.0) {
        probe matches Some(f) && f.target == candidate && f.msg == (NetMessage::V1(
            NetMessageV1::Connect(
                ConnectMsg::Request {
                    id: tx,
                    msg: ConnectRequest::CheckConnectivity {
                        joiner: (PeerKeyLocation { peer: v.this_peer }),
                    },
                },
            ),
        ))
    } else {
        probe is None
    }
}

/// Effect of an admission resolved elsewhere: its tally, if one is
/// still held, is discarded without an event.
pub open spec fn finished_post(v: CoordView, tx: Transaction, post: CoordView,
    out: Seq<Event>) -> bool {
    post == (CoordView {
        trackers: if v.trackers.contains_key(tx.0) {
            v.trackers.remove(tx.0)
        } else {
            v.trackers
        },
        ..v
    }) && out =~= Seq::<Event>::empty()
}

/// Effect of a wire message on the transient channel for `tx`: the
/// exact drop instruction ends the negotiation with a cleanup notice;
/// a `CleanConnection` for any other combination is ignored; any other
/// payload aborts only this negotiation.
pub open spec fn transient_msg_post(v: CoordView, tx: Transaction, m: NetMessage,
    post: CoordView, out: Seq<Event>) -> bool {
    if v.transient.contains_key(tx.0) {
        let t = v.transient[tx.0];
        if is_clean_connection_for(m, t.tx, t.joiner) {
            post == (CoordView {
                transient: v.transient.remove(tx.0),
                connecting: clear_slot(v.connecting, t.joiner.addr, tx),
                ..v
            }) && out =~= seq![Event::RemoveTransaction(tx)]
        } else if is_clean_connection_shaped(m) {
            post == v && out =~= Seq::<Event>::empty()
        } else {
            post == (CoordView {
                transient: v.transient.remove(tx.0),
                connecting: clear_slot(v.connecting, t.joiner.addr, tx),
                ..v
            }) && out =~= seq![Event::InboundConnectionRejected { peer_id: t.joiner, tx }]
        }
    } else {
        post == v && out =~= Seq::<Event>::empty()
    }
}

/// Effect of the reply to a forwarded join: the transient record
/// resolves, the joiner is admitted or rejected as the reply says. A
/// reply for an unknown transaction is stale and is discarded.
pub open spec fn transient_reply_post(v: CoordView, tx: Transaction, accepted: bool,
    conn: PeerConnection, post: CoordView, out: Seq<Event>) -> bool {
    if v.transient.contains_key(tx.0) {
        let t = v.transient[tx.0];
        let kj = addr_key(t.joiner.addr);
        if accepted {
            post == (CoordView {
                transient: v.transient.remove(tx.0),
                connecting: v.connecting.remove(kj),
                connected: v.connected.insert(kj),
                ..v
            }) && out =~= seq![
                Event::InboundConnection { id: tx, conn, joiner: t.joiner, forward_info: None },
            ]
        } else {
            post == (CoordView {
                transient: v.transient.remove(tx.0),
                connecting: clear_slot(v.connecting, t.joiner.addr, tx),
                ..v
            }) && out =~= seq![Event::InboundConnectionRejected { peer_id: t.joiner, tx }]
        }
    } else {
        post == v && out =~= Seq::<Event>::empty()
    }
}

/// Effect of a join request at a gateway: a duplicate transaction is
/// only cleaned up; with no eligible forward target the request is
/// answered on the spot as `accept` says; otherwise it is relayed to
/// the selected targets, the joiner's attempt takes the `connecting`
/// slot for its address (unless that address is already connected),
/// a transient record waits for the replies, and the joiner's channel
/// is handed back.
pub open spec fn join_post(v: CoordView, req: InboundGwJoinRequest, candidates: Seq<PeerId>,
    accept: bool, post: CoordView, out: Seq<Event>, retained: Option<PeerConnection>) -> bool {
    let kj = addr_key(req.joiner.addr);
    let targets = take_at_most(
        eligible_of(candidates, req.skip_list@, req.joiner, v.this_peer),
        req.hops_to_live,
    );
    if active(v, req.id) {
        post == v && out =~= seq![Event::RemoveTransaction(req.id)] && retained is None
    } else if targets.len() == 0 {
        if accept {
            post == (CoordView {
                connecting: v.connecting.remove(kj),
                connected: v.connected.insert(kj),
                ..v
            }) && out =~= seq![
                Event::InboundConnection {
                    id: req.id,
                    conn: req.conn,
                    joiner: req.joiner,
                    forward_info: None,
                },
            ] && retained is None
        } else {
            post == v && out =~= seq![
                Event::InboundConnectionRejected { peer_id: req.joiner, tx: req.id },
            ] && retained is None
        }
    } else {
        &&& post.connecting == (if v.connected.contains(kj) {
            v.connecting
        } else {
            v.connecting.insert(kj, req.id)
        })
        &&& post.connected == v.connected
        &&& post.dials == v.dials
        &&& post.trackers == v.trackers
        &&& post.this_peer == v.this_peer
        &&& post.transient.contains_key(req.id.0)
        &&& post.transient == v.transient.insert(req.id.0, post.transient[req.id.0])
        &&& ({
            let t = post.transient[req.id.0];
            t.tx == req.id && t.joiner == req.joiner && t.max_hops_to_live == req.max_hops_to_live
                && t.hops_to_live == req.hops_to_live && t.skip_list@ == req.skip_list@
        })
        &&& out.len() == targets.len()
        &&& forall|i: int|
            0 <= i < targets.len() ==> is_forward_of_request(
                #[trigger] out[i],
                req,
                targets[i],
                v.this_peer,
            )
        &&& retained == Some(req.conn)
    }
}

/// The handshake coordinator's bookkeeping. One value of this type is
/// owned by the event loop; nothing else mutates it.
pub struct HandshakeHandler {
    /// This node's own identity.
    pub this_peer: PeerId,
    /// Tracks ongoing connection attempts by their packed remote
    /// address.
    pub connecting: HashMapWithView<u64, Transaction>,
    /// Packed addresses of established connections.
    pub connected: HashSetWithView<u64>,
    /// Transport dials in flight, keyed by transaction number.
    pub dials: HashMapWithView<u64, DialState>,
    /// Gateway-admission tallies, keyed by transaction number.
    pub trackers: HashMapWithView<u64, AcceptedTracker>,
    /// Forwarded joins awaiting replies, keyed by transaction number.
    pub transient: HashMapWithView<u64, TransientConnection>,
}

impl View for HandshakeHandler {
    type V = CoordView;

    open spec fn view(&self) -> CoordView {
        CoordView {
            this_peer: self.this_peer,
            connecting: self.connecting@,
            connected: self.connected@,
            dials: self.dials@,
            trackers: self.trackers@,
            transient: self.transient@,
        }
    }
}

impl HandshakeHandler {
    /// The coordinator's invariant, established by [`HandshakeHandler::new`]
    /// and preserved by every transition.
    pub open spec fn wf(&self) -> bool {
        wf_view(self@)
    }

    /// A coordinator for `this_peer` with no negotiation in flight.
    pub fn new(this_peer: PeerId) -> (r: Self)
        ensures
            r.wf(),
            r@.this_peer == this_peer,
            r@.connecting == Map::<u64, Transaction>::empty(),
            r@.connected == Set::<u64>::empty(),
            r@.dials == Map::<u64, DialState>::empty(),
            r@.trackers == Map::<u64, AcceptedTracker>::empty(),
            r@.transient == Map::<u64, TransientConnection>::empty(),
    {
        HandshakeHandler {
            this_peer,
            connecting: HashMapWithView::new(),
            connected: HashSetWithView::new(),
            dials: HashMapWithView::new(),
            trackers: HashMapWithView::new(),
            transient: HashMapWithView::new(),
        }
    }

    /// An `Establish{peer, tx, is_gw}` command: start a new outbound
    /// negotiation unless the transaction is already in flight (then
    /// the duplicate request is an idempotent no-op) or the address is
    /// already connected (then the transaction is only cleaned up).
    /// A request for an address that another transaction is
    /// negotiating is accepted; the newer attempt takes over the
    /// `connecting` slot while the older dial keeps running.
    pub fn handle_establish(&mut self, peer: PeerId, tx: Transaction, is_gw: bool) -> (r: (
        Vec<Event>,
        Option<DialRequest>,
    ))
        requires
            old(self).wf(),
        ensures
            final(self).wf(),
            establish_post(old(self)@, peer, tx, is_gw, final(self)@, r.0@, r.1),
            step_ok(
                old(self)@,
                StepInput::Command(ExternConnection::Establish { peer, tx, is_gw }),
                final(self)@,
                r.0@,
            ),
    {
        let tk = tx.0;
        let in_flight = self.dials.contains_key(&tk) || self.trackers.contains_key(&tk)
            || self.transient.contains_key(&tk);
        if in_flight {
            let out: Vec<Event> = Vec::new();
            proof {
                lemma_count_terminal_all_non_terminal(out@);
                assert(self@.trackers == old(self)@.trackers);
                assert(self@.transient == old(self)@.transient);
                assert(self@.dials == old(self)@.dials);
                assert(self@.connecting == old(self)@.connecting);
                assert(self@.connected == old(self)@.connected);
            }
            (out, None)
        } else {
            let ka = peer.addr.key();
            if self.connected.contains(&ka) {
                let mut out: Vec<Event> = Vec::new();
                out.push(Event::RemoveTransaction(tx));
                proof {
                    lemma_count_terminal_all_non_terminal(out@);
                    assert(out@ =~= seq![Event::RemoveTransaction(tx)]);
                    assert(self@.trackers == old(self)@.trackers);
                    assert(self@.transient == old(self)@.transient);
                    assert(self@.dials == old(self)@.dials);
                    assert(self@.connecting == old(self)@.connecting);
                    assert(self@.connected == old(self)@.connected);
                }
                (out, None)
            } else {
                self.connecting.insert(ka, tx);
                self.dials.insert(tk, DialState { peer, is_gw });
                let out: Vec<Event> = Vec::new();
                proof {
                    lemma_count_terminal_all_non_terminal(out@);
                    assert(self@.trackers == old(self)@.trackers);
                    assert(self@.transient == old(self)@.transient);
                    assert(self@.dials == old(self)@.dials.insert(tx.0, DialState { peer, is_gw }));
                    assert(self@.connecting == old(self)@.connecting.insert(
                        addr_key(peer.addr),
                        tx,
                    ));
                    assert(self@.connected == old(self)@.connected);
                    assert forall|k: u64| #[trigger] self@.connecting.contains_key(k)
                        implies !self@.connected.contains(k) by {
                        if k != addr_key(peer.addr) {
                            assert(old(self)@.connecting.contains_key(k));
                        }
                    }
                    assert forall|k: u64| #[trigger] self@.dials.contains_key(k)
                        implies !self@.trackers.contains_key(k) && !self@.transient.contains_key(
                        k,
                    ) by {
                        if k != tx.0 {
                            assert(old(self)@.dials.contains_key(k));
                        }
                    }
                    assert forall|t: Transaction| #[trigger] active(self@, t) implies active(
                        old(self)@,
                        t,
                    ) || activates(
                        StepInput::Command(ExternConnection::Establish { peer, tx, is_gw }),
                        t,
                    ) by {
                        if t.0 != tx.0 {
                            assert(active(old(self)@, t));
                        } else {
                            assert(t == tx);
                        }
                    }
                }
                (out, Some(DialRequest { peer, tx, is_gw }))
            }
        }
    }

    /// A `Dropped{peer}` command: release the bookkeeping held for the
    /// peer's address — the attempt negotiating it with its dial, vote
    /// tally or transient record, and the established connection.
    /// Idempotent — see [`lemma_drop_idempotent`]. A record already
    /// superseded by a newer transaction to the same address resolves
    /// through its own transition.
    pub fn handle_dropped(&mut self, peer: PeerId)
        requires
            old(self).wf(),
        ensures
            final(self).wf(),
            final(self)@ == drop_addr_spec(old(self)@, peer.addr),
            step_ok(
                old(self)@,
                StepInput::Command(ExternConnection::Dropped { peer }),
                final(self)@,
                Seq::<Event>::empty(),
            ),
    {
        self.drop_addr(peer.addr);
        proof {
            lemma_count_terminal_all_non_terminal(Seq::<Event>::empty());
        }
    }

    /// A transport dial to a regular peer succeeded. If the dial is
    /// still the attempt negotiating its address, the address moves
    /// from `connecting` to `connected` and the success is emitted;
    /// a dial that was superseded or torn down meanwhile only has its
    /// transaction cleaned up, and the channel is discarded.
    pub fn on_outbound_conn_established(&mut self, peer: PeerId, tx: Transaction,
        conn: PeerConnection) -> (r: Vec<Event>)
        requires
            old(self).wf(),
        ensures
            final(self).wf(),
            outbound_established_post(old(self)@, peer, tx, conn, final(self)@, r@),
            step_ok(
                old(self)@,
                StepInput::Internal(InternalEvent::OutboundConnEstablished(peer, tx, conn)),
                final(self)@,
                r@,
            ),
    {
        let tk = tx.0;
        let ka = peer.addr.key();
        let was_dialing = self.dials.remove(&tk).is_some();
        let cur_match = match self.connecting.get(&ka) {
            Some(t) => *t == tx,
            None => false,
        };
        let mut out: Vec<Event> = Vec::new();
        if was_dialing && cur_match {
            self.connecting.remove(&ka);
            self.connected.insert(ka);
            out.push(Event::OutboundConnectionSuccessful { peer_id: peer, tx, connection: conn });
            proof {
                lemma_count_terminal_one(out@[0]);
                assert(out@ =~= seq![out@[0]]);
                assert(self@.trackers == old(self)@.trackers);
                assert(self@.transient == old(self)@.transient);
                assert(self@.dials == old(self)@.dials.remove(tx.0));
                assert(self@.connecting == old(self)@.connecting.remove(ka));
                assert(self@.connected == old(self)@.connected.insert(ka));
                assert forall|k: u64| #[trigger] self@.connecting.contains_key(k)
                    implies !self@.connected.contains(k) by {
                    assert(old(self)@.connecting.contains_key(k));
                    if k != ka {
                        assert(!old(self)@.connected.contains(k));
                    }
                }
                assert forall|k: u64| #[trigger] self@.dials.contains_key(k)
                    implies !self@.trackers.contains_key(k) && !self@.transient.contains_key(
                    k,
                ) by {
                    assert(old(self)@.dials.contains_key(k));
                }
                assert(!active(self@, tx));
                assert forall|t: Transaction| #[trigger] active(self@, t) implies active(
                    old(self)@,
                    t,
                ) by {}
            }
        } else {
            out.push(Event::RemoveTransaction(tx));
            proof {
                lemma_count_terminal_all_non_terminal(out@);
                assert(self@.trackers == old(self)@.trackers);
                assert(self@.transient == old(self)@.transient);
                assert(self@.dials =~= old(self)@.dials.remove(tx.0));
                assert(self@.connecting == old(self)@.connecting);
                assert(self@.connected == old(self)@.connected);
                assert forall|k: u64| #[trigger] self@.dials.contains_key(k)
                    implies !self@.trackers.contains_key(k) && !self@.transient.contains_key(
                    k,
                ) by {
                    assert(old(self)@.dials.contains_key(k));
                }
                assert forall|t: Transaction| #[trigger] active(self@, t) implies active(
                    old(self)@,
                    t,
                ) by {}
            }
        }
        out
    }

    /// A transport dial failed. The failure is surfaced once, for
    /// exactly the transaction that dialed; an attempt by a different
    /// transaction to the same address, racing concurrently, keeps its
    /// `connecting` slot and is unaffected. A failure for a dial
    /// already torn down is discarded without an event.
    pub fn on_outbound_conn_failed(&mut self, peer: PeerId, tx: Transaction,
        error: TransportError) -> (r: Vec<Event>)
        requires
            old(self).wf(),
        ensures
            final(self).wf(),
            outbound_failed_post(old(self)@, peer, tx, error, final(self)@, r@),
            step_ok(
                old(self)@,
                StepInput::Internal(InternalEvent::OutboundConnFailed(peer, tx, error)),
                final(self)@,
                r@,
            ),
    {
        let tk = tx.0;
        let ka = peer.addr.key();
        let mut out: Vec<Event> = Vec::new();
        if self.dials.remove(&tk).is_some() {
            let cur_match = match self.connecting.get(&ka) {
                Some(t) => *t == tx,
                None => false,
            };
            if cur_match {
                self.connecting.remove(&ka);
            }
            out.push(
                Event::OutboundConnectionFailed {
                    peer_id: peer,
                    tx,
                    error: HandshakeError::TransportError(error),
                },
            );
            proof {
                lemma_count_terminal_one(out@[0]);
                assert(out@ =~= seq![out@[0]]);
                assert(self@.trackers == old(self)@.trackers);
                assert(self@.transient == old(self)@.transient);
                assert(self@.dials == old(self)@.dials.remove(tx.0));
                assert(self@.connected == old(self)@.connected);
                assert forall|k: u64| #[trigger] self@.connecting.contains_key(k)
                    implies !self@.connected.contains(k) by {
                    assert(old(self)@.connecting.contains_key(k));
                }
                assert forall|k: u64| #[trigger] self@.dials.contains_key(k)
                    implies !self@.trackers.contains_key(k) && !self@.transient.contains_key(
                    k,
                ) by {
                    assert(old(self)@.dials.contains_key(k));
                }
                assert(!active(self@, tx));
                assert forall|t: Transaction| #[trigger] active(self@, t) implies active(
                    old(self)@,
                    t,
                ) by {}
            }
        } else {
            proof {
                lemma_count_terminal_all_non_terminal(out@);
                assert(self@.trackers == old(self)@.trackers);
                assert(self@.transient == old(self)@.transient);
                assert(self@.dials == old(self)@.dials);
                assert(self@.connecting == old(self)@.connecting);
                assert(self@.connected == old(self)@.connected);
            }
        }
        out
    }

    /// A transport dial to a gateway succeeded: if the dial is still
    /// the attempt negotiating its address, the multi-hop admission
    /// begins — a vote tally is created with
    /// `total_checks = max_hops_to_live` and the attempt waits for
    /// acceptance polling; with no checks to make, nothing can vouch
    /// for this peer and the attempt is rejected at once. A dial
    /// superseded or torn down meanwhile only has its transaction
    /// cleaned up, and the channel is discarded.
    pub fn on_outbound_gw_conn_established(&mut self, peer: PeerId, tx: Transaction,
        conn: PeerConnection, max_hops_to_live: usize) -> (r: Vec<Event>)
        requires
            old(self).wf(),
        ensures
            final(self).wf(),
            gw_established_post(old(self)@, peer, tx, conn, max_hops_to_live, final(self)@, r@),
            step_ok(
                old(self)@,
                StepInput::Internal(
                    InternalEvent::OutboundGwConnEstablished(peer, tx, conn, max_hops_to_live),
                ),
                final(self)@,
                r@,
            ),
    {
        let tk = tx.0;
        let ka = peer.addr.key();
        let mut out: Vec<Event> = Vec::new();
        let was_dialing = self.dials.remove(&tk).is_some();
        let cur_match = match self.connecting.get(&ka) {
            Some(t) => *t == tx,
            None => false,
        };
        if was_dialing && cur_match {
            if max_hops_to_live == 0 {
                self.connecting.remove(&ka);
                out.push(Event::OutboundGatewayConnectionRejected { peer_id: peer, tx });
                proof {
                    lemma_count_terminal_one(out@[0]);
                    assert(out@ =~= seq![out@[0]]);
                    assert(self@.trackers == old(self)@.trackers);
                    assert(self@.transient == old(self)@.transient);
                    assert(self@.dials == old(self)@.dials.remove(tx.0));
                    assert(self@.connecting == old(self)@.connecting.remove(ka));
                    assert(self@.connected == old(self)@.connected);
                    assert forall|k: u64| #[trigger] self@.connecting.contains_key(k)
                        implies !self@.connected.contains(k) by {
                        assert(old(self)@.connecting.contains_key(k));
                    }
                    assert forall|k: u64| #[trigger] self@.dials.contains_key(k)
                        implies !self@.trackers.contains_key(k) && !self@.transient.contains_key(
                        k,
                    ) by {
                        assert(old(self)@.dials.contains_key(k));
                    }
                    assert(!active(self@, tx));
                    assert forall|t: Transaction| #[trigger] active(self@, t) implies active(
                        old(self)@,
                        t,
                    ) by {}
                }
            } else {
                let tracker = AcceptedTracker::new(
                    PeerKeyLocation { peer },
                    conn,
                    tx,
                    max_hops_to_live,
                );
                self.trackers.insert(tk, tracker);
                proof {
                    lemma_count_terminal_all_non_terminal(out@);
                    assert(self@.transient == old(self)@.transient);
                    assert(self@.dials == old(self)@.dials.remove(tx.0));
                    assert(self@.trackers == old(self)@.trackers.insert(
                        tx.0,
                        AcceptedTracker {
                            gw_peer: PeerKeyLocation { peer },
                            gw_conn: conn,
                            gw_accepted_processed: false,
                            gw_accepted: false,
                            remaining_checks: max_hops_to_live,
                            accepted: 0,
                            total_checks: max_hops_to_live,
                            tx,
                        },
                    ));
                    assert(self@.connecting == old(self)@.connecting);
                    assert(self@.connected == old(self)@.connected);
                    assert forall|k: u64| #[trigger] self@.trackers.contains_key(k)
                        implies self@.trackers[k].wf() && self@.trackers[k].remaining_checks >= 1
                        && self@.trackers[k].tx.0 == k by {
                        if k != tx.0 {
                            assert(old(self)@.trackers.contains_key(k));
                        }
                    }
                    assert forall|k: u64| #[trigger] self@.dials.contains_key(k)
                        implies !self@.trackers.contains_key(k) && !self@.transient.contains_key(
                        k,
                    ) by {
                        assert(old(self)@.dials.contains_key(k));
                        assert(k != tx.0);
                    }
                    assert forall|k: u64| #[trigger] self@.trackers.contains_key(k)
                        implies !self@.transient.contains_key(k) by {
                        if k != tx.0 {
                            assert(old(self)@.trackers.contains_key(k));
                        } else {
                            assert(!old(self)@.transient.contains_key(k));
                        }
                    }
                    assert forall|t: Transaction| #[trigger] active(self@, t) implies active(
                        old(self)@,
                        t,
                    ) by {
                        if t.0 == tx.0 {
                            assert(t == tx);
                            assert(old(self)@.dials.contains_key(t.0));
                        }
                    }
                }
            }
        } else {
            out.push(Event::RemoveTransaction(tx));
            proof {
                lemma_count_terminal_all_non_terminal(out@);
                assert(self@.trackers == old(self)@.trackers);
                assert(self@.transient == old(self)@.transient);
                assert(self@.dials =~= old(self)@.dials.remove(tx.0));
                assert(self@.connecting == old(self)@.connecting);
                assert(self@.connected == old(self)@.connected);
                assert forall|k: u64| #[trigger] self@.dials.contains_key(k)
                    implies !self@.trackers.contains_key(k) && !self@.transient.contains_key(
                    k,
                ) by {
                    assert(old(self)@.dials.contains_key(k));
                }
                assert forall|t: Transaction| #[trigger] active(self@, t) implies active(
                    old(self)@,
                    t,
                ) by {}
            }
        }
        out
    }

    /// A probed peer replied to an acceptance check: the vote is
    /// counted, and when the last check resolves the admission is
    /// finalized — exactly once — as admitted or rejected under the
    /// policy of [`AcceptedTracker::admitted`]. A vote for an unknown
    /// transaction is a stale reply and is discarded.
    pub fn on_remote_connection_attempt(&mut self, remote: PeerId, tx: Transaction,
        accepted: bool) -> (r: Vec<Event>)
        requires
            old(self).wf(),
        ensures
            final(self).wf(),
            vote_post(old(self)@, tx, accepted, final(self)@, r@),
            step_ok(
                old(self)@,
                StepInput::Internal(InternalEvent::RemoteConnectionAttempt { remote, tx, accepted }),
                final(self)@,
                r@,
            ),
    {
        let tk = tx.0;
        let mut out: Vec<Event> = Vec::new();
        let taken = self.trackers.remove(&tk);
        match taken {
            Some(mut t) => {
                proof {
                    assert(old(self)@.trackers.contains_key(tx.0));
                    assert(t == old(self)@.trackers[tx.0]);
                }
                t.register_vote(accepted);
                if t.remaining_checks == 0 {
                    let gw = t.gw_peer.peer;
                    let ka = gw.addr.key();
                    let admitted = t.is_admitted();
                    if admitted {
                        self.connecting.remove(&ka);
                        self.connected.insert(ka);
                        let connection = t.gw_conn;
                        out.push(
                            Event::OutboundGatewayConnectionSuccessful {
                                peer_id: gw,
                                tx,
                                connection,
                                remaining_checks: 0,
                            },
                        );
                        proof {
                            lemma_count_terminal_one(out@[0]);
                            assert(out@ =~= seq![out@[0]]);
                            assert(self@.transient == old(self)@.transient);
                            assert(self@.dials == old(self)@.dials);
                            assert(self@.trackers == old(self)@.trackers.remove(tx.0));
                            assert(self@.connecting == old(self)@.connecting.remove(ka));
                            assert(self@.connected == old(self)@.connected.insert(ka));
                            assert forall|k: u64| #[trigger] self@.connecting.contains_key(k)
                                implies !self@.connected.contains(k) by {
                                assert(old(self)@.connecting.contains_key(k));
                                if k != ka {
                                    assert(!old(self)@.connected.contains(k));
                                }
                            }
                            assert forall|k: u64| #[trigger] self@.trackers.contains_key(k)
                                implies self@.trackers[k].wf()
                                && self@.trackers[k].remaining_checks >= 1
                                && self@.trackers[k].tx.0 == k by {
                                assert(old(self)@.trackers.contains_key(k));
                            }
                            assert(!active(self@, tx));
                            assert forall|t2: Transaction| #[trigger] active(self@, t2)
                                implies active(old(self)@, t2) by {}
                        }
                    } else {
                        let cur_match = match self.connecting.get(&ka) {
                            Some(c) => *c == tx,
                            None => false,
                        };
                        if cur_match {
                            self.connecting.remove(&ka);
                        }
                        out.push(Event::OutboundGatewayConnectionRejected { peer_id: gw, tx });
                        proof {
                            lemma_count_terminal_one(out@[0]);
                            assert(out@ =~= seq![out@[0]]);
                            assert(self@.transient == old(self)@.transient);
                            assert(self@.dials == old(self)@.dials);
                            assert(self@.trackers == old(self)@.trackers.remove(tx.0));
                            assert(self@.connected == old(self)@.connected);
                            assert forall|k: u64| #[trigger] self@.connecting.contains_key(k)
                                implies !self@.connected.contains(k) by {
                                assert(old(self)@.connecting.contains_key(k));
                            }
                            assert forall|k: u64| #[trigger] self@.trackers.contains_key(k)
                                implies self@.trackers[k].wf()
                                && self@.trackers[k].remaining_checks >= 1
                                && self@.trackers[k].tx.0 == k by {
                                assert(old(self)@.trackers.contains_key(k));
                            }
                            assert(!active(self@, tx));
                            assert forall|t2: Transaction| #[trigger] active(self@, t2)
                                implies active(old(self)@, t2) by {}
                        }
                    }
                } else {
                    self.trackers.insert(tk, t);
                    proof {
                        lemma_count_terminal_all_non_terminal(out@);
                        assert(self@.transient == old(self)@.transient);
                        assert(self@.dials == old(self)@.dials);
                        assert(self@.connecting == old(self)@.connecting);
                        assert(self@.connected == old(self)@.connected);
                        assert(self@.trackers == old(self)@.trackers.insert(tx.0, t));
                        assert forall|k: u64| #[trigger] self@.trackers.contains_key(k)
                            implies self@.trackers[k].wf() && self@.trackers[k].remaining_checks
                            >= 1 && self@.trackers[k].tx.0 == k by {
                            if k != tx.0 {
                                assert(old(self)@.trackers.contains_key(k));
                            }
                        }
                        assert forall|k: u64| #[trigger] self@.trackers.contains_key(k)
                            implies !self@.transient.contains_key(k) by {
                            if k != tx.0 {
                                assert(old(self)@.trackers.contains_key(k));
                            } else {
                                assert(!old(self)@.transient.contains_key(k));
                            }
                        }
                        assert forall|k: u64| #[trigger] self@.dials.contains_key(k)
                            implies !self@.trackers.contains_key(k) && !self@.transient.contains_key(
                            k,
                        ) by {
                            assert(old(self)@.dials.contains_key(k));
                        }
                        assert forall|t2: Transaction| #[trigger] active(self@, t2) implies active(
                            old(self)@,
                            t2,
                        ) by {
                            if t2.0 == tx.0 {
                                assert(old(self)@.trackers.contains_key(t2.0));
                            }
                        }
                    }
                }
            },
            None => {
                proof {
                    lemma_count_terminal_all_non_terminal(out@);
                    assert(self@.trackers == old(self)@.trackers);
                    assert(self@.transient == old(self)@.transient);
                    assert(self@.dials == old(self)@.dials);
                    assert(self@.connecting == old(self)@.connecting);
                    assert(self@.connected == old(self)@.connected);
                }
            },
        }
        out
    }

    /// The gateway itself confirmed the admission, not just a
    /// third-party vote: the tally records the gateway's decision and
    /// that it has been applied. Checks still unresolved keep the
    /// admission open; finalization happens when the last of them
    /// resolves.
    pub fn on_gw_conn_confirmed(&mut self, tx: Transaction) -> (r: Vec<Event>)
        requires
            old(self).wf(),
        ensures
            final(self).wf(),
            gw_confirmed_post(old(self)@, tx, final(self)@, r@),
            step_ok(
                old(self)@,
                StepInput::Internal(InternalEvent::OutboundGwConnConfirmed(tx)),
                final(self)@,
                r@,
            ),
    {
        let tk = tx.0;
        let out: Vec<Event> = Vec::new();
        let taken = self.trackers.remove(&tk);
        match taken {
            Some(mut t) => {
                proof {
                    assert(old(self)@.trackers.contains_key(tx.0));
                    assert(t == old(self)@.trackers[tx.0]);
                }
                t.confirm_gateway();
                self.trackers.insert(tk, t);
                proof {
                    lemma_count_terminal_all_non_terminal(out@);
                    assert(self@.transient == old(self)@.transient);
                    assert(self@.dials == old(self)@.dials);
                    assert(self@.connecting == old(self)@.connecting);
                    assert(self@.connected == old(self)@.connected);
                    assert(self@.trackers == old(self)@.trackers.insert(tx.0, t));
                    assert forall|k: u64| #[trigger] self@.trackers.contains_key(k)
                        implies self@.trackers[k].wf() && self@.trackers[k].remaining_checks >= 1
                        && self@.trackers[k].tx.0 == k by {
                        if k != tx.0 {
                            assert(old(self)@.trackers.contains_key(k));
                        }
                    }
                    assert forall|k: u64| #[trigger] self@.trackers.contains_key(k)
                        implies !self@.transient.contains_key(k) by {
                        if k != tx.0 {
                            assert(old(self)@.trackers.contains_key(k));
                        } else {
                            assert(!old(self)@.transient.contains_key(k));
                        }
                    }
                    assert forall|k: u64| #[trigger] self@.dials.contains_key(k)
                        implies !self@.trackers.contains_key(k) && !self@.transient.contains_key(
                        k,
                    ) by {
                        assert(old(self)@.dials.contains_key(k));
                    }
                    assert forall|t2: Transaction| #[trigger] active(self@, t2) implies active(
                        old(self)@,
                        t2,
                    ) by {
                        if t2.0 == tx.0 {
                            assert(old(self)@.trackers.contains_key(t2.0));
                        }
                    }
                }
            },
            None => {
                proof {
                    lemma_count_terminal_all_non_terminal(out@);
                    assert(self@.trackers == old(self)@.trackers);
                    assert(self@.transient == old(self)@.transient);
                    assert(self@.dials == old(self)@.dials);
                    assert(self@.connecting == old(self)@.connecting);
                    assert(self@.connected == old(self)@.connected);
                }
            },
        }
        out
    }

    /// The previous probe settled and budget may remain: when the
    /// admission identified by `tx` is still open, the next
    /// connectivity check is issued to `candidate`, a ring member the
    /// router selected.
    pub fn on_next_check(&self, tx: Transaction, candidate: PeerId) -> (r: Option<ForwardInfo>)
        ensures
            next_check_post(self@, tx, candidate, r),
    {
        if self.trackers.contains_key(&tx.0) {
            Some(
                ForwardInfo {
                    target: candidate,
                    msg: NetMessage::V1(
                        NetMessageV1::Connect(
                            ConnectMsg::Request {
                                id: tx,
                                msg: ConnectRequest::CheckConnectivity {
                                    joiner: PeerKeyLocation { peer: self.this_peer },
                                },
                            },
                        ),
                    ),
                },
            )
        } else {
            None
        }
    }

    /// An admission resolved elsewhere: its tally, if one is still
    /// held, is discarded without an event.
    pub fn on_finished_outbound_conn_process(&mut self, tx: Transaction) -> (r: Vec<Event>)
        requires
            old(self).wf(),
        ensures
            final(self).wf(),
            finished_post(old(self)@, tx, final(self)@, r@),
            step_ok(
                old(self)@,
                StepInput::Internal(InternalEvent::FinishedOutboundConnProcess(tx)),
                final(self)@,
                r@,
            ),
    {
        self.trackers.remove(&tx.0);
        let out: Vec<Event> = Vec::new();
        proof {
            lemma_count_terminal_all_non_terminal(out@);
            assert(self@.transient == old(self)@.transient);
            assert(self@.dials == old(self)@.dials);
            assert(self@.connecting == old(self)@.connecting);
            assert(self@.connected == old(self)@.connected);
            assert forall|k: u64| #[trigger] self@.trackers.contains_key(k)
                implies self@.trackers[k].wf() && self@.trackers[k].remaining_checks >= 1
                && self@.trackers[k].tx.0 == k by {
                assert(old(self)@.trackers.contains_key(k));
            }
            assert forall|t2: Transaction| #[trigger] active(self@, t2) implies active(
                old(self)@,
                t2,
            ) by {}
        }
        out
    }

    /// Peer-initiated or policy-driven teardown of an inbound channel:
    /// all bookkeeping for the address is released, idempotently, and
    /// the channel itself is closed by the surrounding loop.
    pub fn on_drop_inbound_connection(&mut self, addr: Address) -> (r: Vec<Event>)
        requires
            old(self).wf(),
        ensures
            final(self).wf(),
            final(self)@ == drop_addr_spec(old(self)@, addr),
            r@ =~= Seq::<Event>::empty(),
            step_ok(
                old(self)@,
                StepInput::Internal(InternalEvent::DropInboundConnection(addr)),
                final(self)@,
                r@,
            ),
    {
        self.drop_addr(addr);
        let out: Vec<Event> = Vec::new();
        proof {
            lemma_count_terminal_all_non_terminal(out@);
        }
        out
    }

    /// A gateway received a join request from a new joiner. With hop
    /// budget left and an eligible candidate among those the router
    /// offers, the request is relayed onward — one hop less to live,
    /// this peer on the skip list — and a transient record waits for
    /// the replies while the joiner's channel is handed back to the
    /// loop. With no budget or no eligible candidate it is answered on
    /// the spot, admitted or rejected as the connection manager's
    /// policy says. A request whose transaction is already tracked is
    /// a duplicate and is only cleaned up.
    pub fn on_inbound_gw_join_request(&mut self, req: InboundGwJoinRequest,
        candidates: &Vec<PeerId>, accept: bool) -> (r: (Vec<Event>, Option<PeerConnection>))
        requires
            old(self).wf(),
        ensures
            final(self).wf(),
            join_post(old(self)@, req, candidates@, accept, final(self)@, r.0@, r.1),
            step_ok(
                old(self)@,
                StepInput::Internal(InternalEvent::InboundGwJoinRequest(req)),
                final(self)@,
                r.0@,
            ),
    {
        let tk = req.id.0;
        let in_flight = self.dials.contains_key(&tk) || self.trackers.contains_key(&tk)
            || self.transient.contains_key(&tk);
        let mut out: Vec<Event> = Vec::new();
        if in_flight {
            out.push(Event::RemoveTransaction(req.id));
            proof {
                lemma_count_terminal_all_non_terminal(out@);
                assert(self@.trackers == old(self)@.trackers);
                assert(self@.transient == old(self)@.transient);
                assert(self@.dials == old(self)@.dials);
                assert(self@.connecting == old(self)@.connecting);
                assert(self@.connected == old(self)@.connected);
            }
            (out, None)
        } else {
            let tp = self.this_peer;
            let targets = select_forward_targets(
                candidates,
                &req.skip_list,
                req.joiner,
                tp,
                req.hops_to_live,
            );
            if targets.len() == 0 {
                if accept {
                    let kj = req.joiner.addr.key();
                    self.connecting.remove(&kj);
                    self.connected.insert(kj);
                    out.push(
                        Event::InboundConnection {
                            id: req.id,
                            conn: req.conn,
                            joiner: req.joiner,
                            forward_info: None,
                        },
                    );
                    proof {
                        lemma_count_terminal_one(out@[0]);
                        assert(out@ =~= seq![out@[0]]);
                        assert(self@.trackers == old(self)@.trackers);
                        assert(self@.transient == old(self)@.transient);
                        assert(self@.dials == old(self)@.dials);
                        assert(self@.connecting == old(self)@.connecting.remove(
                            addr_key(req.joiner.addr),
                        ));
                        assert(self@.connected == old(self)@.connected.insert(
                            addr_key(req.joiner.addr),
                        ));
                        assert forall|k: u64| #[trigger] self@.connecting.contains_key(k)
                            implies !self@.connected.contains(k) by {
                            assert(old(self)@.connecting.contains_key(k));
                            if k != addr_key(req.joiner.addr) {
                                assert(!old(self)@.connected.contains(k));
                            }
                        }
                        assert(!active(self@, req.id));
                        assert forall|t: Transaction| #[trigger] active(self@, t) implies active(
                            old(self)@,
                            t,
                        ) by {}
                    }
                    (out, None)
                } else {
                    out.push(
                        Event::InboundConnectionRejected { peer_id: req.joiner, tx: req.id },
                    );
                    proof {
                        lemma_count_terminal_one(out@[0]);
                        assert(out@ =~= seq![out@[0]]);
                        assert(self@.trackers == old(self)@.trackers);
                        assert(self@.transient == old(self)@.transient);
                        assert(self@.dials == old(self)@.dials);
                        assert(self@.connecting == old(self)@.connecting);
                        assert(self@.connected == old(self)@.connected);
                        assert(!active(self@, req.id));
                    }
                    (out, None)
                }
            } else {
                proof {
                    if req.hops_to_live == 0 {
                        assert(targets@.len() == 0);
                    }
                }
                let skip_copy = copy_peers(&req.skip_list);
                self.transient.insert(
                    tk,
                    TransientConnection {
                        tx: req.id,
                        joiner: req.joiner,
                        max_hops_to_live: req.max_hops_to_live,
                        hops_to_live: req.hops_to_live,
                        skip_list: skip_copy,
                    },
                );
                let kj = req.joiner.addr.key();
                if !self.connected.contains(&kj) {
                    self.connecting.insert(kj, req.id);
                }
                let mut i: usize = 0;
                while i < targets.len()
                    invariant
                        0 <= i <= targets@.len(),
                        out@.len() == i,
                        req.hops_to_live > 0,
                        forall|j: int|
                            0 <= j < i ==> is_forward_of_request(
                                #[trigger] out@[j],
                                req,
                                targets@[j],
                                tp,
                            ),
                    decreases targets@.len() - i,
                {
                    let target = targets[i];
                    let msg = make_forward_msg(&req, tp);
                    out.push(
                        Event::TransientForwardTransaction {
                            target: target.addr,
                            tx: req.id,
                            forward_to: target,
                            msg: Box::new(msg),
                        },
                    );
                    i = i + 1;
                }
                proof {
                    assert forall|j: int|
                        0 <= j < out@.len() implies terminal_tx(#[trigger] out@[j]) is None by {
                        assert(is_forward_of_request(out@[j], req, targets@[j], tp));
                    }
                    lemma_count_terminal_all_non_terminal(out@);
                    assert(self@.trackers == old(self)@.trackers);
                    assert(self@.dials == old(self)@.dials);
                    assert(self@.connecting == (if old(self)@.connected.contains(
                        addr_key(req.joiner.addr),
                    ) {
                        old(self)@.connecting
                    } else {
                        old(self)@.connecting.insert(addr_key(req.joiner.addr), req.id)
                    }));
                    assert(self@.connected == old(self)@.connected);
                    assert(self@.transient == old(self)@.transient.insert(
                        tk,
                        self@.transient[tk],
                    ));
                    assert forall|k: u64| #[trigger] self@.connecting.contains_key(k)
                        implies !self@.connected.contains(k) by {
                        if k != addr_key(req.joiner.addr) {
                            assert(old(self)@.connecting.contains_key(k));
                        }
                    }
                    assert forall|k: u64| #[trigger] self@.transient.contains_key(k)
                        implies self@.transient[k].tx.0 == k by {
                        if k != tk {
                            assert(old(self)@.transient.contains_key(k));
                        }
                    }
                    assert forall|k: u64| #[trigger] self@.dials.contains_key(k)
                        implies !self@.trackers.contains_key(k) && !self@.transient.contains_key(
                        k,
                    ) by {
                        assert(old(self)@.dials.contains_key(k));
                        assert(k != tk);
                    }
                    assert forall|k: u64| #[trigger] self@.trackers.contains_key(k)
                        implies !self@.transient.contains_key(k) by {
                        assert(old(self)@.trackers.contains_key(k));
                        assert(k != tk);
                    }
                    assert forall|t: Transaction| #[trigger] active(self@, t) implies active(
                        old(self)@,
                        t,
                    ) || activates(
                        StepInput::Internal(InternalEvent::InboundGwJoinRequest(req)),
                        t,
                    ) by {
                        if t.0 != tk {
                            assert(active(old(self)@, t));
                        } else {
                            assert(t == req.id);
                        }
                    }
                }
                (out, Some(req.conn))
            }
        }
    }

    /// A wire message arrived on the channel of the transient
    /// connection for `tx`. The exact drop instruction — a
    /// `CleanConnection` for this very transaction and joiner — ends
    /// the negotiation with a cleanup notice; a `CleanConnection` for
    /// any other combination is a stale retransmission and is ignored,
    /// leaving the negotiation untouched; any other message is
    /// inconsistent with this point of the protocol and aborts only
    /// this negotiation.
    pub fn on_transient_msg(&mut self, tx: Transaction, msg: &NetMessage) -> (r: Vec<Event>)
        requires
            old(self).wf(),
        ensures
            final(self).wf(),
            transient_msg_post(old(self)@, tx, *msg, final(self)@, r@),
            step_ok(
                old(self)@,
                StepInput::Internal(InternalEvent::TransientMsg(tx, Box::new(*msg))),
                final(self)@,
                r@,
            ),
    {
        let tk = tx.0;
        let verdict = match self.transient.get(&tk) {
            Some(t) => {
                if is_clean_connection_shape(msg) {
                    if t.is_drop_connection_message(msg) {
                        TransientVerdict::Ended(t.joiner)
                    } else {
                        TransientVerdict::Ignored
                    }
                } else {
                    TransientVerdict::Unexpected(t.joiner)
                }
            },
            None => TransientVerdict::Missing,
        };
        let mut out: Vec<Event> = Vec::new();
        match verdict {
            TransientVerdict::Ended(joiner) => {
                self.transient.remove(&tk);
                self.clear_connecting_slot(joiner.addr, tx);
                out.push(Event::RemoveTransaction(tx));
                proof {
                    lemma_count_terminal_all_non_terminal(out@);
                    self.assert_transient_removed_wf(old(self)@, tx, joiner.addr);
                }
            },
            TransientVerdict::Ignored => {
                proof {
                    lemma_count_terminal_all_non_terminal(out@);
                    self.assert_tables_unchanged(old(self)@);
                }
            },
            TransientVerdict::Unexpected(joiner) => {
                self.transient.remove(&tk);
                self.clear_connecting_slot(joiner.addr, tx);
                out.push(Event::InboundConnectionRejected { peer_id: joiner, tx });
                proof {
                    lemma_count_terminal_one(out@[0]);
                    assert(out@ =~= seq![out@[0]]);
                    self.assert_transient_removed_wf(old(self)@, tx, joiner.addr);
                    assert(!active(self@, tx));
                }
            },
            TransientVerdict::Missing => {
                proof {
                    lemma_count_terminal_all_non_terminal(out@);
                    self.assert_tables_unchanged(old(self)@);
                }
            },
        }
        out
    }

    /// The reply to a forwarded join arrived: the transient record for
    /// `tx` resolves, the joiner is admitted or rejected as the reply
    /// says, and its channel is surrendered inside the event. A reply
    /// for an unknown transaction is stale and is discarded.
    pub fn on_transient_reply(&mut self, tx: Transaction, accepted: bool, conn: PeerConnection) -> (r:
        Vec<Event>)
        requires
            old(self).wf(),
        ensures
            final(self).wf(),
            transient_reply_post(old(self)@, tx, accepted, conn, final(self)@, r@),
            step_ok(
                old(self)@,
                StepInput::Internal(InternalEvent::TransientReply(tx, accepted, conn)),
                final(self)@,
                r@,
            ),
    {
        let tk = tx.0;
        let mut out: Vec<Event> = Vec::new();
        let taken = self.transient.remove(&tk);
        match taken {
            Some(t) => {
                if accepted {
                    let kj = t.joiner.addr.key();
                    self.connecting.remove(&kj);
                    self.connected.insert(kj);
                    out.push(
                        Event::InboundConnection {
                            id: tx,
                            conn,
                            joiner: t.joiner,
                            forward_info: None,
                        },
                    );
                    proof {
                        lemma_count_terminal_one(out@[0]);
                        assert(out@ =~= seq![out@[0]]);
                        assert(self@.trackers == old(self)@.trackers);
                        assert(self@.dials == old(self)@.dials);
                        assert(self@.transient == old(self)@.transient.remove(tx.0));
                        assert(self@.connecting == old(self)@.connecting.remove(
                            addr_key(t.joiner.addr),
                        ));
                        assert(self@.connected == old(self)@.connected.insert(
                            addr_key(t.joiner.addr),
                        ));
                        assert forall|k: u64| #[trigger] self@.connecting.contains_key(k)
                            implies !self@.connected.contains(k) by {
                            assert(old(self)@.connecting.contains_key(k));
                            if k != addr_key(t.joiner.addr) {
                                assert(!old(self)@.connected.contains(k));
                            }
                        }
                        assert forall|k: u64| #[trigger] self@.transient.contains_key(k)
                            implies self@.transient[k].tx.0 == k by {
                            assert(old(self)@.transient.contains_key(k));
                        }
                        assert(!active(self@, tx));
                        assert forall|t2: Transaction| #[trigger] active(self@, t2) implies active(
                            old(self)@,
                            t2,
                        ) by {}
                    }
                } else {
                    self.clear_connecting_slot(t.joiner.addr, tx);
                    out.push(Event::InboundConnectionRejected { peer_id: t.joiner, tx });
                    proof {
                        lemma_count_terminal_one(out@[0]);
                        assert(out@ =~= seq![out@[0]]);
                        self.assert_transient_removed_wf(old(self)@, tx, t.joiner.addr);
                        assert(!active(self@, tx));
                    }
                }
            },
            None => {
                proof {
                    lemma_count_terminal_all_non_terminal(out@);
                    self.assert_tables_unchanged(old(self)@);
                }
            },
        }
        out
    }

    /// The coordinator's dispatch: interprets whichever internal event
    /// the loop's race settled on, using a read snapshot of the router
    /// for the decisions that consult it. One call handles one event;
    /// everything it decides is in the outcome, and the effect of each
    /// kind of event is exactly its transition's.
    pub fn handle_internal_event(&mut self, ev: InternalEvent, router: &RouterSnapshot) -> (r:
        StepOutcome)
        requires
            old(self).wf(),
        ensures
            final(self).wf(),
            step_ok(old(self)@, StepInput::Internal(ev), final(self)@, r.events@),
            (match ev {
                InternalEvent::InboundGwJoinRequest(req) => join_post(
                    old(self)@,
                    req,
                    router.candidates@,
                    router.accept_joiner,
                    final(self)@,
                    r.events@,
                    r.retained,
                ) && r.probe is None,
                InternalEvent::OutboundConnEstablished(peer, tx, conn) => outbound_established_post(
                    old(self)@,
                    peer,
                    tx,
                    conn,
                    final(self)@,
                    r.events@,
                ) && r.retained is None && r.probe is None,
                InternalEvent::OutboundGwConnEstablished(
                    peer,
                    tx,
                    conn,
                    max_hops_to_live,
                ) => gw_established_post(
                    old(self)@,
                    peer,
                    tx,
                    conn,
                    max_hops_to_live,
                    final(self)@,
                    r.events@,
                ) && r.retained is None && r.probe is None,
                InternalEvent::OutboundConnFailed(peer, tx, error) => outbound_failed_post(
                    old(self)@,
                    peer,
                    tx,
                    error,
                    final(self)@,
                    r.events@,
                ) && r.retained is None && r.probe is None,
                InternalEvent::OutboundGwConnConfirmed(tx) => gw_confirmed_post(
                    old(self)@,
                    tx,
                    final(self)@,
                    r.events@,
                ) && r.retained is None && r.probe is None,
                InternalEvent::DropInboundConnection(addr) => final(self)@ == drop_addr_spec(
                    old(self)@,
                    addr,
                ) && r.events@ =~= Seq::<Event>::empty() && r.retained is None && r.probe is None,
                InternalEvent::RemoteConnectionAttempt { remote, tx, accepted } => vote_post(
                    old(self)@,
                    tx,
                    accepted,
                    final(self)@,
                    r.events@,
                ) && r.retained is None && r.probe is None,
                InternalEvent::NextCheck(tx) => final(self)@ == old(self)@ && r.events@ =~= Seq::<
                    Event,
                >::empty() && r.retained is None && (match router.next_candidate {
                    Some(c) => next_check_post(old(self)@, tx, c, r.probe),
                    None => r.probe is None,
                }),
                InternalEvent::FinishedOutboundConnProcess(tx) => finished_post(
                    old(self)@,
                    tx,
                    final(self)@,
                    r.events@,
                ) && r.retained is None && r.probe is None,
                InternalEvent::TransientMsg(tx, msg) => transient_msg_post(
                    old(self)@,
                    tx,
                    *msg,
                    final(self)@,
                    r.events@,
                ) && r.retained is None && r.probe is None,
                InternalEvent::TransientReply(tx, accepted, conn) => transient_reply_post(
                    old(self)@,
                    tx,
                    accepted,
                    conn,
                    final(self)@,
                    r.events@,
                ) && r.retained is None && r.probe is None,
            }),
    {
        match ev {
            InternalEvent::InboundGwJoinRequest(req) => {
                let (events, retained) = self.on_inbound_gw_join_request(
                    req,
                    &router.candidates,
                    router.accept_joiner,
                );
                StepOutcome { events, retained, probe: None }
            },
            InternalEvent::OutboundConnEstablished(peer, tx, conn) => {
                let events = self.on_outbound_conn_established(peer, tx, conn);
                StepOutcome { events, retained: None, probe: None }
            },
            InternalEvent::OutboundGwConnEstablished(peer, tx, conn, max_hops_to_live) => {
                let events = self.on_outbound_gw_conn_established(peer, tx, conn, max_hops_to_live);
                StepOutcome { events, retained: None, probe: None }
            },
            InternalEvent::OutboundConnFailed(peer, tx, error) => {
                let events = self.on_outbound_conn_failed(peer, tx, error);
                StepOutcome { events, retained: None, probe: None }
            },
            InternalEvent::OutboundGwConnConfirmed(tx) => {
                let events = self.on_gw_conn_confirmed(tx);
                StepOutcome { events, retained: None, probe: None }
            },
            InternalEvent::DropInboundConnection(addr) => {
                let events = self.on_drop_inbound_connection(addr);
                proof {
                    assert(events@ =~= Seq::<Event>::empty());
                }
                StepOutcome { events, retained: None, probe: None }
            },
            InternalEvent::RemoteConnectionAttempt { remote, tx, accepted } => {
                let events = self.on_remote_connection_attempt(remote, tx, accepted);
                StepOutcome { events, retained: None, probe: None }
            },
            InternalEvent::NextCheck(tx) => {
                let probe = match router.next_candidate {
                    Some(c) => self.on_next_check(tx, c),
                    None => None,
                };
                let events: Vec<Event> = Vec::new();
                proof {
                    lemma_count_terminal_all_non_terminal(events@);
                }
                StepOutcome { events, retained: None, probe }
            },
            InternalEvent::FinishedOutboundConnProcess(tx) => {
                let events = self.on_finished_outbound_conn_process(tx);
                StepOutcome { events, retained: None, probe: None }
            },
            InternalEvent::TransientMsg(tx, msg) => {
                let events = self.on_transient_msg(tx, &msg);
                StepOutcome { events, retained: None, probe: None }
            },
            InternalEvent::TransientReply(tx, accepted, conn) => {
                let events = self.on_transient_reply(tx, accepted, conn);
                StepOutcome { events, retained: None, probe: None }
            },
        }
    }

    /// The external command entry: establish a new outbound
    /// negotiation or tear a peer down, with exactly the effect of the
    /// corresponding transition.
    pub fn handle_command(&mut self, cmd: ExternConnection) -> (r: (Vec<Event>, Option<
        DialRequest,
    >))
        requires
            old(self).wf(),
        ensures
            final(self).wf(),
            step_ok(old(self)@, StepInput::Command(cmd), final(self)@, r.0@),
            (match cmd {
                ExternConnection::Establish { peer, tx, is_gw } => establish_post(
                    old(self)@,
                    peer,
                    tx,
                    is_gw,
                    final(self)@,
                    r.0@,
                    r.1,
                ),
                ExternConnection::Dropped { peer } => final(self)@ == drop_addr_spec(
                    old(self)@,
                    peer.addr,
                ) && r.0@ =~= Seq::<Event>::empty() && r.1 is None,
            }),
    {
        match cmd {
            ExternConnection::Establish { peer, tx, is_gw } => self.handle_establish(
                peer,
                tx,
                is_gw,
            ),
            ExternConnection::Dropped { peer } => {
                self.handle_dropped(peer);
                let out: Vec<Event> = Vec::new();
                proof {
                    assert(out@ =~= Seq::<Event>::empty());
                }
                (out, None)
            },
        }
    }

    /// Restates, table by table, that nothing changed; a bridge the
    /// unchanged branches of the transitions share.
    proof fn assert_tables_unchanged(&self, v: CoordView)
        requires
            self@.connecting == v.connecting,
            self@.connected == v.connected,
            self@.dials == v.dials,
            self@.trackers == v.trackers,
            self@.transient == v.transient,
            self@.this_peer == v.this_peer,
        ensures
            self@ == v,
    {
    }

    /// Clears the `connecting` slot for `addr` if it still belongs to
    /// `tx`, leaving every other table untouched.
    fn clear_connecting_slot(&mut self, addr: Address, tx: Transaction)
        ensures
            final(self)@.connecting == clear_slot(old(self)@.connecting, addr, tx),
            final(self)@.connected == old(self)@.connected,
            final(self)@.dials == old(self)@.dials,
            final(self)@.trackers == old(self)@.trackers,
            final(self)@.transient == old(self)@.transient,
            final(self)@.this_peer == old(self)@.this_peer,
    {
        let k = addr.key();
        let cur_match = match self.connecting.get(&k) {
            Some(t) => *t == tx,
            None => false,
        };
        if cur_match {
            self.connecting.remove(&k);
        }
    }

    /// Restates the tables after the transient record for `tx` left
    /// and its joiner's `connecting` slot was cleared; a bridge the
    /// removal branches of the transitions share.
    proof fn assert_transient_removed_wf(&self, v: CoordView, tx: Transaction, addr: Address)
        requires
            wf_view(v),
            self@.connecting == clear_slot(v.connecting, addr, tx),
            self@.connected == v.connected,
            self@.dials == v.dials,
            self@.trackers == v.trackers,
            self@.this_peer == v.this_peer,
            self@.transient == v.transient.remove(tx.0),
        ensures
            self@ == (CoordView {
                transient: v.transient.remove(tx.0),
                connecting: clear_slot(v.connecting, addr, tx),
                ..v
            }),
            wf_view(self@),
            !self@.transient.contains_key(tx.0),
    {
        assert forall|k: u64| #[trigger] self@.connecting.contains_key(k)
            implies !self@.connected.contains(k) by {
            assert(v.connecting.contains_key(k));
        }
        assert forall|k: u64| #[trigger] self@.transient.contains_key(k)
            implies self@.transient[k].tx.0 == k by {
            assert(v.transient.contains_key(k));
        }
        assert forall|k: u64| #[trigger] self@.dials.contains_key(k)
            implies !self@.trackers.contains_key(k) && !self@.transient.contains_key(k) by {
            assert(v.dials.contains_key(k));
        }
        assert forall|k: u64| #[trigger] self@.trackers.contains_key(k)
            implies !self@.transient.contains_key(k) by {
            assert(v.trackers.contains_key(k));
        }
    }

    /// Removes the attempt negotiating `addr`, the dial it started,
    /// and the established connection to `addr`, if any of them exist.
    fn drop_addr(&mut self, addr: Address)
        requires
            old(self).wf(),
        ensures
            final(self).wf(),
            final(self)@ == drop_addr_spec(old(self)@, addr),
    {
        let k = addr.key();
        match self.connecting.remove(&k) {
            Some(t) => {
                self.dials.remove(&t.0);
                self.trackers.remove(&t.0);
                self.transient.remove(&t.0);
            },
            None => {},
        }
        self.connected.remove(&k);
        proof {
            assert(self@.connecting == old(self)@.connecting.remove(addr_key(addr)));
            assert(self@.connected == old(self)@.connected.remove(addr_key(addr)));
            assert(self@.dials == drop_addr_spec(old(self)@, addr).dials);
            assert(self@.trackers =~= drop_addr_spec(old(self)@, addr).trackers);
            assert(self@.transient =~= drop_addr_spec(old(self)@, addr).transient);
            assert forall|kk: u64| #[trigger] self@.trackers.contains_key(kk)
                implies self@.trackers[kk].wf() && self@.trackers[kk].remaining_checks >= 1
                && self@.trackers[kk].tx.0 == kk by {
                assert(old(self)@.trackers.contains_key(kk));
            }
            assert forall|kk: u64| #[trigger] self@.transient.contains_key(kk)
                implies self@.transient[kk].tx.0 == kk by {
                assert(old(self)@.transient.contains_key(kk));
            }
            assert forall|kk: u64| #[trigger] self@.dials.contains_key(kk)
                implies !self@.trackers.contains_key(kk) && !self@.transient.contains_key(kk) by {
                assert(old(self)@.dials.contains_key(kk));
            }
            assert forall|kk: u64| #[trigger] self@.trackers.contains_key(kk)
                implies !self@.transient.contains_key(kk) by {
                assert(old(self)@.trackers.contains_key(kk));
            }
        }
    }
}

/// What the coordinator decided about a message on a transient
/// channel.
enum TransientVerdict {
    /// No transient record holds this transaction: stale traffic.
    Missing,
    /// The exact drop instruction: the negotiation for this joiner
    /// ends.
    Ended(PeerId),
    /// A `CleanConnection` for another combination: ignored.
    Ignored,
    /// Any other payload: aborts this negotiation, for this joiner.
    Unexpected(PeerId),
}

/// Whether `m` is the message one hop of forwarding sends onward for
/// `req`: the same join, with `this_peer` appended to the skip list
/// and one hop less to live.
pub open spec fn forward_msg_matches(m: NetMessage, req: InboundGwJoinRequest,
    this_peer: PeerId) -> bool {
    match m {
        NetMessage::V1(
            NetMessageV1::Connect(
                ConnectMsg::Request {
                    id,
                    msg: ConnectRequest::StartJoinReq {
                        joiner,
                        hops_to_live,
                        max_hops_to_live,
                        skip_list,
                    },
                },
            ),
        ) => {
            &&& id == req.id
            &&& joiner.peer == req.joiner
            &&& hops_to_live == req.hops_to_live - 1
            &&& max_hops_to_live == req.max_hops_to_live
            &&& skip_list@ == req.skip_list@.push(this_peer)
        },
        _ => false,
    }
}

/// Whether `e` relays `req` to `target`: a forward-transaction event
/// aimed at the target's address, carrying the forwarded join.
pub open spec fn is_forward_of_request(e: Event, req: InboundGwJoinRequest, target: PeerId,
    this_peer: PeerId) -> bool {
    match e {
        Event::TransientForwardTransaction { target: a, tx, forward_to, msg } => {
            a == target.addr && tx == req.id && forward_to == target && forward_msg_matches(
                *msg,
                req,
                this_peer,
            )
        },
        _ => false,
    }
}

/// A copy of a peer list, element for element.
fn copy_peers(v: &Vec<PeerId>) -> (r: Vec<PeerId>)
    ensures
        r@ == v@,
{
    let mut r: Vec<PeerId> = Vec::new();
    let mut i: usize = 0;
    while i < v.len()
        invariant
            0 <= i <= v@.len(),
            r@ == v@.take(i as int),
        decreases v@.len() - i,
    {
        r.push(v[i]);
        proof {
            assert(v@.take(i + 1int) =~= v@.take(i as int).push(v@[i as int]));
        }
        i = i + 1;
    }
    proof {
        assert(v@.take(v@.len() as int) =~= v@);
    }
    r
}

/// Builds the message one hop of forwarding sends onward for `req`.
fn make_forward_msg(req: &InboundGwJoinRequest, this_peer: PeerId) -> (m: NetMessage)
    requires
        req.hops_to_live > 0,
    ensures
        forward_msg_matches(m, *req, this_peer),
{
    let mut skip = copy_peers(&req.skip_list);
    skip.push(this_peer);
    NetMessage::V1(
        NetMessageV1::Connect(
            ConnectMsg::Request {
                id: req.id,
                msg: ConnectRequest::StartJoinReq {
                    joiner: PeerKeyLocation { peer: req.joiner },
                    hops_to_live: req.hops_to_live - 1,
                    max_hops_to_live: req.max_hops_to_live,
                    skip_list: skip,
                },
            },
        ),
    )
}

/// Vote accounting invariant: in every well-formed coordinator state,
/// each held tally keeps `accepted + remaining_checks` within
/// `total_checks`, with at least one check unresolved — a tally whose
/// last check resolves is finalized and removed in that very
/// transition, so finalization happens exactly once.
pub proof fn lemma_vote_accounting(v: CoordView, tx: Transaction)
    requires
        wf_view(v),
        v.trackers.contains_key(tx.0),
    ensures
        v.trackers[tx.0].accepted + v.trackers[tx.0].remaining_checks
            <= v.trackers[tx.0].total_checks,
        v.trackers[tx.0].remaining_checks >= 1,
{
}

/// A request rebuilt from a forwarded message is one hop of the
/// request it forwards: same transaction, same joiner, same overall
/// bound, one unit less budget. Chains of such hops fall under
/// [`crate::forward::lemma_hop_bound_termination`].
pub proof fn lemma_forwarded_request_is_one_hop(req: InboundGwJoinRequest,
    child: InboundGwJoinRequest, m: NetMessage, this_peer: PeerId)
    requires
        forward_msg_matches(m, req, this_peer),
        (match m {
            NetMessage::V1(
                NetMessageV1::Connect(
                    ConnectMsg::Request {
                        id,
                        msg: ConnectRequest::StartJoinReq {
                            joiner,
                            hops_to_live,
                            max_hops_to_live,
                            ..
                        },
                    },
                ),
            ) => child.id == id && child.joiner == joiner.peer && child.hops_to_live
                == hops_to_live && child.max_hops_to_live == max_hops_to_live,
            _ => false,
        }),
    ensures
        crate::forward::forwards(req, child),
{
}

/// How many terminal events a single-event sequence holds, for every
/// transaction at once.
pub proof fn lemma_count_terminal_one(e: Event)
    ensures
        forall|t: Transaction| #[trigger] count_terminal(seq![e], t) == (if terminal_tx(e)
            == Some(t) {
            1int
        } else {
            0
        }),
{
    assert forall|t: Transaction| #[trigger] count_terminal(seq![e], t) == (if terminal_tx(e)
        == Some(t) {
        1int
    } else {
        0
    }) by {
        reveal_with_fuel(count_terminal, 2);
        assert(seq![e].drop_first() =~= Seq::<Event>::empty());
        assert(count_terminal(seq![e].drop_first(), t) == 0);
    }
}

/// A sequence of events none of which is terminal for any transaction
/// contains no terminal event for any transaction.
pub proof fn lemma_count_terminal_all_non_terminal(es: Seq<Event>)
    requires
        forall|i: int| 0 <= i < es.len() ==> terminal_tx(#[trigger] es[i]) is None,
    ensures
        forall|tx: Transaction| #[trigger] count_terminal(es, tx) == 0,
{
    assert forall|tx: Transaction| #[trigger] count_terminal(es, tx) == 0 by {
        lemma_count_terminal_none_single(es, tx);
    }
}

proof fn lemma_count_terminal_none_single(es: Seq<Event>, tx: Transaction)
    requires
        forall|i: int| 0 <= i < es.len() ==> terminal_tx(#[trigger] es[i]) is None,
    ensures
        count_terminal(es, tx) == 0,
    decreases es.len(),
{
    if es.len() > 0 {
        assert(terminal_tx(es[0]) is None);
        assert forall|i: int|
            0 <= i < es.drop_first().len() implies terminal_tx(
            #[trigger] es.drop_first()[i],
        ) is None by {
            assert(es.drop_first()[i] == es[i + 1]);
        }
        lemma_count_terminal_none_single(es.drop_first(), tx);
    }
}

/// Counting terminal events distributes over appending one event.
pub proof fn lemma_count_terminal_push(es: Seq<Event>, e: Event, tx: Transaction)
    ensures
        count_terminal(es.push(e), tx) == count_terminal(es, tx) + (if terminal_tx(e) == Some(tx) {
            1int
        } else {
            0
        }),
    decreases es.len(),
{
    reveal_with_fuel(count_terminal, 3);
    if es.len() == 0 {
        assert(es.push(e)[0] == e);
        assert(es.push(e).drop_first() =~= Seq::<Event>::empty());
    } else {
        assert(es.push(e)[0] == es[0]);
        assert(es.push(e).drop_first() =~= es.drop_first().push(e));
        lemma_count_terminal_push(es.drop_first(), e, tx);
        assert(count_terminal(es.push(e).drop_first(), tx) == count_terminal(
            es.drop_first().push(e),
            tx,
        ));
    }
}

/// The read snapshot of the router and connection-manager policy a
/// dispatch consults: candidate peers for forwarding, whether the
/// connection manager would accept the joiner directly, and the
/// candidate for the next admission check, if the router offers one.
pub struct RouterSnapshot {
    pub candidates: Vec<PeerId>,
    pub accept_joiner: bool,
    pub next_candidate: Option<PeerId>,
}

/// Everything one dispatch step decided: the externally visible
/// events, a joiner's channel handed back to the loop to keep while a
/// forward is pending, and an admission probe to send.
pub struct StepOutcome {
    pub events: Vec<Event>,
    pub retained: Option<PeerConnection>,
    pub probe: Option<ForwardInfo>,
}

/// Terminal events emitted for `tx` over a whole run, step by step.
pub open spec fn total_terminal(outs: Seq<Seq<Event>>, tx: Transaction) -> nat
    decreases outs.len(),
{
    if outs.len() == 0 {
        0
    } else {
        count_terminal(outs[0], tx) + total_terminal(outs.drop_first(), tx)
    }
}

/// How many of the consumed inputs activate `tx`.
pub open spec fn count_activations(inputs: Seq<StepInput>, tx: Transaction) -> nat
    decreases inputs.len(),
{
    if inputs.len() == 0 {
        0
    } else {
        (if activates(inputs[0], tx) {
            1nat
        } else {
            0nat
        }) + count_activations(inputs.drop_first(), tx)
    }
}

proof fn lemma_terminal_bound(states: Seq<CoordView>, inputs: Seq<StepInput>,
    outs: Seq<Seq<Event>>, tx: Transaction)
    requires
        states.len() == inputs.len() + 1,
        outs.len() == inputs.len(),
        forall|i: int|
            0 <= i < inputs.len() ==> #[trigger] step_ok(
                states[i],
                inputs[i],
                states[i + 1],
                outs[i],
            ),
    ensures
        total_terminal(outs, tx) <= count_activations(inputs, tx) + (if active(states[0], tx) {
            1int
        } else {
            0
        }),
    decreases inputs.len(),
{
    if inputs.len() > 0 {
        let stail = states.drop_first();
        let itail = inputs.drop_first();
        let otail = outs.drop_first();
        assert forall|i: int|
            0 <= i < itail.len() implies #[trigger] step_ok(
            stail[i],
            itail[i],
            stail[i + 1],
            otail[i],
        ) by {
            assert(stail[i] == states[i + 1]);
            assert(stail[i + 1] == states[i + 2]);
            assert(itail[i] == inputs[i + 1]);
            assert(otail[i] == outs[i + 1]);
            assert(step_ok(states[i + 1], inputs[i + 1], states[i + 2], outs[i + 1]));
        }
        lemma_terminal_bound(stail, itail, otail, tx);
        assert(step_ok(states[0], inputs[0], states[1], outs[0]));
        assert(stail[0] == states[1]);
        let ct0 = count_terminal(outs[0], tx);
        assert(ct0 <= 1);
        if ct0 == 1 {
            assert((active(states[0], tx) || activates(inputs[0], tx)) && !active(states[1], tx));
        }
        if active(states[1], tx) {
            assert(active(states[0], tx) || activates(inputs[0], tx));
        }
    }
}

/// At most one terminal event per transaction: over any run of the
/// coordinator — any sequence of steps each of which satisfies
/// [`step_ok`], as every transition here ensures — a transaction that
/// starts without bookkeeping and is activated at most once yields at
/// most one success, failure or rejection event, never two.
pub proof fn lemma_at_most_one_terminal_event(states: Seq<CoordView>, inputs: Seq<StepInput>,
    outs: Seq<Seq<Event>>, tx: Transaction)
    requires
        states.len() == inputs.len() + 1,
        outs.len() == inputs.len(),
        forall|i: int|
            0 <= i < inputs.len() ==> #[trigger] step_ok(
                states[i],
                inputs[i],
                states[i + 1],
                outs[i],
            ),
        !active(states[0], tx),
        count_activations(inputs, tx) <= 1,
    ensures
        total_terminal(outs, tx) <= 1,
{
    lemma_terminal_bound(states, inputs, outs, tx);
}

/// Dropping a peer twice leaves exactly the state that dropping it
/// once leaves: the second teardown finds nothing and is a no-op.
pub proof fn lemma_drop_idempotent(v: CoordView, addr: Address)
    ensures
        drop_addr_spec(drop_addr_spec(v, addr), addr) == drop_addr_spec(v, addr),
{
    let v1 = drop_addr_spec(v, addr);
    let v2 = drop_addr_spec(v1, addr);
    let k = addr_key(addr);
    assert(v2.connecting =~= v1.connecting);
    assert(v2.connected =~= v1.connected);
    assert(!v1.connecting.contains_key(k));
    assert(v2.dials =~= v1.dials);
}

} // verus!
