use handshake::events::Event;
use handshake::events::ExternConnection;
use handshake::events::InternalEvent;
use handshake::errors::TransportError;
use handshake::handler::HandshakeHandler;
use handshake::handler::RouterSnapshot;
use handshake::message::ConnectMsg;
use handshake::message::ConnectRequest;
use handshake::message::NetMessage;
use handshake::message::NetMessageV1;
use handshake::types::Address;
use handshake::types::InboundGwJoinRequest;
use handshake::types::PeerConnection;
use handshake::types::PeerId;
use handshake::types::PeerKeyLocation;
use handshake::types::Transaction;

fn peer(n: u64) -> PeerId {
    PeerId { key: n, addr: Address { ip: n as u32, port: 4000 + (n as u16) } }
}

fn conn_to(p: PeerId) -> PeerConnection {
    PeerConnection { remote: p }
}

#[test]
fn establish_then_success_emits_one_terminal() {
    let me = peer(1);
    let gw = peer(2);
    let tx = Transaction(10);
    let mut h = HandshakeHandler::new(me);
    let (events, dial) = h.handle_establish(gw, tx, false);
    assert!(events.is_empty());
    let dial = dial.expect("a fresh establish starts a dial");
    assert_eq!(dial.peer, gw);
    assert_eq!(dial.tx, tx);
    assert!(!dial.is_gw);

    let events = h.on_outbound_conn_established(gw, tx, conn_to(gw));
    assert_eq!(events.len(), 1);
    assert!(matches!(
        &events[0],
        Event::OutboundConnectionSuccessful { peer_id, tx: t, .. } if *peer_id == gw && *t == tx
    ));
    assert!(h.connected.contains(&gw.addr.key()));
    assert!(!h.connecting.contains_key(&gw.addr.key()));
}

#[test]
fn duplicate_transaction_establish_is_noop() {
    let me = peer(1);
    let gw = peer(2);
    let tx = Transaction(10);
    let mut h = HandshakeHandler::new(me);
    let (_, dial1) = h.handle_establish(gw, tx, false);
    assert!(dial1.is_some());
    let (events, dial2) = h.handle_establish(gw, tx, false);
    assert!(events.is_empty());
    assert!(dial2.is_none());
}

#[test]
fn dial_failure_references_only_original_transaction() {
    // An outbound dial for tx1 fails while a concurrent establish for
    // the same peer but a different transaction is pending: the
    // failure event names tx1 alone and the concurrent attempt is
    // unaffected.
    let me = peer(1);
    let remote = peer(2);
    let tx1 = Transaction(11);
    let tx2 = Transaction(12);
    let mut h = HandshakeHandler::new(me);
    let (_, dial1) = h.handle_establish(remote, tx1, false);
    assert!(dial1.is_some());
    let (_, dial2) = h.handle_establish(remote, tx2, false);
    assert!(dial2.is_some());

    let events = h.on_outbound_conn_failed(remote, tx1, TransportError::Timeout);
    assert_eq!(events.len(), 1);
    assert!(matches!(
        &events[0],
        Event::OutboundConnectionFailed { peer_id, tx, .. } if *peer_id == remote && *tx == tx1
    ));
    // the newer attempt still owns the connecting slot and resolves
    assert_eq!(h.connecting.get(&remote.addr.key()), Some(&tx2));
    let events = h.on_outbound_conn_established(remote, tx2, conn_to(remote));
    assert_eq!(events.len(), 1);
    assert!(matches!(
        &events[0],
        Event::OutboundConnectionSuccessful { tx, .. } if *tx == tx2
    ));
}

#[test]
fn gateway_votes_two_accepts_one_reject_succeed_only_at_the_end() {
    // A gateway admission with total_checks = 3 receiving two accept
    // votes and one reject finalizes as successful exactly when the
    // third check resolves, never before.
    let me = peer(1);
    let gw = peer(2);
    let tx = Transaction(21);
    let mut h = HandshakeHandler::new(me);
    let (_, dial) = h.handle_establish(gw, tx, true);
    assert!(dial.is_some());
    let events = h.on_outbound_gw_conn_established(gw, tx, conn_to(gw), 3);
    assert!(events.is_empty());

    let events = h.on_remote_connection_attempt(peer(5), tx, true);
    assert!(events.is_empty(), "no outcome before all checks resolve");
    let events = h.on_remote_connection_attempt(peer(6), tx, false);
    assert!(events.is_empty(), "no outcome before all checks resolve");
    let events = h.on_remote_connection_attempt(peer(7), tx, true);
    assert_eq!(events.len(), 1);
    assert!(matches!(
        &events[0],
        Event::OutboundGatewayConnectionSuccessful { peer_id, tx: t, remaining_checks, .. }
            if *peer_id == gw && *t == tx && *remaining_checks == 0
    ));
    assert!(h.connected.contains(&gw.addr.key()));
}

#[test]
fn gateway_votes_minority_rejects() {
    let me = peer(1);
    let gw = peer(2);
    let tx = Transaction(22);
    let mut h = HandshakeHandler::new(me);
    h.handle_establish(gw, tx, true);
    h.on_outbound_gw_conn_established(gw, tx, conn_to(gw), 3);
    h.on_remote_connection_attempt(peer(5), tx, false);
    h.on_remote_connection_attempt(peer(6), tx, true);
    let events = h.on_remote_connection_attempt(peer(7), tx, false);
    assert_eq!(events.len(), 1);
    assert!(matches!(
        &events[0],
        Event::OutboundGatewayConnectionRejected { peer_id, tx: t } if *peer_id == gw && *t == tx
    ));
}

#[test]
fn gateway_confirmation_overrides_minority() {
    let me = peer(1);
    let gw = peer(2);
    let tx = Transaction(23);
    let mut h = HandshakeHandler::new(me);
    h.handle_establish(gw, tx, true);
    h.on_outbound_gw_conn_established(gw, tx, conn_to(gw), 2);
    let events = h.on_gw_conn_confirmed(tx);
    assert!(events.is_empty());
    h.on_remote_connection_attempt(peer(5), tx, false);
    let events = h.on_remote_connection_attempt(peer(6), tx, false);
    assert_eq!(events.len(), 1);
    assert!(matches!(
        &events[0],
        Event::OutboundGatewayConnectionSuccessful { tx: t, .. } if *t == tx
    ));
}

#[test]
fn gateway_dial_with_no_checks_is_rejected_at_once() {
    let me = peer(1);
    let gw = peer(2);
    let tx = Transaction(24);
    let mut h = HandshakeHandler::new(me);
    h.handle_establish(gw, tx, true);
    let events = h.on_outbound_gw_conn_established(gw, tx, conn_to(gw), 0);
    assert_eq!(events.len(), 1);
    assert!(matches!(
        &events[0],
        Event::OutboundGatewayConnectionRejected { tx: t, .. } if *t == tx
    ));
}

#[test]
fn dropped_twice_is_a_noop_the_second_time() {
    // Idempotent drop: a second Dropped{peer} finds nothing and
    // leaves the same observable state as the first.
    let me = peer(1);
    let remote = peer(2);
    let tx = Transaction(31);
    let mut h = HandshakeHandler::new(me);
    h.handle_establish(remote, tx, false);
    assert!(h.connecting.contains_key(&remote.addr.key()));
    assert_eq!(h.dials.len(), 1);

    h.handle_dropped(remote);
    assert!(!h.connecting.contains_key(&remote.addr.key()));
    assert!(!h.connected.contains(&remote.addr.key()));
    assert_eq!(h.dials.len(), 0);

    h.handle_dropped(remote);
    assert!(!h.connecting.contains_key(&remote.addr.key()));
    assert!(!h.connected.contains(&remote.addr.key()));
    assert_eq!(h.dials.len(), 0);
    assert_eq!(h.connecting.len(), 0);
    assert_eq!(h.trackers.len(), 0);
    assert_eq!(h.transient.len(), 0);
}

#[test]
fn dropping_a_gateway_releases_its_admission() {
    let me = peer(1);
    let gw = peer(2);
    let tx = Transaction(32);
    let mut h = HandshakeHandler::new(me);
    h.handle_establish(gw, tx, true);
    h.on_outbound_gw_conn_established(gw, tx, conn_to(gw), 3);
    assert!(h.trackers.contains_key(&tx.0));

    h.handle_dropped(gw);
    assert!(!h.trackers.contains_key(&tx.0));
    // a late vote for the dropped gateway finds nothing and emits nothing
    let events = h.on_remote_connection_attempt(peer(5), tx, true);
    assert!(events.is_empty());
}

#[test]
fn dropping_a_joiner_releases_its_transient_record() {
    let me = peer(1);
    let joiner = peer(9);
    let t1 = Transaction(48);
    let mut h = HandshakeHandler::new(me);
    let req = InboundGwJoinRequest {
        conn: conn_to(joiner),
        id: t1,
        joiner,
        hops_to_live: 2,
        max_hops_to_live: 2,
        skip_list: vec![],
    };
    h.on_inbound_gw_join_request(req, &vec![peer(5)], true);
    assert!(h.transient.contains_key(&t1.0));
    assert_eq!(h.connecting.get(&joiner.addr.key()), Some(&t1));

    h.handle_dropped(joiner);
    assert!(!h.transient.contains_key(&t1.0));
    assert!(!h.connecting.contains_key(&joiner.addr.key()));
    // a late reply for the dropped joiner finds nothing and emits nothing
    let events = h.on_transient_reply(t1, true, conn_to(joiner));
    assert!(events.is_empty());
}

fn clean_connection(tx: Transaction, joiner: PeerId) -> NetMessage {
    NetMessage::V1(NetMessageV1::Connect(ConnectMsg::Request {
        id: tx,
        msg: ConnectRequest::CleanConnection { joiner: PeerKeyLocation { peer: joiner } },
    }))
}

#[test]
fn clean_connection_for_other_transaction_is_ignored() {
    // A CleanConnection for transaction T2 arrives while the tracked
    // transient connection is for T1 with the same joiner: the message
    // is ignored and the negotiation for T1 continues unaffected.
    let me = peer(1);
    let joiner = peer(9);
    let t1 = Transaction(41);
    let t2 = Transaction(42);
    let mut h = HandshakeHandler::new(me);
    let req = InboundGwJoinRequest {
        conn: conn_to(joiner),
        id: t1,
        joiner,
        hops_to_live: 3,
        max_hops_to_live: 3,
        skip_list: vec![],
    };
    let candidates = vec![peer(5), peer(6)];
    let (events, retained) = h.on_inbound_gw_join_request(req, &candidates, true);
    assert!(retained.is_some());
    assert_eq!(events.len(), 2);
    assert!(h.transient.contains_key(&t1.0));

    let stale = clean_connection(t2, joiner);
    let events = h.on_transient_msg(t1, &stale);
    assert!(events.is_empty(), "a mismatched CleanConnection must not end the negotiation");
    assert!(h.transient.contains_key(&t1.0));

    let exact = clean_connection(t1, joiner);
    let events = h.on_transient_msg(t1, &exact);
    assert_eq!(events.len(), 1);
    assert!(matches!(&events[0], Event::RemoveTransaction(t) if *t == t1));
    assert!(!h.transient.contains_key(&t1.0));
}

#[test]
fn unexpected_transient_message_aborts_only_that_negotiation() {
    let me = peer(1);
    let joiner = peer(9);
    let t1 = Transaction(43);
    let mut h = HandshakeHandler::new(me);
    let req = InboundGwJoinRequest {
        conn: conn_to(joiner),
        id: t1,
        joiner,
        hops_to_live: 2,
        max_hops_to_live: 2,
        skip_list: vec![],
    };
    let candidates = vec![peer(5)];
    h.on_inbound_gw_join_request(req, &candidates, true);
    assert!(h.transient.contains_key(&t1.0));

    let noise = NetMessage::V1(NetMessageV1::Connect(ConnectMsg::Request {
        id: t1,
        msg: ConnectRequest::CheckConnectivity { joiner: PeerKeyLocation { peer: joiner } },
    }));
    let events = h.on_transient_msg(t1, &noise);
    assert_eq!(events.len(), 1);
    assert!(matches!(
        &events[0],
        Event::InboundConnectionRejected { peer_id, tx } if *peer_id == joiner && *tx == t1
    ));
    assert!(!h.transient.contains_key(&t1.0));
}

#[test]
fn transient_reply_admits_or_rejects() {
    let me = peer(1);
    let joiner = peer(9);
    let t1 = Transaction(44);
    let mut h = HandshakeHandler::new(me);
    let req = InboundGwJoinRequest {
        conn: conn_to(joiner),
        id: t1,
        joiner,
        hops_to_live: 2,
        max_hops_to_live: 2,
        skip_list: vec![],
    };
    let candidates = vec![peer(5)];
    h.on_inbound_gw_join_request(req, &candidates, true);
    let events = h.on_transient_reply(t1, true, conn_to(joiner));
    assert_eq!(events.len(), 1);
    assert!(matches!(
        &events[0],
        Event::InboundConnection { id, joiner: j, .. } if *id == t1 && *j == joiner
    ));
    assert!(h.connected.contains(&joiner.addr.key()));
    // a second, stale reply finds nothing
    let events = h.on_transient_reply(t1, false, conn_to(joiner));
    assert!(events.is_empty());
}

#[test]
fn join_with_no_budget_is_answered_on_the_spot() {
    let me = peer(1);
    let joiner = peer(9);
    let t1 = Transaction(45);
    let mut h = HandshakeHandler::new(me);
    let req = InboundGwJoinRequest {
        conn: conn_to(joiner),
        id: t1,
        joiner,
        hops_to_live: 0,
        max_hops_to_live: 3,
        skip_list: vec![],
    };
    let candidates = vec![peer(5), peer(6)];
    let (events, retained) = h.on_inbound_gw_join_request(req, &candidates, true);
    assert!(retained.is_none());
    assert_eq!(events.len(), 1);
    assert!(matches!(&events[0], Event::InboundConnection { id, .. } if *id == t1));
}

#[test]
fn join_rejected_by_policy_when_nothing_to_forward_to() {
    let me = peer(1);
    let joiner = peer(9);
    let t1 = Transaction(46);
    let mut h = HandshakeHandler::new(me);
    let req = InboundGwJoinRequest {
        conn: conn_to(joiner),
        id: t1,
        joiner,
        hops_to_live: 3,
        max_hops_to_live: 3,
        skip_list: vec![peer(5), peer(6)],
    };
    // every candidate is already on the skip list
    let candidates = vec![peer(5), peer(6)];
    let (events, retained) = h.on_inbound_gw_join_request(req, &candidates, false);
    assert!(retained.is_none());
    assert_eq!(events.len(), 1);
    assert!(matches!(
        &events[0],
        Event::InboundConnectionRejected { peer_id, tx } if *peer_id == joiner && *tx == t1
    ));
}

#[test]
fn dispatch_interprets_commands_and_internal_events() {
    let me = peer(1);
    let gw = peer(2);
    let tx = Transaction(61);
    let mut h = HandshakeHandler::new(me);
    let router = RouterSnapshot {
        candidates: vec![peer(5)],
        accept_joiner: true,
        next_candidate: Some(peer(5)),
    };
    let (events, dial) = h.handle_command(ExternConnection::Establish { peer: gw, tx, is_gw: true });
    assert!(events.is_empty());
    assert!(dial.is_some());

    let outcome = h.handle_internal_event(
        InternalEvent::OutboundGwConnEstablished(gw, tx, conn_to(gw), 1),
        &router,
    );
    assert!(outcome.events.is_empty());
    assert!(outcome.retained.is_none());

    // the admission is open, so a next check is issued to the candidate
    let outcome = h.handle_internal_event(InternalEvent::NextCheck(tx), &router);
    let probe = outcome.probe.expect("an open admission polls the next candidate");
    assert_eq!(probe.target, peer(5));

    let outcome = h.handle_internal_event(
        InternalEvent::RemoteConnectionAttempt { remote: peer(5), tx, accepted: true },
        &router,
    );
    assert_eq!(outcome.events.len(), 1);
    assert!(matches!(
        &outcome.events[0],
        Event::OutboundGatewayConnectionSuccessful { tx: t, .. } if *t == tx
    ));

    let (events, _) = h.handle_command(ExternConnection::Dropped { peer: gw });
    assert!(events.is_empty());
    assert!(!h.connected.contains(&gw.addr.key()));
}

#[test]
fn forwarding_terminates_within_the_hop_budget_even_on_a_cycle() {
    // A ring of three gateways that would forward to each other
    // forever without the hop budget: the join resolves after at most
    // max_hops_to_live forwards.
    let nodes = [peer(1), peer(2), peer(3)];
    let joiner = peer(9);
    let tx = Transaction(47);
    let h0 = 3usize;
    let mut handlers: Vec<HandshakeHandler> =
        nodes.iter().map(|n| HandshakeHandler::new(*n)).collect();
    let mut req = InboundGwJoinRequest {
        conn: conn_to(joiner),
        id: tx,
        joiner,
        hops_to_live: h0,
        max_hops_to_live: h0,
        skip_list: vec![],
    };
    let mut at = 0usize;
    let mut hops = 0usize;
    loop {
        // each node offers the next node on the ring as its candidate
        let candidates = vec![nodes[(at + 1) % nodes.len()]];
        let (events, _) =
            handlers[at].on_inbound_gw_join_request(req, &candidates, true);
        match &events[0] {
            Event::TransientForwardTransaction { forward_to, msg, .. } => {
                hops += 1;
                assert!(hops <= h0, "propagation exceeded the hop budget");
                let NetMessage::V1(NetMessageV1::Connect(cm)) = (**msg).clone();
                let ConnectMsg::Request { id, msg } = cm else {
                    panic!("a forward carries a request");
                };
                let ConnectRequest::StartJoinReq {
                    joiner: j,
                    hops_to_live,
                    max_hops_to_live,
                    skip_list,
                } = msg
                else {
                    panic!("a forward carries a StartJoinReq");
                };
                at = nodes.iter().position(|n| n == forward_to).unwrap();
                req = InboundGwJoinRequest {
                    conn: conn_to(j.peer),
                    id,
                    joiner: j.peer,
                    hops_to_live,
                    max_hops_to_live,
                    skip_list,
                };
            }
            Event::InboundConnection { id, .. } => {
                assert_eq!(*id, tx);
                break;
            }
            other => panic!("unexpected event: {:?}", other),
        }
    }
    assert!(hops <= h0);
}
