use handshake::forward::select_forward_targets;
use handshake::message::ConnectMsg;
use handshake::message::ConnectRequest;
use handshake::message::NetMessage;
use handshake::message::NetMessageV1;
use handshake::testing::randomize_test_name;
use handshake::testing::TestConfig;
use handshake::testing::TestMode;
use handshake::types::AcceptedTracker;
use handshake::types::Address;
use handshake::types::PeerConnection;
use handshake::types::PeerId;
use handshake::types::PeerKeyLocation;
use handshake::types::Transaction;
use handshake::types::TransientConnection;

fn member(n: u64) -> PeerId {
    PeerId { key: n, addr: Address { ip: n as u32, port: 5000 + (n as u16) } }
}

#[test]
fn skip_listed_peers_are_never_selected() {
    let joiner = member(9);
    let me = member(1);
    let skip = vec![member(2), member(4)];
    let candidates = vec![member(2), member(3), member(4), member(5), member(6)];
    let targets = select_forward_targets(&candidates, &skip, joiner, me, 10);
    assert_eq!(targets, vec![member(3), member(5), member(6)]);
    for t in &targets {
        assert!(!skip.contains(t));
    }
}

#[test]
fn selection_honours_the_limit_and_excludes_self_and_joiner() {
    let joiner = member(9);
    let me = member(1);
    let skip = vec![];
    let candidates = vec![member(1), member(9), member(3), member(5), member(6)];
    let targets = select_forward_targets(&candidates, &skip, joiner, me, 2);
    assert_eq!(targets, vec![member(3), member(5)]);
}

#[test]
fn selection_with_zero_limit_is_empty() {
    let targets = select_forward_targets(&vec![member(3)], &vec![], member(9), member(1), 0);
    assert!(targets.is_empty());
}

#[test]
fn vote_accounting_stays_within_total_checks() {
    let gw = member(2);
    let mut t = AcceptedTracker::new(
        PeerKeyLocation { peer: gw },
        PeerConnection { remote: gw },
        Transaction(7),
        3,
    );
    assert_eq!(t.total_checks, 3);
    assert_eq!(t.remaining_checks, 3);
    assert_eq!(t.accepted, 0);
    t.register_vote(true);
    assert!(t.accepted + t.remaining_checks <= t.total_checks);
    t.register_vote(false);
    assert!(t.accepted + t.remaining_checks <= t.total_checks);
    t.register_vote(true);
    assert_eq!(t.accepted, 2);
    assert_eq!(t.remaining_checks, 0);
    assert!(t.is_complete());
    assert!(t.is_admitted());
}

#[test]
fn a_minority_does_not_admit_without_the_gateway() {
    let gw = member(2);
    let mut t = AcceptedTracker::new(
        PeerKeyLocation { peer: gw },
        PeerConnection { remote: gw },
        Transaction(7),
        4,
    );
    t.register_vote(true);
    t.register_vote(true);
    t.register_vote(false);
    t.register_vote(false);
    assert!(t.is_complete());
    assert!(!t.is_admitted(), "two of four is no strict majority");
    t.confirm_gateway();
    assert!(t.is_admitted(), "the gateway's own confirmation admits");
}

fn clean_msg(tx: Transaction, joiner: PeerId) -> NetMessage {
    NetMessage::V1(NetMessageV1::Connect(ConnectMsg::Request {
        id: tx,
        msg: ConnectRequest::CleanConnection { joiner: PeerKeyLocation { peer: joiner } },
    }))
}

#[test]
fn drop_message_is_recognized_only_for_the_exact_combination() {
    let joiner = member(9);
    let other = member(8);
    let t = TransientConnection {
        tx: Transaction(51),
        joiner,
        max_hops_to_live: 3,
        hops_to_live: 2,
        skip_list: vec![],
    };
    assert!(t.is_drop_connection_message(&clean_msg(Transaction(51), joiner)));
    assert!(!t.is_drop_connection_message(&clean_msg(Transaction(52), joiner)));
    assert!(!t.is_drop_connection_message(&clean_msg(Transaction(51), other)));
    let not_clean = NetMessage::V1(NetMessageV1::Connect(ConnectMsg::Request {
        id: Transaction(51),
        msg: ConnectRequest::CheckConnectivity { joiner: PeerKeyLocation { peer: joiner } },
    }));
    assert!(!t.is_drop_connection_message(&not_clean));
}

#[test]
fn address_keys_distinguish_host_and_port() {
    let a = Address { ip: 1, port: 2 };
    let b = Address { ip: 2, port: 1 };
    let c = Address { ip: 1, port: 2 };
    assert_ne!(a.key(), b.key());
    assert_eq!(a.key(), c.key());
}

#[test]
fn random_names_are_sixteen_lowercase_letters() {
    let name = randomize_test_name();
    assert_eq!(name.len(), 16);
    assert!(name.chars().all(|c| c.is_ascii_lowercase()));
    let again = randomize_test_name();
    assert_eq!(again.len(), 16);
}

#[test]
fn test_config_defaults() {
    let cfg = TestConfig::default();
    assert!(cfg.name.is_none());
    assert!(cfg.seed.is_none());
    assert_eq!(cfg.gateways, 2);
    assert_eq!(cfg.nodes, 10);
    assert_eq!(cfg.ring_max_htl, 10);
    assert_eq!(cfg.rnd_if_htl_above, 7);
    assert_eq!(cfg.max_connections, 20);
    assert_eq!(cfg.min_connections, 10);
    assert_eq!(cfg.events, usize::MAX);
    assert_eq!(cfg.wait_duration, 15_000);
    assert!(matches!(cfg.command, TestMode::SingleProcess));
}
