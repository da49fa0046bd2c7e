use liberty_core::network::federation::{add_peer, bootstrap_addrs, get_config, mesh_enabled, set_config};
use liberty_core::network::topics;
use liberty_core::network::{
    FederationConfig, FederationMode, FederationPeer, Libp2pTransport, LocalTransport, MessageType, NetworkError,
    NetworkMessage, PeerInfo, SwarmHandle,
};

fn msg(from: &str, to: &str, payload: &[u8], ts: i64) -> NetworkMessage {
    NetworkMessage { from: from.to_string(), to: to.to_string(), msg_type: MessageType::Chat, payload: payload.to_vec(), timestamp: ts }
}

fn peer(name: &str, addrs: &[&str], priority: u32) -> FederationPeer {
    FederationPeer {
        name: name.to_string(),
        multiaddrs: addrs.iter().map(|a| a.to_string()).collect(),
        wake_url: None,
        privacy_url: None,
        priority,
    }
}

#[test]
fn local_transport_routes_in_order() {
    let mut alice = LocalTransport::new("alice");
    let mut bob = LocalTransport::new("bob");
    assert_eq!(alice.local_peer_id(), "alice");
    assert!(matches!(alice.send("bob", &msg("alice", "bob", b"x", 1)), Err(NetworkError::NotConnected)));
    alice.register_peer("bob");
    alice.send("bob", &msg("alice", "bob", b"one", 1)).unwrap();
    alice.send("bob", &msg("alice", "bob", b"two", 2)).unwrap();
    for m in alice.take_outbox("bob") {
        bob.deliver(m);
    }
    assert!(alice.take_outbox("bob").is_empty());
    let first = bob.receive().unwrap().unwrap();
    let second = bob.receive().unwrap().unwrap();
    assert_eq!(first.payload, b"one".to_vec());
    assert_eq!(second.payload, b"two".to_vec());
    assert_eq!(second.timestamp, 2);
    assert!(bob.receive().unwrap().is_none());
}

#[test]
fn local_transport_connect() {
    let mut t = LocalTransport::new("me");
    let p = PeerInfo { peer_id: "you".to_string(), multiaddrs: vec![] };
    match t.connect(&p) {
        Err(NetworkError::Connection(m)) => assert_eq!(m, "peer you not registered"),
        _ => panic!("expected a connection error"),
    }
    t.register_peer("you");
    assert!(t.connect(&p).is_ok());
    t.send("you", &msg("me", "you", b"kept", 0)).unwrap();
    t.register_peer("you");
    assert!(t.take_outbox("you").is_empty());
    assert!(t.take_outbox("nobody").is_empty());
}

#[test]
fn network_error_messages() {
    assert_eq!(NetworkError::Connection("x".to_string()).to_string(), "connection failed: x");
    assert_eq!(NetworkError::Send("y".to_string()).to_string(), "send failed: y");
    assert_eq!(NetworkError::NotConnected.to_string(), "not connected to peer");
    assert_eq!(NetworkError::Serialize.to_string(), "serialization error");
    assert_eq!(NetworkError::NotImplemented.to_string(), "not implemented yet");
}

#[test]
fn bootstrap_sorted_by_priority_and_capped() {
    let mut cfg = FederationConfig::default();
    add_peer(&mut cfg, peer("c", &["/ip4/3"], 3));
    add_peer(&mut cfg, peer("a", &["/ip4/1a", "", "/ip4/1b"], 1));
    add_peer(&mut cfg, peer("b", &["/ip4/2"], 2));
    assert_eq!(bootstrap_addrs(&cfg), vec!["/ip4/1a", "/ip4/1b", "/ip4/2", "/ip4/3"]);
    cfg.max_bootstrap = 2;
    assert_eq!(bootstrap_addrs(&cfg), vec!["/ip4/1a", "/ip4/1b"]);
    cfg.mode = FederationMode::LocalMesh;
    assert!(bootstrap_addrs(&cfg).is_empty());
}

#[test]
fn add_peer_replaces_same_name() {
    let mut cfg = FederationConfig::default();
    add_peer(&mut cfg, peer("a", &["/old"], 5));
    add_peer(&mut cfg, peer("b", &["/b"], 1));
    add_peer(&mut cfg, peer("a", &["/new"], 0));
    assert_eq!(cfg.peers.len(), 2);
    assert_eq!(cfg.peers[0].name, "a");
    assert_eq!(cfg.peers[0].multiaddrs, vec!["/new".to_string()]);
    assert_eq!(bootstrap_addrs(&cfg), vec!["/new", "/b"]);
}

#[test]
fn equal_priorities_keep_insertion_order() {
    let mut cfg = FederationConfig::default();
    add_peer(&mut cfg, peer("x", &["/x"], 1));
    add_peer(&mut cfg, peer("y", &["/y"], 1));
    add_peer(&mut cfg, peer("z", &["/z"], 0));
    assert_eq!(bootstrap_addrs(&cfg), vec!["/z", "/x", "/y"]);
}

#[test]
fn mesh_modes_and_config_copy() {
    let mut cfg = FederationConfig::default();
    assert_eq!(cfg.mode, FederationMode::Federated);
    assert!(cfg.open_discovery);
    assert!(mesh_enabled(&cfg));
    let mut other = FederationConfig::default();
    other.mode = FederationMode::Private;
    set_config(&mut cfg, other);
    assert!(!mesh_enabled(&cfg));
    cfg.mode = FederationMode::LocalMesh;
    assert!(mesh_enabled(&cfg));
    add_peer(&mut cfg, peer("p", &["/p"], 1));
    let copy = get_config(&cfg);
    assert_eq!(copy.peers.len(), 1);
    assert_eq!(copy.local_name, "liberty-node");
}

#[test]
fn swarm_and_libp2p_handles() {
    let mut s = SwarmHandle::new("peer-1");
    assert!(!s.is_running());
    s.start().unwrap();
    assert!(s.is_running());
    s.stop();
    assert!(!s.is_running());
    assert_eq!(s.peer_id(), "peer-1");
    assert_eq!(Libp2pTransport::new("peer-2").local_peer_id(), "peer-2");
}

#[test]
fn topic_names() {
    assert_eq!(topics::CHAT, "liberty/chat/1.0.0");
    assert_eq!(topics::PRESENCE, "liberty/presence/1.0.0");
    assert_eq!(topics::PREKEY, "liberty/prekey/1.0.0");
    assert_eq!(topics::GROUP, "liberty/group/1.0.0");
}

#[test]
fn libp2p_direct_paths() {
    let t = Libp2pTransport::new("p");
    let info = PeerInfo { peer_id: "q".to_string(), multiaddrs: vec!["/ip4/1".to_string()] };
    assert!(t.connect(&info).is_ok());
    assert!(matches!(t.send("q", &msg("p", "q", b"x", 0)), Err(NetworkError::NotImplemented)));
    assert!(t.receive().unwrap().is_none());
}

#[test]
fn local_transport_queues_per_peer_first_in_first_out() {
    let mut t = LocalTransport::new("me");
    t.register_peer("q");
    t.register_peer("r");
    t.send("q", &msg("me", "q", b"1", 1)).unwrap();
    t.send("r", &msg("me", "r", b"a", 2)).unwrap();
    assert!(matches!(t.send("s", &msg("me", "s", b"x", 3)), Err(NetworkError::NotConnected)));
    t.send("q", &msg("me", "q", b"2", 4)).unwrap();
    t.send("q", &msg("me", "q", b"3", 5)).unwrap();
    let out: Vec<Vec<u8>> = t.take_outbox("q").into_iter().map(|m| m.payload).collect();
    assert_eq!(out, vec![b"1".to_vec(), b"2".to_vec(), b"3".to_vec()]);
    let rs: Vec<i64> = t.take_outbox("r").into_iter().map(|m| m.timestamp).collect();
    assert_eq!(rs, vec![2]);
    assert!(t.take_outbox("s").is_empty());
}
