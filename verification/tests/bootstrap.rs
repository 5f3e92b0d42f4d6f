use guild_node::addr::PeerAddr;
use guild_node::bootstrap::{Bootstrap, PeerInfo, MAX_KNOWN_PEERS};

fn peer(n: u32, seen: u64) -> PeerInfo {
    PeerInfo {
        addr: PeerAddr { ip: 0x0a00_0000 + n, port: 42000 },
        node_id: [(n % 251) as u8; 32],
        last_seen: seen,
    }
}

#[test]
fn connect_bootstrap_keeps_the_seeds_that_are_endpoints() {
    let b = Bootstrap::new(vec![
        "127.0.0.1:42000".to_string(),
        "not an address".to_string(),
        "10.0.0.7:9".to_string(),
        "example.org:80".to_string(),
    ]);
    assert_eq!(
        b.connect_bootstrap(),
        vec![PeerAddr::new(127, 0, 0, 1, 42000), PeerAddr::new(10, 0, 0, 7, 9)]
    );
}

#[test]
fn default_seeds_are_names_and_denote_no_endpoint() {
    let b = Bootstrap::with_defaults();
    assert!(b.connect_bootstrap().is_empty());
    assert!(b.get_peers().is_empty());
}

#[test]
fn add_peer_ignores_a_known_address() {
    let mut b = Bootstrap::new(vec![]);
    b.add_peer(peer(1, 10));
    b.add_peer(peer(2, 11));
    b.add_peer(PeerInfo { last_seen: 99, ..peer(1, 10) });
    assert_eq!(b.get_peers(), vec![peer(1, 10), peer(2, 11)]);
    assert_eq!(b.exchange_peers(PeerAddr::loopback(1)), vec![peer(1, 10), peer(2, 11)]);
}

#[test]
fn known_peers_never_exceed_the_cap_and_the_oldest_leaves() {
    let mut b = Bootstrap::new(vec![]);
    for n in 0..MAX_KNOWN_PEERS as u32 {
        b.add_peer(peer(n, n as u64));
        assert!(b.get_peers().len() <= MAX_KNOWN_PEERS);
    }
    assert_eq!(b.get_peers().len(), 1000);
    assert_eq!(b.get_peers()[0], peer(0, 0));
    b.add_peer(peer(5000, 1));
    let peers = b.get_peers();
    assert_eq!(peers.len(), 1000);
    assert_eq!(peers[0], peer(1, 1));
    assert_eq!(peers[999], peer(5000, 1));
    b.add_peer(peer(5001, 2));
    let peers = b.get_peers();
    assert_eq!(peers.len(), 1000);
    assert_eq!(peers[0], peer(2, 2));
    assert_eq!(peers[999], peer(5001, 2));
}

#[test]
fn cleanup_keeps_the_peers_seen_within_the_age() {
    let mut b = Bootstrap::new(vec![]);
    b.add_peer(peer(1, 100));
    b.add_peer(peer(2, 160));
    b.add_peer(peer(3, 199));
    b.add_peer(peer(4, 140));
    b.add_peer(peer(5, 500));
    b.cleanup_stale_peers(60, 200);
    assert_eq!(b.get_peers(), vec![peer(2, 160), peer(3, 199), peer(5, 500)]);
    b.cleanup_stale_peers(0, 200);
    assert_eq!(b.get_peers(), vec![peer(5, 500)]);
}
