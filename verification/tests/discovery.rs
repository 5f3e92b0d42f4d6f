use guild_node::addr::PeerAddr;
use guild_node::bootstrap::Bootstrap;
use guild_node::dht::Kademlia;
use guild_node::discovery::{Discovery, DiscoveryConfig, DiscoveryMethod};
use guild_node::local_scan::{LocalScanner, DEFAULT_PORT, DEFAULT_PORT_RANGE};
use guild_node::node_id::NodeId;

fn ports(list: &Vec<PeerAddr>) -> Vec<u16> {
    list.iter().map(|a| a.port()).collect()
}

fn has_no_repeats(list: &Vec<PeerAddr>) -> bool {
    (0..list.len()).all(|i| (0..i).all(|j| list[i] != list[j]))
}

#[test]
fn scan_of_the_default_port_proposes_the_three_after_it() {
    let found = LocalScanner::new(42000).scan_local_peers();
    assert_eq!(ports(&found), vec![42001, 42002, 42003]);
    assert!(found.iter().all(|a| a.octets() == [127, 0, 0, 1]));
}

#[test]
fn scan_leaves_out_the_own_port() {
    assert_eq!(ports(&LocalScanner::new(42002).scan_local_peers()), vec![42000, 42001, 42003]);
    assert_eq!(
        ports(&LocalScanner::new(42005).scan_local_peers()),
        vec![42000, 42001, 42002, 42003]
    );
    assert_eq!(
        ports(&LocalScanner::new(42009).scan_local_peers()),
        vec![42000, 42001, 42002, 42003]
    );
}

#[test]
fn scan_from_outside_the_first_ten_ports_adds_the_two_above() {
    assert_eq!(
        ports(&LocalScanner::new(8080).scan_local_peers()),
        vec![42000, 42001, 42002, 42003, 8081, 8082]
    );
    assert_eq!(
        ports(&LocalScanner::new(42010).scan_local_peers()),
        vec![42000, 42001, 42002, 42003, 42011, 42012]
    );
    assert_eq!(
        ports(&LocalScanner::new(0).scan_local_peers()),
        vec![42000, 42001, 42002, 42003, 1, 2]
    );
}

#[test]
fn scan_proposes_no_port_twice_and_no_port_beyond_the_last() {
    assert_eq!(
        ports(&LocalScanner::new(41999).scan_local_peers()),
        vec![42000, 42001, 42002, 42003]
    );
    assert_eq!(
        ports(&LocalScanner::new(41998).scan_local_peers()),
        vec![42000, 42001, 42002, 42003, 41999]
    );
    assert_eq!(
        ports(&LocalScanner::new(65535).scan_local_peers()),
        vec![42000, 42001, 42002, 42003]
    );
    assert_eq!(
        ports(&LocalScanner::new(65534).scan_local_peers()),
        vec![42000, 42001, 42002, 42003, 65535]
    );
}

#[test]
fn scan_constants() {
    assert_eq!(DEFAULT_PORT, 42000);
    assert_eq!(DEFAULT_PORT_RANGE, 100);
}

#[test]
fn default_discovery_config() {
    let c = DiscoveryConfig::default();
    assert!(c.bootstrap_nodes.is_empty());
    assert!(c.enable_dht);
    assert_eq!(c.max_peers, 100);
    assert_eq!(c.port, 42000);
}

#[test]
fn pass_fuses_seed_and_routing_table() {
    let config = DiscoveryConfig {
        bootstrap_nodes: vec!["127.0.0.1:42000".to_string()],
        ..DiscoveryConfig::default()
    };
    let mut d = Discovery::new(config);
    let x = PeerAddr::new(127, 0, 0, 1, 42050);
    d.add_peer(x, 1_700_000_000);
    let peers = d.start(1_700_000_010);
    assert!(peers.contains(&PeerAddr::new(127, 0, 0, 1, 42000)));
    assert!(peers.contains(&x));
    assert!(has_no_repeats(&peers));
    assert!(peers.len() <= 100);
    assert_eq!(ports(&peers), vec![42001, 42002, 42003, 42000, 42050]);
}

#[test]
fn pass_is_cut_to_max_peers() {
    let config = DiscoveryConfig {
        bootstrap_nodes: vec!["127.0.0.1:42000".to_string()],
        max_peers: 2,
        ..DiscoveryConfig::default()
    };
    let mut d = Discovery::new(config);
    d.add_peer(PeerAddr::new(127, 0, 0, 1, 42050), 5);
    assert_eq!(ports(&d.start(6)), vec![42001, 42002]);
}

#[test]
fn pass_without_seeds_asks_scan_and_table_only() {
    let mut d = Discovery::new(DiscoveryConfig { port: 42001, ..DiscoveryConfig::default() });
    d.add_peer(PeerAddr::new(10, 0, 0, 1, 7000), 5);
    let peers = d.start(6);
    assert_eq!(ports(&peers), vec![42000, 42002, 42003, 7000]);
    let again = d.start(7);
    assert_eq!(again, peers);
}

#[test]
fn pass_puts_fresh_candidates_into_the_routing_table() {
    let mut d = Discovery::new(DiscoveryConfig::default());
    let peers = d.start(77);
    assert_eq!(ports(&peers), vec![42001, 42002, 42003]);
    let table = d.routing_table().unwrap();
    let mut held = Vec::new();
    for b in 0..256usize {
        for n in table.get_bucket(b) {
            assert_eq!(n.last_seen, 77);
            assert_eq!(n.id, NodeId::from_addr(&n.addr));
            assert_eq!(d.get_node_id().distance(&n.id).leading_zeros(), b);
            held.push(n.addr);
        }
    }
    held.sort_by_key(|a| a.port());
    assert_eq!(ports(&held), vec![42001, 42002, 42003]);
}

#[test]
fn pass_without_routing_table() {
    let config = DiscoveryConfig {
        bootstrap_nodes: vec!["10.1.1.1:5".to_string(), "nonsense".to_string()],
        enable_dht: false,
        max_peers: 100,
        port: 42000,
    };
    let mut d = Discovery::new(config);
    assert!(d.routing_table().is_none());
    d.add_peer(PeerAddr::new(10, 2, 2, 2, 6), 1);
    assert_eq!(ports(&d.start(2)), vec![42001, 42002, 42003, 5, 6]);
    assert_eq!(d.find_node(NodeId::new([0u8; 32])), vec![PeerAddr::new(10, 2, 2, 2, 6)]);
}

#[test]
fn add_peer_records_the_peer_once() {
    let mut d = Discovery::new(DiscoveryConfig::default());
    let a = PeerAddr::new(10, 0, 0, 1, 7000);
    d.add_peer(a, 100);
    d.add_peer(a, 200);
    let got = d.get_peers();
    assert_eq!(got.len(), 1);
    assert_eq!(got[0].addr, a);
    assert_eq!(got[0].last_seen, 100);
    assert_eq!(got[0].node_id, NodeId::from_addr(&a).0);
    assert_eq!(d.known_peers(), got);
    assert_eq!(d.find_node(NodeId::from_addr(&a)), vec![a]);
}

#[test]
fn local_scan_as_a_discovery_method() {
    let mut scanner = LocalScanner::new(42001);
    assert_eq!(ports(&scanner.discover_peers()), vec![42000, 42002, 42003]);
    scanner.announce(PeerAddr::loopback(5), 1);
    assert_eq!(ports(&scanner.discover_peers()), vec![42000, 42002, 42003]);
}

#[test]
fn bootstrap_as_a_discovery_method() {
    let mut bootstrap = Bootstrap::new(vec!["10.0.0.1:7".to_string(), "seed".to_string()]);
    assert_eq!(bootstrap.discover_peers(), vec![PeerAddr::new(10, 0, 0, 1, 7)]);
    let own = PeerAddr::new(192, 168, 0, 9, 42000);
    bootstrap.announce(own, 55);
    let known = bootstrap.get_peers();
    assert_eq!(known.len(), 1);
    assert_eq!(known[0].addr, own);
    assert_eq!(known[0].last_seen, 55);
    assert_eq!(known[0].node_id, NodeId::from_addr(&own).0);
    assert_eq!(bootstrap.discover_peers(), vec![PeerAddr::new(10, 0, 0, 1, 7)]);
}

#[test]
fn routing_table_as_a_discovery_method() {
    let mut table = Kademlia::new(NodeId::new([0u8; 32]));
    assert!(table.discover_peers().is_empty());
    let mut announced = Vec::new();
    for port in 1..=12u16 {
        let addr = PeerAddr::loopback(port);
        table.announce(addr, port as u64);
        announced.push(addr);
    }
    let found = table.discover_peers();
    assert_eq!(found.len(), 10);
    assert!(has_no_repeats(&found));
    assert!(found.iter().all(|a| announced.contains(a)));
    let nearest = table.find_closest_nodes(&NodeId::new([0u8; 32]), 10);
    assert_eq!(found, nearest.iter().map(|n| n.addr).collect::<Vec<_>>());
}
