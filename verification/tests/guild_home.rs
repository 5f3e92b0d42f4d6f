use guild_node::addr::PeerAddr;
use guild_node::config::Config;
use guild_node::guild_home::{
    should_log_dial_failure, GuildHome, DISCOVERY_INTERVAL_SECS, HEALTH_INTERVAL_SECS,
    MAX_DISCOVERED_PEERS, PING_INTERVAL_SECS,
};

#[test]
fn timers_of_the_node() {
    assert_eq!(PING_INTERVAL_SECS, 5);
    assert_eq!(HEALTH_INTERVAL_SECS, 10);
    assert_eq!(DISCOVERY_INTERVAL_SECS, 30);
    assert_eq!(MAX_DISCOVERED_PEERS, 100);
}

#[test]
fn refused_dials_are_not_logged() {
    assert!(!should_log_dial_failure("Connection refused (os error 111)"));
    assert!(!should_log_dial_failure("connection refused"));
    assert!(should_log_dial_failure("timed out"));
    assert!(should_log_dial_failure(""));
    assert!(should_log_dial_failure("REFUSED"));
}

#[test]
fn start_sets_up_discovery_from_config_and_port() {
    let config = Config {
        bootstrap: vec!["127.0.0.1:42000".to_string()],
        ..Config::default()
    };
    let mut g = GuildHome::new(config.clone(), 42007);
    assert_eq!(g.config, config);
    assert_eq!(g.network.local_port(), 42007);
    assert_eq!(g.network.peer_count(), 0);
    let (mut discovery, started) = g.start();
    assert!(started);
    let (_, again) = g.start();
    assert!(!again);
    assert!(discovery.routing_table().is_some());
    let ports: Vec<u16> = discovery.start(5).iter().map(|a| a.port()).collect();
    assert_eq!(ports, vec![42000, 42001, 42002, 42003]);
}

#[test]
fn connected_peer_is_known_to_transport_and_discovery() {
    let mut g = GuildHome::new(Config::default(), 42000);
    let (mut discovery, _) = g.start();
    let peer = PeerAddr::new(127, 0, 0, 1, 42001);
    g.peer_connected(&mut discovery, peer, 1_000, 1_700_000_000);
    assert_eq!(g.network.peer_count(), 1);
    assert_eq!(g.network.get_peers_info()[0].addr, peer);
    assert_eq!(g.network.get_peers_info()[0].last_pong, 1_000);
    assert_eq!(discovery.get_peers().len(), 1);
    assert_eq!(discovery.get_peers()[0].last_seen, 1_700_000_000);
    assert_eq!(discovery.known_peers()[0].addr, peer);
}
