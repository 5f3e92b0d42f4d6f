use guild_node::addr::PeerAddr;
use guild_node::message::Message;
use guild_node::network::{
    next_bind_step, BindStep, FrameAction, Network, NetworkStats, PeerInfo, StreamAction,
    DECODE_SAMPLE_LEN, IDLE_TIMEOUT_SECS, KEEP_ALIVE_SECS, MAX_BIND_ATTEMPTS, PEER_TIMEOUT_MS,
    RETRY_DELAY_MS,
};

fn a() -> PeerAddr {
    PeerAddr::new(127, 0, 0, 1, 42010)
}

fn b() -> PeerAddr {
    PeerAddr::new(127, 0, 0, 1, 42011)
}

fn record_of(n: &Network, addr: PeerAddr) -> Option<PeerInfo> {
    n.get_peers_info().into_iter().find(|p| p.addr == addr)
}

/// Binds as endpoint bring-up does, against the set of ports that are taken.
fn bring_up(preferred: u16, taken: &[u16]) -> Option<u16> {
    let mut port = preferred;
    let mut attempt = 0;
    loop {
        if !taken.contains(&port) {
            return Some(port);
        }
        match next_bind_step(port, attempt, "Address already in use (os error 98)") {
            BindStep::Retry(next) => {
                port = next;
                attempt += 1;
            }
            _ => return None,
        }
    }
}

#[test]
fn constants_of_the_transport() {
    assert_eq!(PEER_TIMEOUT_MS, 10_000);
    assert_eq!(RETRY_DELAY_MS, 100);
    assert_eq!(MAX_BIND_ATTEMPTS, 100);
    assert_eq!(DECODE_SAMPLE_LEN, 100);
    assert_eq!(KEEP_ALIVE_SECS, 5);
    assert_eq!(IDLE_TIMEOUT_SECS, 30);
}

#[test]
fn taken_port_is_followed_by_the_next() {
    assert_eq!(next_bind_step(42000, 0, "Address already in use"), BindStep::Retry(42001));
    assert_eq!(
        next_bind_step(42000, 5, "Only one usage of each socket address is normally permitted: already being used"),
        BindStep::Retry(42001)
    );
    assert_eq!(next_bind_step(42000, 98, "Address already in use"), BindStep::Retry(42001));
    assert_eq!(next_bind_step(42000, 99, "Address already in use"), BindStep::Exhausted);
    assert_eq!(next_bind_step(42000, u32::MAX, "Address already in use"), BindStep::Exhausted);
    assert_eq!(next_bind_step(65535, 0, "Address already in use"), BindStep::Exhausted);
    assert_eq!(next_bind_step(65534, 0, "Address already in use"), BindStep::Retry(65535));
}

#[test]
fn other_bind_failure_is_fatal() {
    assert_eq!(next_bind_step(80, 0, "Permission denied (os error 13)"), BindStep::Fatal);
    assert_eq!(next_bind_step(80, 0, ""), BindStep::Fatal);
    assert_eq!(next_bind_step(80, 0, "address already in use"), BindStep::Fatal);
}

#[test]
fn three_endpoints_beside_a_taken_port() {
    let mut taken = vec![42000];
    let mut bound = Vec::new();
    for _ in 0..3 {
        let port = bring_up(42000, &taken).unwrap();
        taken.push(port);
        bound.push(Network::with_port(port));
    }
    let ports: Vec<u16> = bound.iter().map(|n| n.local_port()).collect();
    assert_eq!(ports, vec![42001, 42002, 42003]);
}

#[test]
fn bring_up_gives_up_after_a_hundred_ports() {
    let taken: Vec<u16> = (42000..42100).collect();
    assert_eq!(bring_up(42000, &taken), None);
    let taken: Vec<u16> = (42000..42099).collect();
    assert_eq!(bring_up(42000, &taken), Some(42099));
}

#[test]
fn new_network_has_no_peers_and_zero_counters() {
    let n = Network::new();
    assert_eq!(n.local_port(), 0);
    assert_eq!(n.peer_count(), 0);
    assert!(n.get_peers_info().is_empty());
    assert_eq!(n.get_stats(), NetworkStats::default());
    assert_eq!(NetworkStats::default().connections_established, 0);
    assert_eq!(Network::with_port(4242).local_port(), 4242);
}

#[test]
fn connect_records_the_peer_and_counts_it() {
    let mut n = Network::with_port(42010);
    n.connect(b(), 500);
    assert_eq!(n.peer_count(), 1);
    assert_eq!(
        n.get_peers_info(),
        vec![PeerInfo { addr: b(), last_ping: 500, last_pong: 500, latency_ms: 0 }]
    );
    assert_eq!(n.get_stats().connections_established, 1);
    n.connect(b(), 900);
    assert_eq!(n.peer_count(), 1);
    assert_eq!(record_of(&n, b()).unwrap().last_pong, 900);
    assert_eq!(n.get_stats().connections_established, 2);
    n.connect(a(), 901);
    assert_eq!(n.peer_count(), 2);
}

#[test]
fn ping_is_answered_with_the_pong_that_echoes_it() {
    let mut n = Network::with_port(42011);
    n.connect(a(), 0);
    let ping = Message::Ping { id: "p-1".to_string(), timestamp: 123_456 };
    let action = n.handle_peer_message(a(), &ping.encode(), 700);
    let pong = Message::Pong { id: "p-1".to_string(), timestamp: 123_456 };
    assert_eq!(action, FrameAction::Reply(pong.encode()));
    let rec = record_of(&n, a()).unwrap();
    assert_eq!(rec.last_ping, 700);
    assert_eq!(rec.last_pong, 0);
    assert_eq!(rec.latency_ms, 0);
}

#[test]
fn ping_from_a_stranger_is_answered_too() {
    let mut n = Network::with_port(42011);
    let ping = Message::Ping { id: "x".to_string(), timestamp: 1 };
    let action = n.handle_peer_message(a(), &ping.encode(), 700);
    assert_eq!(
        action,
        FrameAction::Reply(Message::Pong { id: "x".to_string(), timestamp: 1 }.encode())
    );
    assert_eq!(n.peer_count(), 0);
}

#[test]
fn pong_sets_latency_and_last_pong() {
    let mut n = Network::with_port(42010);
    n.connect(b(), 1_000);
    let pong = Message::Pong { id: "p".to_string(), timestamp: 5_000 };
    assert_eq!(n.handle_peer_message(b(), &pong.encode(), 5_130), FrameAction::Latency(130));
    let rec = record_of(&n, b()).unwrap();
    assert_eq!(rec.latency_ms, 130);
    assert_eq!(rec.last_pong, 5_130);
    assert_eq!(rec.last_ping, 1_000);
}

#[test]
fn pong_from_the_future_gives_latency_zero() {
    let mut n = Network::with_port(42010);
    n.connect(b(), 1_000);
    let pong = Message::Pong { id: "p".to_string(), timestamp: 9_000 };
    assert_eq!(n.handle_peer_message(b(), &pong.encode(), 8_000), FrameAction::Latency(0));
    assert_eq!(record_of(&n, b()).unwrap().latency_ms, 0);
    assert_eq!(record_of(&n, b()).unwrap().last_pong, 8_000);
}

#[test]
fn payload_is_handed_up() {
    let mut n = Network::with_port(42010);
    n.connect(b(), 0);
    let before = n.get_peers_info();
    let data = Message::Data(vec![1, 2, 3]);
    assert_eq!(n.handle_peer_message(b(), &data.encode(), 50), FrameAction::Deliver(vec![1, 2, 3]));
    assert_eq!(n.get_peers_info(), before);
}

#[test]
fn empty_and_undecodable_frames_are_dropped_and_the_peer_kept() {
    let mut n = Network::with_port(42010);
    n.connect(b(), 0);
    let before = n.get_peers_info();
    assert_eq!(n.handle_peer_message(b(), &[], 50), FrameAction::Empty);
    assert_eq!(
        n.handle_peer_message(b(), &[9, 9, 9, 9, 1], 50),
        FrameAction::Undecodable(vec![9, 9, 9, 9, 1])
    );
    let long = vec![0xabu8; 250];
    assert_eq!(
        n.handle_peer_message(b(), &long, 50),
        FrameAction::Undecodable(vec![0xabu8; 100])
    );
    assert_eq!(n.get_peers_info(), before);
}

#[test]
fn closed_session_ends_the_peer() {
    let mut n = Network::with_port(42010);
    n.connect(a(), 0);
    n.connect(b(), 0);
    assert_eq!(n.handle_stream_error(b(), "timed out"), StreamAction::RetryAfter(100));
    assert_eq!(n.peer_count(), 2);
    assert_eq!(n.handle_stream_error(b(), "closed by peer: 0"), StreamAction::Stop);
    assert_eq!(n.peer_count(), 1);
    assert!(record_of(&n, b()).is_none());
    assert_eq!(n.handle_stream_error(a(), "ConnectionClosed"), StreamAction::Stop);
    assert_eq!(n.peer_count(), 0);
    assert_eq!(n.handle_stream_error(a(), "CLOSED"), StreamAction::RetryAfter(RETRY_DELAY_MS));
}

#[test]
fn health_sweep_drops_the_peers_that_are_silent_for_more_than_ten_seconds() {
    let mut n = Network::with_port(42010);
    n.connect(a(), 1_000);
    n.connect(b(), 5_000);
    assert!(n.check_peer_health(11_000).is_empty());
    assert_eq!(n.peer_count(), 2);
    assert_eq!(n.check_peer_health(11_001), vec![a()]);
    assert_eq!(n.get_peers_info().iter().map(|p| p.addr).collect::<Vec<_>>(), vec![b()]);
    assert!(n.check_peer_health(3_000).is_empty());
    assert_eq!(n.check_peer_health(15_001), vec![b()]);
    assert_eq!(n.peer_count(), 0);
}

#[test]
fn pong_keeps_a_peer_alive() {
    let mut n = Network::with_port(42010);
    n.connect(b(), 0);
    let pong = Message::Pong { id: "p".to_string(), timestamp: 9_000 };
    n.handle_peer_message(b(), &pong.encode(), 9_050);
    assert!(n.check_peer_health(15_000).is_empty());
    assert_eq!(n.peer_count(), 1);
    assert_eq!(n.check_peer_health(19_051), vec![b()]);
}

#[test]
fn broadcast_wraps_the_payload_for_every_peer() {
    let mut n = Network::with_port(42010);
    let (targets, _) = n.broadcast(&[1]);
    assert!(targets.is_empty());
    n.connect(a(), 0);
    n.connect(b(), 0);
    let (mut targets, frame) = n.broadcast(&[7, 7]);
    targets.sort_by_key(|t| t.port());
    assert_eq!(targets, vec![a(), b()]);
    assert_eq!(frame, Message::Data(vec![7, 7]).encode());
    assert_eq!(Message::decode(&frame), Some(Message::Data(vec![7, 7])));
}

#[test]
fn send_ping_makes_a_fresh_ping_for_every_peer() {
    let mut n = Network::with_port(42010);
    assert!(n.send_ping(5).is_empty());
    n.connect(a(), 0);
    n.connect(b(), 0);
    let pings = n.send_ping(77_000);
    assert_eq!(pings.len(), 2);
    let mut to: Vec<PeerAddr> = pings.iter().map(|p| p.to).collect();
    to.sort_by_key(|t| t.port());
    assert_eq!(to, vec![a(), b()]);
    for p in &pings {
        assert_eq!(
            Message::decode(&p.frame),
            Some(Message::Ping { id: p.id.clone(), timestamp: 77_000 })
        );
        assert_eq!(p.id.len(), 36);
    }
    assert_ne!(pings[0].id, pings[1].id);
}

#[test]
fn two_nodes_measure_each_other() {
    let mut node_a = Network::with_port(42010);
    let mut node_b = Network::with_port(42011);
    node_a.connect(b(), 0);
    node_b.connect(a(), 0);

    // B's first round of pings, at 5 s
    let pings = node_b.send_ping(5_000);
    assert_eq!(pings.len(), 1);
    assert_eq!(pings[0].to, a());
    let reply = match node_a.handle_peer_message(b(), &pings[0].frame, 5_020) {
        FrameAction::Reply(bytes) => bytes,
        other => panic!("{:?}", other),
    };
    assert_eq!(node_b.handle_peer_message(a(), &reply, 5_045), FrameAction::Latency(45));

    // A's round, within the same second
    let pings = node_a.send_ping(5_100);
    let reply = match node_b.handle_peer_message(a(), &pings[0].frame, 5_130) {
        FrameAction::Reply(bytes) => bytes,
        other => panic!("{:?}", other),
    };
    assert_eq!(node_a.handle_peer_message(b(), &reply, 5_160), FrameAction::Latency(60));

    let seen_by_a = record_of(&node_a, b()).unwrap();
    assert!(seen_by_a.latency_ms <= 200);
    assert_eq!(seen_by_a.latency_ms, 60);
    assert_eq!(seen_by_a.last_ping, 5_020);
    assert_eq!(record_of(&node_b, a()).unwrap().latency_ms, 45);
}

#[test]
fn dead_peer_is_gone_within_fifteen_seconds() {
    let mut node_a = Network::with_port(42010);
    node_a.connect(b(), 0);
    let mut now = 0;
    while now < 15_000 {
        now += 5_000;
        let _unanswered = node_a.send_ping(now);
        if now % 10_000 == 0 {
            node_a.check_peer_health(now);
        }
    }
    node_a.check_peer_health(15_000);
    assert_eq!(node_a.peer_count(), 0);
}
