use guild_node::addr::PeerAddr;
use guild_node::blockchain_bridge::{ipc_port, BlockchainBridge, BridgeAction};
use guild_node::ipc::{split_frame, IPCMessage};

fn addr(port: u16) -> PeerAddr {
    PeerAddr::loopback(port)
}

#[test]
fn bridge_listens_on_the_port_after_the_transports() {
    assert_eq!(ipc_port(42000), Some(42001));
    assert_eq!(ipc_port(0), Some(1));
    assert_eq!(ipc_port(65534), Some(65535));
    assert_eq!(ipc_port(65535), None);
}

#[test]
fn second_start_finds_the_bridge_started() {
    let mut b = BlockchainBridge::new();
    assert!(b.start());
    assert!(!b.start());
    assert!(!b.start());
    b.stop();
    assert!(b.start());
}

#[test]
fn broadcast_request_is_passed_on() {
    let b = BlockchainBridge::new();
    assert_eq!(
        b.handle_blockchain_message(IPCMessage::Broadcast(vec![1, 2])),
        BridgeAction::Broadcast(vec![1, 2])
    );
}

#[test]
fn send_to_goes_to_the_peers_address() {
    let mut b = BlockchainBridge::new();
    assert_eq!(b.peer_joined(addr(1), [1; 32]), IPCMessage::PeerJoined([1; 32]));
    assert_eq!(b.peer_joined(addr(2), [2; 32]), IPCMessage::PeerJoined([2; 32]));
    assert_eq!(b.find_peer_address(&[2; 32]), Some(addr(2)));
    assert_eq!(b.find_peer_address(&[3; 32]), None);
    assert_eq!(
        b.handle_blockchain_message(IPCMessage::SendTo { peer: [2; 32], data: vec![5] }),
        BridgeAction::SendTo(addr(2), vec![5])
    );
}

#[test]
fn send_to_an_unknown_peer_falls_back_to_broadcast() {
    let mut b = BlockchainBridge::new();
    b.peer_joined(addr(1), [1; 32]);
    assert_eq!(
        b.handle_blockchain_message(IPCMessage::SendTo { peer: [9; 32], data: vec![5, 6] }),
        BridgeAction::Broadcast(vec![5, 6])
    );
}

#[test]
fn messages_for_the_other_process_are_ignored() {
    let b = BlockchainBridge::new();
    assert_eq!(b.handle_blockchain_message(IPCMessage::PeerJoined([1; 32])), BridgeAction::Ignore);
    assert_eq!(b.handle_blockchain_message(IPCMessage::PeerLeft([1; 32])), BridgeAction::Ignore);
    assert_eq!(
        b.handle_blockchain_message(IPCMessage::PeerMessage { from: [1; 32], data: vec![] }),
        BridgeAction::Ignore
    );
}

#[test]
fn peer_left_forgets_the_peer() {
    let mut b = BlockchainBridge::new();
    b.peer_joined(addr(1), [1; 32]);
    b.peer_joined(addr(1), [7; 32]);
    assert_eq!(b.find_peer_address(&[1; 32]), None);
    assert_eq!(b.find_peer_address(&[7; 32]), Some(addr(1)));
    assert_eq!(b.peer_left(addr(1)), Some(IPCMessage::PeerLeft([7; 32])));
    assert_eq!(b.peer_left(addr(1)), None);
    assert_eq!(b.find_peer_address(&[7; 32]), None);
}

#[test]
fn forward_frames_a_peer_message() {
    let f = BlockchainBridge::forward([4; 32], vec![1, 2, 3]).unwrap();
    let (payload, used) = split_frame(&f).unwrap();
    assert_eq!(used, f.len());
    assert_eq!(
        IPCMessage::decode(&payload),
        Some(IPCMessage::PeerMessage { from: [4; 32], data: vec![1, 2, 3] })
    );
    assert_eq!(&f[..4], &[0, 0, 0, 47]);
}
