use guild_node::consensus::SimpleConsensus;
use guild_node::ipc::IPCMessage;
use guild_node::protocol::{
    create_block, generate_node_id, handle_ipc_message, handle_tick, validate_block,
};
use guild_node::types::{BlockVote, ConsensusMessage, MinimalBlock};
use sha2::{Digest, Sha256};

fn v(n: u8) -> [u8; 32] {
    [n; 32]
}

fn engine(own: u8, all: &[u8]) -> SimpleConsensus {
    let mut c = SimpleConsensus::new(v(own));
    c.remove_validator(v(own));
    for o in all {
        c.add_validator(v(*o));
    }
    c
}

fn from_peer(from: u8, m: &ConsensusMessage) -> IPCMessage {
    IPCMessage::PeerMessage { from: v(from), data: m.encode() }
}

fn payload_of(out: Option<IPCMessage>) -> Vec<u8> {
    match out {
        Some(IPCMessage::Broadcast(p)) => p,
        other => panic!("{:?}", other),
    }
}

#[test]
fn create_block_builds_on_the_last_block() {
    let mut c = SimpleConsensus::new(v(1));
    let b = create_block(&c, 1_700_000_000);
    assert_eq!(
        b,
        MinimalBlock {
            height: 0,
            timestamp: 1_700_000_000,
            prev_hash: [0; 32],
            proposer: v(1),
            data: vec![],
        }
    );
    c.commit_block(b.clone());
    c.finalize_block(0);
    let next = create_block(&c, 1_700_000_001);
    assert_eq!(next.height, 1);
    assert_eq!(next.prev_hash, b.hash());
    assert_eq!(next.timestamp, 1_700_000_001);
}

#[test]
fn validate_block_checks_height_predecessor_and_proposer() {
    let c = engine(2, &[1, 2, 3]);
    let good = MinimalBlock {
        height: 0,
        timestamp: 5,
        prev_hash: [0; 32],
        proposer: v(1),
        data: vec![1],
    };
    assert!(validate_block(&good, &c));
    assert!(!validate_block(&MinimalBlock { height: 1, ..good.clone() }, &c));
    assert!(!validate_block(&MinimalBlock { prev_hash: [1; 32], ..good.clone() }, &c));
    assert!(!validate_block(&MinimalBlock { proposer: v(2), ..good.clone() }, &c));
    assert!(validate_block(&MinimalBlock { timestamp: 0, data: vec![], ..good }, &c));
}

#[test]
fn generate_node_id_hashes_the_time() {
    let nanos: u128 = 1_700_000_000_123_456_789;
    let expected: [u8; 32] = Sha256::digest(nanos.to_be_bytes()).into();
    assert_eq!(generate_node_id(nanos), expected);
    let zero: [u8; 32] = Sha256::digest([0u8; 16]).into();
    assert_eq!(generate_node_id(0), zero);
    let max: [u8; 32] = Sha256::digest([0xffu8; 16]).into();
    assert_eq!(generate_node_id(u128::MAX), max);
}

#[test]
fn tick_proposes_when_it_is_the_nodes_turn() {
    let c = engine(1, &[1, 2, 3]);
    let payload = payload_of(handle_tick(&c, 99));
    assert_eq!(
        ConsensusMessage::decode(&payload),
        Some(ConsensusMessage::Propose(create_block(&c, 99)))
    );
    assert_eq!(handle_tick(&engine(2, &[1, 2, 3]), 99), None);
    assert_eq!(handle_tick(&engine(2, &[]), 99), None);
}

#[test]
fn valid_proposal_is_voted_for_and_invalid_one_is_not() {
    let mut c = engine(2, &[1, 2, 3]);
    let proposal = create_block(&engine(1, &[1, 2, 3]), 50);
    let reply = handle_ipc_message(&mut c, from_peer(1, &ConsensusMessage::Propose(proposal.clone())));
    assert_eq!(
        ConsensusMessage::decode(&payload_of(reply)),
        Some(ConsensusMessage::Vote(BlockVote::new(&proposal, v(2))))
    );
    let wrong = MinimalBlock { proposer: v(3), ..proposal };
    assert_eq!(
        handle_ipc_message(&mut c, from_peer(3, &ConsensusMessage::Propose(wrong))),
        None
    );
    assert_eq!(c.get_next_height(), 0);
}

#[test]
fn joining_and_leaving_peers_change_the_validators() {
    let mut c = SimpleConsensus::new(v(1));
    assert_eq!(handle_ipc_message(&mut c, IPCMessage::PeerJoined(v(2))), None);
    assert_eq!(handle_ipc_message(&mut c, IPCMessage::PeerJoined(v(2))), None);
    assert_eq!(c.print_stats().validators, 2);
    assert_eq!(c.get_proposer(1), v(2));
    assert_eq!(handle_ipc_message(&mut c, IPCMessage::PeerLeft(v(2))), None);
    assert_eq!(c.print_stats().validators, 1);
}

#[test]
fn commit_is_recorded_and_other_messages_are_ignored() {
    let mut c = SimpleConsensus::new(v(1));
    let b = create_block(&c, 5);
    assert_eq!(handle_ipc_message(&mut c, from_peer(2, &ConsensusMessage::Commit(b.clone()))), None);
    assert_eq!(c.get_last_hash(), b.hash());
    assert_eq!(c.print_stats().committed_blocks, 1);
    assert_eq!(handle_ipc_message(&mut c, IPCMessage::Broadcast(vec![1])), None);
    assert_eq!(
        handle_ipc_message(&mut c, IPCMessage::SendTo { peer: v(1), data: vec![1] }),
        None
    );
    assert_eq!(
        handle_ipc_message(&mut c, IPCMessage::PeerMessage { from: v(2), data: vec![9, 9] }),
        None
    );
    assert_eq!(c.get_next_height(), 0);
    assert_eq!(c.print_stats().committed_blocks, 1);
}

#[test]
fn vote_at_the_last_height_is_counted_but_not_finalized() {
    let mut c = SimpleConsensus::new(v(1));
    let vote = BlockVote { height: u64::MAX, block_hash: [0; 32], voter: v(1), signature: vec![] };
    assert_eq!(handle_ipc_message(&mut c, from_peer(1, &ConsensusMessage::Vote(vote))), None);
    assert!(c.check_quorum(u64::MAX));
    assert_eq!(c.get_next_height(), 0);
}

/// One validator whose broadcasts come back to it: every tick it proposes,
/// votes for its proposal and reaches the quorum of one.
#[test]
fn single_validator_advances_one_height_per_tick() {
    let mut c = SimpleConsensus::new(v(1));
    let n = 7;
    for second in 0..n {
        let proposal = payload_of(handle_tick(&c, 1_000 + second));
        let vote = payload_of(handle_ipc_message(
            &mut c,
            IPCMessage::PeerMessage { from: v(1), data: proposal },
        ));
        assert_eq!(
            handle_ipc_message(&mut c, IPCMessage::PeerMessage { from: v(1), data: vote }),
            None
        );
        assert_eq!(c.get_next_height(), second + 1);
    }
    assert_eq!(c.get_next_height(), n);
}

/// Three validators, the first proposing for height 0. Its own vote and
/// that of the second are no quorum; the vote of the third is.
#[test]
fn three_validators_reach_quorum_with_the_third_vote() {
    let mut v1 = engine(1, &[1, 2, 3]);
    let mut v2 = engine(2, &[1, 2, 3]);
    let mut v3 = engine(3, &[1, 2, 3]);
    assert!(v1.is_my_turn());
    assert!(!v2.is_my_turn());
    assert!(!v3.is_my_turn());

    let proposal = payload_of(handle_tick(&v1, 1_000));
    let deliver = |from: u8, data: &Vec<u8>| IPCMessage::PeerMessage { from: v(from), data: data.clone() };
    let vote1 = payload_of(handle_ipc_message(&mut v1, deliver(1, &proposal)));
    let vote2 = payload_of(handle_ipc_message(&mut v2, deliver(1, &proposal)));
    let vote3 = payload_of(handle_ipc_message(&mut v3, deliver(1, &proposal)));

    handle_ipc_message(&mut v1, deliver(1, &vote1));
    assert_eq!(v1.get_next_height(), 0);
    handle_ipc_message(&mut v1, deliver(2, &vote2));
    assert_eq!(v1.get_next_height(), 0);
    assert!(!v1.check_quorum(0));
    handle_ipc_message(&mut v1, deliver(3, &vote3));
    assert_eq!(v1.get_next_height(), 1);

    // a fourth vote, again from the second validator
    handle_ipc_message(&mut v1, deliver(2, &vote2));
    assert_eq!(v1.get_next_height(), 1);
    assert!(!v1.check_quorum(0));
    assert!(!v1.check_quorum(1));
    assert_eq!(v1.print_stats().validators, 3);
}

#[test]
fn duplicate_vote_before_the_quorum_changes_nothing() {
    let mut c = engine(1, &[1, 2, 3]);
    let b = create_block(&c, 5);
    let vote2 = ConsensusMessage::Vote(BlockVote::new(&b, v(2)));
    handle_ipc_message(&mut c, from_peer(2, &vote2));
    handle_ipc_message(&mut c, from_peer(2, &vote2));
    handle_ipc_message(&mut c, from_peer(2, &vote2));
    assert!(!c.check_quorum(0));
    assert_eq!(c.get_next_height(), 0);
}
