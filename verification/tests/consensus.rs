use guild_node::consensus::{ConsensusStats, SimpleConsensus, MAX_COMMITTED_BLOCKS};
use guild_node::types::{BlockVote, MinimalBlock};

fn v(n: u8) -> [u8; 32] {
    [n; 32]
}

fn vote(height: u64, voter: u8) -> BlockVote {
    BlockVote { height, block_hash: [0xcc; 32], voter: v(voter), signature: vec![voter] }
}

fn block(height: u64) -> MinimalBlock {
    MinimalBlock { height, timestamp: 10 + height, prev_hash: [0; 32], proposer: v(1), data: vec![] }
}

fn with_validators(own: u8, others: &[u8]) -> SimpleConsensus {
    let mut c = SimpleConsensus::new(v(own));
    for o in others {
        c.add_validator(v(*o));
    }
    c
}

#[test]
fn new_engine_has_itself_as_the_only_validator() {
    let c = SimpleConsensus::new(v(1));
    assert_eq!(c.node_id, v(1));
    assert_eq!(c.get_node_id(), v(1));
    assert_eq!(c.get_next_height(), 0);
    assert_eq!(c.get_last_hash(), [0u8; 32]);
    assert!(c.is_my_turn());
    assert_eq!(c.get_proposer(0), v(1));
    assert_eq!(c.get_proposer(12345), v(1));
    assert_eq!(
        c.print_stats(),
        ConsensusStats { current_height: 0, validators: 1, committed_blocks: 0 }
    );
}

#[test]
fn validators_are_kept_without_repeats() {
    let mut c = with_validators(1, &[2, 3, 2, 1]);
    assert_eq!(c.print_stats().validators, 3);
    c.remove_validator(v(2));
    assert_eq!(c.print_stats().validators, 2);
    assert_eq!(c.get_proposer(0), v(1));
    assert_eq!(c.get_proposer(1), v(3));
    c.remove_validator(v(9));
    assert_eq!(c.print_stats().validators, 2);
}

#[test]
fn proposer_goes_round_robin() {
    let c = with_validators(1, &[2, 3]);
    assert_eq!(c.get_proposer(0), v(1));
    assert_eq!(c.get_proposer(1), v(2));
    assert_eq!(c.get_proposer(2), v(3));
    assert_eq!(c.get_proposer(3), v(1));
    assert_eq!(c.get_proposer(u64::MAX), v(1));
    assert!(c.is_my_turn());
    assert!(!with_validators(2, &[1, 3]).get_proposer(1).eq(&v(2)));
}

#[test]
fn no_validator_means_no_turn_and_a_zero_proposer() {
    let mut c = SimpleConsensus::new(v(1));
    c.remove_validator(v(1));
    assert!(!c.is_my_turn());
    assert_eq!(c.get_proposer(0), [0u8; 32]);
    assert_eq!(c.get_quorum_size(), 1);
}

#[test]
fn quorum_is_two_thirds_plus_one() {
    assert_eq!(with_validators(1, &[]).get_quorum_size(), 1);
    assert_eq!(with_validators(1, &[2]).get_quorum_size(), 2);
    assert_eq!(with_validators(1, &[2, 3]).get_quorum_size(), 3);
    assert_eq!(with_validators(1, &[2, 3, 4]).get_quorum_size(), 3);
    assert_eq!(with_validators(1, &[2, 3, 4, 5]).get_quorum_size(), 4);
    assert_eq!(with_validators(1, &[2, 3, 4, 5, 6]).get_quorum_size(), 5);
    assert_eq!(with_validators(1, &[2, 3, 4, 5, 6, 7]).get_quorum_size(), 5);
    assert_eq!(with_validators(1, &[2, 3, 4, 5, 6, 7, 8, 9, 10]).get_quorum_size(), 7);
}

#[test]
fn quorum_is_first_met_at_the_threshold() {
    let mut c = with_validators(1, &[2, 3, 4]);
    assert!(!c.check_quorum(0));
    c.add_vote(vote(0, 1));
    assert!(!c.check_quorum(0));
    c.add_vote(vote(0, 2));
    assert!(!c.check_quorum(0));
    c.add_vote(vote(0, 3));
    assert!(c.check_quorum(0));
    c.add_vote(vote(0, 4));
    assert!(c.check_quorum(0));
    assert!(!c.check_quorum(1));
}

#[test]
fn a_voter_counts_once_per_height() {
    let mut c = with_validators(1, &[2, 3]);
    c.add_vote(vote(0, 2));
    c.add_vote(vote(0, 2));
    c.add_vote(BlockVote { block_hash: [0xdd; 32], ..vote(0, 2) });
    c.add_vote(vote(0, 3));
    assert!(!c.check_quorum(0));
    c.add_vote(vote(1, 2));
    assert!(!c.check_quorum(0));
    c.add_vote(vote(0, 1));
    assert!(c.check_quorum(0));
}

#[test]
fn finalize_moves_to_the_next_height_and_forgets_the_votes() {
    let mut c = with_validators(1, &[]);
    c.add_vote(vote(0, 1));
    assert!(c.check_quorum(0));
    c.finalize_block(0);
    assert_eq!(c.get_next_height(), 1);
    assert!(!c.check_quorum(0));
    c.finalize_block(41);
    assert_eq!(c.get_next_height(), 42);
}

#[test]
fn height_does_not_fall_when_current_or_later_heights_are_finalized() {
    let mut c = with_validators(1, &[]);
    let mut last = c.get_next_height();
    for h in [0u64, 1, 2, 5, 5, 9, 100] {
        if h + 1 >= c.get_next_height() {
            c.finalize_block(h);
        }
        assert!(c.get_next_height() >= last);
        last = c.get_next_height();
        c.add_vote(vote(h, 1));
        c.commit_block(block(h));
        assert_eq!(c.get_next_height(), last);
    }
    assert_eq!(last, 101);
}

#[test]
fn commit_sets_the_last_hash_and_keeps_a_hundred_blocks() {
    let mut c = SimpleConsensus::new(v(1));
    for h in 0..150u64 {
        let b = block(h);
        let hash = b.hash();
        c.commit_block(b);
        assert_eq!(c.get_last_hash(), hash);
        assert!(c.print_stats().committed_blocks <= MAX_COMMITTED_BLOCKS);
    }
    assert_eq!(c.print_stats().committed_blocks, 100);
    assert_eq!(c.get_next_height(), 0);
}

#[test]
fn create_vote_is_this_nodes_vote() {
    let c = SimpleConsensus::new(v(8));
    let b = block(3);
    assert_eq!(c.create_vote(&b), BlockVote::new(&b, v(8)));
    assert_eq!(c.create_vote(&b).voter, v(8));
}
