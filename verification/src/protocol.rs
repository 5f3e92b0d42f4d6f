//! What the consensus process does with what the bridge hands it: propose
//! when it is its turn, vote for valid proposals, count votes and move on
//! at a quorum.

use vstd::prelude::*;
use crate::consensus::{
    has_quorum, last_hash, proposer_at, state_after_commit, state_after_finalize,
    state_after_vote, without, ConsensusView, SimpleConsensus,
};
use crate::digest::{sha256, sha256_digest};
use crate::ipc::IPCMessage;
use crate::types::{
    decode_consensus_message, encode_consensus_message, vote_for, BlockView, ConsensusMessage,
    ConsensusMessageView, MinimalBlock, VoteView,
};
use crate::wire::{be_bytes, put_be, same_id};

verus! {

/// The block that a node in state `s` proposes at the time `now`.
pub open spec fn next_block(s: ConsensusView, now: u64) -> BlockView {
    BlockView {
        height: s.current_height,
        timestamp: now,
        prev_hash: last_hash(s),
        proposer: s.node_id@,
        data: Seq::empty(),
    }
}

/// Whether a node in state `s` accepts the proposal `b`: it is for the
/// current height, follows the last committed block, and comes from the
/// validator whose turn it is.
pub open spec fn block_valid(b: BlockView, s: ConsensusView) -> bool {
    &&& b.height == s.current_height
    &&& b.prev_hash == last_hash(s)
    &&& b.proposer == proposer_at(s.validators, b.height)
}

/// Builds the block for the current height, with the time `now` in seconds
/// since the Unix epoch and no payload.
pub fn create_block(consensus: &SimpleConsensus, now: u64) -> (b: MinimalBlock)
    ensures
        b@ == next_block(consensus@, now),
{
    let b = MinimalBlock {
        height: consensus.get_next_height(),
        timestamp: now,
        prev_hash: consensus.get_last_hash(),
        proposer: consensus.get_node_id(),
        data: Vec::new(),
    };
    proof {
        assert(b@.data =~= Seq::empty());
    }
    b
}

/// Whether `block` is an acceptable proposal.
pub fn validate_block(block: &MinimalBlock, consensus: &SimpleConsensus) -> (ok: bool)
    ensures
        ok == block_valid(block@, consensus@),
{
    if block.height != consensus.get_next_height() {
        return false;
    }
    if !same_id(&block.prev_hash, &consensus.get_last_hash()) {
        return false;
    }
    let expected_proposer = consensus.get_proposer(block.height);
    if !same_id(&block.proposer, &expected_proposer) {
        return false;
    }
    true
}

/// Makes an identifier for this node from the time in nanoseconds since the
/// Unix epoch: the SHA-256 digest of its sixteen big-endian bytes.
pub fn generate_node_id(nanos: u128) -> (id: [u8; 32])
    ensures
        id@ == sha256_digest(be_bytes(nanos as nat, 16)),
{
    let mut bytes: Vec<u8> = Vec::new();
    put_be(&mut bytes, nanos, 16);
    assert(bytes@ =~= be_bytes(nanos as nat, 16));
    sha256(bytes.as_slice())
}

/// The state after the consensus message `m` from a peer was handled: a
/// vote is collected and, where it completes a quorum, its height is
/// finalized; a commit is recorded; a proposal changes nothing.
pub open spec fn state_after_message(s: ConsensusView, m: Option<ConsensusMessageView>)
    -> ConsensusView {
    match m {
        Some(ConsensusMessageView::Vote(v)) => {
            let counted = state_after_vote(s, v);
            if has_quorum(counted, v.height) && v.height < u64::MAX {
                state_after_finalize(counted, v.height)
            } else {
                counted
            }
        },
        Some(ConsensusMessageView::Commit(b)) => state_after_commit(s, b),
        _ => s,
    }
}

/// Handling a message never lowers the height, unless the message is a vote
/// for a height that lies more than one below the current one.
pub proof fn lemma_message_keeps_height(s: ConsensusView, m: Option<ConsensusMessageView>)
    requires
        match m {
            Some(ConsensusMessageView::Vote(v)) => s.current_height <= v.height + 1,
            _ => true,
        },
    ensures
        state_after_message(s, m).current_height >= s.current_height,
{
}

/// A vote moves the height on exactly when it completes the quorum for its
/// height, and then to the height after its own.
pub proof fn lemma_vote_moves_height(s: ConsensusView, v: VoteView)
    requires
        v.height < u64::MAX,
    ensures
        ({
            let after = state_after_message(s, Some(ConsensusMessageView::Vote(v)));
            if has_quorum(state_after_vote(s, v), v.height) {
                after.current_height == v.height + 1 && !after.votes.contains_key(v.height)
            } else {
                after.current_height == s.current_height
            }
        }),
{
}

/// The state after the bridge message `msg` was handled.
pub open spec fn state_after_ipc(s: ConsensusView, msg: IPCMessage) -> ConsensusView {
    match msg {
        IPCMessage::PeerMessage { from, data } => state_after_message(
            s,
            decode_consensus_message(data@),
        ),
        IPCMessage::PeerJoined(p) => ConsensusView {
            validators: if s.validators.contains(p) {
                s.validators
            } else {
                s.validators.push(p)
            },
            ..s
        },
        IPCMessage::PeerLeft(p) => ConsensusView { validators: without(s.validators, p), ..s },
        _ => s,
    }
}

/// The payload that a node in state `s` broadcasts in answer to the bridge
/// message `msg`: its vote, where `msg` carries a valid proposal.
pub open spec fn answer_to_ipc(s: ConsensusView, msg: IPCMessage) -> Option<Seq<u8>> {
    match msg {
        IPCMessage::PeerMessage { from, data } => match decode_consensus_message(data@) {
            Some(ConsensusMessageView::Propose(b)) => if block_valid(b, s) {
                Some(
                    encode_consensus_message(
                        ConsensusMessageView::Vote(vote_for(b, s.node_id@)),
                    ),
                )
            } else {
                None
            },
            _ => None,
        },
        _ => None,
    }
}

/// Handles one message from the bridge. Returns the `Broadcast` to send
/// back, if there is one.
///
/// A valid proposal is answered with this node's vote and an invalid one
/// with nothing. A vote is collected; where it completes the quorum for its
/// height, the height is finalized. A commit is recorded. A peer that
/// joins becomes a validator and one that leaves stops being one. Payloads
/// that are no consensus message, and messages meant for the other
/// process, are ignored.
pub fn handle_ipc_message(consensus: &mut SimpleConsensus, msg: IPCMessage) -> (reply: Option<
    IPCMessage,
>)
    requires
        old(consensus).wf(),
    ensures
        final(consensus).wf(),
        final(consensus)@ == state_after_ipc(old(consensus)@, msg),
        match reply {
            Some(IPCMessage::Broadcast(payload)) => answer_to_ipc(old(consensus)@, msg) == Some(
                payload@,
            ),
            Some(_) => false,
            None => answer_to_ipc(old(consensus)@, msg) is None,
        },
{
    match msg {
        IPCMessage::PeerMessage { from, data } => {
            match ConsensusMessage::decode(data.as_slice()) {
                Some(ConsensusMessage::Propose(block)) => {
                    if validate_block(&block, consensus) {
                        let vote = consensus.create_vote(&block);
                        let payload = ConsensusMessage::Vote(vote).encode();
                        Some(IPCMessage::Broadcast(payload))
                    } else {
                        None
                    }
                },
                Some(ConsensusMessage::Vote(vote)) => {
                    let height = vote.height;
                    consensus.add_vote(vote);
                    if consensus.check_quorum(height) && height < u64::MAX {
                        consensus.finalize_block(height);
                    }
                    None
                },
                Some(ConsensusMessage::Commit(block)) => {
                    consensus.commit_block(block);
                    None
                },
                None => None,
            }
        },
        IPCMessage::PeerJoined(peer) => {
            consensus.add_validator(peer);
            None
        },
        IPCMessage::PeerLeft(peer) => {
            consensus.remove_validator(peer);
            None
        },
        _ => None,
    }
}

/// What a node in state `s` broadcasts when its timer ticks at `now`: its
/// proposal, where it is its turn.
pub open spec fn proposal_at(s: ConsensusView, now: u64) -> Option<Seq<u8>> {
    if s.validators.len() > 0 && proposer_at(s.validators, s.current_height) == s.node_id@ {
        Some(encode_consensus_message(ConsensusMessageView::Propose(next_block(s, now))))
    } else {
        None
    }
}

/// Handles one tick of the block timer at the time `now`, in seconds since
/// the Unix epoch. Returns the `Broadcast` of this node's proposal where it
/// is its turn to propose.
pub fn handle_tick(consensus: &SimpleConsensus, now: u64) -> (out: Option<IPCMessage>)
    ensures
        match out {
            Some(IPCMessage::Broadcast(payload)) => proposal_at(consensus@, now) == Some(payload@),
            Some(_) => false,
            None => proposal_at(consensus@, now) is None,
        },
{
    if consensus.is_my_turn() {
        let block = create_block(consensus, now);
        let payload = ConsensusMessage::Propose(block).encode();
        Some(IPCMessage::Broadcast(payload))
    } else {
        None
    }
}

} // verus!
