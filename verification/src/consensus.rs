//! The consensus engine: a round-robin proposer, votes collected per height,
//! and a quorum of two thirds of the validators plus one.

use std::collections::HashMap;
use vstd::prelude::*;
use crate::types::{block_hash, vote_for, BlockView, BlockVote, MinimalBlock, VoteView};
use crate::wire::same_id;

verus! {

broadcast use vstd::std_specs::hash::group_hash_axioms;

/// Most committed blocks that the engine keeps; older ones are forgotten.
pub const MAX_COMMITTED_BLOCKS: usize = 100;

/// The engine as a mathematical value.
pub struct ConsensusView {
    pub node_id: [u8; 32],
    pub validators: Seq<[u8; 32]>,
    pub current_height: u64,
    pub current_round: u32,
    pub votes: Map<u64, Seq<VoteView>>,
    pub last_block: Option<BlockView>,
    pub committed_blocks: Seq<BlockView>,
}

/// Number of votes that make a quorum among `validators` validators: two
/// thirds of them, rounded down, plus one.
pub open spec fn quorum_size(validators: nat) -> nat {
    if validators == 0 {
        1
    } else {
        (validators * 2) / 3 + 1
    }
}

/// The validator whose turn it is to propose at `height`, or 32 zero bytes
/// when there is no validator.
pub open spec fn proposer_at(validators: Seq<[u8; 32]>, height: u64) -> Seq<u8> {
    if validators.len() == 0 {
        Seq::new(32, |i: int| 0u8)
    } else {
        validators[height as int % validators.len() as int]@
    }
}

/// The votes collected for `height`.
pub open spec fn votes_at(votes: Map<u64, Seq<VoteView>>, height: u64) -> Seq<VoteView> {
    if votes.contains_key(height) {
        votes[height]
    } else {
        Seq::empty()
    }
}

/// Whether one of `list` is a vote by `voter`.
pub open spec fn has_voted(list: Seq<VoteView>, voter: Seq<u8>) -> bool {
    exists|i: int| 0 <= i < list.len() && (#[trigger] list[i]).voter == voter
}

/// No two votes of `list` are by the same voter.
pub open spec fn distinct_voters(list: Seq<VoteView>) -> bool {
    forall|i: int, j: int| 0 <= i < j < list.len() ==> list[i].voter != list[j].voter
}

/// The votes for a height after `vote` came in: it is appended unless its
/// voter has voted already.
pub open spec fn after_vote(list: Seq<VoteView>, vote: VoteView) -> Seq<VoteView> {
    if has_voted(list, vote.voter) {
        list
    } else {
        list.push(vote)
    }
}

/// The validators after `id` was removed.
pub open spec fn without(validators: Seq<[u8; 32]>, id: [u8; 32]) -> Seq<[u8; 32]>
    decreases validators.len(),
{
    if validators.len() == 0 {
        Seq::empty()
    } else if validators.last() == id {
        without(validators.drop_last(), id)
    } else {
        without(validators.drop_last(), id).push(validators.last())
    }
}

/// The committed blocks after `block` was committed: it is appended, and
/// the oldest one leaves when there are more than `MAX_COMMITTED_BLOCKS`.
pub open spec fn after_commit(committed: Seq<BlockView>, block: BlockView) -> Seq<BlockView> {
    if committed.len() + 1 > MAX_COMMITTED_BLOCKS {
        committed.push(block).drop_first()
    } else {
        committed.push(block)
    }
}

/// Whether the votes for `height` make a quorum.
pub open spec fn has_quorum(s: ConsensusView, height: u64) -> bool {
    votes_at(s.votes, height).len() >= quorum_size(s.validators.len())
}

/// The engine after `vote` came in.
pub open spec fn state_after_vote(s: ConsensusView, vote: VoteView) -> ConsensusView {
    ConsensusView {
        votes: s.votes.insert(vote.height, after_vote(votes_at(s.votes, vote.height), vote)),
        ..s
    }
}

/// The engine after `height` was finalized.
pub open spec fn state_after_finalize(s: ConsensusView, height: u64) -> ConsensusView {
    ConsensusView { current_height: (height + 1) as u64, votes: s.votes.remove(height), ..s }
}

/// The engine after `block` was committed.
pub open spec fn state_after_commit(s: ConsensusView, block: BlockView) -> ConsensusView {
    ConsensusView {
        last_block: Some(block),
        committed_blocks: after_commit(s.committed_blocks, block),
        ..s
    }
}

/// A vote raises the count for its height by at most one, so the quorum is
/// first met with exactly `quorum_size` votes.
pub proof fn lemma_quorum_threshold(s: ConsensusView, vote: VoteView)
    requires
        !has_quorum(s, vote.height),
        has_quorum(state_after_vote(s, vote), vote.height),
    ensures
        votes_at(state_after_vote(s, vote).votes, vote.height).len() == quorum_size(
            s.validators.len(),
        ),
        !has_voted(votes_at(s.votes, vote.height), vote.voter),
{
}

/// A vote by someone who has voted at that height changes no vote count.
pub proof fn lemma_duplicate_vote_ignored(s: ConsensusView, vote: VoteView)
    requires
        has_voted(votes_at(s.votes, vote.height), vote.voter),
    ensures
        forall|h: u64|
            votes_at(state_after_vote(s, vote).votes, h) == #[trigger] votes_at(s.votes, h),
{
}

/// Collecting a vote keeps the voters of a height distinct.
pub proof fn lemma_vote_dedup(list: Seq<VoteView>, vote: VoteView)
    requires
        distinct_voters(list),
    ensures
        distinct_voters(after_vote(list, vote)),
{
}

/// Finalizing the current height or a later one never lowers the height.
pub proof fn lemma_height_monotone(s: ConsensusView, height: u64)
    requires
        height < u64::MAX,
        s.current_height <= height + 1,
    ensures
        state_after_finalize(s, height).current_height >= s.current_height,
        state_after_finalize(s, height).current_height == height + 1,
{
}

/// A vote or a commit leaves the height as it is.
pub proof fn lemma_height_kept(s: ConsensusView, vote: VoteView, block: BlockView)
    ensures
        state_after_vote(s, vote).current_height == s.current_height,
        state_after_commit(s, block).current_height == s.current_height,
{
}

/// The views of a list of votes.
pub open spec fn vote_views(list: Seq<BlockVote>) -> Seq<VoteView> {
    list.map_values(|v: BlockVote| v@)
}

/// The views of a list of blocks.
pub open spec fn block_views(list: Seq<MinimalBlock>) -> Seq<BlockView> {
    list.map_values(|b: MinimalBlock| b@)
}

/// Numbers that describe the engine.
#[derive(Debug, Clone, Copy, PartialEq, Eq, Structural)]
pub struct ConsensusStats {
    pub current_height: u64,
    pub validators: usize,
    pub committed_blocks: usize,
}

/// The consensus engine of one node.
pub struct SimpleConsensus {
    pub node_id: [u8; 32],
    validators: Vec<[u8; 32]>,
    current_height: u64,
    current_round: u32,
    votes: HashMap<u64, Vec<BlockVote>>,
    last_block: Option<MinimalBlock>,
    committed_blocks: Vec<MinimalBlock>,
}

impl View for SimpleConsensus {
    type V = ConsensusView;

    closed spec fn view(&self) -> ConsensusView {
        ConsensusView {
            node_id: self.node_id,
            validators: self.validators@,
            current_height: self.current_height,
            current_round: self.current_round,
            votes: Map::new(
                |h: u64| self.votes@.contains_key(h),
                |h: u64| vote_views(self.votes@[h]@),
            ),
            last_block: match self.last_block {
                Some(b) => Some(b@),
                None => None,
            },
            committed_blocks: block_views(self.committed_blocks@),
        }
    }
}

impl SimpleConsensus {
    /// No validator is listed twice, at most `MAX_COMMITTED_BLOCKS` blocks
    /// are kept, and the votes under a height are for that height, one per
    /// voter.
    pub closed spec fn wf(&self) -> bool {
        &&& forall|i: int, j: int|
            0 <= i < j < self.validators@.len() ==> self.validators@[i] != self.validators@[j]
        &&& self.committed_blocks@.len() <= MAX_COMMITTED_BLOCKS
        &&& forall|h: u64| #[trigger]
            self.votes@.contains_key(h) ==> distinct_voters(vote_views(self.votes@[h]@))
        &&& forall|h: u64, i: int|
            self.votes@.contains_key(h) && 0 <= i < self.votes@[h]@.len() ==> (
            #[trigger] self.votes@[h]@[i]).height == h
    }

    /// What `wf` says, over the view.
    pub proof fn lemma_wf(&self)
        requires
            self.wf(),
        ensures
            self@.validators.no_duplicates(),
            self@.committed_blocks.len() <= MAX_COMMITTED_BLOCKS,
            forall|h: u64| #[trigger]
                self@.votes.contains_key(h) ==> distinct_voters(self@.votes[h]),
            forall|h: u64, i: int|
                self@.votes.contains_key(h) && 0 <= i < self@.votes[h].len() ==> (
                #[trigger] self@.votes[h][i]).height == h,
    {
        assert forall|h: u64, i: int|
            self@.votes.contains_key(h) && 0 <= i < self@.votes[h].len() implies (
        #[trigger] self@.votes[h][i]).height == h by {
            assert(self.votes@[h]@[i].height == h);
        }
    }

    /// This node's identifier.
    pub fn get_node_id(&self) -> (id: [u8; 32])
        ensures
            id == self@.node_id,
    {
        self.node_id
    }

    /// An engine at height 0 whose only validator is the node itself.
    pub fn new(node_id: [u8; 32]) -> (c: Self)
        ensures
            c.wf(),
            c@ == (ConsensusView {
                node_id,
                validators: seq![node_id],
                current_height: 0,
                current_round: 0,
                votes: Map::empty(),
                last_block: None,
                committed_blocks: Seq::empty(),
            }),
    {
        let mut validators: Vec<[u8; 32]> = Vec::new();
        validators.push(node_id);
        let c = Self {
            node_id,
            validators,
            current_height: 0,
            current_round: 0,
            votes: HashMap::new(),
            last_block: None,
            committed_blocks: Vec::new(),
        };
        proof {
            assert(c@.validators =~= seq![node_id]);
            assert(c@.votes =~= Map::empty());
            assert(c@.committed_blocks =~= Seq::empty());
        }
        c
    }

    fn validator_index(&self, validator: &[u8; 32]) -> (r: Option<usize>)
        ensures
            match r {
                Some(i) => i < self.validators@.len() && self.validators@[i as int] == *validator,
                None => !self.validators@.contains(*validator),
            },
    {
        let n = self.validators.len();
        let mut i: usize = 0;
        while i < n
            invariant
                n == self.validators@.len(),
                i <= n,
                forall|j: int| 0 <= j < i ==> self.validators@[j] != *validator,
            decreases n - i,
        {
            if same_id(&self.validators[i], validator) {
                assert(self.validators@[i as int] =~= *validator);
                return Some(i);
            }
            i += 1;
        }
        None
    }

    /// Adds a validator, unless it is one already.
    pub fn add_validator(&mut self, validator: [u8; 32])
        requires
            old(self).wf(),
        ensures
            final(self).wf(),
            final(self)@ == (ConsensusView {
                validators: if old(self)@.validators.contains(validator) {
                    old(self)@.validators
                } else {
                    old(self)@.validators.push(validator)
                },
                ..old(self)@
            }),
    {
        match self.validator_index(&validator) {
            Some(_) => {},
            None => {
                self.validators.push(validator);
            },
        }
    }

    /// Removes a validator, if it is one.
    pub fn remove_validator(&mut self, validator: [u8; 32])
        requires
            old(self).wf(),
        ensures
            final(self).wf(),
            final(self)@ == (ConsensusView {
                validators: without(old(self)@.validators, validator),
                ..old(self)@
            }),
            !final(self)@.validators.contains(validator),
    {
        match self.validator_index(&validator) {
            Some(i) => {
                self.validators.remove(i);
                proof {
                    lemma_without_unique(old(self).validators@, validator, i as int);
                    let before = old(self).validators@;
                    let after = self.validators@;
                    assert forall|k: int| 0 <= k < after.len() implies after[k] != validator by {
                        let ok = if k < i { k } else { k + 1 };
                        assert(after[k] == before[ok]);
                    }
                }
            },
            None => {
                proof {
                    lemma_without_absent(self.validators@, validator);
                }
            },
        }
    }

    /// Whether it is this node's turn to propose.
    pub fn is_my_turn(&self) -> (r: bool)
        ensures
            r == (self@.validators.len() > 0 && proposer_at(self@.validators, self@.current_height)
                == self@.node_id@),
    {
        if self.validators.len() == 0 {
            return false;
        }
        let proposer = self.get_proposer(self.current_height);
        same_id(&proposer, &self.node_id)
    }

    /// The validator whose turn it is to propose at `height`.
    pub fn get_proposer(&self, height: u64) -> (p: [u8; 32])
        ensures
            p@ == proposer_at(self@.validators, height),
    {
        if self.validators.len() == 0 {
            let z = [0u8; 32];
            assert(z@ =~= Seq::new(32, |i: int| 0u8));
            return z;
        }
        let index = (height % (self.validators.len() as u64)) as usize;
        self.validators[index]
    }

    /// The height of the next block.
    pub fn get_next_height(&self) -> (h: u64)
        ensures
            h == self@.current_height,
    {
        self.current_height
    }

    /// The hash of the last committed block, or 32 zero bytes when no block
    /// has been committed.
    pub fn get_last_hash(&self) -> (h: [u8; 32])
        ensures
            h@ == last_hash(self@),
    {
        match &self.last_block {
            Some(b) => b.hash(),
            None => {
                let z = [0u8; 32];
                assert(z@ =~= Seq::new(32, |i: int| 0u8));
                z
            },
        }
    }

    /// This node's vote for `block`.
    pub fn create_vote(&self, block: &MinimalBlock) -> (v: BlockVote)
        ensures
            v@ == vote_for(block@, self@.node_id@),
    {
        BlockVote::new(block, self.node_id)
    }

    /// Collects a vote, unless its voter has voted at that height already.
    pub fn add_vote(&mut self, vote: BlockVote)
        requires
            old(self).wf(),
        ensures
            final(self).wf(),
            final(self)@ == state_after_vote(old(self)@, vote@),
    {
        let height = vote.height;
        let mut list = match self.votes.remove(&height) {
            Some(l) => l,
            None => Vec::new(),
        };
        let ghost before = list@;
        assert(vote_views(before) =~= votes_at(old(self)@.votes, height));
        let n = list.len();
        let mut i: usize = 0;
        let mut found = false;
        while i < n && !found
            invariant
                n == list@.len(),
                list@ == before,
                i <= n,
                found ==> i < n && list@[i as int].voter@ == vote.voter@,
                forall|j: int| 0 <= j < i ==> (#[trigger] list@[j]).voter@ != vote.voter@,
            decreases n - i + (if found { 0int } else { 1int }),
        {
            if same_id(&list[i].voter, &vote.voter) {
                found = true;
            } else {
                i += 1;
            }
        }
        proof {
            let views = vote_views(before);
            if found {
                assert(views[i as int].voter == vote@.voter);
                assert(has_voted(views, vote@.voter));
            } else {
                assert forall|j: int| 0 <= j < views.len() implies (#[trigger] views[j]).voter
                    != vote@.voter by {
                    assert(before[j].voter@ != vote.voter@);
                }
                assert(!has_voted(views, vote@.voter));
            }
        }
        if !found {
            list.push(vote);
        }
        proof {
            assert(vote_views(list@) =~= after_vote(vote_views(before), vote@));
            assert forall|k: int| 0 <= k < list@.len() implies (#[trigger] list@[k]).height
                == height by {
                if k < before.len() {
                    assert(old(self).votes@[height]@[k].height == height);
                }
            }
        }
        self.votes.insert(height, list);
        proof {
            assert(self@.votes =~= state_after_vote(old(self)@, vote@).votes);
            assert forall|h: u64| #[trigger] self.votes@.contains_key(h) implies distinct_voters(
                vote_views(self.votes@[h]@),
            ) by {
                if h != height {
                    assert(old(self).votes@.contains_key(h));
                } else {
                    if old(self).votes@.contains_key(height) {
                        assert(distinct_voters(vote_views(before)));
                    }
                }
            }
            assert forall|h: u64, k: int|
                self.votes@.contains_key(h) && 0 <= k < self.votes@[h]@.len() implies (
            #[trigger] self.votes@[h]@[k]).height == h by {
                if h != height {
                    assert(old(self).votes@.contains_key(h));
                    assert(old(self).votes@[h]@[k].height == h);
                }
            }
        }
    }

    /// Whether the votes collected for `height` make a quorum.
    pub fn check_quorum(&self, height: u64) -> (r: bool)
        ensures
            r == has_quorum(self@, height),
    {
        let votes: usize = match self.votes.get(&height) {
            Some(l) => l.len(),
            None => 0,
        };
        votes as u128 >= self.get_quorum_size()
    }

    /// Number of votes that make a quorum.
    pub fn get_quorum_size(&self) -> (q: u128)
        ensures
            q == quorum_size(self@.validators.len()),
    {
        if self.validators.len() == 0 {
            return 1;
        }
        (self.validators.len() as u128 * 2) / 3 + 1
    }

    /// Moves on to the height after `height` and forgets the votes for
    /// `height`.
    pub fn finalize_block(&mut self, height: u64)
        requires
            old(self).wf(),
            height < u64::MAX,
        ensures
            final(self).wf(),
            final(self)@ == state_after_finalize(old(self)@, height),
    {
        self.current_height = height + 1;
        self.votes.remove(&height);
        proof {
            assert(self@.votes =~= old(self)@.votes.remove(height));
            assert forall|h: u64| #[trigger] self.votes@.contains_key(h) implies distinct_voters(
                vote_views(self.votes@[h]@),
            ) by {
                assert(old(self).votes@.contains_key(h));
            }
            assert forall|h: u64, k: int|
                self.votes@.contains_key(h) && 0 <= k < self.votes@[h]@.len() implies (
            #[trigger] self.votes@[h]@[k]).height == h by {
                assert(old(self).votes@.contains_key(h));
                assert(old(self).votes@[h]@[k].height == h);
            }
        }
    }

    /// Records `block` as the last committed one.
    pub fn commit_block(&mut self, block: MinimalBlock)
        requires
            old(self).wf(),
        ensures
            final(self).wf(),
            final(self)@ == state_after_commit(old(self)@, block@),
    {
        self.last_block = Some(block.duplicate());
        self.committed_blocks.push(block);
        if self.committed_blocks.len() > MAX_COMMITTED_BLOCKS {
            self.committed_blocks.remove(0);
        }
        proof {
            assert(self@.committed_blocks =~= after_commit(old(self)@.committed_blocks, block@));
            assert(self@.votes =~= old(self)@.votes);
        }
    }

    /// Height, number of validators and number of blocks kept.
    pub fn print_stats(&self) -> (s: ConsensusStats)
        ensures
            s.current_height == self@.current_height,
            s.validators == self@.validators.len(),
            s.committed_blocks == self@.committed_blocks.len(),
    {
        ConsensusStats {
            current_height: self.current_height,
            validators: self.validators.len(),
            committed_blocks: self.committed_blocks.len(),
        }
    }
}

/// The hash that the next block must name as its predecessor: the hash of
/// the last committed block, or 32 zero bytes when there is none.
pub open spec fn last_hash(s: ConsensusView) -> Seq<u8> {
    match s.last_block {
        Some(b) => block_hash(b),
        None => Seq::new(32, |i: int| 0u8),
    }
}

proof fn lemma_without_absent(validators: Seq<[u8; 32]>, id: [u8; 32])
    requires
        !validators.contains(id),
    ensures
        without(validators, id) == validators,
    decreases validators.len(),
{
    if validators.len() > 0 {
        let front = validators.drop_last();
        assert(validators[validators.len() - 1] != id);
        assert forall|k: int| 0 <= k < front.len() implies front[k] != id by {
            assert(validators[k] == front[k]);
        }
        lemma_without_absent(front, id);
        assert(without(validators, id) =~= validators);
    } else {
        assert(without(validators, id) =~= validators);
    }
}

proof fn lemma_without_unique(validators: Seq<[u8; 32]>, id: [u8; 32], i: int)
    requires
        0 <= i < validators.len(),
        validators[i] == id,
        forall|a: int, b: int| 0 <= a < b < validators.len() ==> validators[a] != validators[b],
    ensures
        without(validators, id) == validators.remove(i),
    decreases validators.len(),
{
    let front = validators.drop_last();
    if i == validators.len() - 1 {
        assert forall|k: int| 0 <= k < front.len() implies front[k] != id by {
            assert(validators[k] == front[k]);
        }
        lemma_without_absent(front, id);
        assert(validators.remove(i) =~= front);
    } else {
        assert(front[i] == id);
        lemma_without_unique(front, id, i);
        assert(validators.last() != id);
        assert(validators.remove(i) =~= front.remove(i).push(validators.last()));
    }
}

} // verus!
