//! Blocks, votes and the messages that validators exchange about them.

use vstd::prelude::*;
use crate::digest::{sha256, sha256_digest};
use crate::wire::{
    be_bytes, lemma_take_put_bytes, lemma_take_put_id, lemma_take_put_u32, lemma_take_put_u64,
    put_be, put_bytes, put_bytes_spec, put_id, put_slice, put_u32, put_u32_spec, put_u64,
    put_u64_spec, read_bytes, read_id, read_u32, read_u64, take_bytes, take_id, take_u32, take_u64,
};

verus! {

/// A block of the chain. It carries no transactions, only an opaque payload.
#[derive(Debug, Clone, PartialEq, Eq)]
pub struct MinimalBlock {
    pub height: u64,
    /// Seconds since the Unix epoch at which the block was built.
    pub timestamp: u64,
    pub prev_hash: [u8; 32],
    pub proposer: [u8; 32],
    pub data: Vec<u8>,
}

/// A `MinimalBlock` as a mathematical value.
pub struct BlockView {
    pub height: u64,
    pub timestamp: u64,
    pub prev_hash: Seq<u8>,
    pub proposer: Seq<u8>,
    pub data: Seq<u8>,
}

impl View for MinimalBlock {
    type V = BlockView;

    open spec fn view(&self) -> BlockView {
        BlockView {
            height: self.height,
            timestamp: self.timestamp,
            prev_hash: self.prev_hash@,
            proposer: self.proposer@,
            data: self.data@,
        }
    }
}

/// A validator's vote for a block.
#[derive(Debug, Clone, PartialEq, Eq)]
pub struct BlockVote {
    pub height: u64,
    pub block_hash: [u8; 32],
    pub voter: [u8; 32],
    /// Stands in for a signature: the block hash followed by the voter.
    pub signature: Vec<u8>,
}

/// A `BlockVote` as a mathematical value.
pub struct VoteView {
    pub height: u64,
    pub block_hash: Seq<u8>,
    pub voter: Seq<u8>,
    pub signature: Seq<u8>,
}

impl View for BlockVote {
    type V = VoteView;

    open spec fn view(&self) -> VoteView {
        VoteView {
            height: self.height,
            block_hash: self.block_hash@,
            voter: self.voter@,
            signature: self.signature@,
        }
    }
}

/// A participant as the consensus layer knows it.
#[derive(Debug, Clone, PartialEq, Eq)]
pub struct PeerInfo {
    pub id: [u8; 32],
    pub address: String,
}

/// What is hashed to name a block: height and timestamp as eight big-endian
/// bytes each, then the previous hash, the proposer and the payload.
pub open spec fn block_preimage(b: BlockView) -> Seq<u8> {
    be_bytes(b.height as nat, 8) + be_bytes(b.timestamp as nat, 8) + b.prev_hash + b.proposer
        + b.data
}

/// The hash of a block: the SHA-256 digest of its preimage.
pub open spec fn block_hash(b: BlockView) -> Seq<u8> {
    sha256_digest(block_preimage(b))
}

/// The vote of `voter` for the block `b`.
pub open spec fn vote_for(b: BlockView, voter: Seq<u8>) -> VoteView {
    VoteView {
        height: b.height,
        block_hash: block_hash(b),
        voter,
        signature: block_hash(b) + voter,
    }
}

impl MinimalBlock {
    /// The bytes that the block's hash is taken of.
    pub fn preimage(&self) -> (out: Vec<u8>)
        ensures
            out@ == block_preimage(self@),
    {
        let mut out: Vec<u8> = Vec::new();
        put_be(&mut out, self.height as u128, 8);
        put_be(&mut out, self.timestamp as u128, 8);
        put_id(&mut out, &self.prev_hash);
        put_id(&mut out, &self.proposer);
        put_slice(&mut out, self.data.as_slice());
        assert(out@ =~= block_preimage(self@));
        out
    }

    /// The hash of the block.
    pub fn hash(&self) -> (h: [u8; 32])
        ensures
            h@ == block_hash(self@),
    {
        let pre = self.preimage();
        sha256(pre.as_slice())
    }

    /// A copy of the block.
    pub fn duplicate(&self) -> (b: Self)
        ensures
            b@ == self@,
    {
        let mut data: Vec<u8> = Vec::new();
        put_slice(&mut data, self.data.as_slice());
        let b = MinimalBlock {
            height: self.height,
            timestamp: self.timestamp,
            prev_hash: self.prev_hash,
            proposer: self.proposer,
            data,
        };
        assert(b.data@ =~= self.data@);
        b
    }
}

impl BlockVote {
    /// The vote of `voter` for `block`.
    pub fn new(block: &MinimalBlock, voter: [u8; 32]) -> (v: Self)
        ensures
            v@ == vote_for(block@, voter@),
    {
        let block_hash = block.hash();
        let mut signature: Vec<u8> = Vec::new();
        put_id(&mut signature, &block_hash);
        put_id(&mut signature, &voter);
        assert(signature@ =~= block_hash@ + voter@);
        Self { height: block.height, block_hash, voter, signature }
    }

    /// A copy of the vote.
    pub fn duplicate(&self) -> (v: Self)
        ensures
            v@ == self@,
    {
        let mut signature: Vec<u8> = Vec::new();
        put_slice(&mut signature, self.signature.as_slice());
        let v = BlockVote {
            height: self.height,
            block_hash: self.block_hash,
            voter: self.voter,
            signature,
        };
        assert(v.signature@ =~= self.signature@);
        v
    }
}

/// What validators send each other.
#[derive(Debug, Clone, PartialEq, Eq)]
pub enum ConsensusMessage {
    /// A block is proposed.
    Propose(MinimalBlock),
    /// A block is voted for.
    Vote(BlockVote),
    /// A block is final.
    Commit(MinimalBlock),
}

/// A `ConsensusMessage` as a mathematical value.
pub enum ConsensusMessageView {
    Propose(BlockView),
    Vote(VoteView),
    Commit(BlockView),
}

impl View for ConsensusMessage {
    type V = ConsensusMessageView;

    open spec fn view(&self) -> ConsensusMessageView {
        match self {
            ConsensusMessage::Propose(b) => ConsensusMessageView::Propose(b@),
            ConsensusMessage::Vote(v) => ConsensusMessageView::Vote(v@),
            ConsensusMessage::Commit(b) => ConsensusMessageView::Commit(b@),
        }
    }
}

/// The bytes of a block: its fields in order.
pub open spec fn put_block_spec(b: BlockView) -> Seq<u8> {
    put_u64_spec(b.height) + put_u64_spec(b.timestamp) + b.prev_hash + b.proposer
        + put_bytes_spec(b.data)
}

/// The bytes of a vote: its fields in order.
pub open spec fn put_vote_spec(v: VoteView) -> Seq<u8> {
    put_u64_spec(v.height) + v.block_hash + v.voter + put_bytes_spec(v.signature)
}

/// Takes a block from the front of `s`.
pub open spec fn take_block(s: Seq<u8>) -> Option<(BlockView, Seq<u8>)> {
    match take_u64(s) {
        Some((height, r1)) => match take_u64(r1) {
            Some((timestamp, r2)) => match take_id(r2) {
                Some((prev_hash, r3)) => match take_id(r3) {
                    Some((proposer, r4)) => match take_bytes(r4) {
                        Some((data, r5)) => Some(
                            (BlockView { height, timestamp, prev_hash, proposer, data }, r5),
                        ),
                        None => None,
                    },
                    None => None,
                },
                None => None,
            },
            None => None,
        },
        None => None,
    }
}

/// Takes a vote from the front of `s`.
pub open spec fn take_vote(s: Seq<u8>) -> Option<(VoteView, Seq<u8>)> {
    match take_u64(s) {
        Some((height, r1)) => match take_id(r1) {
            Some((block_hash, r2)) => match take_id(r2) {
                Some((voter, r3)) => match take_bytes(r3) {
                    Some((signature, r4)) => Some(
                        (VoteView { height, block_hash, voter, signature }, r4),
                    ),
                    None => None,
                },
                None => None,
            },
            None => None,
        },
        None => None,
    }
}

/// Whether a block has identifiers of 32 bytes and a payload whose length
/// fits the 64-bit length field, as every `MinimalBlock` has.
pub open spec fn block_fits(b: BlockView) -> bool {
    b.prev_hash.len() == 32 && b.proposer.len() == 32 && b.data.len() <= u64::MAX
}

/// Whether a vote has identifiers of 32 bytes and a signature whose length
/// fits the 64-bit length field, as every `BlockVote` has.
pub open spec fn vote_fits(v: VoteView) -> bool {
    v.block_hash.len() == 32 && v.voter.len() == 32 && v.signature.len() <= u64::MAX
}

/// Taking a block gives back what was put.
pub proof fn lemma_take_put_block(b: BlockView, rest: Seq<u8>)
    requires
        block_fits(b),
    ensures
        take_block(put_block_spec(b) + rest) == Some((b, rest)),
{
    let r4 = put_bytes_spec(b.data) + rest;
    let r3 = b.proposer + r4;
    let r2 = b.prev_hash + r3;
    let r1 = put_u64_spec(b.timestamp) + r2;
    assert(put_block_spec(b) + rest =~= put_u64_spec(b.height) + r1);
    lemma_take_put_u64(b.height, r1);
    lemma_take_put_u64(b.timestamp, r2);
    lemma_take_put_id(b.prev_hash, r3);
    lemma_take_put_id(b.proposer, r4);
    lemma_take_put_bytes(b.data, rest);
}

/// Taking a vote gives back what was put.
pub proof fn lemma_take_put_vote(v: VoteView, rest: Seq<u8>)
    requires
        vote_fits(v),
    ensures
        take_vote(put_vote_spec(v) + rest) == Some((v, rest)),
{
    let r3 = put_bytes_spec(v.signature) + rest;
    let r2 = v.voter + r3;
    let r1 = v.block_hash + r2;
    assert(put_vote_spec(v) + rest =~= put_u64_spec(v.height) + r1);
    lemma_take_put_u64(v.height, r1);
    lemma_take_put_id(v.block_hash, r2);
    lemma_take_put_id(v.voter, r3);
    lemma_take_put_bytes(v.signature, rest);
}

/// The bytes of a consensus message: a 32-bit variant number, then the block
/// or the vote.
pub open spec fn encode_consensus_message(m: ConsensusMessageView) -> Seq<u8> {
    match m {
        ConsensusMessageView::Propose(b) => put_u32_spec(0) + put_block_spec(b),
        ConsensusMessageView::Vote(v) => put_u32_spec(1) + put_vote_spec(v),
        ConsensusMessageView::Commit(b) => put_u32_spec(2) + put_block_spec(b),
    }
}

/// The consensus message that `s` starts with, if it starts with one. Bytes
/// after it are ignored.
pub open spec fn decode_consensus_message(s: Seq<u8>) -> Option<ConsensusMessageView> {
    match take_u32(s) {
        Some((tag, body)) => if tag == 0 || tag == 2 {
            match take_block(body) {
                Some((b, _)) => if tag == 0 {
                    Some(ConsensusMessageView::Propose(b))
                } else {
                    Some(ConsensusMessageView::Commit(b))
                },
                None => None,
            }
        } else if tag == 1 {
            match take_vote(body) {
                Some((v, _)) => Some(ConsensusMessageView::Vote(v)),
                None => None,
            }
        } else {
            None
        },
        None => None,
    }
}

/// Whether the block or vote in `m` fits.
pub open spec fn consensus_message_fits(m: ConsensusMessageView) -> bool {
    match m {
        ConsensusMessageView::Propose(b) => block_fits(b),
        ConsensusMessageView::Vote(v) => vote_fits(v),
        ConsensusMessageView::Commit(b) => block_fits(b),
    }
}

/// Decoding the bytes of a consensus message gives the message back,
/// whatever follows them.
pub proof fn lemma_consensus_message_round_trip(m: ConsensusMessageView, tail: Seq<u8>)
    requires
        consensus_message_fits(m),
    ensures
        decode_consensus_message(encode_consensus_message(m) + tail) == Some(m),
{
    match m {
        ConsensusMessageView::Propose(b) => {
            lemma_take_put_u32(0, put_block_spec(b) + tail);
            lemma_take_put_block(b, tail);
            assert(encode_consensus_message(m) + tail =~= put_u32_spec(0) + (put_block_spec(b)
                + tail));
        },
        ConsensusMessageView::Vote(v) => {
            lemma_take_put_u32(1, put_vote_spec(v) + tail);
            lemma_take_put_vote(v, tail);
            assert(encode_consensus_message(m) + tail =~= put_u32_spec(1) + (put_vote_spec(v)
                + tail));
        },
        ConsensusMessageView::Commit(b) => {
            lemma_take_put_u32(2, put_block_spec(b) + tail);
            lemma_take_put_block(b, tail);
            assert(encode_consensus_message(m) + tail =~= put_u32_spec(2) + (put_block_spec(b)
                + tail));
        },
    }
}

fn put_block(out: &mut Vec<u8>, b: &MinimalBlock)
    ensures
        final(out)@ == old(out)@ + put_block_spec(b@),
        block_fits(b@),
{
    put_u64(out, b.height);
    put_u64(out, b.timestamp);
    put_id(out, &b.prev_hash);
    put_id(out, &b.proposer);
    put_bytes(out, b.data.as_slice());
    assert(b.data@.len() == b.data.len());
    assert(usize::MAX <= u64::MAX);
    assert(final(out)@ =~= old(out)@ + put_block_spec(b@));
}

fn put_vote(out: &mut Vec<u8>, v: &BlockVote)
    ensures
        final(out)@ == old(out)@ + put_vote_spec(v@),
        vote_fits(v@),
{
    put_u64(out, v.height);
    put_id(out, &v.block_hash);
    put_id(out, &v.voter);
    put_bytes(out, v.signature.as_slice());
    assert(v.signature@.len() == v.signature.len());
    assert(usize::MAX <= u64::MAX);
    assert(final(out)@ =~= old(out)@ + put_vote_spec(v@));
}

fn read_block(data: &[u8], pos: usize) -> (r: Option<(MinimalBlock, usize)>)
    requires
        pos <= data@.len(),
    ensures
        match r {
            Some((b, next)) => pos <= next <= data@.len() && take_block(data@.skip(pos as int))
                == Some((b@, data@.skip(next as int))),
            None => take_block(data@.skip(pos as int)) is None,
        },
{
    let (height, p1) = match read_u64(data, pos) {
        Some(x) => x,
        None => {
            return None;
        },
    };
    let (timestamp, p2) = match read_u64(data, p1) {
        Some(x) => x,
        None => {
            return None;
        },
    };
    let (prev_hash, p3) = match read_id(data, p2) {
        Some(x) => x,
        None => {
            return None;
        },
    };
    let (proposer, p4) = match read_id(data, p3) {
        Some(x) => x,
        None => {
            return None;
        },
    };
    let (payload, p5) = match read_bytes(data, p4) {
        Some(x) => x,
        None => {
            return None;
        },
    };
    Some((MinimalBlock { height, timestamp, prev_hash, proposer, data: payload }, p5))
}

fn read_vote(data: &[u8], pos: usize) -> (r: Option<(BlockVote, usize)>)
    requires
        pos <= data@.len(),
    ensures
        match r {
            Some((v, next)) => pos <= next <= data@.len() && take_vote(data@.skip(pos as int))
                == Some((v@, data@.skip(next as int))),
            None => take_vote(data@.skip(pos as int)) is None,
        },
{
    let (height, p1) = match read_u64(data, pos) {
        Some(x) => x,
        None => {
            return None;
        },
    };
    let (block_hash, p2) = match read_id(data, p1) {
        Some(x) => x,
        None => {
            return None;
        },
    };
    let (voter, p3) = match read_id(data, p2) {
        Some(x) => x,
        None => {
            return None;
        },
    };
    let (signature, p4) = match read_bytes(data, p3) {
        Some(x) => x,
        None => {
            return None;
        },
    };
    Some((BlockVote { height, block_hash, voter, signature }, p4))
}

impl ConsensusMessage {
    /// The bytes of the message.
    pub fn encode(&self) -> (out: Vec<u8>)
        ensures
            out@ == encode_consensus_message(self@),
            consensus_message_fits(self@),
    {
        let mut out: Vec<u8> = Vec::new();
        match self {
            ConsensusMessage::Propose(b) => {
                put_u32(&mut out, 0);
                put_block(&mut out, b);
            },
            ConsensusMessage::Vote(v) => {
                put_u32(&mut out, 1);
                put_vote(&mut out, v);
            },
            ConsensusMessage::Commit(b) => {
                put_u32(&mut out, 2);
                put_block(&mut out, b);
            },
        }
        assert(out@ =~= encode_consensus_message(self@));
        out
    }

    /// Reads the message at the start of `bytes`; `None` when the bytes do
    /// not start with one.
    pub fn decode(bytes: &[u8]) -> (r: Option<ConsensusMessage>)
        ensures
            match r {
                Some(m) => decode_consensus_message(bytes@) == Some(m@),
                None => decode_consensus_message(bytes@) is None,
            },
    {
        assert(bytes@.skip(0) =~= bytes@);
        let (tag, p1) = match read_u32(bytes, 0) {
            Some(x) => x,
            None => {
                return None;
            },
        };
        if tag == 0 || tag == 2 {
            match read_block(bytes, p1) {
                Some((b, _)) => if tag == 0 {
                    Some(ConsensusMessage::Propose(b))
                } else {
                    Some(ConsensusMessage::Commit(b))
                },
                None => None,
            }
        } else if tag == 1 {
            match read_vote(bytes, p1) {
                Some((v, _)) => Some(ConsensusMessage::Vote(v)),
                None => None,
            }
        } else {
            None
        }
    }
}

} // verus!
