use guild_node::types::{BlockVote, ConsensusMessage, MinimalBlock};
use serde::ser::{Serialize, SerializeStruct, Serializer};
use sha2::{Digest, Sha256};

struct BlockMirror(MinimalBlock);
struct VoteMirror(BlockVote);
struct MessageMirror(ConsensusMessage);

impl Serialize for BlockMirror {
    fn serialize<S: Serializer>(&self, serializer: S) -> Result<S::Ok, S::Error> {
        let mut s = serializer.serialize_struct("MinimalBlock", 5)?;
        s.serialize_field("height", &self.0.height)?;
        s.serialize_field("timestamp", &self.0.timestamp)?;
        s.serialize_field("prev_hash", &self.0.prev_hash)?;
        s.serialize_field("proposer", &self.0.proposer)?;
        s.serialize_field("data", &self.0.data)?;
        s.end()
    }
}

impl Serialize for VoteMirror {
    fn serialize<S: Serializer>(&self, serializer: S) -> Result<S::Ok, S::Error> {
        let mut s = serializer.serialize_struct("BlockVote", 4)?;
        s.serialize_field("height", &self.0.height)?;
        s.serialize_field("block_hash", &self.0.block_hash)?;
        s.serialize_field("voter", &self.0.voter)?;
        s.serialize_field("signature", &self.0.signature)?;
        s.end()
    }
}

impl Serialize for MessageMirror {
    fn serialize<S: Serializer>(&self, serializer: S) -> Result<S::Ok, S::Error> {
        match &self.0 {
            ConsensusMessage::Propose(b) => serializer.serialize_newtype_variant(
                "ConsensusMessage",
                0,
                "Propose",
                &BlockMirror(b.clone()),
            ),
            ConsensusMessage::Vote(v) => serializer.serialize_newtype_variant(
                "ConsensusMessage",
                1,
                "Vote",
                &VoteMirror(v.clone()),
            ),
            ConsensusMessage::Commit(b) => serializer.serialize_newtype_variant(
                "ConsensusMessage",
                2,
                "Commit",
                &BlockMirror(b.clone()),
            ),
        }
    }
}

fn block(height: u64, data: Vec<u8>) -> MinimalBlock {
    MinimalBlock {
        height,
        timestamp: 1_700_000_000 + height,
        prev_hash: [0x11; 32],
        proposer: [0x22; 32],
        data,
    }
}

fn consensus_samples() -> Vec<ConsensusMessage> {
    let b = block(3, vec![1, 2, 3]);
    vec![
        ConsensusMessage::Propose(block(0, vec![])),
        ConsensusMessage::Propose(b.clone()),
        ConsensusMessage::Vote(BlockVote::new(&b, [0x33; 32])),
        ConsensusMessage::Vote(BlockVote {
            height: u64::MAX,
            block_hash: [1; 32],
            voter: [2; 32],
            signature: vec![],
        }),
        ConsensusMessage::Commit(block(u64::MAX - 1_700_000_000, vec![0xee; 500])),
    ]
}

#[test]
fn block_hash_is_sha256_of_the_fields_in_order() {
    let b = MinimalBlock {
        height: 0x0102_0304_0506_0708,
        timestamp: 0x1112_1314_1516_1718,
        prev_hash: [0xaa; 32],
        proposer: [0xbb; 32],
        data: vec![9, 9, 9],
    };
    let mut pre = vec![1, 2, 3, 4, 5, 6, 7, 8, 0x11, 0x12, 0x13, 0x14, 0x15, 0x16, 0x17, 0x18];
    pre.extend_from_slice(&[0xaa; 32]);
    pre.extend_from_slice(&[0xbb; 32]);
    pre.extend_from_slice(&[9, 9, 9]);
    assert_eq!(b.preimage(), pre);
    let expected: [u8; 32] = Sha256::digest(&pre).into();
    assert_eq!(b.hash(), expected);

    let mut hasher = Sha256::new();
    hasher.update(b.height.to_be_bytes());
    hasher.update(b.timestamp.to_be_bytes());
    hasher.update(b.prev_hash);
    hasher.update(b.proposer);
    hasher.update(&b.data);
    let stepwise: [u8; 32] = hasher.finalize().into();
    assert_eq!(b.hash(), stepwise);
}

#[test]
fn block_hash_of_the_empty_first_block() {
    let b = MinimalBlock {
        height: 0,
        timestamp: 0,
        prev_hash: [0; 32],
        proposer: [0; 32],
        data: vec![],
    };
    let expected: [u8; 32] = Sha256::digest([0u8; 80]).into();
    assert_eq!(b.hash(), expected);
    assert_ne!(b.hash(), [0u8; 32]);
}

#[test]
fn vote_names_the_block_and_concatenates_hash_and_voter() {
    let b = block(5, vec![7]);
    let voter = [0x44; 32];
    let v = BlockVote::new(&b, voter);
    assert_eq!(v.height, 5);
    assert_eq!(v.block_hash, b.hash());
    assert_eq!(v.voter, voter);
    let mut sig = b.hash().to_vec();
    sig.extend_from_slice(&voter);
    assert_eq!(v.signature, sig);
    assert_eq!(v.signature.len(), 64);
}

#[test]
fn duplicates_equal_what_they_copy() {
    let b = block(5, vec![7, 8]);
    assert_eq!(b.duplicate(), b);
    let v = BlockVote::new(&b, [1; 32]);
    assert_eq!(v.duplicate(), v);
}

#[test]
fn consensus_encode_agrees_with_bincode() {
    for m in consensus_samples() {
        assert_eq!(m.encode(), bincode::serialize(&MessageMirror(m.clone())).unwrap(), "{:?}", m);
    }
}

#[test]
fn consensus_decode_gives_back_what_encode_took() {
    for m in consensus_samples() {
        assert_eq!(ConsensusMessage::decode(&m.encode()), Some(m));
    }
}

#[test]
fn consensus_decode_refuses_what_is_no_message() {
    assert_eq!(ConsensusMessage::decode(&[]), None);
    assert_eq!(ConsensusMessage::decode(&[3, 0, 0, 0]), None);
    for m in consensus_samples() {
        let whole = m.encode();
        for cut in 0..whole.len() {
            assert_eq!(ConsensusMessage::decode(&whole[..cut]), None);
        }
    }
}

#[test]
fn consensus_encode_lays_out_a_block() {
    let m = ConsensusMessage::Commit(MinimalBlock {
        height: 1,
        timestamp: 2,
        prev_hash: [3; 32],
        proposer: [4; 32],
        data: vec![5],
    });
    let mut expected = vec![2, 0, 0, 0, 1, 0, 0, 0, 0, 0, 0, 0, 2, 0, 0, 0, 0, 0, 0, 0];
    expected.extend_from_slice(&[3; 32]);
    expected.extend_from_slice(&[4; 32]);
    expected.extend_from_slice(&[1, 0, 0, 0, 0, 0, 0, 0, 5]);
    assert_eq!(m.encode(), expected);
}
