//! 256-bit node identifiers and the XOR metric between them.

use vstd::prelude::*;
use crate::addr::{addr_text, PeerAddr};
use crate::digest::{blake3_digest, blake3_hash};

verus! {

/// Number of bytes in a node identifier.
pub const NODE_ID_LENGTH: usize = 32;

/// Number of bits in a node identifier.
pub const NODE_ID_BITS: usize = 256;

/// Bytewise XOR of two byte strings of identifier length.
pub open spec fn xor_bytes(a: Seq<u8>, b: Seq<u8>) -> Seq<u8> {
    Seq::new(NODE_ID_LENGTH as nat, |i: int| a[i] ^ b[i])
}

/// Number of zero bits before the first set bit of `d`, reading from byte
/// `from` onwards, most significant bit first; eight per byte when every
/// remaining byte is zero.
pub open spec fn zero_bits_from(d: Seq<u8>, from: int) -> nat
    decreases d.len() - from,
{
    if from < 0 || from >= d.len() {
        0
    } else if d[from] != 0 {
        d[from].leading_zeros() as nat
    } else {
        8 + zero_bits_from(d, from + 1)
    }
}

/// Number of leading zero bits of a byte string read as a big-endian number.
pub open spec fn leading_zero_bits(d: Seq<u8>) -> nat {
    zero_bits_from(d, 0)
}

/// Value of a byte string read as a big-endian unsigned number.
pub open spec fn be_value(s: Seq<u8>) -> nat
    decreases s.len(),
{
    if s.len() == 0 {
        0
    } else {
        be_value(s.drop_last()) * 256 + s.last() as nat
    }
}

/// A 256-bit identifier of a participant.
#[derive(Debug, Clone, Copy, PartialEq, Eq, Hash)]
pub struct NodeId(pub [u8; NODE_ID_LENGTH]);

/// The XOR of two identifiers, ordered as a big-endian number.
#[derive(Debug, Clone, Copy, PartialEq, Eq)]
pub struct Distance(pub [u8; NODE_ID_LENGTH]);

impl View for NodeId {
    type V = Seq<u8>;

    open spec fn view(&self) -> Seq<u8> {
        self.0@
    }
}

impl View for Distance {
    type V = Seq<u8>;

    open spec fn view(&self) -> Seq<u8> {
        self.0@
    }
}

/// Fills 32 bytes through `rand::Rng::fill` on `rand::thread_rng()`. Nothing
/// is claimed of the bytes.
#[verifier::external_body]
fn random_bytes() -> [u8; 32] {
    let mut id = [0u8; 32];
    rand::Rng::fill(&mut rand::thread_rng(), &mut id);
    id
}

impl NodeId {
    /// The identifier with the bytes `data`.
    pub fn new(data: [u8; NODE_ID_LENGTH]) -> (id: Self)
        ensures
            id.0 == data,
            id@ == data@,
    {
        NodeId(data)
    }

    /// An identifier drawn from the thread's random number generator.
    pub fn random() -> Self {
        NodeId(random_bytes())
    }

    /// The identifier of an endpoint: the BLAKE3 hash of its text
    /// `a.b.c.d:port`.
    pub fn from_addr(addr: &PeerAddr) -> (id: Self)
        ensures
            id@ == blake3_digest(addr_text(*addr)),
    {
        let text = addr.to_text();
        NodeId(blake3_hash(text.as_slice()))
    }

    /// Whether two identifiers hold the same 32 bytes.
    pub fn same(&self, other: &NodeId) -> (r: bool)
        ensures
            r == (self@ == other@),
            r == (*self == *other),
    {
        let mut i: usize = 0;
        while i < NODE_ID_LENGTH
            invariant
                i <= NODE_ID_LENGTH,
                forall|j: int| 0 <= j < i ==> self.0[j] == other.0[j],
            decreases NODE_ID_LENGTH - i,
        {
            if self.0[i] != other.0[i] {
                return false;
            }
            i += 1;
        }
        assert(self.0 =~= other.0);
        true
    }

    /// The XOR of the two identifiers.
    pub fn distance(&self, other: &NodeId) -> (d: Distance)
        ensures
            d@ == xor_bytes(self@, other@),
    {
        let mut dist = [0u8; NODE_ID_LENGTH];
        let mut i: usize = 0;
        while i < NODE_ID_LENGTH
            invariant
                i <= NODE_ID_LENGTH,
                forall|j: int| 0 <= j < i ==> dist[j] == self.0[j] ^ other.0[j],
            decreases NODE_ID_LENGTH - i,
        {
            dist[i] = self.0[i] ^ other.0[i];
            i += 1;
        }
        assert(dist@ =~= xor_bytes(self@, other@));
        Distance(dist)
    }

    /// Number of leading bits that the two identifiers share.
    pub fn common_prefix_len(&self, other: &NodeId) -> (n: usize)
        ensures
            n == leading_zero_bits(xor_bytes(self@, other@)),
            n <= NODE_ID_BITS,
    {
        let dist = self.distance(other);
        dist.leading_zeros()
    }
}

/// `zero_bits_from` never counts more than eight bits per remaining byte.
pub proof fn lemma_zero_bits_bound(d: Seq<u8>, from: int)
    requires
        0 <= from <= d.len(),
    ensures
        zero_bits_from(d, from) <= 8 * (d.len() - from),
        zero_bits_from(d, from) == 8 * (d.len() - from) <==> forall|j: int|
            from <= j < d.len() ==> d[j] == 0,
    decreases d.len() - from,
{
    if from < d.len() {
        lemma_zero_bits_bound(d, from + 1);
        if d[from] != 0 {
            vstd::std_specs::bits::axiom_u8_leading_zeros(d[from]);
        }
    }
}

impl Distance {
    /// Number of zero bits before the first set bit; 256 for the distance zero.
    pub fn leading_zeros(&self) -> (n: usize)
        ensures
            n == leading_zero_bits(self@),
            n <= NODE_ID_BITS,
            n == NODE_ID_BITS <==> self@ == Seq::new(NODE_ID_LENGTH as nat, |i: int| 0u8),
    {
        proof {
            lemma_zero_bits_bound(self@, 0);
        }
        let mut i: usize = 0;
        while i < NODE_ID_LENGTH
            invariant
                i <= NODE_ID_LENGTH,
                forall|j: int| 0 <= j < i ==> self.0[j] == 0,
                leading_zero_bits(self@) == 8 * i + zero_bits_from(self@, i as int),
            decreases NODE_ID_LENGTH - i,
        {
            let byte = self.0[i];
            if byte != 0 {
                proof {
                    vstd::std_specs::bits::axiom_u8_leading_zeros(byte);
                }
                let z: u32 = byte.leading_zeros();
                return i * 8 + z as usize;
            }
            i += 1;
        }
        assert(self@ =~= Seq::new(NODE_ID_LENGTH as nat, |i: int| 0u8));
        NODE_ID_LENGTH * 8
    }

    /// Whether `self` is strictly nearer than `other`, comparing the bytes
    /// from the most significant one.
    pub fn nearer_than(&self, other: &Distance) -> (r: bool)
        ensures
            r == (be_value(self@) < be_value(other@)),
    {
        let mut i: usize = 0;
        while i < NODE_ID_LENGTH
            invariant
                i <= NODE_ID_LENGTH,
                self@.subrange(0, i as int) == other@.subrange(0, i as int),
            decreases NODE_ID_LENGTH - i,
        {
            let a = self.0[i];
            let b = other.0[i];
            if a != b {
                proof {
                    if a < b {
                        lemma_first_difference_decides(self@, other@, i as int);
                    } else {
                        lemma_first_difference_decides(other@, self@, i as int);
                    }
                }
                return a < b;
            }
            assert(self@.subrange(0, i + 1) =~= self@.subrange(0, i as int).push(a));
            assert(other@.subrange(0, i + 1) =~= other@.subrange(0, i as int).push(b));
            i += 1;
        }
        assert(self@ =~= self@.subrange(0, NODE_ID_LENGTH as int));
        assert(other@ =~= other@.subrange(0, NODE_ID_LENGTH as int));
        false
    }
}

/// Two byte strings of equal length that agree before index `k` and differ
/// at `k` are ordered, as big-endian numbers, like their bytes at `k`.
pub proof fn lemma_first_difference_decides(a: Seq<u8>, b: Seq<u8>, k: int)
    requires
        a.len() == b.len(),
        0 <= k < a.len(),
        a.subrange(0, k) == b.subrange(0, k),
        a[k] < b[k],
    ensures
        be_value(a) < be_value(b),
{
    lemma_prefix_order_extends(a, b, k, a.len() as int);
    assert(a.subrange(0, a.len() as int) =~= a);
    assert(b.subrange(0, b.len() as int) =~= b);
}

proof fn lemma_prefix_order_extends(a: Seq<u8>, b: Seq<u8>, k: int, n: int)
    requires
        a.len() == b.len(),
        0 <= k < n <= a.len(),
        a.subrange(0, k) == b.subrange(0, k),
        a[k] < b[k],
    ensures
        be_value(a.subrange(0, n)) < be_value(b.subrange(0, n)),
    decreases n - k,
{
    let pa = a.subrange(0, n);
    let pb = b.subrange(0, n);
    assert(pa.drop_last() =~= a.subrange(0, n - 1));
    assert(pb.drop_last() =~= b.subrange(0, n - 1));
    if n == k + 1 {
    } else {
        lemma_prefix_order_extends(a, b, k, n - 1);
    }
}

/// Byte strings of equal length with equal big-endian values are equal.
pub proof fn lemma_be_value_injective(a: Seq<u8>, b: Seq<u8>)
    requires
        a.len() == b.len(),
        be_value(a) == be_value(b),
    ensures
        a == b,
    decreases a.len(),
{
    if a.len() > 0 {
        lemma_be_value_injective(a.drop_last(), b.drop_last());
        assert(a =~= a.drop_last().push(a.last()));
        assert(b =~= b.drop_last().push(b.last()));
    } else {
        assert(a =~= b);
    }
}

/// The XOR metric is symmetric.
pub proof fn lemma_distance_symmetric(a: NodeId, b: NodeId)
    ensures
        xor_bytes(a@, b@) == xor_bytes(b@, a@),
{
    assert forall|i: int| 0 <= i < NODE_ID_LENGTH implies (#[trigger] a@[i]) ^ b@[i] == b@[i]
        ^ a@[i] by {
        let x = a@[i];
        let y = b@[i];
        assert(x ^ y == y ^ x) by (bit_vector);
    }
    assert(xor_bytes(a@, b@) =~= xor_bytes(b@, a@));
}

/// The distance from an identifier to itself is zero in every byte, and so
/// has the full 256 leading zero bits.
pub proof fn lemma_distance_to_self_is_zero(a: NodeId)
    ensures
        xor_bytes(a@, a@) == Seq::new(NODE_ID_LENGTH as nat, |i: int| 0u8),
        be_value(xor_bytes(a@, a@)) == 0,
        leading_zero_bits(xor_bytes(a@, a@)) == NODE_ID_BITS,
{
    let z = Seq::new(NODE_ID_LENGTH as nat, |i: int| 0u8);
    assert forall|i: int| 0 <= i < NODE_ID_LENGTH implies (#[trigger] a@[i]) ^ a@[i] == 0u8 by {
        let x = a@[i];
        assert(x ^ x == 0u8) by (bit_vector);
    }
    assert(xor_bytes(a@, a@) =~= z);
    lemma_zero_bits_bound(z, 0);
    lemma_zero_value(z);
}

proof fn lemma_zero_value(z: Seq<u8>)
    requires
        forall|i: int| 0 <= i < z.len() ==> z[i] == 0,
    ensures
        be_value(z) == 0,
    decreases z.len(),
{
    if z.len() > 0 {
        lemma_zero_value(z.drop_last());
    }
}

/// Distinct identifiers lie at different distances from any target.
pub proof fn lemma_distance_injective(a: NodeId, b: NodeId, target: NodeId)
    requires
        xor_bytes(a@, target@) == xor_bytes(b@, target@),
    ensures
        a@ == b@,
{
    assert forall|i: int| 0 <= i < NODE_ID_LENGTH implies a@[i] == b@[i] by {
        let x = a@[i];
        let y = b@[i];
        let t = target@[i];
        assert(xor_bytes(a@, target@)[i] == x ^ t);
        assert(xor_bytes(b@, target@)[i] == y ^ t);
        assert(x ^ t == y ^ t ==> x == y) by (bit_vector);
    }
    assert(a@ =~= b@);
}

} // verus!
