//! The routing table: 256 buckets of contacts, indexed by the number of
//! leading bits that a contact's identifier shares with the local one.

use vstd::prelude::*;
use crate::addr::PeerAddr;
use crate::node_id::{
    be_value, leading_zero_bits, lemma_be_value_injective, lemma_distance_injective, xor_bytes,
    NodeId, NODE_ID_BITS,
};

verus! {

/// Most contacts that one bucket holds.
pub const K_BUCKET_SIZE: usize = 20;

/// Number of contacts that a lookup asks for.
pub const ALPHA: usize = 3;

/// A contact: an identifier, where to reach it, and when it was last seen
/// (seconds since the Unix epoch).
#[derive(Debug, Clone, Copy, PartialEq, Eq)]
pub struct Node {
    pub id: NodeId,
    pub addr: PeerAddr,
    pub last_seen: u64,
}

/// Index of the first contact of `s` with identifier `id`, or `s.len()`
/// when there is none.
pub open spec fn position_of(s: Seq<Node>, id: Seq<u8>) -> int
    decreases s.len(),
{
    if s.len() == 0 {
        0
    } else if s[0].id@ == id {
        0
    } else {
        1 + position_of(s.drop_first(), id)
    }
}

/// No two contacts of `s` share an identifier.
pub open spec fn distinct_ids(s: Seq<Node>) -> bool {
    forall|i: int, j: int| 0 <= i < j < s.len() ==> s[i].id@ != s[j].id@
}

/// What a bucket holds after `node` is offered to it: a contact with the
/// same identifier is replaced and moves to the tail, a new contact is
/// appended while there is room, and a full bucket stays as it is.
pub open spec fn bucket_after_add(s: Seq<Node>, node: Node) -> Seq<Node> {
    let p = position_of(s, node.id@);
    if p < s.len() {
        s.remove(p).push(node)
    } else if s.len() < K_BUCKET_SIZE {
        s.push(node)
    } else {
        s
    }
}

/// What a bucket holds after the contact with identifier `id` is removed.
pub open spec fn bucket_after_remove(s: Seq<Node>, id: Seq<u8>) -> Seq<Node> {
    let p = position_of(s, id);
    if p < s.len() {
        s.remove(p)
    } else {
        s
    }
}

/// `position_of` finds the first contact with the identifier.
pub proof fn lemma_position_of(s: Seq<Node>, id: Seq<u8>)
    ensures
        0 <= position_of(s, id) <= s.len(),
        position_of(s, id) < s.len() ==> s[position_of(s, id)].id@ == id,
        forall|i: int| 0 <= i < position_of(s, id) ==> s[i].id@ != id,
    decreases s.len(),
{
    if s.len() > 0 && s[0].id@ != id {
        lemma_position_of(s.drop_first(), id);
        assert forall|i: int| 0 <= i < position_of(s, id) implies s[i].id@ != id by {
            if i > 0 {
                assert(s.drop_first()[i - 1] == s[i]);
            }
        }
    }
}

/// A bucket of at most `K_BUCKET_SIZE` contacts has at most that many after
/// a contact was offered, and a full bucket that does not know the
/// contact's identifier stays as it is.
pub proof fn lemma_bucket_capacity_kept(s: Seq<Node>, node: Node)
    requires
        s.len() <= K_BUCKET_SIZE,
    ensures
        bucket_after_add(s, node).len() <= K_BUCKET_SIZE,
        s.len() == K_BUCKET_SIZE && position_of(s, node.id@) == s.len() ==> bucket_after_add(
            s,
            node,
        ) == s,
{
    lemma_position_of(s, node.id@);
}

/// Up to `K_BUCKET_SIZE` contacts, the most recently seen at the tail.
pub struct KBucket {
    nodes: Vec<Node>,
    max_size: usize,
}

impl View for KBucket {
    type V = Seq<Node>;

    closed spec fn view(&self) -> Seq<Node> {
        self.nodes@
    }
}

impl KBucket {
    /// The bucket holds at most `K_BUCKET_SIZE` contacts and no identifier
    /// twice.
    pub closed spec fn wf(&self) -> bool {
        &&& self.max_size == K_BUCKET_SIZE
        &&& self.nodes@.len() <= K_BUCKET_SIZE
        &&& distinct_ids(self.nodes@)
    }

    /// A well-formed bucket never holds more than `K_BUCKET_SIZE` contacts,
    /// nor one identifier twice.
    pub proof fn lemma_capacity(&self)
        requires
            self.wf(),
        ensures
            self@.len() <= K_BUCKET_SIZE,
            distinct_ids(self@),
    {
    }

    /// An empty bucket.
    pub fn new() -> (b: Self)
        ensures
            b.wf(),
            b@ == Seq::<Node>::empty(),
    {
        Self { nodes: Vec::new(), max_size: K_BUCKET_SIZE }
    }

    fn find(&self, id: &NodeId) -> (p: usize)
        ensures
            p == position_of(self.nodes@, id@),
            p <= self.nodes@.len(),
    {
        let n = self.nodes.len();
        let mut i: usize = 0;
        proof {
            lemma_position_of(self.nodes@, id@);
        }
        while i < n
            invariant
                n == self.nodes@.len(),
                i <= n,
                forall|j: int| 0 <= j < i ==> self.nodes@[j].id@ != id@,
                0 <= position_of(self.nodes@, id@) <= n,
                position_of(self.nodes@, id@) < n ==> self.nodes@[position_of(
                    self.nodes@,
                    id@,
                )].id@ == id@,
                forall|j: int|
                    0 <= j < position_of(self.nodes@, id@) ==> self.nodes@[j].id@ != id@,
            decreases n - i,
        {
            if self.nodes[i].id.same(id) {
                return i;
            }
            i += 1;
        }
        i
    }

    /// Offers a contact to the bucket. Returns whether the bucket took it.
    pub fn add_node(&mut self, node: Node) -> (added: bool)
        requires
            old(self).wf(),
        ensures
            final(self).wf(),
            final(self)@ == bucket_after_add(old(self)@, node),
            added == (position_of(old(self)@, node.id@) < old(self)@.len() || old(self)@.len()
                < K_BUCKET_SIZE),
            !added ==> final(self)@ == old(self)@,
    {
        let pos = self.find(&node.id);
        proof {
            lemma_position_of(self.nodes@, node.id@);
        }
        if pos < self.nodes.len() {
            self.nodes.remove(pos);
            self.nodes.push(node);
            proof {
                let s = old(self).nodes@;
                let t = self.nodes@;
                assert forall|i: int, j: int| 0 <= i < j < t.len() implies t[i].id@ != t[j].id@ by {
                    let oi = if i < pos { i } else { i + 1 };
                    assert(t[i] == s[oi]);
                    if j < t.len() - 1 {
                        let oj = if j < pos { j } else { j + 1 };
                        assert(t[j] == s[oj]);
                    } else {
                        assert(t[j] == node);
                        assert(s[pos as int].id@ == node.id@);
                    }
                }
            }
            return true;
        }
        if self.nodes.len() < self.max_size {
            self.nodes.push(node);
            return true;
        }
        false
    }

    /// The contacts of the bucket, the least recently seen first.
    pub fn get_nodes(&self) -> (v: Vec<Node>)
        ensures
            v@ == self@,
    {
        let mut v: Vec<Node> = Vec::new();
        let n = self.nodes.len();
        let mut i: usize = 0;
        while i < n
            invariant
                n == self.nodes@.len(),
                i <= n,
                v@ == self.nodes@.subrange(0, i as int),
            decreases n - i,
        {
            v.push(self.nodes[i]);
            assert(self.nodes@.subrange(0, i + 1) =~= self.nodes@.subrange(0, i as int).push(
                self.nodes@[i as int],
            ));
            i += 1;
        }
        assert(self.nodes@.subrange(0, n as int) =~= self.nodes@);
        v
    }

    /// Removes the contact with identifier `id`, if the bucket holds it.
    pub fn remove_node(&mut self, id: &NodeId)
        requires
            old(self).wf(),
        ensures
            final(self).wf(),
            final(self)@ == bucket_after_remove(old(self)@, id@),
            forall|i: int| 0 <= i < final(self)@.len() ==> final(self)@[i].id@ != id@,
    {
        let pos = self.find(id);
        proof {
            lemma_position_of(self.nodes@, id@);
        }
        if pos < self.nodes.len() {
            self.nodes.remove(pos);
            proof {
                let s = old(self).nodes@;
                let t = self.nodes@;
                assert forall|i: int| 0 <= i < t.len() implies t[i].id@ != id@ by {
                    let oi = if i < pos { i } else { i + 1 };
                    assert(t[i] == s[oi]);
                }
                assert forall|i: int, j: int| 0 <= i < j < t.len() implies t[i].id@ != t[j].id@ by {
                    let oi = if i < pos { i } else { i + 1 };
                    let oj = if j < pos { j } else { j + 1 };
                    assert(t[i] == s[oi]);
                    assert(t[j] == s[oj]);
                }
            }
        }
    }

    /// Number of contacts in the bucket.
    pub fn len(&self) -> (n: usize)
        ensures
            n == self@.len(),
    {
        self.nodes.len()
    }
}

/// Index of the bucket that a contact with identifier `id` belongs to in
/// the table of `local`: the number of leading bits the two share. It is
/// `NODE_ID_BITS` for `local` itself, which no bucket holds.
pub open spec fn bucket_index(local: Seq<u8>, id: Seq<u8>) -> nat {
    leading_zero_bits(xor_bytes(local, id))
}

/// Whether some bucket of `t` holds `node`.
pub open spec fn table_holds(t: Seq<Seq<Node>>, node: Node) -> bool {
    exists|b: int, i: int| 0 <= b < t.len() && 0 <= i < t[b].len() && (#[trigger] t[b][i]) == node
}

/// The buckets `t` of the node `local` after `node` was offered: the bucket
/// that `node` belongs to takes it as `bucket_after_add` says, and `local`
/// itself is ignored.
pub open spec fn table_after_add(t: Seq<Seq<Node>>, local: Seq<u8>, node: Node) -> Seq<Seq<Node>> {
    let b = bucket_index(local, node.id@);
    if b < NODE_ID_BITS {
        t.update(b as int, bucket_after_add(t[b as int], node))
    } else {
        t
    }
}

/// The buckets `t` of the node `local` after the contact with identifier
/// `id` was removed.
pub open spec fn table_after_remove(t: Seq<Seq<Node>>, local: Seq<u8>, id: Seq<u8>) -> Seq<
    Seq<Node>,
> {
    let b = bucket_index(local, id);
    if b < NODE_ID_BITS {
        t.update(b as int, bucket_after_remove(t[b as int], id))
    } else {
        t
    }
}

/// Distance from a contact to `target`, as a number.
pub open spec fn distance_to(target: Seq<u8>, node: Node) -> nat {
    be_value(xor_bytes(node.id@, target))
}

/// `r` holds the contacts of `all` nearest to `target`, nearest first: all
/// of them if they are at most `count`, else the `count` nearest.
pub open spec fn is_closest(
    holds: spec_fn(Node) -> bool,
    r: Seq<Node>,
    target: Seq<u8>,
    count: nat,
) -> bool {
    &&& r.len() <= count
    &&& forall|i: int| 0 <= i < r.len() ==> holds(#[trigger] r[i])
    &&& forall|i: int, j: int|
        0 <= i < j < r.len() ==> distance_to(target, r[i]) < distance_to(target, r[j])
    &&& forall|x: Node|
        #![trigger holds(x)]
        holds(x) && !r.contains(x) ==> r.len() == count && forall|i: int|
            0 <= i < r.len() ==> distance_to(target, #[trigger] r[i]) < distance_to(target, x)
}

/// Among contacts of which no two lie at the same distance from `target`,
/// the nearest `count` are determined: two lists that are both `is_closest`
/// agree in their first `n` contacts, for every `n` within both.
proof fn lemma_closest_agree(
    holds: spec_fn(Node) -> bool,
    r1: Seq<Node>,
    r2: Seq<Node>,
    target: Seq<u8>,
    count: nat,
    n: int,
)
    requires
        is_closest(holds, r1, target, count),
        is_closest(holds, r2, target, count),
        forall|x: Node, y: Node|
            holds(x) && holds(y) && distance_to(target, x) == distance_to(target, y) ==> x == y,
        0 <= n <= r1.len(),
        n <= r2.len(),
    ensures
        forall|i: int| 0 <= i < n ==> r1[i] == r2[i],
    decreases n,
{
    if n > 0 {
        lemma_closest_agree(holds, r1, r2, target, count, n - 1);
        let i = n - 1;
        let x = r1[i];
        let y = r2[i];
        assert(holds(x) && holds(y));
        if distance_to(target, x) < distance_to(target, y) {
            lemma_not_skipped(holds, r1, r2, target, count, i);
        } else if distance_to(target, y) < distance_to(target, x) {
            lemma_not_skipped(holds, r2, r1, target, count, i);
        }
    }
}

/// Two lists that are both `is_closest` and agree before index `i` cannot
/// have a nearer contact at `i` in the first than in the second.
proof fn lemma_not_skipped(
    holds: spec_fn(Node) -> bool,
    r1: Seq<Node>,
    r2: Seq<Node>,
    target: Seq<u8>,
    count: nat,
    i: int,
)
    requires
        is_closest(holds, r1, target, count),
        is_closest(holds, r2, target, count),
        0 <= i < r1.len(),
        i < r2.len(),
        forall|j: int| 0 <= j < i ==> r1[j] == r2[j],
    ensures
        !(distance_to(target, r1[i]) < distance_to(target, r2[i])),
{
    let x = r1[i];
    if distance_to(target, x) < distance_to(target, r2[i]) {
        assert(holds(x));
        if r2.contains(x) {
            let k = choose|k: int| 0 <= k < r2.len() && r2[k] == x;
            if k < i {
                assert(r1[k] == r2[k]);
            }
        } else {
            assert(distance_to(target, r2[i]) < distance_to(target, x));
        }
    }
}

/// Among contacts of which no two lie at the same distance from `target`,
/// there is one list of the nearest `count`: the contract of a search that
/// returns such a list leaves nothing open.
pub proof fn lemma_closest_unique(
    holds: spec_fn(Node) -> bool,
    r1: Seq<Node>,
    r2: Seq<Node>,
    target: Seq<u8>,
    count: nat,
)
    requires
        is_closest(holds, r1, target, count),
        is_closest(holds, r2, target, count),
        forall|x: Node, y: Node|
            holds(x) && holds(y) && distance_to(target, x) == distance_to(target, y) ==> x == y,
    ensures
        r1 == r2,
{
    let n = if r1.len() <= r2.len() {
        r1.len() as int
    } else {
        r2.len() as int
    };
    lemma_closest_agree(holds, r1, r2, target, count, n);
    if r1.len() < r2.len() {
        lemma_no_longer(holds, r1, r2, target, count);
    } else if r2.len() < r1.len() {
        assert forall|i: int| 0 <= i < r2.len() implies r2[i] == r1[i] by {}
        lemma_no_longer(holds, r2, r1, target, count);
    }
    assert(r1 =~= r2);
}

/// Of two lists that are both `is_closest`, where the second starts with
/// the first, the second is no longer than the first.
proof fn lemma_no_longer(
    holds: spec_fn(Node) -> bool,
    r1: Seq<Node>,
    r2: Seq<Node>,
    target: Seq<u8>,
    count: nat,
)
    requires
        is_closest(holds, r1, target, count),
        is_closest(holds, r2, target, count),
        r1.len() <= r2.len(),
        forall|i: int| 0 <= i < r1.len() ==> r1[i] == r2[i],
    ensures
        r1.len() == r2.len(),
{
    if r1.len() < r2.len() {
        let y = r2[r1.len() as int];
        assert(holds(y));
        if r1.contains(y) {
            let k = choose|k: int| 0 <= k < r1.len() && r1[k] == y;
            assert(r2[k] == y);
            assert(distance_to(target, r2[k]) < distance_to(target, r2[r1.len() as int]));
        } else {
            assert(r1.len() == count);
        }
    }
}

/// Every contact of `sorted` is one of the first `k` contacts of `all`.
spec fn drawn_from(sorted: Seq<Node>, all: Seq<Node>, k: int) -> bool {
    forall|i: int| 0 <= i < sorted.len() ==> among(all, k, #[trigger] sorted[i])
}

/// `x` is one of the first `k` contacts of `all`.
spec fn among(all: Seq<Node>, k: int, x: Node) -> bool {
    exists|j: int| 0 <= j < k && #[trigger] all[j] == x
}

/// Contacts with different identifiers lie at different distances.
pub proof fn lemma_distance_to_distinct(target: NodeId, a: Node, b: Node)
    requires
        a.id@ != b.id@,
    ensures
        distance_to(target@, a) != distance_to(target@, b),
{
    if distance_to(target@, a) == distance_to(target@, b) {
        lemma_be_value_injective(xor_bytes(a.id@, target@), xor_bytes(b.id@, target@));
        lemma_distance_injective(a.id, b.id, target);
    }
}

/// The routing table of one node.
pub struct Kademlia {
    node_id: NodeId,
    k_buckets: Vec<KBucket>,
}

impl View for Kademlia {
    type V = Seq<Seq<Node>>;

    /// The contents of the buckets, bucket 0 first.
    closed spec fn view(&self) -> Seq<Seq<Node>> {
        Seq::new(self.k_buckets@.len(), |b: int| self.k_buckets@[b]@)
    }
}

impl Kademlia {
    /// The identifier of the node that owns the table.
    pub closed spec fn local_id(&self) -> NodeId {
        self.node_id
    }

    /// There are `NODE_ID_BITS` well-formed buckets, and every contact is in
    /// the bucket that its identifier belongs to.
    pub closed spec fn wf(&self) -> bool {
        &&& self.k_buckets@.len() == NODE_ID_BITS
        &&& forall|b: int| 0 <= b < NODE_ID_BITS ==> (#[trigger] self.k_buckets@[b]).wf()
        &&& forall|b: int, i: int|
            0 <= b < NODE_ID_BITS && 0 <= i < self.k_buckets@[b]@.len() ==> bucket_index(
                self.node_id@,
                (#[trigger] self.k_buckets@[b]@[i]).id@,
            ) == b
    }

    /// Whether some bucket holds `node`.
    pub open spec fn holds(&self, node: Node) -> bool {
        table_holds(self@, node)
    }

    /// Every contact in bucket `b` shares exactly `b` leading bits with the
    /// local identifier.
    pub proof fn lemma_bucket_placement(&self, b: int, i: int)
        requires
            self.wf(),
            0 <= b < self@.len(),
            0 <= i < self@[b].len(),
        ensures
            self@.len() == NODE_ID_BITS,
            bucket_index(self.local_id()@, self@[b][i].id@) == b,
    {
    }

    /// Every bucket holds at most `K_BUCKET_SIZE` contacts and no identifier
    /// twice.
    pub proof fn lemma_bucket_capacity(&self, b: int)
        requires
            self.wf(),
            0 <= b < self@.len(),
        ensures
            self@[b].len() <= K_BUCKET_SIZE,
            distinct_ids(self@[b]),
    {
        assert(self.k_buckets@[b].wf());
    }

    /// No two contacts of the table lie at the same distance from a target.
    pub proof fn lemma_distances_differ(&self, target: NodeId, x: Node, y: Node)
        requires
            self.wf(),
            self.holds(x),
            self.holds(y),
            distance_to(target@, x) == distance_to(target@, y),
        ensures
            x == y,
    {
        if x.id@ != y.id@ {
            lemma_distance_to_distinct(target, x, y);
        }
        self.lemma_ids_unique(x, y);
    }

    /// No two contacts of the table share an identifier.
    pub proof fn lemma_ids_unique(&self, x: Node, y: Node)
        requires
            self.wf(),
            self.holds(x),
            self.holds(y),
            x.id@ == y.id@,
        ensures
            x == y,
    {
        let (b1, i1) = choose|b: int, i: int|
            0 <= b < self@.len() && 0 <= i < self@[b].len() && (#[trigger] self@[b][i]) == x;
        let (b2, i2) = choose|b: int, i: int|
            0 <= b < self@.len() && 0 <= i < self@[b].len() && (#[trigger] self@[b][i]) == y;
        assert(self.k_buckets@[b1]@[i1] == x);
        assert(self.k_buckets@[b2]@[i2] == y);
        assert(b1 == b2);
        assert(self.k_buckets@[b1].wf());
        self.k_buckets@[b1].lemma_capacity();
    }

    /// The empty table of the node `node_id`.
    pub fn new(node_id: NodeId) -> (t: Self)
        ensures
            t.wf(),
            t.local_id() == node_id,
            t@.len() == NODE_ID_BITS,
            forall|b: int| 0 <= b < NODE_ID_BITS ==> (#[trigger] t@[b]).len() == 0,
    {
        let mut buckets: Vec<KBucket> = Vec::with_capacity(NODE_ID_BITS);
        let mut b: usize = 0;
        while b < NODE_ID_BITS
            invariant
                b <= NODE_ID_BITS,
                buckets@.len() == b,
                forall|k: int| 0 <= k < b ==> (#[trigger] buckets@[k]).wf() && buckets@[k]@.len() == 0,
            decreases NODE_ID_BITS - b,
        {
            buckets.push(KBucket::new());
            b += 1;
        }
        Self { node_id, k_buckets: buckets }
    }

    /// Offers a contact to the bucket that its identifier belongs to. The
    /// local identifier itself belongs to none and is ignored.
    pub fn add_node(&mut self, node: Node)
        requires
            old(self).wf(),
        ensures
            final(self).wf(),
            final(self).local_id() == old(self).local_id(),
            final(self)@ == table_after_add(old(self)@, old(self).local_id()@, node),
    {
        let distance = self.node_id.distance(&node.id);
        let bucket_idx = distance.leading_zeros();
        if bucket_idx < NODE_ID_BITS {
            let ghost before = self.k_buckets@[bucket_idx as int]@;
            self.k_buckets[bucket_idx].add_node(node);
            proof {
                let after = self.k_buckets@[bucket_idx as int]@;
                lemma_position_of(before, node.id@);
                assert forall|b: int, i: int|
                    0 <= b < NODE_ID_BITS && 0 <= i < self.k_buckets@[b]@.len() implies bucket_index(
                    self.node_id@,
                    (#[trigger] self.k_buckets@[b]@[i]).id@,
                ) == b by {
                    if b == bucket_idx {
                        let p = position_of(before, node.id@);
                        if p < before.len() {
                            if i < after.len() - 1 {
                                let oi = if i < p { i } else { i + 1 };
                                assert(after[i] == before[oi]);
                                assert(old(self).k_buckets@[b]@[oi] == before[oi]);
                            }
                        } else if before.len() < K_BUCKET_SIZE {
                            if i < after.len() - 1 {
                                assert(old(self).k_buckets@[b]@[i] == before[i]);
                            }
                        } else {
                            assert(old(self).k_buckets@[b]@[i] == before[i]);
                        }
                    } else {
                        assert(self.k_buckets@[b] == old(self).k_buckets@[b]);
                    }
                }
                assert forall|b: int| 0 <= b < NODE_ID_BITS implies (
                #[trigger] self.k_buckets@[b]).wf() by {
                    if b != bucket_idx {
                        assert(self.k_buckets@[b] == old(self).k_buckets@[b]);
                    }
                }
                assert(self@ =~= old(self)@.update(bucket_idx as int, after));
            }
        }
    }

    /// Removes the contact with identifier `id` from the table.
    pub fn remove_node(&mut self, id: &NodeId)
        requires
            old(self).wf(),
        ensures
            final(self).wf(),
            final(self).local_id() == old(self).local_id(),
            final(self)@ == table_after_remove(old(self)@, old(self).local_id()@, id@),
    {
        let distance = self.node_id.distance(id);
        let bucket_idx = distance.leading_zeros();
        if bucket_idx < NODE_ID_BITS {
            let ghost before = self.k_buckets@[bucket_idx as int]@;
            self.k_buckets[bucket_idx].remove_node(id);
            proof {
                let after = self.k_buckets@[bucket_idx as int]@;
                lemma_position_of(before, id@);
                assert forall|b: int, i: int|
                    0 <= b < NODE_ID_BITS && 0 <= i < self.k_buckets@[b]@.len() implies bucket_index(
                    self.node_id@,
                    (#[trigger] self.k_buckets@[b]@[i]).id@,
                ) == b by {
                    if b == bucket_idx {
                        let p = position_of(before, id@);
                        if p < before.len() {
                            let oi = if i < p { i } else { i + 1 };
                            assert(after[i] == before[oi]);
                            assert(old(self).k_buckets@[b]@[oi] == before[oi]);
                        } else {
                            assert(old(self).k_buckets@[b]@[i] == before[i]);
                        }
                    } else {
                        assert(self.k_buckets@[b] == old(self).k_buckets@[b]);
                    }
                }
                assert forall|b: int| 0 <= b < NODE_ID_BITS implies (
                #[trigger] self.k_buckets@[b]).wf() by {
                    if b != bucket_idx {
                        assert(self.k_buckets@[b] == old(self).k_buckets@[b]);
                    }
                }
                assert(self@ =~= old(self)@.update(bucket_idx as int, after));
            }
        }
    }

    /// Every contact of the table, bucket 0 first.
    fn all_nodes(&self) -> (all: Vec<Node>)
        requires
            self.wf(),
        ensures
            distinct_ids(all@),
            forall|i: int| 0 <= i < all@.len() ==> self.holds(#[trigger] all@[i]),
            forall|x: Node| self.holds(x) ==> all@.contains(x),
    {
        let mut all: Vec<Node> = Vec::new();
        let mut b: usize = 0;
        while b < NODE_ID_BITS
            invariant
                self.wf(),
                b <= NODE_ID_BITS,
                distinct_ids(all@),
                forall|i: int| 0 <= i < all@.len() ==> self.holds(#[trigger] all@[i]),
                forall|i: int|
                    0 <= i < all@.len() ==> bucket_index(self.node_id@, (#[trigger] all@[i]).id@)
                        < b,
                forall|bb: int, j: int|
                    0 <= bb < b && 0 <= j < self@[bb].len() ==> all@.contains(
                        #[trigger] self@[bb][j],
                    ),
            decreases NODE_ID_BITS - b,
        {
            let nodes = self.k_buckets[b].get_nodes();
            let n = nodes.len();
            let ghost base = all@;
            let mut j: usize = 0;
            proof {
                assert(self.k_buckets@[b as int].wf());
                self.k_buckets@[b as int].lemma_capacity();
            }
            while j < n
                invariant
                    self.wf(),
                    b < NODE_ID_BITS,
                    n == nodes@.len(),
                    nodes@ == self@[b as int],
                    nodes@ == self.k_buckets@[b as int]@,
                    distinct_ids(nodes@),
                    j <= n,
                    all@ == base + nodes@.subrange(0, j as int),
                    distinct_ids(all@),
                    forall|i: int| 0 <= i < all@.len() ==> self.holds(#[trigger] all@[i]),
                    forall|i: int|
                        0 <= i < base.len() ==> bucket_index(
                            self.node_id@,
                            (#[trigger] base[i]).id@,
                        ) < b,
                decreases n - j,
            {
                let x = nodes[j];
                proof {
                    assert(self@[b as int][j as int] == x);
                    assert(self.k_buckets@[b as int]@[j as int] == x);
                    assert(bucket_index(self.node_id@, x.id@) == b);
                }
                all.push(x);
                proof {
                    assert(nodes@.subrange(0, j + 1) =~= nodes@.subrange(0, j as int).push(x));
                    assert(all@ =~= base + nodes@.subrange(0, j + 1));
                    assert forall|i1: int, i2: int| 0 <= i1 < i2 < all@.len() implies all@[i1].id@
                        != all@[i2].id@ by {
                        if i2 == all@.len() - 1 {
                            if i1 < base.len() {
                                assert(all@[i1] == base[i1]);
                            } else {
                                assert(all@[i1] == nodes@[i1 - base.len()]);
                            }
                        }
                    }
                }
                j += 1;
            }
            proof {
                assert(nodes@.subrange(0, n as int) =~= nodes@);
                assert forall|i: int| 0 <= i < all@.len() implies bucket_index(
                    self.node_id@,
                    (#[trigger] all@[i]).id@,
                ) < b + 1 by {
                    if i < base.len() {
                        assert(all@[i] == base[i]);
                    } else {
                        assert(all@[i] == nodes@[i - base.len()]);
                        assert(self.k_buckets@[b as int]@[i - base.len()] == all@[i]);
                    }
                }
                assert forall|bb: int, k: int|
                    0 <= bb < b + 1 && 0 <= k < self@[bb].len() implies all@.contains(
                    #[trigger] self@[bb][k],
                ) by {
                    if bb < b {
                        assert(base.contains(self@[bb][k]));
                        let w = choose|w: int| 0 <= w < base.len() && base[w] == self@[bb][k];
                        assert(all@[w] == self@[bb][k]);
                    } else {
                        assert(all@[base.len() + k] == self@[bb][k]);
                    }
                }
            }
            b += 1;
        }
        all
    }

    /// The contacts nearest to `target` by XOR distance, nearest first, at
    /// most `count` of them.
    pub fn find_closest_nodes(&self, target: &NodeId, count: usize) -> (r: Vec<Node>)
        requires
            self.wf(),
        ensures
            is_closest(|x: Node| self.holds(x), r@, target@, count as nat),
    {
        let all = self.all_nodes();
        let n = all.len();
        let mut sorted: Vec<Node> = Vec::new();
        let mut k: usize = 0;
        while k < n
            invariant
                n == all@.len(),
                k <= n,
                sorted@.len() == k,
                distinct_ids(all@),
                forall|i: int, j: int|
                    0 <= i < j < sorted@.len() ==> distance_to(target@, sorted@[i]) < distance_to(
                        target@,
                        sorted@[j],
                    ),
                drawn_from(sorted@, all@, k as int),
                forall|j: int| 0 <= j < k ==> sorted@.contains(#[trigger] all@[j]),
            decreases n - k,
        {
            let x = all[k];
            let dx = x.id.distance(target);
            let m = sorted.len();
            let mut p: usize = 0;
            while p < m && !dx.nearer_than(&sorted[p].id.distance(target))
                invariant
                    m == sorted@.len(),
                    p <= m,
                    k < n,
                    n == all@.len(),
                    x == all@[k as int],
                    dx@ == xor_bytes(x.id@, target@),
                    distinct_ids(all@),
                    drawn_from(sorted@, all@, k as int),
                    forall|i: int|
                        0 <= i < p ==> distance_to(target@, #[trigger] sorted@[i]) < distance_to(
                            target@,
                            x,
                        ),
                decreases m - p,
            {
                proof {
                    let y = sorted@[p as int];
                    assert(among(all@, k as int, y));
                    let j = choose|j: int| 0 <= j < k && #[trigger] all@[j] == y;
                    lemma_distance_to_distinct(*target, x, y);
                }
                p += 1;
            }
            let ghost before = sorted@;
            sorted.insert(p, x);
            proof {
                assert forall|i: int, j: int| 0 <= i < j < sorted@.len() implies distance_to(
                    target@,
                    sorted@[i],
                ) < distance_to(target@, sorted@[j]) by {
                    let oi = if i < p { i } else { i - 1 };
                    let oj = if j < p { j } else { j - 1 };
                    if i != p {
                        assert(sorted@[i] == before[oi]);
                    }
                    if j != p {
                        assert(sorted@[j] == before[oj]);
                    }
                    if i == p && p < m {
                        assert(distance_to(target@, x) < distance_to(target@, before[p as int]));
                    }
                }
                assert forall|i: int| 0 <= i < sorted@.len() implies among(
                    all@,
                    k + 1,
                    #[trigger] sorted@[i],
                ) by {
                    if i == p {
                        assert(all@[k as int] == sorted@[i]);
                    } else {
                        let oi = if i < p { i } else { i - 1 };
                        assert(sorted@[i] == before[oi]);
                        assert(among(all@, k as int, before[oi]));
                        let j = choose|j: int| 0 <= j < k && #[trigger] all@[j] == before[oi];
                        assert(all@[j] == sorted@[i]);
                    }
                }
                assert forall|j: int| 0 <= j < k + 1 implies sorted@.contains(
                    #[trigger] all@[j],
                ) by {
                    if j == k {
                        assert(sorted@[p as int] == all@[j]);
                    } else {
                        assert(before.contains(all@[j]));
                        let w = choose|w: int| 0 <= w < before.len() && before[w] == all@[j];
                        let nw = if w < p { w } else { w + 1 };
                        assert(sorted@[nw] == all@[j]);
                    }
                }
            }
            k += 1;
        }
        let ghost whole = sorted@;
        sorted.truncate(count);
        proof {
            let r = sorted@;
            let holds = |x: Node| self.holds(x);
            assert forall|i: int| 0 <= i < r.len() implies holds(#[trigger] r[i]) by {
                assert(r[i] == whole[i]);
                assert(among(all@, n as int, whole[i]));
                let j = choose|j: int| 0 <= j < n && #[trigger] all@[j] == whole[i];
            }
            assert forall|i: int, j: int| 0 <= i < j < r.len() implies distance_to(target@, r[i])
                < distance_to(target@, r[j]) by {
                assert(r[i] == whole[i]);
                assert(r[j] == whole[j]);
            }
            assert forall|x: Node| #![trigger holds(x)] holds(x) && !r.contains(x) implies r.len()
                == count && forall|i: int|
                0 <= i < r.len() ==> distance_to(target@, #[trigger] r[i]) < distance_to(
                    target@,
                    x,
                ) by {
                assert(all@.contains(x));
                let j = choose|j: int| 0 <= j < all@.len() && all@[j] == x;
                assert(whole.contains(all@[j]));
                let q = choose|q: int| 0 <= q < whole.len() && whole[q] == x;
                if q < r.len() {
                    assert(r[q] == x);
                }
                assert forall|i: int| 0 <= i < r.len() implies distance_to(
                    target@,
                    #[trigger] r[i],
                ) < distance_to(target@, x) by {
                    assert(r[i] == whole[i]);
                }
            }
        }
        sorted
    }

    /// The `ALPHA` contacts nearest to `target`, nearest first.
    pub fn lookup(&self, target: NodeId) -> (r: Vec<Node>)
        requires
            self.wf(),
        ensures
            is_closest(|x: Node| self.holds(x), r@, target@, ALPHA as nat),
    {
        self.find_closest_nodes(&target, ALPHA)
    }

    /// The contacts in bucket `index`, the least recently seen first; none
    /// where there is no such bucket.
    pub fn get_bucket(&self, index: usize) -> (nodes: Vec<Node>)
        ensures
            nodes@ == if index < self@.len() {
                self@[index as int]
            } else {
                Seq::empty()
            },
    {
        if index < self.k_buckets.len() {
            self.k_buckets[index].get_nodes()
        } else {
            Vec::new()
        }
    }

    /// The identifier of the node that owns the table.
    pub fn get_node_id(&self) -> (id: NodeId)
        ensures
            id == self.local_id(),
    {
        self.node_id
    }
}

} // verus!
