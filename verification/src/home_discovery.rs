//! Discovery on the local network: which advertised endpoints were seen
//! already, and a small table of peers by XOR distance.

use vstd::bytes::{spec_u128_from_le_bytes, u128_from_le_bytes};
use vstd::prelude::*;
use vstd::utf8::encode_utf8;
use crate::addr::{parsed, PeerAddr};
use crate::digest::{blake3_digest, blake3_hash};
use crate::node_id::xor_bytes;
use crate::text::str_equal;

verus! {

/// The service type that nodes advertise themselves under.
pub const SERVICE_TYPE: &'static str = "_guildhome._udp.local.";

/// Most peers that one bucket of the small table holds.
pub const BUCKET_SIZE: usize = 20;

/// Number of buckets of the small table.
pub const BUCKET_COUNT: usize = 256;

/// Whether `seen` holds the text `addr`.
pub open spec fn has_seen(seen: Seq<Seq<char>>, addr: Seq<char>) -> bool {
    seen.contains(addr)
}

/// The texts of `list` without repetitions, each where it first stands.
pub open spec fn unique_texts(list: Seq<Seq<char>>) -> Seq<Seq<char>>
    decreases list.len(),
{
    if list.len() == 0 {
        Seq::empty()
    } else if unique_texts(list.drop_last()).contains(list.last()) {
        unique_texts(list.drop_last())
    } else {
        unique_texts(list.drop_last()).push(list.last())
    }
}

/// The endpoints advertised on the local network that were seen already.
pub struct Discovery {
    discovered: Vec<String>,
}

impl Discovery {
    /// The texts of the endpoints seen, in the order in which they came.
    pub closed spec fn seen(&self) -> Seq<Seq<char>> {
        self.discovered@.map_values(|s: String| s@)
    }

    /// No endpoint is listed twice.
    pub open spec fn wf(&self) -> bool {
        self.seen().no_duplicates()
    }

    /// A discovery that has seen no endpoint.
    pub fn new() -> (d: Self)
        ensures
            d.wf(),
            d.seen() == Seq::<Seq<char>>::empty(),
    {
        let d = Discovery { discovered: Vec::new() };
        assert(d.seen() =~= Seq::empty());
        d
    }

    /// A discovery that takes the seeds `bootstrap` as seen already.
    pub fn with_bootstrap(bootstrap: Vec<String>) -> (d: Self)
        ensures
            d.wf(),
            d.seen() == unique_texts(bootstrap@.map_values(|s: String| s@)),
    {
        let mut d = Discovery::new();
        let ghost texts = bootstrap@.map_values(|s: String| s@);
        let n = bootstrap.len();
        let mut i: usize = 0;
        assert(texts.subrange(0, 0) =~= Seq::empty());
        while i < n
            invariant
                n == bootstrap@.len(),
                texts == bootstrap@.map_values(|s: String| s@),
                i <= n,
                d.wf(),
                d.seen() == unique_texts(texts.subrange(0, i as int)),
            decreases n - i,
        {
            proof {
                let upto = texts.subrange(0, i + 1);
                assert(upto.drop_last() =~= texts.subrange(0, i as int));
                assert(upto.last() == bootstrap@[i as int]@);
            }
            d.note(bootstrap[i].clone());
            i += 1;
        }
        assert(texts.subrange(0, n as int) =~= texts);
        d
    }

    fn holds(&self, addr: &str) -> (r: bool)
        ensures
            r == has_seen(self.seen(), addr@),
    {
        let n = self.discovered.len();
        let mut i: usize = 0;
        while i < n
            invariant
                n == self.discovered@.len(),
                i <= n,
                forall|j: int| 0 <= j < i ==> self.seen()[j] != addr@,
            decreases n - i,
        {
            if str_equal(self.discovered[i].as_str(), addr) {
                assert(self.seen()[i as int] == addr@);
                return true;
            }
            i += 1;
        }
        false
    }

    /// Takes note of the endpoint `addr`. Returns whether it is new.
    pub fn note(&mut self, addr: String) -> (fresh: bool)
        requires
            old(self).wf(),
        ensures
            final(self).wf(),
            fresh == !has_seen(old(self).seen(), addr@),
            final(self).seen() == if fresh {
                old(self).seen().push(addr@)
            } else {
                old(self).seen()
            },
    {
        if self.holds(addr.as_str()) {
            false
        } else {
            self.discovered.push(addr);
            assert(self.seen() =~= old(self).seen().push(addr@));
            true
        }
    }

    /// Handles the endpoint `addr` that a peer advertised. Returns where to
    /// dial: the endpoint, if it is new and is written as one.
    pub fn service_resolved(&mut self, addr: String) -> (dial: Option<PeerAddr>)
        requires
            old(self).wf(),
        ensures
            final(self).wf(),
            final(self).seen() == if has_seen(old(self).seen(), addr@) {
                old(self).seen()
            } else {
                old(self).seen().push(addr@)
            },
            dial == if has_seen(old(self).seen(), addr@) {
                None
            } else {
                parsed(addr@)
            },
    {
        let target = PeerAddr::parse(addr.as_str());
        if self.note(addr) {
            target
        } else {
            None
        }
    }

    /// Where to dial at the start: the endpoints seen that are written as
    /// one, in their order.
    pub fn connect_bootstrap(&self) -> (targets: Vec<PeerAddr>)
        ensures
            targets@ == crate::bootstrap::endpoints_of(self.seen()),
    {
        let mut targets: Vec<PeerAddr> = Vec::new();
        let n = self.discovered.len();
        let ghost texts = self.seen();
        let mut i: usize = 0;
        assert(texts.subrange(0, 0) =~= Seq::empty());
        while i < n
            invariant
                n == self.discovered@.len(),
                texts == self.seen(),
                i <= n,
                targets@ == crate::bootstrap::endpoints_of(texts.subrange(0, i as int)),
            decreases n - i,
        {
            let r = PeerAddr::parse(self.discovered[i].as_str());
            proof {
                let upto = texts.subrange(0, i + 1);
                assert(upto.drop_last() =~= texts.subrange(0, i as int));
                assert(upto.last() == self.discovered@[i as int]@);
            }
            match r {
                Some(a) => {
                    targets.push(a);
                },
                None => {},
            }
            i += 1;
        }
        assert(texts.subrange(0, n as int) =~= texts);
        targets
    }
}

/// Number of leading zero bits of a 128-bit number.
pub open spec fn leading_zeros_128(x: u128) -> nat
    decreases x,
{
    if x == 0 {
        128
    } else {
        (leading_zeros_128(x / 2) - 1) as nat
    }
}

/// A number that is not zero has fewer than 128 leading zero bits, and its
/// half has at least one.
proof fn lemma_halves(x: u128)
    ensures
        leading_zeros_128(x) <= 128,
        x != 0 ==> leading_zeros_128(x) < 128,
        leading_zeros_128(x / 2) >= 1,
    decreases x,
{
    lemma_lz_positive_bound(x, 128);
}

/// A number below `2^k` has at least `128 - k` leading zero bits.
proof fn lemma_lz_positive_bound(x: u128, k: nat)
    requires
        k <= 128,
        k == 128 || x < pow2_128(k),
    ensures
        leading_zeros_128(x) >= 128 - k,
        leading_zeros_128(x) <= 128,
        x != 0 ==> leading_zeros_128(x) < 128,
        leading_zeros_128(x / 2) >= 1,
    decreases x,
{
    if x != 0 {
        if k == 0 {
        } else {
            let kk = (k - 1) as nat;
            assert(x / 2 < pow2_128(kk)) by {
                if k == 128 {
                    lemma_pow2_128_top();
                } else {
                    assert(pow2_128(k) == 2 * pow2_128(kk));
                }
            }
            lemma_lz_positive_bound(x / 2, kk);
        }
    }
    if x / 2 != 0 {
        lemma_lz_positive_bound(x / 2, 128);
    }
}

/// `2^k`.
spec fn pow2_128(k: nat) -> nat
    decreases k,
{
    if k == 0 {
        1
    } else {
        2 * pow2_128((k - 1) as nat)
    }
}

proof fn lemma_pow2_128_top()
    ensures
        pow2_128(127) == 0x8000_0000_0000_0000_0000_0000_0000_0000,
{
    reveal_with_fuel(pow2_128, 32);
    assert(pow2_128(31) == 0x8000_0000);
    assert(pow2_128(63) == 0x8000_0000_0000_0000);
    assert(pow2_128(95) == 0x8000_0000_0000_0000_0000_0000);
}

/// Counts the leading zero bits of `x`.
pub fn count_leading_zeros(x: u128) -> (n: u32)
    ensures
        n == leading_zeros_128(x),
        n <= 128,
{
    let mut rest = x;
    let mut bits: u32 = 0;
    proof {
        lemma_halves(x);
    }
    while rest != 0
        invariant
            bits <= 128,
            leading_zeros_128(x) == leading_zeros_128(rest) - bits,
            leading_zeros_128(rest) <= 128,
        decreases rest,
    {
        proof {
            lemma_halves(rest);
            lemma_halves(rest / 2);
        }
        rest = rest / 2;
        bits = bits + 1;
    }
    128 - bits
}

/// The first sixteen bytes of the XOR of two identifiers, read as a
/// little-endian number.
pub open spec fn xor_value(a: Seq<u8>, b: Seq<u8>) -> u128 {
    spec_u128_from_le_bytes(xor_bytes(a, b).subrange(0, 16))
}

/// The bucket that a peer with the identifier `peer` belongs to in the
/// table of `local`.
pub open spec fn peer_bucket(local: Seq<u8>, peer: Seq<u8>) -> nat {
    leading_zeros_128(xor_value(local, peer))
}

/// A bucket after `addr` was offered to it: it is appended while there is
/// room.
pub open spec fn bucket_with(bucket: Seq<Seq<char>>, addr: Seq<char>) -> Seq<Seq<char>> {
    if bucket.len() < BUCKET_SIZE {
        bucket.push(addr)
    } else {
        bucket
    }
}

/// A small table of peers by XOR distance.
pub struct SimpleDHT {
    node_id: [u8; 32],
    routing_table: Vec<Vec<String>>,
}

impl View for SimpleDHT {
    type V = Seq<Seq<Seq<char>>>;

    /// The addresses in each bucket.
    closed spec fn view(&self) -> Seq<Seq<Seq<char>>> {
        Seq::new(
            self.routing_table@.len(),
            |b: int| self.routing_table@[b]@.map_values(|s: String| s@),
        )
    }
}

impl SimpleDHT {
    /// The identifier of the node that owns the table.
    pub closed spec fn local_id(&self) -> Seq<u8> {
        self.node_id@
    }

    /// There are `BUCKET_COUNT` buckets of at most `BUCKET_SIZE` addresses.
    pub open spec fn wf(&self) -> bool {
        &&& self@.len() == BUCKET_COUNT
        &&& forall|b: int| 0 <= b < BUCKET_COUNT ==> (#[trigger] self@[b]).len() <= BUCKET_SIZE
    }

    /// A table with empty buckets, owned by the node whose identifier is the
    /// BLAKE3 hash of the text `random_seed`.
    pub fn new() -> (t: Self)
        ensures
            t.wf(),
            t.local_id() == blake3_digest(encode_utf8("random_seed"@)),
            forall|b: int| 0 <= b < BUCKET_COUNT ==> (#[trigger] t@[b]).len() == 0,
    {
        let node_id = blake3_hash("random_seed".as_bytes());
        let mut routing_table: Vec<Vec<String>> = Vec::new();
        let mut b: usize = 0;
        while b < BUCKET_COUNT
            invariant
                b <= BUCKET_COUNT,
                routing_table@.len() == b,
                forall|k: int| 0 <= k < b ==> (#[trigger] routing_table@[k])@.len() == 0,
            decreases BUCKET_COUNT - b,
        {
            routing_table.push(Vec::new());
            b += 1;
        }
        Self { node_id, routing_table }
    }

    /// Offers the address `addr` of the peer `peer_id` to the bucket that
    /// the peer belongs to. A full bucket stays as it is.
    pub fn add_peer(&mut self, peer_id: [u8; 32], addr: String)
        requires
            old(self).wf(),
        ensures
            final(self).wf(),
            final(self).local_id() == old(self).local_id(),
            final(self)@ == old(self)@.update(
                peer_bucket(old(self).local_id(), peer_id@) as int,
                bucket_with(
                    old(self)@[peer_bucket(old(self).local_id(), peer_id@) as int],
                    addr@,
                ),
            ),
    {
        let distance = self.xor_distance(&self.node_id, &peer_id);
        let bucket = count_leading_zeros(distance) as usize;
        if bucket < BUCKET_COUNT {
            assert(self@[bucket as int].len() <= BUCKET_SIZE);
            if self.routing_table[bucket].len() < BUCKET_SIZE {
                self.routing_table[bucket].push(addr);
            }
            proof {
                assert(self@ =~~= old(self)@.update(
                    bucket as int,
                    bucket_with(old(self)@[bucket as int], addr@),
                ));
                assert forall|b: int| 0 <= b < BUCKET_COUNT implies (#[trigger] self@[b]).len()
                    <= BUCKET_SIZE by {
                    if b != bucket {
                        assert(self@[b] == old(self)@[b]);
                    }
                }
            }
        }
    }

    /// The first sixteen bytes of the XOR of `a` and `b`, as a little-endian
    /// number.
    pub fn xor_distance(&self, a: &[u8; 32], b: &[u8; 32]) -> (d: u128)
        ensures
            d == xor_value(a@, b@),
    {
        let mut x: Vec<u8> = Vec::new();
        let mut i: usize = 0;
        while i < 16
            invariant
                i <= 16,
                x@.len() == i,
                forall|j: int| 0 <= j < i ==> x@[j] == a[j] ^ b[j],
            decreases 16 - i,
        {
            x.push(a[i] ^ b[i]);
            i += 1;
        }
        assert(x@ =~= xor_bytes(a@, b@).subrange(0, 16));
        u128_from_le_bytes(x.as_slice())
    }
}

} // verus!
