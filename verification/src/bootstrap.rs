//! Seed endpoints from the configuration and the flat list of known peers.

use vstd::prelude::*;
use crate::addr::{parsed, PeerAddr};

verus! {

/// Most peers that the flat list keeps; the oldest leaves when one more
/// comes.
pub const MAX_KNOWN_PEERS: usize = 1000;

/// A known peer.
#[derive(Debug, Clone, Copy, PartialEq, Eq)]
pub struct PeerInfo {
    pub addr: PeerAddr,
    pub node_id: [u8; 32],
    /// Seconds since the Unix epoch at which the peer was last seen.
    pub last_seen: u64,
}

/// Whether one of `list` has the address `addr`.
pub open spec fn knows(list: Seq<PeerInfo>, addr: PeerAddr) -> bool {
    exists|i: int| 0 <= i < list.len() && (#[trigger] list[i]).addr == addr
}

/// No two peers of `list` have the same address.
pub open spec fn distinct_peers(list: Seq<PeerInfo>) -> bool {
    forall|i: int, j: int| 0 <= i < j < list.len() ==> list[i].addr != list[j].addr
}

/// The known peers after `peer` was offered: a peer whose address is known
/// changes nothing; a new one is appended, and the oldest leaves where that
/// makes more than `MAX_KNOWN_PEERS`.
pub open spec fn known_after_add(list: Seq<PeerInfo>, peer: PeerInfo) -> Seq<PeerInfo> {
    if knows(list, peer.addr) {
        list
    } else if list.len() + 1 > MAX_KNOWN_PEERS {
        list.push(peer).drop_first()
    } else {
        list.push(peer)
    }
}

/// A list of at most `MAX_KNOWN_PEERS` known peers has at most that many
/// after a peer was offered; where a new peer comes to a full list, the peer
/// that was added first leaves and the others keep their order.
pub proof fn lemma_known_peers_cap(list: Seq<PeerInfo>, peer: PeerInfo)
    requires
        list.len() <= MAX_KNOWN_PEERS,
    ensures
        known_after_add(list, peer).len() <= MAX_KNOWN_PEERS,
        list.len() == MAX_KNOWN_PEERS && !knows(list, peer.addr) ==> known_after_add(list, peer)
            == list.drop_first().push(peer),
{
    if list.len() == MAX_KNOWN_PEERS && !knows(list, peer.addr) {
        assert(list.push(peer).drop_first() =~= list.drop_first().push(peer));
    }
}

/// Whether a peer was seen less than `max_age` seconds before `now`.
pub open spec fn is_fresh(peer: PeerInfo, now: u64, max_age: u64) -> bool {
    now - peer.last_seen < max_age
}

/// The peers of `list` that are fresh, in their order.
pub open spec fn fresh_peers(list: Seq<PeerInfo>, now: u64, max_age: u64) -> Seq<PeerInfo>
    decreases list.len(),
{
    if list.len() == 0 {
        Seq::empty()
    } else if is_fresh(list.last(), now, max_age) {
        fresh_peers(list.drop_last(), now, max_age).push(list.last())
    } else {
        fresh_peers(list.drop_last(), now, max_age)
    }
}

/// The endpoints that the texts of `nodes` denote, in their order; a text
/// that denotes none is passed over.
pub open spec fn endpoints_of(nodes: Seq<Seq<char>>) -> Seq<PeerAddr>
    decreases nodes.len(),
{
    if nodes.len() == 0 {
        Seq::empty()
    } else {
        match parsed(nodes.last()) {
            Some(a) => endpoints_of(nodes.drop_last()).push(a),
            None => endpoints_of(nodes.drop_last()),
        }
    }
}

/// The addresses of `list`, in its order.
pub open spec fn addrs_of(list: Seq<PeerInfo>) -> Seq<PeerAddr> {
    list.map_values(|p: PeerInfo| p.addr)
}

/// The texts of a list of strings.
pub open spec fn texts_of(nodes: Seq<String>) -> Seq<Seq<char>> {
    nodes.map_values(|s: String| s@)
}

/// Every fresh peer of a list is one of the list, and they are as distinct
/// as the list's.
pub proof fn lemma_fresh_peers(list: Seq<PeerInfo>, now: u64, max_age: u64)
    ensures
        fresh_peers(list, now, max_age).len() <= list.len(),
        forall|i: int|
            0 <= i < fresh_peers(list, now, max_age).len() ==> knows(
                list,
                (#[trigger] fresh_peers(list, now, max_age)[i]).addr,
            ),
        distinct_peers(list) ==> distinct_peers(fresh_peers(list, now, max_age)),
    decreases list.len(),
{
    if list.len() > 0 {
        let front = list.drop_last();
        let f = fresh_peers(front, now, max_age);
        let r = fresh_peers(list, now, max_age);
        lemma_fresh_peers(front, now, max_age);
        assert forall|i: int| 0 <= i < r.len() implies knows(list, (#[trigger] r[i]).addr) by {
            if i < f.len() {
                assert(r[i] == f[i]);
                assert(knows(front, f[i].addr));
                let k = choose|k: int| 0 <= k < front.len() && (#[trigger] front[k]).addr == f[i].addr;
                assert(list[k].addr == r[i].addr);
            } else {
                assert(list[list.len() - 1].addr == r[i].addr);
            }
        }
        if distinct_peers(list) {
            assert(distinct_peers(front));
            assert forall|i: int, j: int| 0 <= i < j < r.len() implies r[i].addr != r[j].addr by {
                if j < f.len() {
                } else {
                    assert(r[i] == f[i]);
                    assert(knows(front, f[i].addr));
                    let k = choose|k: int|
                        0 <= k < front.len() && (#[trigger] front[k]).addr == f[i].addr;
                    assert(list[k].addr == f[i].addr);
                }
            }
        }
    }
}

/// The seeds and the known peers as mathematical values.
pub struct BootstrapView {
    pub bootstrap_nodes: Seq<Seq<char>>,
    pub known_peers: Seq<PeerInfo>,
}

/// The configured seed endpoints and the flat list of known peers.
pub struct Bootstrap {
    bootstrap_nodes: Vec<String>,
    known_peers: Vec<PeerInfo>,
}

impl View for Bootstrap {
    type V = BootstrapView;

    closed spec fn view(&self) -> BootstrapView {
        BootstrapView {
            bootstrap_nodes: texts_of(self.bootstrap_nodes@),
            known_peers: self.known_peers@,
        }
    }
}

impl Bootstrap {
    /// At most `MAX_KNOWN_PEERS` peers are known, each address once.
    pub open spec fn wf(&self) -> bool {
        &&& self@.known_peers.len() <= MAX_KNOWN_PEERS
        &&& distinct_peers(self@.known_peers)
    }

    /// The seeds `bootstrap_nodes` and no known peer.
    pub fn new(bootstrap_nodes: Vec<String>) -> (b: Self)
        ensures
            b.wf(),
            b@.bootstrap_nodes == texts_of(bootstrap_nodes@),
            b@.known_peers == Seq::<PeerInfo>::empty(),
    {
        Self { bootstrap_nodes, known_peers: Vec::new() }
    }

    /// Seeds that a public deployment would use.
    pub fn with_defaults() -> (b: Self)
        ensures
            b.wf(),
            b@.bootstrap_nodes == seq![
                "bootstrap1.guild.network:9000"@,
                "bootstrap2.guild.network:9000"@,
                "bootstrap3.guild.network:9000"@,
            ],
            b@.known_peers == Seq::<PeerInfo>::empty(),
    {
        let mut defaults: Vec<String> = Vec::new();
        defaults.push("bootstrap1.guild.network:9000".to_owned());
        defaults.push("bootstrap2.guild.network:9000".to_owned());
        defaults.push("bootstrap3.guild.network:9000".to_owned());
        let b = Self::new(defaults);
        assert(b@.bootstrap_nodes =~= seq![
            "bootstrap1.guild.network:9000"@,
            "bootstrap2.guild.network:9000"@,
            "bootstrap3.guild.network:9000"@,
        ]);
        b
    }

    /// The seeds that are written as an endpoint, in their order.
    pub fn connect_bootstrap(&self) -> (connected: Vec<PeerAddr>)
        ensures
            connected@ == endpoints_of(self@.bootstrap_nodes),
    {
        let mut connected: Vec<PeerAddr> = Vec::new();
        let n = self.bootstrap_nodes.len();
        let ghost texts = texts_of(self.bootstrap_nodes@);
        let mut i: usize = 0;
        assert(texts.subrange(0, 0) =~= Seq::empty());
        while i < n
            invariant
                n == self.bootstrap_nodes@.len(),
                texts == texts_of(self.bootstrap_nodes@),
                i <= n,
                connected@ == endpoints_of(texts.subrange(0, i as int)),
            decreases n - i,
        {
            let r = PeerAddr::parse(self.bootstrap_nodes[i].as_str());
            proof {
                let upto = texts.subrange(0, i + 1);
                assert(upto.drop_last() =~= texts.subrange(0, i as int));
                assert(upto.last() == self.bootstrap_nodes@[i as int]@);
            }
            match r {
                Some(addr) => {
                    connected.push(addr);
                },
                None => {},
            }
            i += 1;
        }
        assert(texts.subrange(0, n as int) =~= texts);
        connected
    }

    /// The peers that a seed would tell of: those known here.
    pub fn exchange_peers(&self, _remote_addr: PeerAddr) -> (peers: Vec<PeerInfo>)
        ensures
            peers@ == self@.known_peers,
    {
        self.get_peers()
    }

    fn knows_addr(&self, addr: &PeerAddr) -> (r: bool)
        ensures
            r == knows(self@.known_peers, *addr),
    {
        let n = self.known_peers.len();
        let mut i: usize = 0;
        while i < n
            invariant
                n == self.known_peers@.len(),
                i <= n,
                forall|j: int| 0 <= j < i ==> (#[trigger] self.known_peers@[j]).addr != *addr,
            decreases n - i,
        {
            if self.known_peers[i].addr == *addr {
                return true;
            }
            i += 1;
        }
        false
    }

    /// Offers a peer to the list of known peers.
    pub fn add_peer(&mut self, peer: PeerInfo)
        requires
            old(self).wf(),
        ensures
            final(self).wf(),
            final(self)@.bootstrap_nodes == old(self)@.bootstrap_nodes,
            final(self)@.known_peers == known_after_add(old(self)@.known_peers, peer),
    {
        if !self.knows_addr(&peer.addr) {
            self.known_peers.push(peer);
            if self.known_peers.len() > MAX_KNOWN_PEERS {
                self.known_peers.remove(0);
            }
            proof {
                let before = old(self).known_peers@;
                let after = self.known_peers@;
                assert(after =~= known_after_add(before, peer));
                assert forall|i: int, j: int| 0 <= i < j < after.len() implies after[i].addr
                    != after[j].addr by {
                    let shift = if before.len() + 1 > MAX_KNOWN_PEERS { 1int } else { 0int };
                    if j + shift < before.len() {
                        assert(after[i] == before[i + shift]);
                        assert(after[j] == before[j + shift]);
                    } else {
                        assert(after[j] == peer);
                        assert(after[i] == before[i + shift]);
                    }
                }
            }
        }
    }

    /// The known peers, the oldest first.
    pub fn get_peers(&self) -> (peers: Vec<PeerInfo>)
        ensures
            peers@ == self@.known_peers,
    {
        let mut v: Vec<PeerInfo> = Vec::new();
        let n = self.known_peers.len();
        let mut i: usize = 0;
        while i < n
            invariant
                n == self.known_peers@.len(),
                i <= n,
                v@ == self.known_peers@.subrange(0, i as int),
            decreases n - i,
        {
            v.push(self.known_peers[i]);
            assert(self.known_peers@.subrange(0, i + 1) =~= self.known_peers@.subrange(
                0,
                i as int,
            ).push(self.known_peers@[i as int]));
            i += 1;
        }
        assert(self.known_peers@.subrange(0, n as int) =~= self.known_peers@);
        v
    }

    /// Forgets the peers that were last seen `max_age_secs` seconds or
    /// longer before `now`.
    pub fn cleanup_stale_peers(&mut self, max_age_secs: u64, now: u64)
        requires
            old(self).wf(),
        ensures
            final(self).wf(),
            final(self)@.bootstrap_nodes == old(self)@.bootstrap_nodes,
            final(self)@.known_peers == fresh_peers(old(self)@.known_peers, now, max_age_secs),
    {
        let mut kept: Vec<PeerInfo> = Vec::new();
        let n = self.known_peers.len();
        let mut i: usize = 0;
        assert(self.known_peers@.subrange(0, 0) =~= Seq::empty());
        while i < n
            invariant
                n == self.known_peers@.len(),
                i <= n,
                kept@ == fresh_peers(self.known_peers@.subrange(0, i as int), now, max_age_secs),
            decreases n - i,
        {
            let p = self.known_peers[i];
            proof {
                let upto = self.known_peers@.subrange(0, i + 1);
                assert(upto.drop_last() =~= self.known_peers@.subrange(0, i as int));
            }
            if now < p.last_seen || now - p.last_seen < max_age_secs {
                kept.push(p);
            }
            i += 1;
        }
        proof {
            assert(self.known_peers@.subrange(0, n as int) =~= self.known_peers@);
            lemma_fresh_peers(self.known_peers@, now, max_age_secs);
        }
        self.known_peers = kept;
    }
}

} // verus!
