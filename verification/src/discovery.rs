//! Peer discovery: one pass fuses the candidates of the local scan, of the
//! configured seeds and of the routing table into one list.

use vstd::prelude::*;
use crate::addr::{addr_text, PeerAddr};
use crate::bootstrap::{
    addrs_of, distinct_peers, endpoints_of, known_after_add, knows, texts_of, Bootstrap, PeerInfo,
};
use crate::dht::{is_closest, table_after_add, table_holds, Kademlia, Node, ALPHA};
use crate::digest::blake3_digest;
use crate::local_scan::{push_new, scan_candidates, with_new, LocalScanner};
use crate::node_id::NodeId;

verus! {

/// Number of contacts that a pass asks the routing table for.
pub const TABLE_CANDIDATES: usize = 10;

/// What a discovery is set up with.
#[derive(Debug, Clone, PartialEq, Eq)]
pub struct DiscoveryConfig {
    /// Seed endpoints, written as `a.b.c.d:port`.
    pub bootstrap_nodes: Vec<String>,
    /// Whether a routing table is kept.
    pub enable_dht: bool,
    /// Most candidates that a pass returns.
    pub max_peers: usize,
    /// The port that this node listens on.
    pub port: u16,
}

impl Default for DiscoveryConfig {
    fn default() -> (c: Self)
        ensures
            c.bootstrap_nodes@ == Seq::<String>::empty(),
            c.enable_dht,
            c.max_peers == 100,
            c.port == 42000,
    {
        Self { bootstrap_nodes: Vec::new(), enable_dht: true, max_peers: 100, port: 42000 }
    }
}

/// A source of candidate peers.
pub trait DiscoveryMethod {
    /// Whether the source is well-formed.
    spec fn ready(&self) -> bool;

    /// The candidates that the source proposes.
    fn discover_peers(&self) -> (peers: Vec<PeerAddr>)
        requires
            self.ready(),
    ;

    /// Tells the source of the endpoint `addr`, seen at `now`.
    fn announce(&mut self, addr: PeerAddr, now: u64)
        requires
            old(self).ready(),
        ensures
            final(self).ready(),
    ;
}

impl DiscoveryMethod for LocalScanner {
    open spec fn ready(&self) -> bool {
        true
    }

    /// The candidates on the local host.
    fn discover_peers(&self) -> (peers: Vec<PeerAddr>)
        ensures
            peers@ == scan_candidates(self.own_port()),
    {
        self.scan_local_peers()
    }

    /// A scan keeps nothing: the scanner stays as it is.
    fn announce(&mut self, addr: PeerAddr, now: u64)
        ensures
            *final(self) == *old(self),
    {
    }
}

impl DiscoveryMethod for Bootstrap {
    open spec fn ready(&self) -> bool {
        self.wf()
    }

    /// The seeds that are written as an endpoint.
    fn discover_peers(&self) -> (peers: Vec<PeerAddr>)
        ensures
            peers@ == endpoints_of(self@.bootstrap_nodes),
    {
        self.connect_bootstrap()
    }

    /// The endpoint becomes a known peer.
    fn announce(&mut self, addr: PeerAddr, now: u64)
        ensures
            final(self)@.bootstrap_nodes == old(self)@.bootstrap_nodes,
            final(self)@.known_peers == known_after_add(
                old(self)@.known_peers,
                peer_for(addr, now),
            ),
    {
        let id = NodeId::from_addr(&addr);
        let peer = PeerInfo { addr, node_id: id.0, last_seen: now };
        proof {
            let node = Node { id, addr, last_seen: now };
            assert(is_node_for(node, addr, now));
            let c = node_for(addr, now);
            assert(c.id.0 =~= node.id.0);
            assert(peer == peer_for(addr, now));
        }
        self.add_peer(peer);
    }
}

impl DiscoveryMethod for Kademlia {
    open spec fn ready(&self) -> bool {
        self.wf()
    }

    /// The addresses of the `TABLE_CANDIDATES` contacts nearest to the
    /// table's owner, nearest first.
    fn discover_peers(&self) -> (peers: Vec<PeerAddr>)
        ensures
            exists|nearest: Seq<Node>|
                is_closest(
                    |x: Node| table_holds(self@, x),
                    nearest,
                    self.local_id()@,
                    TABLE_CANDIDATES as nat,
                ) && peers@ == node_addrs(nearest),
    {
        let own = self.get_node_id();
        let nodes = self.find_closest_nodes(&own, TABLE_CANDIDATES);
        let mut peers: Vec<PeerAddr> = Vec::new();
        let n = nodes.len();
        let mut i: usize = 0;
        while i < n
            invariant
                n == nodes@.len(),
                i <= n,
                peers@ == node_addrs(nodes@.subrange(0, i as int)),
            decreases n - i,
        {
            peers.push(nodes[i].addr);
            assert(nodes@.subrange(0, i + 1) =~= nodes@.subrange(0, i as int).push(
                nodes@[i as int],
            ));
            assert(peers@ =~= node_addrs(nodes@.subrange(0, i + 1)));
            i += 1;
        }
        proof {
            assert(nodes@.subrange(0, n as int) =~= nodes@);
            let t = self@;
            assert((|x: Node| table_holds(t, x)) =~= (|x: Node| self.holds(x)));
        }
        peers
    }

    /// The endpoint is offered to the table as a contact.
    fn announce(&mut self, addr: PeerAddr, now: u64)
        ensures
            final(self).local_id() == old(self).local_id(),
            final(self)@ == table_after_add(old(self)@, old(self).local_id()@, node_for(addr, now)),
    {
        let id = NodeId::from_addr(&addr);
        let node = Node { id, addr, last_seen: now };
        proof {
            assert(is_node_for(node, addr, now));
            let c = node_for(addr, now);
            assert(c.id.0 =~= node.id.0);
            assert(c == node);
        }
        self.add_node(node);
    }
}

/// The contact that stands for the endpoint `addr` seen at `now`: its
/// identifier is the BLAKE3 hash of the endpoint's text.
pub open spec fn is_node_for(n: Node, addr: PeerAddr, now: u64) -> bool {
    n.addr == addr && n.last_seen == now && n.id@ == blake3_digest(addr_text(addr))
}

/// The contact that stands for the endpoint `addr` seen at `now`.
pub open spec fn node_for(addr: PeerAddr, now: u64) -> Node {
    choose|n: Node| is_node_for(n, addr, now)
}

/// The known peer that stands for the endpoint `addr` seen at `now`.
pub open spec fn peer_for(addr: PeerAddr, now: u64) -> PeerInfo {
    PeerInfo { addr, node_id: node_for(addr, now).id.0, last_seen: now }
}

/// The candidates and the routing table after `x` was offered at `now`: an
/// endpoint that is no candidate yet becomes one and is offered to the
/// table, if there is one; any other changes nothing.
pub open spec fn after_offer(
    list: Seq<PeerAddr>,
    table: Option<Seq<Seq<Node>>>,
    local: Seq<u8>,
    x: PeerAddr,
    now: u64,
) -> (Seq<PeerAddr>, Option<Seq<Seq<Node>>>) {
    if list.contains(x) {
        (list, table)
    } else {
        (
            list.push(x),
            match table {
                Some(t) => Some(table_after_add(t, local, node_for(x, now))),
                None => None,
            },
        )
    }
}

/// The candidates and the routing table after `offers` were offered in
/// order at `now`.
pub open spec fn after_offers(
    list: Seq<PeerAddr>,
    table: Option<Seq<Seq<Node>>>,
    local: Seq<u8>,
    offers: Seq<PeerAddr>,
    now: u64,
) -> (Seq<PeerAddr>, Option<Seq<Seq<Node>>>)
    decreases offers.len(),
{
    if offers.len() == 0 {
        (list, table)
    } else {
        let (l, t) = after_offers(list, table, local, offers.drop_last(), now);
        after_offer(l, t, local, offers.last(), now)
    }
}

/// `list` with those of `more` appended that it does not hold yet.
pub open spec fn with_all_new(list: Seq<PeerAddr>, more: Seq<PeerAddr>) -> Seq<PeerAddr>
    decreases more.len(),
{
    if more.len() == 0 {
        list
    } else {
        with_new(with_all_new(list, more.drop_last()), more.last())
    }
}

/// The first `max` of `list`, or all of it where it has no more.
pub open spec fn first_of(list: Seq<PeerAddr>, max: usize) -> Seq<PeerAddr> {
    if list.len() > max {
        list.subrange(0, max as int)
    } else {
        list
    }
}

/// The addresses of `nodes`, in their order.
pub open spec fn node_addrs(nodes: Seq<Node>) -> Seq<PeerAddr> {
    nodes.map_values(|n: Node| n.addr)
}

/// What a pass offers before it asks the routing table: the local scan's
/// candidates, then the seeds that are written as an endpoint and, where
/// there is such a seed, the known peers.
pub open spec fn pass_offers(port: u16, seeds: Seq<Seq<char>>, known: Seq<PeerInfo>) -> Seq<
    PeerAddr,
> {
    let boot = endpoints_of(seeds);
    scan_candidates(port) + boot + if boot.len() > 0 {
        addrs_of(known)
    } else {
        Seq::empty()
    }
}

/// Whether `result` is what a pass returns that has the candidates `list`
/// and the routing table `table` after its offers: `list`, then the
/// addresses of the `TABLE_CANDIDATES` contacts of `table` nearest to
/// `local` that `list` does not hold, cut to `max`.
pub open spec fn is_pass_result(
    result: Seq<PeerAddr>,
    list: Seq<PeerAddr>,
    table: Option<Seq<Seq<Node>>>,
    local: Seq<u8>,
    max: usize,
) -> bool {
    match table {
        Some(t) => exists|nearest: Seq<Node>|
            is_closest(|x: Node| table_holds(t, x), nearest, local, TABLE_CANDIDATES as nat)
                && result == first_of(with_all_new(list, node_addrs(nearest)), max),
        None => result == first_of(list, max),
    }
}

/// The discovery as a mathematical value.
pub struct DiscoveryView {
    pub port: u16,
    pub max_peers: usize,
    pub seeds: Seq<Seq<char>>,
    pub known_peers: Seq<PeerInfo>,
    pub table: Option<Seq<Seq<Node>>>,
    pub discovered_peers: Seq<PeerInfo>,
    pub node_id: NodeId,
}

/// Fuses the sources of candidate peers.
pub struct Discovery {
    config: DiscoveryConfig,
    bootstrap: Bootstrap,
    dht: Option<Kademlia>,
    discovered_peers: Vec<PeerInfo>,
    node_id: NodeId,
}

impl View for Discovery {
    type V = DiscoveryView;

    closed spec fn view(&self) -> DiscoveryView {
        DiscoveryView {
            port: self.config.port,
            max_peers: self.config.max_peers,
            seeds: texts_of(self.config.bootstrap_nodes@),
            known_peers: self.bootstrap@.known_peers,
            table: match self.dht {
                Some(t) => Some(t@),
                None => None,
            },
            discovered_peers: self.discovered_peers@,
            node_id: self.node_id,
        }
    }
}

impl Discovery {
    /// The parts are well-formed, the routing table is this node's, and no
    /// address is listed twice among the discovered peers.
    pub closed spec fn wf(&self) -> bool {
        &&& self.bootstrap.wf()
        &&& self.bootstrap@.bootstrap_nodes == texts_of(self.config.bootstrap_nodes@)
        &&& match self.dht {
            Some(t) => t.wf() && t.local_id() == self.node_id,
            None => true,
        }
        &&& distinct_peers(self.discovered_peers@)
    }

    /// A discovery with a random identifier, an empty routing table where
    /// one is kept, and no known peers.
    pub fn new(config: DiscoveryConfig) -> (d: Self)
        ensures
            d.wf(),
            d@.port == config.port,
            d@.max_peers == config.max_peers,
            d@.seeds == texts_of(config.bootstrap_nodes@),
            d@.known_peers == Seq::<PeerInfo>::empty(),
            d@.discovered_peers == Seq::<PeerInfo>::empty(),
            d@.table is Some == config.enable_dht,
            config.enable_dht ==> d@.table->0.len() == 256 && forall|b: int|
                0 <= b < 256 ==> (#[trigger] d@.table->0[b]).len() == 0,
    {
        let node_id = NodeId::random();
        let mut seeds: Vec<String> = Vec::new();
        let n = config.bootstrap_nodes.len();
        let mut i: usize = 0;
        while i < n
            invariant
                n == config.bootstrap_nodes@.len(),
                i <= n,
                seeds@ == config.bootstrap_nodes@.subrange(0, i as int),
            decreases n - i,
        {
            let s = config.bootstrap_nodes[i].clone();
            seeds.push(s);
            assert(config.bootstrap_nodes@.subrange(0, i + 1) =~= config.bootstrap_nodes@.subrange(
                0,
                i as int,
            ).push(config.bootstrap_nodes@[i as int]));
            i += 1;
        }
        assert(config.bootstrap_nodes@.subrange(0, n as int) =~= config.bootstrap_nodes@);
        let bootstrap = Bootstrap::new(seeds);
        let dht = if config.enable_dht {
            Some(Kademlia::new(node_id))
        } else {
            None
        };
        Self { config, bootstrap, dht, discovered_peers: Vec::new(), node_id }
    }

    /// Offers `addr` as a candidate seen at `now`.
    fn offer(&mut self, peers: &mut Vec<PeerAddr>, addr: PeerAddr, now: u64)
        requires
            old(self).wf(),
        ensures
            final(self).wf(),
            final(self)@ == (DiscoveryView { table: final(self)@.table, ..old(self)@ }),
            (final(peers)@, final(self)@.table) == after_offer(
                old(peers)@,
                old(self)@.table,
                old(self)@.node_id@,
                addr,
                now,
            ),
    {
        if push_new(peers, addr) {
            let id = NodeId::from_addr(&addr);
            let node = Node { id, addr, last_seen: now };
            proof {
                assert(is_node_for(node, addr, now));
                let c = node_for(addr, now);
                assert(c.id.0 =~= node.id.0);
                assert(c == node);
            }
            match &mut self.dht {
                Some(t) => {
                    t.add_node(node);
                },
                None => {},
            }
        }
    }

    /// Offers every endpoint of `offers` as a candidate seen at `now`.
    fn offer_all(&mut self, peers: &mut Vec<PeerAddr>, offers: &Vec<PeerAddr>, now: u64)
        requires
            old(self).wf(),
        ensures
            final(self).wf(),
            final(self)@ == (DiscoveryView { table: final(self)@.table, ..old(self)@ }),
            (final(peers)@, final(self)@.table) == after_offers(
                old(peers)@,
                old(self)@.table,
                old(self)@.node_id@,
                offers@,
                now,
            ),
    {
        let n = offers.len();
        let mut i: usize = 0;
        assert(offers@.subrange(0, 0) =~= Seq::empty());
        while i < n
            invariant
                self.wf(),
                n == offers@.len(),
                i <= n,
                self@ == (DiscoveryView { table: self@.table, ..old(self)@ }),
                (peers@, self@.table) == after_offers(
                    old(peers)@,
                    old(self)@.table,
                    old(self)@.node_id@,
                    offers@.subrange(0, i as int),
                    now,
                ),
            decreases n - i,
        {
            proof {
                let upto = offers@.subrange(0, i + 1);
                assert(upto.drop_last() =~= offers@.subrange(0, i as int));
                assert(upto.last() == offers@[i as int]);
            }
            self.offer(peers, offers[i], now);
            i += 1;
        }
        assert(offers@.subrange(0, n as int) =~= offers@);
    }

    /// Runs one pass at the time `now`, in seconds since the Unix epoch, and
    /// returns the candidates to dial.
    ///
    /// The candidates are, in this order and each once: those of the local
    /// scan; the seeds that are written as an endpoint; the known peers,
    /// where there is such a seed; and the `TABLE_CANDIDATES` contacts of
    /// the routing table nearest to this node. A candidate from the first
    /// three sources is offered to the routing table when it enters the
    /// list. The list is cut to `max_peers`.
    pub fn start(&mut self, now: u64) -> (peers: Vec<PeerAddr>)
        requires
            old(self).wf(),
        ensures
            final(self).wf(),
            final(self)@ == (DiscoveryView { table: final(self)@.table, ..old(self)@ }),
            ({
                let (list, table) = after_offers(
                    Seq::empty(),
                    old(self)@.table,
                    old(self)@.node_id@,
                    pass_offers(old(self)@.port, old(self)@.seeds, old(self)@.known_peers),
                    now,
                );
                &&& final(self)@.table == table
                &&& is_pass_result(
                    peers@,
                    list,
                    table,
                    old(self)@.node_id@,
                    old(self)@.max_peers,
                )
            }),
    {
        let mut peers: Vec<PeerAddr> = Vec::new();
        let scanner = LocalScanner::new(self.config.port);
        let local_peers = scanner.scan_local_peers();
        let mut offers: Vec<PeerAddr> = Vec::new();
        append_addrs(&mut offers, &local_peers);
        if self.config.bootstrap_nodes.len() > 0 {
            let boot = self.bootstrap.connect_bootstrap();
            append_addrs(&mut offers, &boot);
            if boot.len() > 0 {
                let more = self.bootstrap.get_peers();
                let n = more.len();
                let ghost base = offers@;
                let mut i: usize = 0;
                while i < n
                    invariant
                        n == more@.len(),
                        i <= n,
                        offers@ == base + addrs_of(more@.subrange(0, i as int)),
                    decreases n - i,
                {
                    offers.push(more[i].addr);
                    proof {
                        assert(more@.subrange(0, i + 1) =~= more@.subrange(0, i as int).push(
                            more@[i as int],
                        ));
                        assert(offers@ =~= base + addrs_of(more@.subrange(0, i + 1)));
                    }
                    i += 1;
                }
                assert(more@.subrange(0, n as int) =~= more@);
            }
        } else {
            proof {
                assert(endpoints_of(texts_of(self.config.bootstrap_nodes@)) =~= Seq::empty());
            }
        }
        assert(offers@ =~= pass_offers(old(self)@.port, old(self)@.seeds, old(self)@.known_peers));
        self.offer_all(&mut peers, &offers, now);
        let ghost list = peers@;
        match &self.dht {
            Some(dht) => {
                let closest = dht.find_closest_nodes(&self.node_id, TABLE_CANDIDATES);
                let n = closest.len();
                let mut i: usize = 0;
                assert(node_addrs(closest@.subrange(0, 0)) =~= Seq::empty());
                while i < n
                    invariant
                        n == closest@.len(),
                        i <= n,
                        peers@ == with_all_new(list, node_addrs(closest@.subrange(0, i as int))),
                    decreases n - i,
                {
                    proof {
                        let upto = node_addrs(closest@.subrange(0, i + 1));
                        assert(upto.drop_last() =~= node_addrs(closest@.subrange(0, i as int)));
                        assert(upto.last() == closest@[i as int].addr);
                    }
                    push_new(&mut peers, closest[i].addr);
                    i += 1;
                }
                assert(closest@.subrange(0, n as int) =~= closest@);
                peers.truncate(self.config.max_peers);
                proof {
                    let t = dht@;
                    assert(is_closest(
                        |x: Node| table_holds(t, x),
                        closest@,
                        self.node_id@,
                        TABLE_CANDIDATES as nat,
                    )) by {
                        assert((|x: Node| table_holds(t, x)) =~= (|x: Node| dht.holds(x)));
                    }
                    assert(peers@ =~= first_of(
                        with_all_new(list, node_addrs(closest@)),
                        self.config.max_peers,
                    ));
                }
            },
            None => {
                peers.truncate(self.config.max_peers);
                assert(peers@ =~= first_of(list, self.config.max_peers));
            },
        }
        peers
    }

    /// Records the peer at `addr`, seen at `now`: it becomes a known peer, a
    /// contact of the routing table, and a discovered peer.
    pub fn add_peer(&mut self, addr: PeerAddr, now: u64)
        requires
            old(self).wf(),
        ensures
            final(self).wf(),
            final(self)@ == (DiscoveryView {
                known_peers: known_after_add(old(self)@.known_peers, peer_for(addr, now)),
                table: match old(self)@.table {
                    Some(t) => Some(table_after_add(t, old(self)@.node_id@, node_for(addr, now))),
                    None => None,
                },
                discovered_peers: if knows(old(self)@.discovered_peers, addr) {
                    old(self)@.discovered_peers
                } else {
                    old(self)@.discovered_peers.push(peer_for(addr, now))
                },
                ..old(self)@
            }),
            peer_for(addr, now).node_id@ == blake3_digest(addr_text(addr)),
    {
        let id = NodeId::from_addr(&addr);
        let peer = PeerInfo { addr, node_id: id.0, last_seen: now };
        let node = Node { id, addr, last_seen: now };
        proof {
            assert(is_node_for(node, addr, now));
            let c = node_for(addr, now);
            assert(c.id.0 =~= node.id.0);
            assert(c == node);
            assert(peer == peer_for(addr, now));
        }
        self.bootstrap.add_peer(peer);
        match &mut self.dht {
            Some(t) => {
                t.add_node(node);
            },
            None => {},
        }
        let n = self.discovered_peers.len();
        let mut i: usize = 0;
        let mut found = false;
        while i < n && !found
            invariant
                n == self.discovered_peers@.len(),
                i <= n,
                found ==> knows(self.discovered_peers@, addr),
                forall|j: int| 0 <= j < i ==> (#[trigger] self.discovered_peers@[j]).addr != addr,
            decreases n - i + (if found { 0int } else { 1int }),
        {
            if self.discovered_peers[i].addr == addr {
                found = true;
            } else {
                i += 1;
            }
        }
        if !found {
            self.discovered_peers.push(peer);
        }
        proof {
            let before = old(self).discovered_peers@;
            let after = self.discovered_peers@;
            assert forall|a: int, b: int| 0 <= a < b < after.len() implies after[a].addr
                != after[b].addr by {
                if !found && b == after.len() - 1 {
                    assert(after[a] == before[a]);
                }
            }
        }
    }

    /// Announces the endpoint `addr` at `now`: it becomes a known peer.
    pub fn announce(&mut self, addr: PeerAddr, now: u64)
        requires
            old(self).wf(),
        ensures
            final(self).wf(),
            final(self)@ == (DiscoveryView {
                known_peers: known_after_add(old(self)@.known_peers, peer_for(addr, now)),
                ..old(self)@
            }),
    {
        let id = NodeId::from_addr(&addr);
        let peer = PeerInfo { addr, node_id: id.0, last_seen: now };
        proof {
            let node = Node { id, addr, last_seen: now };
            assert(is_node_for(node, addr, now));
            let c = node_for(addr, now);
            assert(c.id.0 =~= node.id.0);
            assert(peer == peer_for(addr, now));
        }
        self.bootstrap.add_peer(peer);
    }

    /// The discovered peers, in the order in which they were recorded.
    pub fn get_peers(&self) -> (peers: Vec<PeerInfo>)
        ensures
            peers@ == self@.discovered_peers,
    {
        let mut v: Vec<PeerInfo> = Vec::new();
        let n = self.discovered_peers.len();
        let mut i: usize = 0;
        while i < n
            invariant
                n == self.discovered_peers@.len(),
                i <= n,
                v@ == self.discovered_peers@.subrange(0, i as int),
            decreases n - i,
        {
            v.push(self.discovered_peers[i]);
            assert(self.discovered_peers@.subrange(0, i + 1) =~= self.discovered_peers@.subrange(
                0,
                i as int,
            ).push(self.discovered_peers@[i as int]));
            i += 1;
        }
        assert(self.discovered_peers@.subrange(0, n as int) =~= self.discovered_peers@);
        v
    }

    /// Where to ask for `target`: the addresses of the `ALPHA` contacts
    /// nearest to it, nearest first, or of all known peers where no routing
    /// table is kept.
    pub fn find_node(&self, target: NodeId) -> (addrs: Vec<PeerAddr>)
        requires
            self.wf(),
        ensures
            match self@.table {
                Some(t) => exists|nearest: Seq<Node>|
                    is_closest(|x: Node| table_holds(t, x), nearest, target@, ALPHA as nat)
                        && addrs@ == node_addrs(nearest),
                None => addrs@ == addrs_of(self@.known_peers),
            },
    {
        let mut addrs: Vec<PeerAddr> = Vec::new();
        match &self.dht {
            Some(dht) => {
                let nodes = dht.lookup(target);
                let n = nodes.len();
                let mut i: usize = 0;
                while i < n
                    invariant
                        n == nodes@.len(),
                        i <= n,
                        addrs@ == node_addrs(nodes@.subrange(0, i as int)),
                    decreases n - i,
                {
                    addrs.push(nodes[i].addr);
                    assert(nodes@.subrange(0, i + 1) =~= nodes@.subrange(0, i as int).push(
                        nodes@[i as int],
                    ));
                    assert(addrs@ =~= node_addrs(nodes@.subrange(0, i + 1)));
                    i += 1;
                }
                proof {
                    assert(nodes@.subrange(0, n as int) =~= nodes@);
                    let t = dht@;
                    assert((|x: Node| table_holds(t, x)) =~= (|x: Node| dht.holds(x)));
                }
            },
            None => {
                let peers = self.bootstrap.get_peers();
                let n = peers.len();
                let mut i: usize = 0;
                while i < n
                    invariant
                        n == peers@.len(),
                        i <= n,
                        addrs@ == addrs_of(peers@.subrange(0, i as int)),
                    decreases n - i,
                {
                    addrs.push(peers[i].addr);
                    assert(peers@.subrange(0, i + 1) =~= peers@.subrange(0, i as int).push(
                        peers@[i as int],
                    ));
                    assert(addrs@ =~= addrs_of(peers@.subrange(0, i + 1)));
                    i += 1;
                }
                assert(peers@.subrange(0, n as int) =~= peers@);
            },
        }
        addrs
    }

    /// The routing table, if one is kept.
    pub fn routing_table(&self) -> (t: Option<&Kademlia>)
        requires
            self.wf(),
        ensures
            match t {
                Some(t) => self@.table == Some(t@) && t.wf() && t.local_id() == self@.node_id,
                None => self@.table is None,
            },
    {
        match &self.dht {
            Some(t) => Some(t),
            None => None,
        }
    }

    /// The known peers, the oldest first.
    pub fn known_peers(&self) -> (peers: Vec<PeerInfo>)
        ensures
            peers@ == self@.known_peers,
    {
        self.bootstrap.get_peers()
    }

    /// The identifier of this node.
    pub fn get_node_id(&self) -> (id: NodeId)
        ensures
            id == self@.node_id,
    {
        self.node_id
    }
}

/// Appends the endpoints of `more` to `out`.
fn append_addrs(out: &mut Vec<PeerAddr>, more: &Vec<PeerAddr>)
    ensures
        final(out)@ == old(out)@ + more@,
{
    let n = more.len();
    let mut i: usize = 0;
    while i < n
        invariant
            n == more@.len(),
            i <= n,
            out@ == old(out)@ + more@.subrange(0, i as int),
        decreases n - i,
    {
        out.push(more[i]);
        assert(out@ =~= old(out)@ + more@.subrange(0, i + 1));
        i += 1;
    }
    assert(more@.subrange(0, n as int) =~= more@);
}

} // verus!
