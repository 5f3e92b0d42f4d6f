//! The node as a whole: its configuration, its transport and its bridge,
//! and what its periodic tasks decide.

use vstd::prelude::*;
use crate::addr::PeerAddr;
use crate::blockchain_bridge::{BlockchainBridge, BridgeView};
use crate::bootstrap::{known_after_add, knows, texts_of};
use crate::config::Config;
use crate::dht::table_after_add;
use crate::discovery::{node_for, peer_for, Discovery, DiscoveryConfig, DiscoveryView};
use crate::network::{bump, fresh_peer, Network, NetworkStats, NetworkView, PeerInfo};
use crate::text::{occurs_in, str_contains};

verus! {

/// Seconds between two rounds of pings.
pub const PING_INTERVAL_SECS: u64 = 5;

/// Seconds between two health sweeps.
pub const HEALTH_INTERVAL_SECS: u64 = 10;

/// Seconds between two discovery passes; a tick that is missed is skipped.
pub const DISCOVERY_INTERVAL_SECS: u64 = 30;

/// Most candidates that a discovery pass of the node returns.
pub const MAX_DISCOVERED_PEERS: usize = 100;

/// Whether the text of a dial error says that nobody listens there.
pub open spec fn says_refused(error: Seq<char>) -> bool {
    occurs_in(error, "refused"@) || occurs_in(error, "Connection refused"@)
}

/// Whether a dial that failed with the text `error` is worth a line in the
/// log: a refused connection is not, since a candidate need not exist.
pub fn should_log_dial_failure(error: &str) -> (r: bool)
    ensures
        r == !says_refused(error@),
{
    !(str_contains(error, "refused") || str_contains(error, "Connection refused"))
}

/// A node.
pub struct GuildHome {
    pub config: Config,
    pub network: Network,
    pub blockchain_bridge: Option<BlockchainBridge>,
}

impl GuildHome {
    /// A node with the configuration `config` whose transport is bound to
    /// `bound_port`, with a bridge that is not started.
    pub fn new(config: Config, bound_port: u16) -> (g: Self)
        ensures
            g.config == config,
            g.network.wf(),
            g.network@ == (NetworkView {
                port: bound_port,
                peers: Map::<PeerAddr, PeerInfo>::empty(),
                stats: NetworkStats {
                    pings_sent: 0,
                    pongs_received: 0,
                    messages_sent: 0,
                    messages_received: 0,
                    connections_established: 0,
                    connections_lost: 0,
                },
            }),
            g.blockchain_bridge is Some,
            g.blockchain_bridge->0.wf(),
            g.blockchain_bridge->0@ == (BridgeView { started: false, peers: Seq::empty() }),
    {
        let network = Network::with_port(bound_port);
        let blockchain_bridge = Some(BlockchainBridge::new());
        GuildHome { config, network, blockchain_bridge }
    }

    /// Starts the node: the bridge is started, if there is one and it is not
    /// started yet, and the discovery is set up with the configured seeds,
    /// a routing table, `MAX_DISCOVERED_PEERS` and the transport's port.
    /// Returns the discovery and whether this call started the bridge.
    pub fn start(&mut self) -> (r: (Discovery, bool))
        ensures
            final(self).config == old(self).config,
            final(self).network == old(self).network,
            match old(self).blockchain_bridge {
                Some(b) => final(self).blockchain_bridge is Some
                    && final(self).blockchain_bridge->0@ == (BridgeView { started: true, ..b@ })
                    && r.1 == !b@.started,
                None => final(self).blockchain_bridge is None && !r.1,
            },
            r.0.wf(),
            r.0@.port == old(self).network@.port,
            r.0@.max_peers == MAX_DISCOVERED_PEERS,
            r.0@.seeds == texts_of(old(self).config.bootstrap@),
            r.0@.table is Some,
            r.0@.table->0.len() == 256,
            forall|b: int| 0 <= b < 256 ==> (#[trigger] r.0@.table->0[b]).len() == 0,
            r.0@.known_peers.len() == 0,
            r.0@.discovered_peers.len() == 0,
    {
        let started = match &mut self.blockchain_bridge {
            Some(bridge) => bridge.start(),
            None => false,
        };
        let mut seeds: Vec<String> = Vec::new();
        let n = self.config.bootstrap.len();
        let mut i: usize = 0;
        while i < n
            invariant
                n == self.config.bootstrap@.len(),
                i <= n,
                seeds@ == self.config.bootstrap@.subrange(0, i as int),
            decreases n - i,
        {
            seeds.push(self.config.bootstrap[i].clone());
            assert(self.config.bootstrap@.subrange(0, i + 1) =~= self.config.bootstrap@.subrange(
                0,
                i as int,
            ).push(self.config.bootstrap@[i as int]));
            i += 1;
        }
        assert(self.config.bootstrap@.subrange(0, n as int) =~= self.config.bootstrap@);
        let discovery_config = DiscoveryConfig {
            bootstrap_nodes: seeds,
            enable_dht: true,
            max_peers: MAX_DISCOVERED_PEERS,
            port: self.network.local_port(),
        };
        (Discovery::new(discovery_config), started)
    }

    /// Takes note that the dial of the candidate `addr` succeeded: the peer
    /// is recorded by the transport at `now_ms` on the transport's clock and
    /// by the discovery at `now_secs`, in seconds since the Unix epoch.
    pub fn peer_connected(
        &mut self,
        discovery: &mut Discovery,
        addr: PeerAddr,
        now_ms: u64,
        now_secs: u64,
    )
        requires
            old(self).network.wf(),
            old(discovery).wf(),
        ensures
            final(self).network.wf(),
            final(discovery).wf(),
            final(self).config == old(self).config,
            final(self).blockchain_bridge == old(self).blockchain_bridge,
            final(self).network@ == (NetworkView {
                peers: old(self).network@.peers.insert(addr, fresh_peer(addr, now_ms)),
                stats: NetworkStats {
                    connections_established: bump(
                        old(self).network@.stats.connections_established,
                    ),
                    ..old(self).network@.stats
                },
                ..old(self).network@
            }),
            final(discovery)@ == (DiscoveryView {
                known_peers: known_after_add(
                    old(discovery)@.known_peers,
                    peer_for(addr, now_secs),
                ),
                table: match old(discovery)@.table {
                    Some(t) => Some(
                        table_after_add(t, old(discovery)@.node_id@, node_for(addr, now_secs)),
                    ),
                    None => None,
                },
                discovered_peers: if knows(old(discovery)@.discovered_peers, addr) {
                    old(discovery)@.discovered_peers
                } else {
                    old(discovery)@.discovered_peers.push(peer_for(addr, now_secs))
                },
                ..old(discovery)@
            }),
    {
        self.network.connect(addr, now_ms);
        discovery.add_peer(addr, now_secs);
    }
}

} // verus!
