//! Bookkeeping of the transport: which peers are connected, when each was
//! last heard from, and what to answer to the frames they send.
//!
//! The endpoint itself (sockets, sessions, sub-streams) belongs to the
//! caller. It reports what happened, with the time on its own clock in
//! milliseconds, and carries out what these functions return.

use vstd::prelude::*;
use crate::addr::PeerAddr;
use crate::message::{
    decode_message, encode_message, lemma_message_round_trip, message_fits, Message, MessageView,
};
use crate::text::{occurs_in, str_contains};
use crate::wire::{lemma_take_put_u32, put_slice};
use vstd::slice::slice_subrange;

verus! {

/// A peer that has not answered a ping for longer than this many
/// milliseconds is dropped by the health sweep.
pub const PEER_TIMEOUT_MS: u64 = 10000;

/// Milliseconds to wait before reading again after a transient stream error.
pub const RETRY_DELAY_MS: u64 = 100;

/// Number of ports that endpoint bring-up tries, the preferred one first.
pub const MAX_BIND_ATTEMPTS: u32 = 100;

/// Number of bytes of an undecodable frame that are kept for the log.
pub const DECODE_SAMPLE_LEN: usize = 100;

/// Seconds between keep-alive packets of a session.
pub const KEEP_ALIVE_SECS: u64 = 5;

/// Seconds of silence after which a session is closed.
pub const IDLE_TIMEOUT_SECS: u64 = 30;

/// What is known of one connected peer.
#[derive(Debug, Clone, Copy, PartialEq, Eq, Structural)]
pub struct PeerInfo {
    pub addr: PeerAddr,
    /// When the peer's last ping arrived.
    pub last_ping: u64,
    /// When the peer's last pong arrived.
    pub last_pong: u64,
    /// Round-trip time that the last pong showed, in milliseconds.
    pub latency_ms: u64,
}

/// Counters of the transport.
#[derive(Debug, Clone, Copy, PartialEq, Eq, Structural)]
pub struct NetworkStats {
    pub pings_sent: u64,
    pub pongs_received: u64,
    pub messages_sent: u64,
    pub messages_received: u64,
    pub connections_established: u64,
    pub connections_lost: u64,
}

impl Default for NetworkStats {
    fn default() -> (s: Self)
        ensures
            s == (NetworkStats {
                pings_sent: 0,
                pongs_received: 0,
                messages_sent: 0,
                messages_received: 0,
                connections_established: 0,
                connections_lost: 0,
            }),
    {
        NetworkStats {
            pings_sent: 0,
            pongs_received: 0,
            messages_sent: 0,
            messages_received: 0,
            connections_established: 0,
            connections_lost: 0,
        }
    }
}

/// No two records of `list` have the same address.
pub open spec fn distinct_addrs(list: Seq<PeerInfo>) -> bool {
    forall|i: int, j: int| 0 <= i < j < list.len() ==> list[i].addr != list[j].addr
}

/// Whether `list` has a record for `addr`.
pub open spec fn lists(list: Seq<PeerInfo>, addr: PeerAddr) -> bool {
    exists|i: int| 0 <= i < list.len() && (#[trigger] list[i]).addr == addr
}

/// The records of `list` by address.
pub open spec fn table_of(list: Seq<PeerInfo>) -> Map<PeerAddr, PeerInfo> {
    Map::new(
        |a: PeerAddr| lists(list, a),
        |a: PeerAddr| list[choose|i: int| 0 <= i < list.len() && (#[trigger] list[i]).addr == a],
    )
}

/// In a list without repeated addresses, each record is the table's entry
/// for its address.
pub proof fn lemma_table_entry(list: Seq<PeerInfo>, i: int)
    requires
        distinct_addrs(list),
        0 <= i < list.len(),
    ensures
        table_of(list).contains_key(list[i].addr),
        table_of(list)[list[i].addr] == list[i],
{
    let a = list[i].addr;
    assert(lists(list, a));
    let c = choose|c: int| 0 <= c < list.len() && (#[trigger] list[c]).addr == a;
    assert(c == i);
}

/// The table of a list without repeated addresses has as many entries as
/// the list has records.
pub proof fn lemma_table_size(list: Seq<PeerInfo>)
    requires
        distinct_addrs(list),
    ensures
        table_of(list).dom().finite(),
        table_of(list).dom().len() == list.len(),
    decreases list.len(),
{
    if list.len() == 0 {
        assert(table_of(list).dom() =~= Set::<PeerAddr>::empty());
    } else {
        let front = list.drop_last();
        let last = list.last();
        lemma_table_size(front);
        assert(!lists(front, last.addr));
        assert forall|a: PeerAddr| table_of(list).dom().contains(a) <==> table_of(
            front,
        ).dom().insert(last.addr).contains(a) by {
            if lists(list, a) {
                let i = choose|i: int| 0 <= i < list.len() && (#[trigger] list[i]).addr == a;
                if i < front.len() {
                    assert(front[i].addr == a);
                }
            }
            if lists(front, a) {
                let i = choose|i: int| 0 <= i < front.len() && (#[trigger] front[i]).addr == a;
                assert(list[i].addr == a);
            }
            if a == last.addr {
                assert(list[list.len() - 1].addr == a);
            }
        }
        assert(table_of(list).dom() =~= table_of(front).dom().insert(last.addr));
    }
}

/// Whether one of the first `k` records of `list` is that of `a` and has
/// timed out at `now`.
spec fn swept(list: Seq<PeerInfo>, k: int, a: PeerAddr, now: u64) -> bool {
    exists|j: int|
        0 <= j < k && j < list.len() && (#[trigger] list[j]).addr == a && timed_out(
            list[j].last_pong,
            now,
        )
}

/// The transport as a mathematical value.
pub struct NetworkView {
    pub port: u16,
    pub peers: Map<PeerAddr, PeerInfo>,
    pub stats: NetworkStats,
}

/// The state of the transport.
pub struct Network {
    local_port: u16,
    peers: Vec<PeerInfo>,
    stats: NetworkStats,
}

impl View for Network {
    type V = NetworkView;

    closed spec fn view(&self) -> NetworkView {
        NetworkView { port: self.local_port, peers: table_of(self.peers@), stats: self.stats }
    }
}

/// The record of a peer whose session was just established at `now`.
pub open spec fn fresh_peer(addr: PeerAddr, now: u64) -> PeerInfo {
    PeerInfo { addr, last_ping: now, last_pong: now, latency_ms: 0 }
}

/// `n + 1`, or `n` where that would not fit.
pub open spec fn bump(n: u64) -> u64 {
    if n < u64::MAX {
        (n + 1) as u64
    } else {
        n
    }
}

/// Whether a peer last heard from at `last_pong` has timed out at `now`.
pub open spec fn timed_out(last_pong: u64, now: u64) -> bool {
    now - last_pong > PEER_TIMEOUT_MS
}

/// The peers that the health sweep keeps at `now`.
pub open spec fn live_peers(peers: Map<PeerAddr, PeerInfo>, now: u64) -> Map<PeerAddr, PeerInfo> {
    Map::new(
        |a: PeerAddr| peers.contains_key(a) && !timed_out(peers[a].last_pong, now),
        |a: PeerAddr| peers[a],
    )
}

/// Round-trip time shown by a pong that arrives at `now` and echoes
/// `timestamp`: their difference, or 0 where the clock went back.
pub open spec fn latency(now: u64, timestamp: u64) -> u64 {
    if now >= timestamp {
        (now - timestamp) as u64
    } else {
        0
    }
}

/// The peers after the frame `msg` from `addr` was handled at `now`: a ping
/// or a pong from a known peer updates its record, anything else changes
/// nothing.
pub open spec fn peers_after_frame(
    peers: Map<PeerAddr, PeerInfo>,
    addr: PeerAddr,
    msg: Option<MessageView>,
    now: u64,
) -> Map<PeerAddr, PeerInfo> {
    if !peers.contains_key(addr) {
        peers
    } else {
        match msg {
            Some(MessageView::Ping { id, timestamp }) => peers.insert(
                addr,
                PeerInfo { last_ping: now, ..peers[addr] },
            ),
            Some(MessageView::Pong { id, timestamp }) => peers.insert(
                addr,
                PeerInfo { last_pong: now, latency_ms: latency(now, timestamp), ..peers[addr] },
            ),
            _ => peers,
        }
    }
}

/// What to do after a frame was handled.
#[derive(Debug, PartialEq, Eq)]
pub enum FrameAction {
    /// A ping arrived: send these bytes, the pong, back on a new sub-stream.
    Reply(Vec<u8>),
    /// A pong arrived and showed this latency in milliseconds.
    Latency(u64),
    /// A payload arrived: hand it to the layer above.
    Deliver(Vec<u8>),
    /// The frame was empty and is ignored.
    Empty,
    /// The frame is no envelope and is dropped; its first bytes, for the log.
    Undecodable(Vec<u8>),
}

/// A `FrameAction` as a mathematical value.
pub enum FrameActionView {
    Reply(Seq<u8>),
    Latency(u64),
    Deliver(Seq<u8>),
    Empty,
    Undecodable(Seq<u8>),
}

impl View for FrameAction {
    type V = FrameActionView;

    open spec fn view(&self) -> FrameActionView {
        match self {
            FrameAction::Reply(b) => FrameActionView::Reply(b@),
            FrameAction::Latency(l) => FrameActionView::Latency(*l),
            FrameAction::Deliver(b) => FrameActionView::Deliver(b@),
            FrameAction::Empty => FrameActionView::Empty,
            FrameAction::Undecodable(b) => FrameActionView::Undecodable(b@),
        }
    }
}

/// What the frame `buf`, received at `now`, calls for.
pub open spec fn frame_action(buf: Seq<u8>, now: u64) -> FrameActionView {
    if buf.len() == 0 {
        FrameActionView::Empty
    } else {
        match decode_message(buf) {
            Some(MessageView::Ping { id, timestamp }) => FrameActionView::Reply(
                encode_message(MessageView::Pong { id, timestamp }),
            ),
            Some(MessageView::Pong { id, timestamp }) => FrameActionView::Latency(
                latency(now, timestamp),
            ),
            Some(MessageView::Data(d)) => FrameActionView::Deliver(d),
            None => FrameActionView::Undecodable(
                buf.subrange(
                    0,
                    if buf.len() < DECODE_SAMPLE_LEN {
                        buf.len() as int
                    } else {
                        DECODE_SAMPLE_LEN as int
                    },
                ),
            ),
        }
    }
}

/// What to do after reading from a peer's session failed.
#[derive(Debug, Clone, Copy, PartialEq, Eq, Structural)]
pub enum StreamAction {
    /// The session is closed: the peer was removed, stop reading.
    Stop,
    /// The failure may pass: read again after this many milliseconds.
    RetryAfter(u64),
}

/// Whether the text of a read error says that the session is closed.
pub open spec fn says_closed(error: Seq<char>) -> bool {
    occurs_in(error, "Closed"@) || occurs_in(error, "closed"@)
}

/// Whether the text of a bind error says that the port is taken.
pub open spec fn says_port_taken(error: Seq<char>) -> bool {
    occurs_in(error, "Address already in use"@) || occurs_in(error, "already being used"@)
}

/// What to do after binding a port failed.
#[derive(Debug, Clone, Copy, PartialEq, Eq, Structural)]
pub enum BindStep {
    /// The port is taken: try this one next.
    Retry(u16),
    /// Every port that may be tried is taken.
    Exhausted,
    /// The failure is not about the port: give up.
    Fatal,
}

/// What follows the failure, with the text `error`, of attempt number
/// `attempt` (from 0) to bind `port`.
pub open spec fn bind_step(port: u16, attempt: u32, error: Seq<char>) -> BindStep {
    if !says_port_taken(error) {
        BindStep::Fatal
    } else if attempt + 1 >= MAX_BIND_ATTEMPTS || port == u16::MAX {
        BindStep::Exhausted
    } else {
        BindStep::Retry((port + 1) as u16)
    }
}

/// Decides what follows a failed attempt to bind `port`. A taken port is
/// followed by the next higher one until `MAX_BIND_ATTEMPTS` ports were
/// tried or the ports run out; any other failure ends the search.
pub fn next_bind_step(port: u16, attempt: u32, error: &str) -> (step: BindStep)
    ensures
        step == bind_step(port, attempt, error@),
{
    if !(str_contains(error, "Address already in use") || str_contains(
        error,
        "already being used",
    )) {
        BindStep::Fatal
    } else if attempt >= MAX_BIND_ATTEMPTS - 1 || port == u16::MAX {
        BindStep::Exhausted
    } else {
        BindStep::Retry(port + 1)
    }
}

/// A ping that is ready to be sent to one peer.
#[derive(Debug, PartialEq, Eq)]
pub struct OutboundPing {
    pub to: PeerAddr,
    pub id: String,
    pub frame: Vec<u8>,
}

/// Makes the identifier of a ping: the text of `uuid::Uuid::new_v4()`, a
/// random UUID. Nothing is claimed of the text.
#[verifier::external_body]
fn fresh_ping_id() -> String {
    uuid::Uuid::new_v4().to_string()
}

/// A peer whose last pong is more than `PEER_TIMEOUT_MS` before `now` is not
/// among the peers that the health sweep keeps, and every other peer is
/// kept as it is.
pub proof fn lemma_health_eviction(peers: Map<PeerAddr, PeerInfo>, now: u64, addr: PeerAddr)
    requires
        peers.contains_key(addr),
    ensures
        timed_out(peers[addr].last_pong, now) ==> !live_peers(peers, now).contains_key(addr),
        !timed_out(peers[addr].last_pong, now) ==> live_peers(peers, now).contains_key(addr)
            && live_peers(peers, now)[addr] == peers[addr],
        now >= peers[addr].last_pong + PEER_TIMEOUT_MS + 1 ==> !live_peers(
            peers,
            now,
        ).contains_key(addr),
{
}

/// A ping is answered by the pong with the same identifier and timestamp,
/// and that pong, arriving at `now` from a known peer, sets the peer's
/// latency to `now - timestamp`, or to 0 where the clock went back.
pub proof fn lemma_ping_pong(
    id: Seq<char>,
    timestamp: u64,
    peers: Map<PeerAddr, PeerInfo>,
    addr: PeerAddr,
    pinged_at: u64,
    now: u64,
)
    requires
        message_fits(MessageView::Ping { id, timestamp }),
    ensures
        frame_action(encode_message(MessageView::Ping { id, timestamp }), pinged_at)
            == FrameActionView::Reply(encode_message(MessageView::Pong { id, timestamp })),
        frame_action(encode_message(MessageView::Pong { id, timestamp }), now)
            == FrameActionView::Latency(latency(now, timestamp)),
        peers.contains_key(addr) ==> {
            let after = peers_after_frame(
                peers,
                addr,
                decode_message(encode_message(MessageView::Pong { id, timestamp })),
                now,
            );
            &&& after.contains_key(addr)
            &&& after[addr].latency_ms == latency(now, timestamp)
            &&& after[addr].last_pong == now
            &&& after[addr].last_ping == peers[addr].last_ping
        },
        latency(now, timestamp) == if now - timestamp > 0 {
            now - timestamp
        } else {
            0
        },
{
    let ping = MessageView::Ping { id, timestamp };
    let pong = MessageView::Pong { id, timestamp };
    lemma_message_round_trip(ping, Seq::empty());
    lemma_message_round_trip(pong, Seq::empty());
    assert(encode_message(ping) + Seq::<u8>::empty() =~= encode_message(ping));
    assert(encode_message(pong) + Seq::<u8>::empty() =~= encode_message(pong));
    lemma_take_put_u32(0, Seq::empty());
    lemma_take_put_u32(1, Seq::empty());
}

impl Network {
    /// No address has two records.
    pub closed spec fn wf(&self) -> bool {
        distinct_addrs(self.peers@)
    }

    /// The state of an endpoint that is not bound to a port yet.
    pub fn new() -> (n: Self)
        ensures
            n.wf(),
            n@ == (NetworkView { port: 0, peers: Map::empty(), stats: n@.stats }),
            n@.stats == (NetworkStats {
                pings_sent: 0,
                pongs_received: 0,
                messages_sent: 0,
                messages_received: 0,
                connections_established: 0,
                connections_lost: 0,
            }),
    {
        Self::with_port(0)
    }

    /// The state of an endpoint that is bound to `port`, with no peers.
    pub fn with_port(port: u16) -> (n: Self)
        ensures
            n.wf(),
            n@ == (NetworkView { port, peers: Map::empty(), stats: n@.stats }),
            n@.stats == (NetworkStats {
                pings_sent: 0,
                pongs_received: 0,
                messages_sent: 0,
                messages_received: 0,
                connections_established: 0,
                connections_lost: 0,
            }),
    {
        let n = Network { local_port: port, peers: Vec::new(), stats: NetworkStats::default() };
        assert(n@.peers =~= Map::empty());
        n
    }

    fn find(&self, addr: &PeerAddr) -> (r: Option<usize>)
        requires
            self.wf(),
        ensures
            match r {
                Some(i) => i < self.peers@.len() && self.peers@[i as int].addr == *addr
                    && self@.peers.contains_key(*addr) && self@.peers[*addr]
                    == self.peers@[i as int],
                None => !lists(self.peers@, *addr) && !self@.peers.contains_key(*addr),
            },
    {
        let n = self.peers.len();
        let mut i: usize = 0;
        while i < n
            invariant
                self.wf(),
                n == self.peers@.len(),
                i <= n,
                forall|j: int| 0 <= j < i ==> (#[trigger] self.peers@[j]).addr != *addr,
            decreases n - i,
        {
            if self.peers[i].addr == *addr {
                proof {
                    lemma_table_entry(self.peers@, i as int);
                }
                return Some(i);
            }
            i += 1;
        }
        None
    }

    /// Records that a session with `addr` was established at `now`, dialled
    /// or accepted. A record that the peer already had is replaced.
    pub fn connect(&mut self, addr: PeerAddr, now: u64)
        requires
            old(self).wf(),
        ensures
            final(self).wf(),
            final(self)@ == (NetworkView {
                peers: old(self)@.peers.insert(addr, fresh_peer(addr, now)),
                stats: NetworkStats {
                    connections_established: bump(old(self)@.stats.connections_established),
                    ..old(self)@.stats
                },
                ..old(self)@
            }),
    {
        if self.stats.connections_established < u64::MAX {
            self.stats.connections_established = self.stats.connections_established + 1;
        }
        let rec = PeerInfo { addr, last_ping: now, last_pong: now, latency_ms: 0 };
        self.put(rec);
    }

    /// Stores `rec` as the record of its address.
    fn put(&mut self, rec: PeerInfo)
        requires
            old(self).wf(),
        ensures
            final(self).wf(),
            final(self)@ == (NetworkView {
                peers: old(self)@.peers.insert(rec.addr, rec),
                ..old(self)@
            }),
    {
        match self.find(&rec.addr) {
            Some(i) => {
                self.peers[i] = rec;
                proof {
                    let before = old(self).peers@;
                    let after = self.peers@;
                    assert(after =~= before.update(i as int, rec));
                    assert forall|a: PeerAddr| lists(after, a) <==> lists(before, a) by {
                        if lists(after, a) {
                            let j = choose|j: int|
                                0 <= j < after.len() && (#[trigger] after[j]).addr == a;
                            assert(before[j].addr == a);
                        }
                        if lists(before, a) {
                            let j = choose|j: int|
                                0 <= j < before.len() && (#[trigger] before[j]).addr == a;
                            assert(after[j].addr == a);
                        }
                    }
                    assert forall|a: PeerAddr| lists(after, a) implies table_of(after)[a]
                        == old(self)@.peers.insert(rec.addr, rec)[a] by {
                        let j = choose|j: int|
                            0 <= j < after.len() && (#[trigger] after[j]).addr == a;
                        lemma_table_entry(after, j);
                        if j != i {
                            lemma_table_entry(before, j);
                        }
                    }
                    assert(self@.peers =~= old(self)@.peers.insert(rec.addr, rec));
                }
            },
            None => {
                self.peers.push(rec);
                proof {
                    let before = old(self).peers@;
                    let after = self.peers@;
                    assert forall|a: PeerAddr| lists(after, a) <==> (lists(before, a) || a
                        == rec.addr) by {
                        if lists(after, a) {
                            let j = choose|j: int|
                                0 <= j < after.len() && (#[trigger] after[j]).addr == a;
                            if j < before.len() {
                                assert(before[j].addr == a);
                            }
                        }
                        if lists(before, a) {
                            let j = choose|j: int|
                                0 <= j < before.len() && (#[trigger] before[j]).addr == a;
                            assert(after[j].addr == a);
                        }
                        if a == rec.addr {
                            assert(after[after.len() - 1].addr == a);
                        }
                    }
                    assert forall|a: PeerAddr| lists(after, a) implies table_of(after)[a]
                        == old(self)@.peers.insert(rec.addr, rec)[a] by {
                        let j = choose|j: int|
                            0 <= j < after.len() && (#[trigger] after[j]).addr == a;
                        lemma_table_entry(after, j);
                        if j < before.len() {
                            lemma_table_entry(before, j);
                        }
                    }
                    assert(self@.peers =~= old(self)@.peers.insert(rec.addr, rec));
                }
            },
        }
    }

    /// Removes the record of `addr`, if there is one.
    fn drop_peer(&mut self, addr: &PeerAddr)
        requires
            old(self).wf(),
        ensures
            final(self).wf(),
            final(self)@ == (NetworkView { peers: old(self)@.peers.remove(*addr), ..old(self)@ }),
    {
        match self.find(addr) {
            Some(i) => {
                self.peers.remove(i);
                proof {
                    let before = old(self).peers@;
                    let after = self.peers@;
                    assert forall|j: int| 0 <= j < after.len() implies #[trigger] after[j]
                        == before[if j < i { j } else { j + 1 }] by {}
                    assert forall|a: PeerAddr| lists(after, a) <==> (lists(before, a) && a
                        != *addr) by {
                        if lists(after, a) {
                            let j = choose|j: int|
                                0 <= j < after.len() && (#[trigger] after[j]).addr == a;
                            let oj = if j < i { j } else { j + 1 };
                            assert(before[oj].addr == a);
                        }
                        if lists(before, a) && a != *addr {
                            let j = choose|j: int|
                                0 <= j < before.len() && (#[trigger] before[j]).addr == a;
                            let nj = if j < i { j } else { j - 1 };
                            assert(after[nj].addr == a);
                        }
                    }
                    assert forall|a: PeerAddr| lists(after, a) implies table_of(after)[a]
                        == old(self)@.peers[a] by {
                        let j = choose|j: int|
                            0 <= j < after.len() && (#[trigger] after[j]).addr == a;
                        let oj = if j < i { j } else { j + 1 };
                        lemma_table_entry(after, j);
                        lemma_table_entry(before, oj);
                    }
                    assert(self@.peers =~= old(self)@.peers.remove(*addr));
                }
            },
            None => {
                assert(self@.peers =~= old(self)@.peers.remove(*addr));
            },
        }
    }

    /// The addresses of all peers, each once.
    fn peer_addrs(&self) -> (v: Vec<PeerAddr>)
        requires
            self.wf(),
        ensures
            v@.no_duplicates(),
            forall|a: PeerAddr| v@.contains(a) <==> self@.peers.contains_key(a),
            v@.len() == self.peers@.len(),
            forall|i: int| 0 <= i < v@.len() ==> v@[i] == (#[trigger] self.peers@[i]).addr,
    {
        let mut v: Vec<PeerAddr> = Vec::new();
        let n = self.peers.len();
        let mut i: usize = 0;
        while i < n
            invariant
                n == self.peers@.len(),
                i <= n,
                v@.len() == i,
                forall|j: int| 0 <= j < i ==> v@[j] == (#[trigger] self.peers@[j]).addr,
            decreases n - i,
        {
            v.push(self.peers[i].addr);
            i += 1;
        }
        proof {
            assert forall|i: int, j: int| 0 <= i < v@.len() && 0 <= j < v@.len() && i != j implies v@[i]
                != v@[j] by {
                assert(v@[i] == self.peers@[i].addr);
                assert(v@[j] == self.peers@[j].addr);
            }
            assert forall|a: PeerAddr| v@.contains(a) <==> self@.peers.contains_key(a) by {
                if v@.contains(a) {
                    let j = choose|j: int| 0 <= j < v@.len() && v@[j] == a;
                    assert(self.peers@[j].addr == a);
                }
                if lists(self.peers@, a) {
                    let j = choose|j: int|
                        0 <= j < self.peers@.len() && (#[trigger] self.peers@[j]).addr == a;
                    assert(v@[j] == a);
                }
            }
        }
        v
    }

    /// What to send to whom for a broadcast of `data`: the envelope with
    /// `data` as its payload, to every peer.
    pub fn broadcast(&self, data: &[u8]) -> (r: (Vec<PeerAddr>, Vec<u8>))
        requires
            self.wf(),
        ensures
            r.0@.no_duplicates(),
            forall|a: PeerAddr| r.0@.contains(a) <==> self@.peers.contains_key(a),
            r.1@ == encode_message(MessageView::Data(data@)),
    {
        let mut payload: Vec<u8> = Vec::new();
        put_slice(&mut payload, data);
        assert(payload@ =~= data@);
        let msg = Message::Data(payload);
        (self.peer_addrs(), msg.encode())
    }

    /// A fresh ping for every peer, each with an identifier of its own and
    /// `now` as its timestamp.
    pub fn send_ping(&self, now: u64) -> (pings: Vec<OutboundPing>)
        requires
            self.wf(),
        ensures
            forall|a: PeerAddr|
                self@.peers.contains_key(a) <==> exists|i: int|
                    0 <= i < pings@.len() && (#[trigger] pings@[i]).to == a,
            forall|i: int, j: int|
                0 <= i < j < pings@.len() ==> (#[trigger] pings@[i]).to != (
                #[trigger] pings@[j]).to,
            forall|i: int|
                0 <= i < pings@.len() ==> (#[trigger] pings@[i]).frame@ == encode_message(
                    MessageView::Ping { id: pings@[i].id@, timestamp: now },
                ),
    {
        let targets = self.peer_addrs();
        let n = targets.len();
        let mut pings: Vec<OutboundPing> = Vec::new();
        let mut i: usize = 0;
        while i < n
            invariant
                n == targets@.len(),
                i <= n,
                pings@.len() == i,
                forall|j: int| 0 <= j < i ==> (#[trigger] pings@[j]).to == targets@[j],
                forall|j: int|
                    0 <= j < i ==> (#[trigger] pings@[j]).frame@ == encode_message(
                        MessageView::Ping { id: pings@[j].id@, timestamp: now },
                    ),
            decreases n - i,
        {
            let id = fresh_ping_id();
            let frame = Message::Ping { id: id.clone(), timestamp: now }.encode();
            pings.push(OutboundPing { to: targets[i], id, frame });
            i += 1;
        }
        proof {
            assert forall|a: PeerAddr| self@.peers.contains_key(a) <==> exists|i: int|
                0 <= i < pings@.len() && (#[trigger] pings@[i]).to == a by {
                if self@.peers.contains_key(a) {
                    assert(targets@.contains(a));
                    let j = choose|j: int| 0 <= j < targets@.len() && targets@[j] == a;
                    assert(pings@[j].to == a);
                }
                if exists|i: int| 0 <= i < pings@.len() && (#[trigger] pings@[i]).to == a {
                    let j = choose|j: int| 0 <= j < pings@.len() && (#[trigger] pings@[j]).to == a;
                    assert(targets@[j] == a);
                    assert(targets@.contains(a));
                }
            }
            assert forall|i: int, j: int| 0 <= i < j < pings@.len() implies (
            #[trigger] pings@[i]).to != (#[trigger] pings@[j]).to by {
                assert(pings@[i].to == targets@[i]);
                assert(pings@[j].to == targets@[j]);
            }
        }
        pings
    }

    /// Handles one frame that arrived from `addr` at `now`.
    ///
    /// A ping is answered with the pong that echoes it and marks the peer's
    /// last ping; a pong marks the peer's last pong and latency; a payload
    /// is handed up; an empty or undecodable frame is dropped and the peer
    /// kept.
    pub fn handle_peer_message(&mut self, addr: PeerAddr, buf: &[u8], now: u64) -> (action:
        FrameAction)
        requires
            old(self).wf(),
        ensures
            final(self).wf(),
            final(self)@ == (NetworkView {
                peers: peers_after_frame(old(self)@.peers, addr, decode_message(buf@), now),
                ..old(self)@
            }),
            action@ == frame_action(buf@, now),
    {
        if buf.len() == 0 {
            assert(decode_message(buf@) is None);
            assert(self@.peers =~= old(self)@.peers);
            return FrameAction::Empty;
        }
        match Message::decode(buf) {
            Some(Message::Ping { id, timestamp }) => {
                let pong = Message::Pong { id, timestamp };
                let reply = pong.encode();
                match self.find(&addr) {
                    Some(i) => {
                        let rec = self.peers[i];
                        self.put(PeerInfo { last_ping: now, ..rec });
                    },
                    None => {},
                }
                FrameAction::Reply(reply)
            },
            Some(Message::Pong { id, timestamp }) => {
                let l = if now >= timestamp {
                    now - timestamp
                } else {
                    0
                };
                match self.find(&addr) {
                    Some(i) => {
                        let rec = self.peers[i];
                        self.put(PeerInfo { last_pong: now, latency_ms: l, ..rec });
                    },
                    None => {},
                }
                FrameAction::Latency(l)
            },
            Some(Message::Data(data)) => FrameAction::Deliver(data),
            None => {
                let k = if buf.len() < DECODE_SAMPLE_LEN {
                    buf.len()
                } else {
                    DECODE_SAMPLE_LEN
                };
                let mut sample: Vec<u8> = Vec::new();
                put_slice(&mut sample, slice_subrange(buf, 0, k));
                assert(sample@ =~= buf@.subrange(0, k as int));
                FrameAction::Undecodable(sample)
            },
        }
    }

    /// Handles the failure, with the text `error`, of reading from the
    /// session with `addr`. A closed session ends the peer; anything else is
    /// tried again after `RETRY_DELAY_MS`.
    pub fn handle_stream_error(&mut self, addr: PeerAddr, error: &str) -> (action: StreamAction)
        requires
            old(self).wf(),
        ensures
            final(self).wf(),
            says_closed(error@) ==> action == StreamAction::Stop && final(self)@ == (NetworkView {
                peers: old(self)@.peers.remove(addr),
                ..old(self)@
            }),
            !says_closed(error@) ==> action == StreamAction::RetryAfter(RETRY_DELAY_MS)
                && final(self)@ == old(self)@,
    {
        if str_contains(error, "Closed") || str_contains(error, "closed") {
            self.drop_peer(&addr);
            StreamAction::Stop
        } else {
            StreamAction::RetryAfter(RETRY_DELAY_MS)
        }
    }

    /// Drops every peer whose last pong is more than `PEER_TIMEOUT_MS` before
    /// `now`, and returns the addresses of those dropped.
    pub fn check_peer_health(&mut self, now: u64) -> (dead: Vec<PeerAddr>)
        requires
            old(self).wf(),
        ensures
            final(self).wf(),
            final(self)@ == (NetworkView {
                peers: live_peers(old(self)@.peers, now),
                ..old(self)@
            }),
            forall|a: PeerAddr|
                dead@.contains(a) <==> old(self)@.peers.contains_key(a) && timed_out(
                    old(self)@.peers[a].last_pong,
                    now,
                ),
            forall|a: PeerAddr|
                old(self)@.peers.contains_key(a) && timed_out(old(self)@.peers[a].last_pong, now)
                    ==> !final(self)@.peers.contains_key(a),
    {
        let snapshot = self.get_peers_info();
        let n = snapshot.len();
        let mut dead: Vec<PeerAddr> = Vec::new();
        let mut i: usize = 0;
        while i < n
            invariant
                self.wf(),
                n == snapshot@.len(),
                i <= n,
                distinct_addrs(snapshot@),
                table_of(snapshot@) == old(self)@.peers,
                self@.port == old(self)@.port,
                self@.stats == old(self)@.stats,
                self@.peers == Map::new(
                    |a: PeerAddr|
                        old(self)@.peers.contains_key(a) && !swept(snapshot@, i as int, a, now),
                    |a: PeerAddr| old(self)@.peers[a],
                ),
                forall|a: PeerAddr| dead@.contains(a) <==> swept(snapshot@, i as int, a, now),
            decreases n - i,
        {
            let rec = snapshot[i];
            let ghost before = self@.peers;
            let ghost dead_before = dead@;
            if now > rec.last_pong && now - rec.last_pong > PEER_TIMEOUT_MS {
                self.drop_peer(&rec.addr);
                dead.push(rec.addr);
            }
            proof {
                assert forall|a: PeerAddr| swept(snapshot@, i + 1, a, now) <==> (swept(
                    snapshot@,
                    i as int,
                    a,
                    now,
                ) || (a == rec.addr && timed_out(rec.last_pong, now))) by {
                    if swept(snapshot@, i + 1, a, now) {
                        let j = choose|j: int|
                            0 <= j < i + 1 && (#[trigger] snapshot@[j]).addr == a && timed_out(
                                snapshot@[j].last_pong,
                                now,
                            );
                        if j < i {
                            assert(swept(snapshot@, i as int, a, now));
                        }
                    }
                    if swept(snapshot@, i as int, a, now) {
                        let j = choose|j: int|
                            0 <= j < i && (#[trigger] snapshot@[j]).addr == a && timed_out(
                                snapshot@[j].last_pong,
                                now,
                            );
                        assert(0 <= j < i + 1);
                    }
                    if a == rec.addr && timed_out(rec.last_pong, now) {
                        assert(snapshot@[i as int].addr == a);
                    }
                }
                assert(self@.peers =~= Map::new(
                    |a: PeerAddr|
                        old(self)@.peers.contains_key(a) && !swept(snapshot@, i + 1, a, now),
                    |a: PeerAddr| old(self)@.peers[a],
                ));
                assert forall|a: PeerAddr| dead@.contains(a) <==> swept(
                    snapshot@,
                    i + 1,
                    a,
                    now,
                ) by {
                    if timed_out(rec.last_pong, now) {
                        assert(dead@ =~= dead_before.push(rec.addr));
                        if dead@.contains(a) {
                            let j = choose|j: int| 0 <= j < dead@.len() && dead@[j] == a;
                            if j < dead_before.len() {
                                assert(dead_before[j] == a);
                                assert(dead_before.contains(a));
                            }
                        }
                        if dead_before.contains(a) {
                            let j = choose|j: int| 0 <= j < dead_before.len() && dead_before[j] == a;
                            assert(dead@[j] == a);
                        }
                        if a == rec.addr {
                            assert(dead@[dead@.len() - 1] == a);
                        }
                    }
                }
            }
            i += 1;
        }
        proof {
            assert forall|a: PeerAddr| old(self)@.peers.contains_key(a) implies (swept(
                snapshot@,
                n as int,
                a,
                now,
            ) <==> timed_out(old(self)@.peers[a].last_pong, now)) by {
                let j = choose|j: int| 0 <= j < snapshot@.len() && (#[trigger] snapshot@[j]).addr == a;
                lemma_table_entry(snapshot@, j);
                if swept(snapshot@, n as int, a, now) {
                    let k = choose|k: int|
                        0 <= k < n && (#[trigger] snapshot@[k]).addr == a && timed_out(
                            snapshot@[k].last_pong,
                            now,
                        );
                    assert(k == j);
                }
            }
            assert forall|a: PeerAddr| swept(snapshot@, n as int, a, now) implies old(
                self,
            )@.peers.contains_key(a) by {
                let k = choose|k: int|
                    0 <= k < n && (#[trigger] snapshot@[k]).addr == a && timed_out(
                        snapshot@[k].last_pong,
                        now,
                    );
                lemma_table_entry(snapshot@, k);
            }
            assert(self@.peers =~= live_peers(old(self)@.peers, now));
        }
        dead
    }

    /// The port that the endpoint is bound to.
    pub fn local_port(&self) -> (p: u16)
        ensures
            p == self@.port,
    {
        self.local_port
    }

    /// The counters.
    pub fn get_stats(&self) -> (s: NetworkStats)
        ensures
            s == self@.stats,
    {
        self.stats
    }

    /// Number of peers.
    pub fn peer_count(&self) -> (n: usize)
        requires
            self.wf(),
        ensures
            self@.peers.dom().finite(),
            n == self@.peers.dom().len(),
    {
        proof {
            lemma_table_size(self.peers@);
        }
        self.peers.len()
    }

    /// The record of every peer, each address once.
    pub fn get_peers_info(&self) -> (v: Vec<PeerInfo>)
        requires
            self.wf(),
        ensures
            distinct_addrs(v@),
            table_of(v@) == self@.peers,
    {
        let mut v: Vec<PeerInfo> = Vec::new();
        let n = self.peers.len();
        let mut i: usize = 0;
        while i < n
            invariant
                n == self.peers@.len(),
                i <= n,
                v@ == self.peers@.subrange(0, i as int),
            decreases n - i,
        {
            v.push(self.peers[i]);
            assert(self.peers@.subrange(0, i + 1) =~= self.peers@.subrange(0, i as int).push(
                self.peers@[i as int],
            ));
            i += 1;
        }
        assert(self.peers@.subrange(0, n as int) =~= self.peers@);
        v
    }
}

} // verus!
