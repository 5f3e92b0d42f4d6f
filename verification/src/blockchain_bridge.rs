//! The transport's side of the bridge: which peer has which identifier, and
//! what to do with what the consensus process asks for.

use vstd::prelude::*;
use crate::addr::PeerAddr;
use crate::ipc::{encode_ipc_message, frame_of, IPCMessage, IpcMessageView, PeerId};
use crate::wire::same_id;

verus! {

/// The port that the bridge listens on for a transport that listens on
/// `local_port`: the next one, if there is a next one.
pub open spec fn bridge_port(local_port: u16) -> Option<u16> {
    if local_port < u16::MAX {
        Some((local_port + 1) as u16)
    } else {
        None
    }
}

/// The port that the bridge listens on, on the loopback interface.
pub fn ipc_port(local_port: u16) -> (p: Option<u16>)
    ensures
        p == bridge_port(local_port),
{
    if local_port < u16::MAX {
        Some(local_port + 1)
    } else {
        None
    }
}

/// A peer's address and identifier.
#[derive(Debug, Clone, Copy, PartialEq, Eq)]
pub struct PeerEntry {
    pub addr: PeerAddr,
    pub id: PeerId,
}

/// What the transport is to do for the consensus process.
#[derive(Debug, PartialEq, Eq)]
pub enum BridgeAction {
    /// Send the payload to every peer.
    Broadcast(Vec<u8>),
    /// Send the payload to the peer at the address.
    SendTo(PeerAddr, Vec<u8>),
    /// Nothing.
    Ignore,
}

/// A `BridgeAction` as a mathematical value.
pub enum BridgeActionView {
    Broadcast(Seq<u8>),
    SendTo(PeerAddr, Seq<u8>),
    Ignore,
}

impl View for BridgeAction {
    type V = BridgeActionView;

    open spec fn view(&self) -> BridgeActionView {
        match self {
            BridgeAction::Broadcast(d) => BridgeActionView::Broadcast(d@),
            BridgeAction::SendTo(a, d) => BridgeActionView::SendTo(*a, d@),
            BridgeAction::Ignore => BridgeActionView::Ignore,
        }
    }
}

/// Whether `entries` says that the peer at `addr` has the identifier `id`.
pub open spec fn maps(entries: Seq<PeerEntry>, addr: PeerAddr, id: Seq<u8>) -> bool {
    exists|i: int|
        0 <= i < entries.len() && (#[trigger] entries[i]).addr == addr && entries[i].id@ == id
}

/// Whether `entries` knows a peer with the identifier `id`.
pub open spec fn knows_id(entries: Seq<PeerEntry>, id: Seq<u8>) -> bool {
    exists|i: int| 0 <= i < entries.len() && (#[trigger] entries[i]).id@ == id
}

/// Whether `entries` knows the peer at `addr`.
pub open spec fn knows_addr(entries: Seq<PeerEntry>, addr: PeerAddr) -> bool {
    exists|i: int| 0 <= i < entries.len() && (#[trigger] entries[i]).addr == addr
}

/// Whether `action` is what `msg` from the consensus process calls for: a
/// broadcast is passed on; a payload for one peer goes to an address of that
/// peer, or to every peer where no address of it is known; anything else is
/// ignored.
pub open spec fn is_bridge_action(
    entries: Seq<PeerEntry>,
    msg: IpcMessageView,
    action: BridgeActionView,
) -> bool {
    match msg {
        IpcMessageView::Broadcast(d) => action == BridgeActionView::Broadcast(d),
        IpcMessageView::SendTo { peer, data } => if knows_id(entries, peer) {
            exists|a: PeerAddr|
                #![trigger maps(entries, a, peer)]
                maps(entries, a, peer) && action == BridgeActionView::SendTo(a, data)
        } else {
            action == BridgeActionView::Broadcast(data)
        },
        _ => action == BridgeActionView::Ignore,
    }
}

/// The bridge as a mathematical value.
pub struct BridgeView {
    /// Whether the listener was handed to the task that accepts clients.
    pub started: bool,
    pub peers: Seq<PeerEntry>,
}

/// The state of the bridge.
pub struct BlockchainBridge {
    started: bool,
    peer_map: Vec<PeerEntry>,
}

impl View for BlockchainBridge {
    type V = BridgeView;

    closed spec fn view(&self) -> BridgeView {
        BridgeView { started: self.started, peers: self.peer_map@ }
    }
}

impl BlockchainBridge {
    /// No address has two entries.
    pub open spec fn wf(&self) -> bool {
        forall|i: int, j: int|
            0 <= i < j < self@.peers.len() ==> self@.peers[i].addr != self@.peers[j].addr
    }

    /// A bridge that is not started and knows no peer.
    pub fn new() -> (b: Self)
        ensures
            b.wf(),
            b@ == (BridgeView { started: false, peers: Seq::empty() }),
    {
        Self { started: false, peer_map: Vec::new() }
    }

    /// Starts the bridge. Returns whether this call is the one that started
    /// it: a bridge that is started already stays as it is.
    pub fn start(&mut self) -> (first: bool)
        ensures
            first == !old(self)@.started,
            final(self)@ == (BridgeView { started: true, ..old(self)@ }),
    {
        let first = !self.started;
        self.started = true;
        first
    }

    /// Stops the bridge.
    pub fn stop(&mut self)
        ensures
            final(self)@ == (BridgeView { started: false, ..old(self)@ }),
    {
        self.started = false;
    }

    fn position(&self, addr: &PeerAddr) -> (r: Option<usize>)
        ensures
            match r {
                Some(i) => i < self@.peers.len() && self@.peers[i as int].addr == *addr,
                None => !knows_addr(self@.peers, *addr),
            },
    {
        let n = self.peer_map.len();
        let mut i: usize = 0;
        while i < n
            invariant
                n == self.peer_map@.len(),
                i <= n,
                forall|j: int| 0 <= j < i ==> (#[trigger] self.peer_map@[j]).addr != *addr,
            decreases n - i,
        {
            if self.peer_map[i].addr == *addr {
                return Some(i);
            }
            i += 1;
        }
        None
    }

    /// Records that the peer at `addr` has the identifier `id`, and returns
    /// the message that tells the consensus process of it.
    pub fn peer_joined(&mut self, addr: PeerAddr, id: PeerId) -> (msg: IPCMessage)
        requires
            old(self).wf(),
        ensures
            final(self).wf(),
            final(self)@.started == old(self)@.started,
            maps(final(self)@.peers, addr, id@),
            forall|a: PeerAddr, p: Seq<u8>|
                a != addr ==> (maps(final(self)@.peers, a, p) <==> maps(old(self)@.peers, a, p)),
            msg@ == IpcMessageView::PeerJoined(id@),
    {
        let entry = PeerEntry { addr, id };
        match self.position(&addr) {
            Some(i) => {
                self.peer_map[i] = entry;
                proof {
                    let before = old(self).peer_map@;
                    let after = self.peer_map@;
                    assert(after[i as int] == entry);
                    assert forall|a: PeerAddr, p: Seq<u8>| a != addr implies (maps(after, a, p)
                        <==> maps(before, a, p)) by {
                        if maps(after, a, p) {
                            let k = choose|k: int|
                                0 <= k < after.len() && (#[trigger] after[k]).addr == a
                                    && after[k].id@ == p;
                            assert(before[k] == after[k]);
                        }
                        if maps(before, a, p) {
                            let k = choose|k: int|
                                0 <= k < before.len() && (#[trigger] before[k]).addr == a
                                    && before[k].id@ == p;
                            assert(before[k] == after[k]);
                        }
                    }
                }
            },
            None => {
                self.peer_map.push(entry);
                proof {
                    let before = old(self).peer_map@;
                    let after = self.peer_map@;
                    assert(after[after.len() - 1] == entry);
                    assert forall|a: PeerAddr, p: Seq<u8>| a != addr implies (maps(after, a, p)
                        <==> maps(before, a, p)) by {
                        if maps(after, a, p) {
                            let k = choose|k: int|
                                0 <= k < after.len() && (#[trigger] after[k]).addr == a
                                    && after[k].id@ == p;
                            assert(before[k] == after[k]);
                        }
                        if maps(before, a, p) {
                            let k = choose|k: int|
                                0 <= k < before.len() && (#[trigger] before[k]).addr == a
                                    && before[k].id@ == p;
                            assert(before[k] == after[k]);
                        }
                    }
                }
            },
        }
        IPCMessage::PeerJoined(id)
    }

    /// Forgets the peer at `addr`, and returns the message that tells the
    /// consensus process of it, if the peer was known.
    pub fn peer_left(&mut self, addr: PeerAddr) -> (msg: Option<IPCMessage>)
        requires
            old(self).wf(),
        ensures
            final(self).wf(),
            final(self)@.started == old(self)@.started,
            !knows_addr(final(self)@.peers, addr),
            forall|a: PeerAddr, p: Seq<u8>|
                a != addr ==> (maps(final(self)@.peers, a, p) <==> maps(old(self)@.peers, a, p)),
            match msg {
                Some(m) => exists|p: Seq<u8>|
                    #![trigger maps(old(self)@.peers, addr, p)]
                    maps(old(self)@.peers, addr, p) && m@ == IpcMessageView::PeerLeft(p),
                None => !knows_addr(old(self)@.peers, addr),
            },
    {
        match self.position(&addr) {
            Some(i) => {
                let entry = self.peer_map.remove(i);
                proof {
                    let before = old(self).peer_map@;
                    let after = self.peer_map@;
                    assert(before[i as int] == entry);
                    assert(maps(before, addr, entry.id@));
                    assert forall|k: int| 0 <= k < after.len() implies (#[trigger] after[k])
                        == before[if k < i { k } else { k + 1 }] by {}
                    assert forall|a: PeerAddr, p: Seq<u8>| a != addr implies (maps(after, a, p)
                        <==> maps(before, a, p)) by {
                        if maps(after, a, p) {
                            let k = choose|k: int|
                                0 <= k < after.len() && (#[trigger] after[k]).addr == a
                                    && after[k].id@ == p;
                            let ok = if k < i { k } else { k + 1 };
                            assert(before[ok] == after[k]);
                        }
                        if maps(before, a, p) {
                            let k = choose|k: int|
                                0 <= k < before.len() && (#[trigger] before[k]).addr == a
                                    && before[k].id@ == p;
                            let nk = if k < i { k } else { k - 1 };
                            assert(after[nk] == before[k]);
                        }
                    }
                    assert forall|k: int| 0 <= k < after.len() implies (#[trigger] after[k]).addr
                        != addr by {
                        let ok = if k < i { k } else { k + 1 };
                        assert(after[k] == before[ok]);
                    }
                }
                Some(IPCMessage::PeerLeft(entry.id))
            },
            None => None,
        }
    }

    /// An address of the peer with the identifier `peer_id`, if one is known.
    pub fn find_peer_address(&self, peer_id: &PeerId) -> (r: Option<PeerAddr>)
        ensures
            match r {
                Some(a) => maps(self@.peers, a, peer_id@),
                None => !knows_id(self@.peers, peer_id@),
            },
    {
        let n = self.peer_map.len();
        let mut i: usize = 0;
        while i < n
            invariant
                n == self.peer_map@.len(),
                i <= n,
                forall|j: int| 0 <= j < i ==> (#[trigger] self.peer_map@[j]).id@ != peer_id@,
            decreases n - i,
        {
            if same_id(&self.peer_map[i].id, peer_id) {
                return Some(self.peer_map[i].addr);
            }
            i += 1;
        }
        None
    }

    /// Decides what the transport does for the message `msg` of the
    /// consensus process.
    pub fn handle_blockchain_message(&self, msg: IPCMessage) -> (action: BridgeAction)
        ensures
            is_bridge_action(self@.peers, msg@, action@),
    {
        match msg {
            IPCMessage::Broadcast(data) => BridgeAction::Broadcast(data),
            IPCMessage::SendTo { peer, data } => match self.find_peer_address(&peer) {
                Some(addr) => {
                    proof {
                        let k = choose|k: int|
                            0 <= k < self@.peers.len() && (#[trigger] self@.peers[k]).addr == addr
                                && self@.peers[k].id@ == peer@;
                        assert(self@.peers[k].id@ == peer@);
                    }
                    BridgeAction::SendTo(addr, data)
                },
                None => BridgeAction::Broadcast(data),
            },
            _ => BridgeAction::Ignore,
        }
    }

    /// The frame that hands the payload `data`, received from the peer
    /// `from`, to the consensus process; `None` when it is too long for a
    /// frame.
    pub fn forward(from: PeerId, data: Vec<u8>) -> (r: Option<Vec<u8>>)
        ensures
            r is Some <==> encode_ipc_message(
                IpcMessageView::PeerMessage { from: from@, data: data@ },
            ).len() <= u32::MAX,
            r is Some ==> r->0@ == frame_of(
                encode_ipc_message(IpcMessageView::PeerMessage { from: from@, data: data@ }),
            ),
    {
        IPCMessage::PeerMessage { from, data }.to_frame()
    }
}

} // verus!
