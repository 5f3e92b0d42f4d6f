//! Candidate peers on the local host: the ports near the default one and
//! near the node's own.

use vstd::prelude::*;
use crate::addr::PeerAddr;

verus! {

/// The port that a node listens on unless told otherwise.
pub const DEFAULT_PORT: u16 = 42000;

/// Number of ports above the default one that nodes are looked for on.
pub const DEFAULT_PORT_RANGE: u16 = 100;

/// The loopback endpoint with the port `port`.
pub open spec fn local(port: int) -> PeerAddr {
    PeerAddr { ip: 0x7f00_0001, port: port as u16 }
}

/// `s` with `x` appended, unless `s` holds `x` already.
pub open spec fn with_new(s: Seq<PeerAddr>, x: PeerAddr) -> Seq<PeerAddr> {
    if s.contains(x) {
        s
    } else {
        s.push(x)
    }
}

/// `s` with the loopback endpoint of `port` appended, where `port` is a
/// port, is not `own`, and is not in `s` already.
pub open spec fn with_port(s: Seq<PeerAddr>, port: int, own: u16) -> Seq<PeerAddr> {
    if port != own && port <= u16::MAX {
        with_new(s, local(port))
    } else {
        s
    }
}

/// The candidates for a node that listens on `own`: the default port, the
/// three ports after it, and, for a node outside the first ten ports from
/// the default one, the two ports after its own; never its own port, and
/// none twice.
pub open spec fn scan_candidates(own: u16) -> Seq<PeerAddr> {
    let near = with_port(
        with_port(
            with_port(with_port(Seq::empty(), DEFAULT_PORT as int, own), DEFAULT_PORT + 1, own),
            DEFAULT_PORT + 2,
            own,
        ),
        DEFAULT_PORT + 3,
        own,
    );
    if own < DEFAULT_PORT || own >= DEFAULT_PORT + 10 {
        with_port(with_port(near, own + 1, own), own + 2, own)
    } else {
        near
    }
}

/// Whether `list` holds `x`.
pub fn holds_addr(list: &Vec<PeerAddr>, x: &PeerAddr) -> (r: bool)
    ensures
        r == list@.contains(*x),
{
    let n = list.len();
    let mut i: usize = 0;
    while i < n
        invariant
            n == list@.len(),
            i <= n,
            forall|j: int| 0 <= j < i ==> list@[j] != *x,
        decreases n - i,
    {
        if list[i] == *x {
            return true;
        }
        i += 1;
    }
    false
}

/// Appends `x` to `list` unless `list` holds it already. Returns whether it
/// was appended.
pub fn push_new(list: &mut Vec<PeerAddr>, x: PeerAddr) -> (added: bool)
    ensures
        final(list)@ == with_new(old(list)@, x),
        added == !old(list)@.contains(x),
{
    if holds_addr(list, &x) {
        false
    } else {
        list.push(x);
        true
    }
}

/// Lists the endpoints on the local host where other nodes are likely to
/// listen.
pub struct LocalScanner {
    base_port: u16,
    port_range: u16,
}

impl LocalScanner {
    /// The port of the node that scans.
    pub closed spec fn own_port(&self) -> u16 {
        self.base_port
    }

    /// A scanner for the node that listens on `current_port`.
    pub fn new(current_port: u16) -> (s: Self)
        ensures
            s.own_port() == current_port,
    {
        Self { base_port: current_port, port_range: DEFAULT_PORT_RANGE }
    }

    fn offer(&self, list: &mut Vec<PeerAddr>, port: u32)
        ensures
            final(list)@ == with_port(old(list)@, port as int, self.base_port),
    {
        if port != self.base_port as u32 && port <= u16::MAX as u32 {
            push_new(list, PeerAddr::loopback(port as u16));
        }
    }

    /// The candidates on the local host. Nothing is probed: whether a
    /// candidate is alive shows when it is dialled.
    pub fn scan_local_peers(&self) -> (found: Vec<PeerAddr>)
        ensures
            found@ == scan_candidates(self.own_port()),
    {
        let mut discovered: Vec<PeerAddr> = Vec::new();
        self.offer(&mut discovered, DEFAULT_PORT as u32);
        self.offer(&mut discovered, DEFAULT_PORT as u32 + 1);
        self.offer(&mut discovered, DEFAULT_PORT as u32 + 2);
        self.offer(&mut discovered, DEFAULT_PORT as u32 + 3);
        if self.base_port < DEFAULT_PORT || self.base_port >= DEFAULT_PORT + 10 {
            self.offer(&mut discovered, self.base_port as u32 + 1);
            self.offer(&mut discovered, self.base_port as u32 + 2);
        }
        discovered
    }
}

/// A scan never proposes the node's own port, nor a candidate twice.
pub proof fn lemma_scan_candidates(own: u16)
    ensures
        scan_candidates(own).no_duplicates(),
        forall|i: int|
            0 <= i < scan_candidates(own).len() ==> (#[trigger] scan_candidates(own)[i]).port
                != own,
        scan_candidates(own).len() <= 6,
{
    let s0 = Seq::<PeerAddr>::empty();
    let s1 = with_port(s0, DEFAULT_PORT as int, own);
    let s2 = with_port(s1, DEFAULT_PORT + 1, own);
    let s3 = with_port(s2, DEFAULT_PORT + 2, own);
    let s4 = with_port(s3, DEFAULT_PORT + 3, own);
    let s5 = with_port(s4, own + 1, own);
    let s6 = with_port(s5, own + 2, own);
    lemma_with_port(s0, DEFAULT_PORT as int, own);
    lemma_with_port(s1, DEFAULT_PORT + 1, own);
    lemma_with_port(s2, DEFAULT_PORT + 2, own);
    lemma_with_port(s3, DEFAULT_PORT + 3, own);
    lemma_with_port(s4, own + 1, own);
    lemma_with_port(s5, own + 2, own);
}

proof fn lemma_with_port(s: Seq<PeerAddr>, port: int, own: u16)
    requires
        s.no_duplicates(),
        forall|i: int| 0 <= i < s.len() ==> (#[trigger] s[i]).port != own,
        0 <= port,
    ensures
        with_port(s, port, own).no_duplicates(),
        forall|i: int|
            0 <= i < with_port(s, port, own).len() ==> (#[trigger] with_port(s, port, own)[i]).port
                != own,
        with_port(s, port, own).len() <= s.len() + 1,
{
}

} // verus!
