//! The bridge protocol between the transport process and the consensus
//! process: messages in frames of a 4-byte big-endian length and a payload.

use vstd::prelude::*;
use vstd::slice::slice_subrange;
use crate::node_id::be_value;
use crate::wire::{
    be_bytes, lemma_take_put_bytes, lemma_take_put_id, lemma_take_put_u32,
    put_be, put_bytes, put_bytes_spec, put_id, put_slice, put_u32, put_u32_spec, read_bytes,
    read_id, read_u32, take_bytes, take_id, take_u32,
};

verus! {

/// The identifier of a peer on the bridge.
pub type PeerId = [u8; 32];

/// Number of bytes of a frame's length field.
pub const FRAME_HEADER_LEN: usize = 4;

/// What the two processes send each other.
#[derive(Debug, Clone, PartialEq, Eq)]
pub enum IPCMessage {
    /// A payload that a peer sent, for the consensus process.
    PeerMessage { from: PeerId, data: Vec<u8> },
    /// A peer joined, for the consensus process.
    PeerJoined(PeerId),
    /// A peer left, for the consensus process.
    PeerLeft(PeerId),
    /// A payload for every peer, for the transport process.
    Broadcast(Vec<u8>),
    /// A payload for one peer, for the transport process.
    SendTo { peer: PeerId, data: Vec<u8> },
}

/// An `IPCMessage` as a mathematical value.
pub enum IpcMessageView {
    PeerMessage { from: Seq<u8>, data: Seq<u8> },
    PeerJoined(Seq<u8>),
    PeerLeft(Seq<u8>),
    Broadcast(Seq<u8>),
    SendTo { peer: Seq<u8>, data: Seq<u8> },
}

impl View for IPCMessage {
    type V = IpcMessageView;

    open spec fn view(&self) -> IpcMessageView {
        match self {
            IPCMessage::PeerMessage { from, data } => IpcMessageView::PeerMessage {
                from: from@,
                data: data@,
            },
            IPCMessage::PeerJoined(p) => IpcMessageView::PeerJoined(p@),
            IPCMessage::PeerLeft(p) => IpcMessageView::PeerLeft(p@),
            IPCMessage::Broadcast(d) => IpcMessageView::Broadcast(d@),
            IPCMessage::SendTo { peer, data } => IpcMessageView::SendTo { peer: peer@, data: data@ },
        }
    }
}

/// The bytes of a bridge message: a 32-bit variant number, then the fields.
pub open spec fn encode_ipc_message(m: IpcMessageView) -> Seq<u8> {
    match m {
        IpcMessageView::PeerMessage { from, data } => put_u32_spec(0) + from + put_bytes_spec(data),
        IpcMessageView::PeerJoined(p) => put_u32_spec(1) + p,
        IpcMessageView::PeerLeft(p) => put_u32_spec(2) + p,
        IpcMessageView::Broadcast(d) => put_u32_spec(3) + put_bytes_spec(d),
        IpcMessageView::SendTo { peer, data } => put_u32_spec(4) + peer + put_bytes_spec(data),
    }
}

/// The bridge message that `s` starts with, if it starts with one. Bytes
/// after it are ignored.
pub open spec fn decode_ipc_message(s: Seq<u8>) -> Option<IpcMessageView> {
    match take_u32(s) {
        Some((tag, body)) => if tag == 0 || tag == 4 {
            match take_id(body) {
                Some((id, rest)) => match take_bytes(rest) {
                    Some((data, _)) => if tag == 0 {
                        Some(IpcMessageView::PeerMessage { from: id, data })
                    } else {
                        Some(IpcMessageView::SendTo { peer: id, data })
                    },
                    None => None,
                },
                None => None,
            }
        } else if tag == 1 || tag == 2 {
            match take_id(body) {
                Some((id, _)) => if tag == 1 {
                    Some(IpcMessageView::PeerJoined(id))
                } else {
                    Some(IpcMessageView::PeerLeft(id))
                },
                None => None,
            }
        } else if tag == 3 {
            match take_bytes(body) {
                Some((data, _)) => Some(IpcMessageView::Broadcast(data)),
                None => None,
            }
        } else {
            None
        },
        None => None,
    }
}

/// Whether the identifier in `m` has 32 bytes and the payload's length fits
/// the 64-bit length field, as in every `IPCMessage`.
pub open spec fn ipc_message_fits(m: IpcMessageView) -> bool {
    match m {
        IpcMessageView::PeerMessage { from, data } => from.len() == 32 && data.len() <= u64::MAX,
        IpcMessageView::PeerJoined(p) => p.len() == 32,
        IpcMessageView::PeerLeft(p) => p.len() == 32,
        IpcMessageView::Broadcast(d) => d.len() <= u64::MAX,
        IpcMessageView::SendTo { peer, data } => peer.len() == 32 && data.len() <= u64::MAX,
    }
}

/// Decoding the bytes of a bridge message gives the message back, whatever
/// follows them.
pub proof fn lemma_ipc_message_round_trip(m: IpcMessageView, tail: Seq<u8>)
    requires
        ipc_message_fits(m),
    ensures
        decode_ipc_message(encode_ipc_message(m) + tail) == Some(m),
{
    match m {
        IpcMessageView::PeerMessage { from, data } => {
            let r2 = put_bytes_spec(data) + tail;
            let r1 = from + r2;
            assert(encode_ipc_message(m) + tail =~= put_u32_spec(0) + r1);
            lemma_take_put_u32(0, r1);
            lemma_take_put_id(from, r2);
            lemma_take_put_bytes(data, tail);
        },
        IpcMessageView::PeerJoined(p) => {
            assert(encode_ipc_message(m) + tail =~= put_u32_spec(1) + (p + tail));
            lemma_take_put_u32(1, p + tail);
            lemma_take_put_id(p, tail);
        },
        IpcMessageView::PeerLeft(p) => {
            assert(encode_ipc_message(m) + tail =~= put_u32_spec(2) + (p + tail));
            lemma_take_put_u32(2, p + tail);
            lemma_take_put_id(p, tail);
        },
        IpcMessageView::Broadcast(d) => {
            assert(encode_ipc_message(m) + tail =~= put_u32_spec(3) + (put_bytes_spec(d) + tail));
            lemma_take_put_u32(3, put_bytes_spec(d) + tail);
            lemma_take_put_bytes(d, tail);
        },
        IpcMessageView::SendTo { peer, data } => {
            let r2 = put_bytes_spec(data) + tail;
            let r1 = peer + r2;
            assert(encode_ipc_message(m) + tail =~= put_u32_spec(4) + r1);
            lemma_take_put_u32(4, r1);
            lemma_take_put_id(peer, r2);
            lemma_take_put_bytes(data, tail);
        },
    }
}

impl IPCMessage {
    /// The bytes of the message.
    pub fn encode(&self) -> (out: Vec<u8>)
        ensures
            out@ == encode_ipc_message(self@),
            ipc_message_fits(self@),
    {
        let mut out: Vec<u8> = Vec::new();
        assert(usize::MAX <= u64::MAX);
        match self {
            IPCMessage::PeerMessage { from, data } => {
                put_u32(&mut out, 0);
                put_id(&mut out, from);
                put_bytes(&mut out, data.as_slice());
                assert(data@.len() == data.len());
            },
            IPCMessage::PeerJoined(p) => {
                put_u32(&mut out, 1);
                put_id(&mut out, p);
            },
            IPCMessage::PeerLeft(p) => {
                put_u32(&mut out, 2);
                put_id(&mut out, p);
            },
            IPCMessage::Broadcast(d) => {
                put_u32(&mut out, 3);
                put_bytes(&mut out, d.as_slice());
                assert(d@.len() == d.len());
            },
            IPCMessage::SendTo { peer, data } => {
                put_u32(&mut out, 4);
                put_id(&mut out, peer);
                put_bytes(&mut out, data.as_slice());
                assert(data@.len() == data.len());
            },
        }
        assert(out@ =~= encode_ipc_message(self@));
        out
    }

    /// Reads the message at the start of `bytes`; `None` when the bytes do
    /// not start with one.
    pub fn decode(bytes: &[u8]) -> (r: Option<IPCMessage>)
        ensures
            match r {
                Some(m) => decode_ipc_message(bytes@) == Some(m@),
                None => decode_ipc_message(bytes@) is None,
            },
    {
        assert(bytes@.skip(0) =~= bytes@);
        let (tag, p1) = match read_u32(bytes, 0) {
            Some(x) => x,
            None => {
                return None;
            },
        };
        if tag == 0 || tag == 4 {
            let (id, p2) = match read_id(bytes, p1) {
                Some(x) => x,
                None => {
                    return None;
                },
            };
            match read_bytes(bytes, p2) {
                Some((data, _)) => if tag == 0 {
                    Some(IPCMessage::PeerMessage { from: id, data })
                } else {
                    Some(IPCMessage::SendTo { peer: id, data })
                },
                None => None,
            }
        } else if tag == 1 || tag == 2 {
            match read_id(bytes, p1) {
                Some((id, _)) => if tag == 1 {
                    Some(IPCMessage::PeerJoined(id))
                } else {
                    Some(IPCMessage::PeerLeft(id))
                },
                None => None,
            }
        } else if tag == 3 {
            match read_bytes(bytes, p1) {
                Some((data, _)) => Some(IPCMessage::Broadcast(data)),
                None => None,
            }
        } else {
            None
        }
    }

    /// The frame that carries the message; `None` when the message is too
    /// long for one.
    pub fn to_frame(&self) -> (r: Option<Vec<u8>>)
        ensures
            r is Some <==> encode_ipc_message(self@).len() <= u32::MAX,
            r is Some ==> r->0@ == frame_of(encode_ipc_message(self@)),
    {
        let payload = self.encode();
        frame(payload.as_slice())
    }
}

/// The frame that carries `payload`: its length as four big-endian bytes,
/// then the payload.
pub open spec fn frame_of(payload: Seq<u8>) -> Seq<u8> {
    be_bytes(payload.len(), 4) + payload
}

/// The payload of the frame that `buf` starts with, if the whole frame is
/// there.
pub open spec fn first_frame(buf: Seq<u8>) -> Option<Seq<u8>> {
    if buf.len() >= 4 && buf.len() - 4 >= be_value(buf.subrange(0, 4)) {
        Some(buf.subrange(4, 4 + be_value(buf.subrange(0, 4)) as int))
    } else {
        None
    }
}

/// Four big-endian bytes denote the number they were made from.
pub proof fn lemma_be_value_of_be_bytes(x: nat)
    requires
        x <= u32::MAX,
    ensures
        be_bytes(x, 4).len() == 4,
        be_value(be_bytes(x, 4)) == x,
{
    let b3 = be_bytes(x / 256 / 256 / 256 / 256, 0);
    let b2 = be_bytes(x / 256 / 256 / 256, 1);
    let b1 = be_bytes(x / 256 / 256, 2);
    let b0 = be_bytes(x / 256, 3);
    let b = be_bytes(x, 4);
    assert(b3.len() == 0);
    assert(b2 == b3.push(((x / 256 / 256 / 256) % 256) as u8));
    assert(b1 == b2.push(((x / 256 / 256) % 256) as u8));
    assert(b0 == b1.push(((x / 256) % 256) as u8));
    assert(b == b0.push((x % 256) as u8));
    assert(b2.drop_last() =~= b3);
    assert(b1.drop_last() =~= b2);
    assert(b0.drop_last() =~= b1);
    assert(b.drop_last() =~= b0);
    assert(be_value(b3) == 0);
    assert(be_value(b2) == x / 256 / 256 / 256);
    assert(be_value(b1) == x / 256 / 256);
    assert(be_value(b0) == x / 256);
}

/// The first frame of a frame followed by anything is that frame's payload.
pub proof fn lemma_frame_round_trip(payload: Seq<u8>, tail: Seq<u8>)
    requires
        payload.len() <= u32::MAX,
    ensures
        first_frame(frame_of(payload) + tail) == Some(payload),
{
    lemma_be_value_of_be_bytes(payload.len());
    let buf = frame_of(payload) + tail;
    assert(buf.subrange(0, 4) =~= be_bytes(payload.len(), 4));
    assert(buf.subrange(4, 4 + payload.len() as int) =~= payload);
}

/// Puts `payload` into a frame; `None` when it is longer than a frame's
/// length field can say.
pub fn frame(payload: &[u8]) -> (r: Option<Vec<u8>>)
    ensures
        r is Some <==> payload@.len() <= u32::MAX,
        r is Some ==> r->0@ == frame_of(payload@),
{
    if payload.len() > u32::MAX as usize {
        return None;
    }
    let mut out: Vec<u8> = Vec::new();
    put_be(&mut out, payload.len() as u128, 4);
    put_slice(&mut out, payload);
    Some(out)
}

/// The length that the four bytes of a frame header announce.
pub fn frame_len(header: &[u8; 4]) -> (n: u32)
    ensures
        n == be_value(header@),
{
    let n: u32 = (header[0] as u32) * 0x100_0000 + (header[1] as u32) * 0x1_0000 + (
    header[2] as u32) * 0x100 + (header[3] as u32);
    proof {
        let s = header@;
        let s3 = s.drop_last();
        let s2 = s3.drop_last();
        let s1 = s2.drop_last();
        assert(s1.drop_last().len() == 0);
        assert(be_value(s1.drop_last()) == 0);
        assert(be_value(s1) == s[0]);
        assert(be_value(s2) == s[0] * 256 + s[1]);
        assert(be_value(s3) == (s[0] * 256 + s[1]) * 256 + s[2]);
    }
    n
}

/// Takes the first frame off the front of `buf`, if the whole frame is
/// there: its payload and the number of bytes that the frame took.
pub fn split_frame(buf: &[u8]) -> (r: Option<(Vec<u8>, usize)>)
    ensures
        match r {
            Some((payload, used)) => first_frame(buf@) == Some(payload@) && used == 4
                + payload@.len() && used <= buf@.len(),
            None => first_frame(buf@) is None,
        },
{
    if buf.len() < 4 {
        return None;
    }
    let header = [buf[0], buf[1], buf[2], buf[3]];
    assert(header@ =~= buf@.subrange(0, 4));
    let n = frame_len(&header);
    if ((buf.len() - 4) as u64) < (n as u64) {
        return None;
    }
    let len = n as usize;
    let mut payload: Vec<u8> = Vec::new();
    put_slice(&mut payload, slice_subrange(buf, 4, 4 + len));
    assert(payload@ =~= buf@.subrange(4, 4 + len));
    Some((payload, 4 + len))
}

} // verus!
