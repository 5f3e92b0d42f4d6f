//! The envelope that travels between peers, one per sub-stream.

use vstd::prelude::*;
use vstd::utf8::encode_utf8;
use crate::wire::{
    lemma_take_put_bytes, lemma_take_put_text, lemma_take_put_u32, lemma_take_put_u64, put_bytes,
    put_bytes_spec, put_text, put_text_spec, put_u32, put_u32_spec, put_u64, put_u64_spec,
    read_bytes, read_text, read_u32, read_u64, take_bytes, take_text, take_u32, take_u64,
};

verus! {

/// Most bytes that one envelope may take on the wire: 1 MiB.
pub const MAX_MESSAGE_LEN: usize = 1048576;

/// What peers send each other.
#[derive(Debug, Clone, PartialEq, Eq)]
pub enum Message {
    /// A liveness probe with a unique `id` and the sender's clock in
    /// milliseconds.
    Ping { id: String, timestamp: u64 },
    /// The answer to a `Ping`, with the same `id` and `timestamp`.
    Pong { id: String, timestamp: u64 },
    /// An opaque payload for the layer above.
    Data(Vec<u8>),
}

/// A `Message` as a mathematical value.
pub enum MessageView {
    Ping { id: Seq<char>, timestamp: u64 },
    Pong { id: Seq<char>, timestamp: u64 },
    Data(Seq<u8>),
}

impl View for Message {
    type V = MessageView;

    open spec fn view(&self) -> MessageView {
        match self {
            Message::Ping { id, timestamp } => MessageView::Ping { id: id@, timestamp: *timestamp },
            Message::Pong { id, timestamp } => MessageView::Pong { id: id@, timestamp: *timestamp },
            Message::Data(d) => MessageView::Data(d@),
        }
    }
}

/// The bytes of an envelope: a 32-bit variant number, then the fields.
pub open spec fn encode_message(m: MessageView) -> Seq<u8> {
    match m {
        MessageView::Ping { id, timestamp } => put_u32_spec(0) + put_text_spec(id) + put_u64_spec(
            timestamp,
        ),
        MessageView::Pong { id, timestamp } => put_u32_spec(1) + put_text_spec(id) + put_u64_spec(
            timestamp,
        ),
        MessageView::Data(d) => put_u32_spec(2) + put_bytes_spec(d),
    }
}

/// The envelope that `s` starts with, if it starts with one. Bytes after it
/// are ignored.
pub open spec fn decode_message(s: Seq<u8>) -> Option<MessageView> {
    match take_u32(s) {
        Some((tag, fields)) => if tag == 0 || tag == 1 {
            match take_text(fields) {
                Some((id, rest)) => match take_u64(rest) {
                    Some((timestamp, _)) => if tag == 0 {
                        Some(MessageView::Ping { id, timestamp })
                    } else {
                        Some(MessageView::Pong { id, timestamp })
                    },
                    None => None,
                },
                None => None,
            }
        } else if tag == 2 {
            match take_bytes(fields) {
                Some((d, _)) => Some(MessageView::Data(d)),
                None => None,
            }
        } else {
            None
        },
        None => None,
    }
}

/// Whether every length in `m` fits the 64-bit length field.
pub open spec fn message_fits(m: MessageView) -> bool {
    match m {
        MessageView::Ping { id, timestamp } => encode_utf8(id).len() <= u64::MAX,
        MessageView::Pong { id, timestamp } => encode_utf8(id).len() <= u64::MAX,
        MessageView::Data(d) => d.len() <= u64::MAX,
    }
}

/// Decoding the bytes of an envelope gives the envelope back, whatever
/// follows them.
pub proof fn lemma_message_round_trip(m: MessageView, tail: Seq<u8>)
    requires
        message_fits(m),
    ensures
        decode_message(encode_message(m) + tail) == Some(m),
{
    match m {
        MessageView::Ping { id, timestamp } => {
            let f = put_text_spec(id) + put_u64_spec(timestamp) + tail;
            lemma_take_put_u32(0, f);
            lemma_take_put_text(id, put_u64_spec(timestamp) + tail);
            lemma_take_put_u64(timestamp, tail);
            assert(encode_message(m) + tail =~= put_u32_spec(0) + f);
            assert(f =~= put_text_spec(id) + (put_u64_spec(timestamp) + tail));
        },
        MessageView::Pong { id, timestamp } => {
            let f = put_text_spec(id) + put_u64_spec(timestamp) + tail;
            lemma_take_put_u32(1, f);
            lemma_take_put_text(id, put_u64_spec(timestamp) + tail);
            lemma_take_put_u64(timestamp, tail);
            assert(encode_message(m) + tail =~= put_u32_spec(1) + f);
            assert(f =~= put_text_spec(id) + (put_u64_spec(timestamp) + tail));
        },
        MessageView::Data(d) => {
            let f = put_bytes_spec(d) + tail;
            lemma_take_put_u32(2, f);
            lemma_take_put_bytes(d, tail);
            assert(encode_message(m) + tail =~= put_u32_spec(2) + f);
        },
    }
}

impl Message {
    /// The bytes of the envelope.
    pub fn encode(&self) -> (out: Vec<u8>)
        ensures
            out@ == encode_message(self@),
            message_fits(self@),
    {
        let mut out: Vec<u8> = Vec::new();
        match self {
            Message::Ping { id, timestamp } => {
                put_u32(&mut out, 0);
                put_text(&mut out, id.as_str());
                put_u64(&mut out, *timestamp);
            },
            Message::Pong { id, timestamp } => {
                put_u32(&mut out, 1);
                put_text(&mut out, id.as_str());
                put_u64(&mut out, *timestamp);
            },
            Message::Data(d) => {
                put_u32(&mut out, 2);
                put_bytes(&mut out, d.as_slice());
                assert(d@.len() == d.len());
            },
        }
        assert(usize::MAX <= u64::MAX);
        assert(out@ =~= encode_message(self@));
        out
    }

    /// Reads the envelope at the start of `bytes`; `None` when the bytes do
    /// not start with one.
    pub fn decode(bytes: &[u8]) -> (r: Option<Message>)
        ensures
            match r {
                Some(m) => decode_message(bytes@) == Some(m@),
                None => decode_message(bytes@) is None,
            },
    {
        assert(bytes@.skip(0) =~= bytes@);
        let (tag, p1) = match read_u32(bytes, 0) {
            Some(x) => x,
            None => {
                return None;
            },
        };
        if tag == 0 || tag == 1 {
            let (id, p2) = match read_text(bytes, p1) {
                Some(x) => x,
                None => {
                    return None;
                },
            };
            let (timestamp, _) = match read_u64(bytes, p2) {
                Some(x) => x,
                None => {
                    return None;
                },
            };
            if tag == 0 {
                Some(Message::Ping { id, timestamp })
            } else {
                Some(Message::Pong { id, timestamp })
            }
        } else if tag == 2 {
            match read_bytes(bytes, p1) {
                Some((d, _)) => Some(Message::Data(d)),
                None => None,
            }
        } else {
            None
        }
    }
}

} // verus!
