//! The byte layout that messages are written in: fixed-width little-endian
//! integers, byte strings and texts behind a 64-bit length, and 32-byte
//! identifiers written as they are.
//!
//! Each `put_*` function appends one value to a buffer, and each `read_*`
//! function reads one back from a position, so that reading what was put
//! gives the value and the position just past it.

use vstd::bytes::{
    lemma_auto_spec_u32_to_from_le_bytes, lemma_auto_spec_u64_to_from_le_bytes,
    spec_u32_from_le_bytes, spec_u32_to_le_bytes, spec_u64_from_le_bytes, spec_u64_to_le_bytes,
    u32_from_le_bytes, u32_to_le_bytes, u64_from_le_bytes, u64_to_le_bytes,
};
use vstd::prelude::*;
use vstd::slice::slice_subrange;
use vstd::utf8::{decode_utf8, encode_utf8, encode_utf8_decode_utf8, encode_utf8_valid_utf8, valid_utf8};

verus! {

/// The bytes of a 32-bit number.
pub open spec fn put_u32_spec(v: u32) -> Seq<u8> {
    spec_u32_to_le_bytes(v)
}

/// The bytes of a 64-bit number.
pub open spec fn put_u64_spec(v: u64) -> Seq<u8> {
    spec_u64_to_le_bytes(v)
}

/// The bytes of a byte string: its length as a 64-bit number, then its bytes.
pub open spec fn put_bytes_spec(b: Seq<u8>) -> Seq<u8> {
    put_u64_spec(b.len() as u64) + b
}

/// The bytes of a text: its UTF-8 form as a byte string.
pub open spec fn put_text_spec(t: Seq<char>) -> Seq<u8> {
    put_bytes_spec(encode_utf8(t))
}

/// The `n` low bytes of `x`, the most significant first.
pub open spec fn be_bytes(x: nat, n: nat) -> Seq<u8>
    decreases n,
{
    if n == 0 {
        Seq::empty()
    } else {
        be_bytes(x / 256, (n - 1) as nat).push((x % 256) as u8)
    }
}

/// Takes a 32-bit number from the front of `s`.
pub open spec fn take_u32(s: Seq<u8>) -> Option<(u32, Seq<u8>)> {
    if s.len() >= 4 {
        Some((spec_u32_from_le_bytes(s.subrange(0, 4)), s.skip(4)))
    } else {
        None
    }
}

/// Takes a 64-bit number from the front of `s`.
pub open spec fn take_u64(s: Seq<u8>) -> Option<(u64, Seq<u8>)> {
    if s.len() >= 8 {
        Some((spec_u64_from_le_bytes(s.subrange(0, 8)), s.skip(8)))
    } else {
        None
    }
}

/// Takes 32 bytes from the front of `s`.
pub open spec fn take_id(s: Seq<u8>) -> Option<(Seq<u8>, Seq<u8>)> {
    if s.len() >= 32 {
        Some((s.subrange(0, 32), s.skip(32)))
    } else {
        None
    }
}

/// Takes a byte string from the front of `s`.
pub open spec fn take_bytes(s: Seq<u8>) -> Option<(Seq<u8>, Seq<u8>)> {
    match take_u64(s) {
        Some((n, rest)) => if n <= rest.len() {
            Some((rest.subrange(0, n as int), rest.skip(n as int)))
        } else {
            None
        },
        None => None,
    }
}

/// Takes a text from the front of `s`.
pub open spec fn take_text(s: Seq<u8>) -> Option<(Seq<char>, Seq<u8>)> {
    match take_bytes(s) {
        Some((b, rest)) => if valid_utf8(b) {
            Some((decode_utf8(b), rest))
        } else {
            None
        },
        None => None,
    }
}

/// Taking a 32-bit number gives back what was put.
pub proof fn lemma_take_put_u32(v: u32, rest: Seq<u8>)
    ensures
        put_u32_spec(v).len() == 4,
        take_u32(put_u32_spec(v) + rest) == Some((v, rest)),
{
    lemma_auto_spec_u32_to_from_le_bytes();
    let s = put_u32_spec(v) + rest;
    assert(s.subrange(0, 4) =~= put_u32_spec(v));
    assert(s.skip(4) =~= rest);
}

/// Taking a 64-bit number gives back what was put.
pub proof fn lemma_take_put_u64(v: u64, rest: Seq<u8>)
    ensures
        put_u64_spec(v).len() == 8,
        take_u64(put_u64_spec(v) + rest) == Some((v, rest)),
{
    lemma_auto_spec_u64_to_from_le_bytes();
    let s = put_u64_spec(v) + rest;
    assert(s.subrange(0, 8) =~= put_u64_spec(v));
    assert(s.skip(8) =~= rest);
}

/// Taking an identifier gives back what was put.
pub proof fn lemma_take_put_id(id: Seq<u8>, rest: Seq<u8>)
    requires
        id.len() == 32,
    ensures
        take_id(id + rest) == Some((id, rest)),
{
    let s = id + rest;
    assert(s.subrange(0, 32) =~= id);
    assert(s.skip(32) =~= rest);
}

/// Taking a byte string gives back what was put.
pub proof fn lemma_take_put_bytes(b: Seq<u8>, rest: Seq<u8>)
    requires
        b.len() <= u64::MAX,
    ensures
        take_bytes(put_bytes_spec(b) + rest) == Some((b, rest)),
{
    lemma_take_put_u64(b.len() as u64, b + rest);
    assert(put_bytes_spec(b) + rest =~= put_u64_spec(b.len() as u64) + (b + rest));
    assert((b + rest).subrange(0, b.len() as int) =~= b);
    assert((b + rest).skip(b.len() as int) =~= rest);
}

/// Taking a text gives back what was put.
pub proof fn lemma_take_put_text(t: Seq<char>, rest: Seq<u8>)
    requires
        encode_utf8(t).len() <= u64::MAX,
    ensures
        take_text(put_text_spec(t) + rest) == Some((t, rest)),
{
    lemma_take_put_bytes(encode_utf8(t), rest);
    encode_utf8_valid_utf8(t);
    encode_utf8_decode_utf8(t);
}

/// Appends the bytes of `s` to `out`.
pub fn put_slice(out: &mut Vec<u8>, s: &[u8])
    ensures
        final(out)@ == old(out)@ + s@,
{
    let n = s.len();
    let mut i: usize = 0;
    while i < n
        invariant
            n == s@.len(),
            i <= n,
            out@ == old(out)@ + s@.subrange(0, i as int),
        decreases n - i,
    {
        out.push(s[i]);
        assert(s@.subrange(0, i + 1) =~= s@.subrange(0, i as int).push(s@[i as int]));
        assert(out@ =~= old(out)@ + s@.subrange(0, i + 1));
        i += 1;
    }
    assert(s@.subrange(0, n as int) =~= s@);
}

/// Appends the `n` low bytes of `x`, the most significant first.
pub fn put_be(out: &mut Vec<u8>, x: u128, n: usize)
    ensures
        final(out)@ == old(out)@ + be_bytes(x as nat, n as nat),
    decreases n,
{
    if n > 0 {
        put_be(out, x / 256, n - 1);
        out.push((x % 256) as u8);
    }
    assert(final(out)@ =~= old(out)@ + be_bytes(x as nat, n as nat));
}

/// Whether two 32-byte identifiers are the same.
pub fn same_id(a: &[u8; 32], b: &[u8; 32]) -> (r: bool)
    ensures
        r == (a@ == b@),
{
    let mut i: usize = 0;
    while i < 32
        invariant
            i <= 32,
            forall|j: int| 0 <= j < i ==> a[j] == b[j],
        decreases 32 - i,
    {
        if a[i] != b[i] {
            return false;
        }
        i += 1;
    }
    assert(a@ =~= b@);
    true
}

/// Appends a 32-bit number.
pub fn put_u32(out: &mut Vec<u8>, v: u32)
    ensures
        final(out)@ == old(out)@ + put_u32_spec(v),
{
    let b = u32_to_le_bytes(v);
    put_slice(out, b.as_slice());
}

/// Appends a 64-bit number.
pub fn put_u64(out: &mut Vec<u8>, v: u64)
    ensures
        final(out)@ == old(out)@ + put_u64_spec(v),
{
    let b = u64_to_le_bytes(v);
    put_slice(out, b.as_slice());
}

/// Appends a 32-byte identifier.
pub fn put_id(out: &mut Vec<u8>, id: &[u8; 32])
    ensures
        final(out)@ == old(out)@ + id@,
{
    put_slice(out, id.as_slice());
}

/// Appends a byte string behind its length.
pub fn put_bytes(out: &mut Vec<u8>, b: &[u8])
    ensures
        final(out)@ == old(out)@ + put_bytes_spec(b@),
{
    put_u64(out, b.len() as u64);
    put_slice(out, b);
    assert(final(out)@ =~= old(out)@ + put_bytes_spec(b@));
}

/// Appends a text behind the length of its UTF-8 form.
pub fn put_text(out: &mut Vec<u8>, t: &str)
    ensures
        final(out)@ == old(out)@ + put_text_spec(t@),
        encode_utf8(t@).len() <= usize::MAX,
{
    let b = t.as_bytes();
    let _ = b.len();
    put_bytes(out, b);
}

/// Reads a 32-bit number at `pos`: the number and the position after it.
pub fn read_u32(data: &[u8], pos: usize) -> (r: Option<(u32, usize)>)
    requires
        pos <= data@.len(),
    ensures
        match r {
            Some((v, next)) => pos <= next <= data@.len() && take_u32(data@.skip(pos as int))
                == Some((v, data@.skip(next as int))),
            None => take_u32(data@.skip(pos as int)) is None,
        },
{
    if data.len() - pos < 4 {
        return None;
    }
    let v = u32_from_le_bytes(slice_subrange(data, pos, pos + 4));
    proof {
        let s = data@.skip(pos as int);
        assert(s.subrange(0, 4) =~= data@.subrange(pos as int, pos + 4));
        assert(s.skip(4) =~= data@.skip(pos + 4));
    }
    Some((v, pos + 4))
}

/// Reads a 64-bit number at `pos`: the number and the position after it.
pub fn read_u64(data: &[u8], pos: usize) -> (r: Option<(u64, usize)>)
    requires
        pos <= data@.len(),
    ensures
        match r {
            Some((v, next)) => pos <= next <= data@.len() && take_u64(data@.skip(pos as int))
                == Some((v, data@.skip(next as int))),
            None => take_u64(data@.skip(pos as int)) is None,
        },
{
    if data.len() - pos < 8 {
        return None;
    }
    let v = u64_from_le_bytes(slice_subrange(data, pos, pos + 8));
    proof {
        let s = data@.skip(pos as int);
        assert(s.subrange(0, 8) =~= data@.subrange(pos as int, pos + 8));
        assert(s.skip(8) =~= data@.skip(pos + 8));
    }
    Some((v, pos + 8))
}

/// Reads a 32-byte identifier at `pos`: the identifier and the position after
/// it.
pub fn read_id(data: &[u8], pos: usize) -> (r: Option<([u8; 32], usize)>)
    requires
        pos <= data@.len(),
    ensures
        match r {
            Some((v, next)) => pos <= next <= data@.len() && take_id(data@.skip(pos as int))
                == Some((v@, data@.skip(next as int))),
            None => take_id(data@.skip(pos as int)) is None,
        },
{
    if data.len() - pos < 32 {
        return None;
    }
    let mut id = [0u8; 32];
    let mut i: usize = 0;
    while i < 32
        invariant
            i <= 32,
            pos + 32 <= data.len(),
            forall|j: int| 0 <= j < i ==> id[j] == data@[pos + j],
        decreases 32 - i,
    {
        id[i] = data[pos + i];
        i += 1;
    }
    proof {
        let s = data@.skip(pos as int);
        assert(s.subrange(0, 32) =~= id@);
        assert(s.skip(32) =~= data@.skip(pos + 32));
    }
    Some((id, pos + 32))
}

/// Reads a byte string at `pos`: the bytes and the position after them.
pub fn read_bytes(data: &[u8], pos: usize) -> (r: Option<(Vec<u8>, usize)>)
    requires
        pos <= data@.len(),
    ensures
        match r {
            Some((v, next)) => pos <= next <= data@.len() && take_bytes(data@.skip(pos as int))
                == Some((v@, data@.skip(next as int))),
            None => take_bytes(data@.skip(pos as int)) is None,
        },
{
    let (n, start) = match read_u64(data, pos) {
        Some(x) => x,
        None => {
            return None;
        },
    };
    if n > (data.len() - start) as u64 {
        return None;
    }
    let len = n as usize;
    let mut v: Vec<u8> = Vec::new();
    put_slice(&mut v, slice_subrange(data, start, start + len));
    proof {
        let rest = data@.skip(start as int);
        assert(rest.subrange(0, n as int) =~= v@);
        assert(rest.skip(n as int) =~= data@.skip(start + len));
    }
    Some((v, start + len))
}

/// Turns bytes into a text through `String::from_utf8`, which accepts
/// exactly the byte strings that are well-formed UTF-8 and keeps the bytes
/// as the text's own.
#[verifier::external_body]
pub(crate) fn text_from_utf8(bytes: Vec<u8>) -> (r: Option<String>)
    ensures
        match r {
            Some(t) => valid_utf8(bytes@) && t@ == decode_utf8(bytes@),
            None => !valid_utf8(bytes@),
        },
{
    String::from_utf8(bytes).ok()
}

/// Reads a text at `pos`: the text and the position after it.
pub fn read_text(data: &[u8], pos: usize) -> (r: Option<(String, usize)>)
    requires
        pos <= data@.len(),
    ensures
        match r {
            Some((v, next)) => pos <= next <= data@.len() && take_text(data@.skip(pos as int))
                == Some((v@, data@.skip(next as int))),
            None => take_text(data@.skip(pos as int)) is None,
        },
{
    match read_bytes(data, pos) {
        Some((b, next)) => match text_from_utf8(b) {
            Some(t) => Some((t, next)),
            None => None,
        },
        None => None,
    }
}

} // verus!
