//! Peer endpoints: an IPv4 address and a port, with their textual form
//! `a.b.c.d:port`.

use vstd::prelude::*;
use crate::text::{
    all_digits, chars_of, digit_value, digits_end, digits_value, is_digit,
    lemma_digits_end_bounds, read_number,
};

verus! {

/// The endpoint of a peer: an IPv4 address, held as a big-endian number, and
/// a port.
#[derive(Debug, Clone, Copy, PartialEq, Eq, Hash, Structural)]
pub struct PeerAddr {
    pub ip: u32,
    pub port: u16,
}

/// The `i`-th octet of an IPv4 address, the most significant being octet 0.
pub open spec fn octet(ip: u32, i: int) -> nat {
    if i == 0 {
        (ip / 0x100_0000) as nat
    } else if i == 1 {
        ((ip / 0x1_0000) % 0x100) as nat
    } else if i == 2 {
        ((ip / 0x100) % 0x100) as nat
    } else {
        (ip % 0x100) as nat
    }
}

/// The IPv4 address with the given four octets.
pub open spec fn ip_of_octets(a: nat, b: nat, c: nat, d: nat) -> nat {
    a * 0x100_0000 + b * 0x1_0000 + c * 0x100 + d
}

/// The decimal digits of `n` as ASCII bytes, without leading zeros.
pub open spec fn decimal_text(n: nat) -> Seq<u8>
    decreases n,
{
    if n < 10 {
        seq![(48 + n) as u8]
    } else {
        decimal_text(n / 10).push((48 + n % 10) as u8)
    }
}

/// The text `a.b.c.d:port` of an endpoint, as ASCII bytes.
pub open spec fn addr_text(a: PeerAddr) -> Seq<u8> {
    decimal_text(octet(a.ip, 0)) + seq![46u8] + decimal_text(octet(a.ip, 1)) + seq![46u8]
        + decimal_text(octet(a.ip, 2)) + seq![46u8] + decimal_text(octet(a.ip, 3)) + seq![58u8]
        + decimal_text(a.port as nat)
}

/// `s[from..to]` is an octet in decimal, at most three digits with no
/// leading zero, and denotes `v`.
pub open spec fn octet_at(s: Seq<char>, from: int, to: int, v: nat) -> bool {
    &&& 0 <= from < to <= s.len()
    &&& to - from <= 3
    &&& all_digits(s.subrange(from, to))
    &&& (s[from] == '0' ==> to == from + 1)
    &&& digits_value(s.subrange(from, to)) == v
    &&& v <= 255
}

/// `s[from..]` is a port in decimal and denotes `v`.
pub open spec fn port_at(s: Seq<char>, from: int, v: nat) -> bool {
    &&& 0 <= from < s.len()
    &&& all_digits(s.subrange(from, s.len() as int))
    &&& digits_value(s.subrange(from, s.len() as int)) == v
    &&& v <= 65535
}

/// The text `s` splits at `e0`, `e1`, `e2`, `e3` into four octets, three
/// dots, a colon and a port that together denote `a`.
pub open spec fn denotes_at(s: Seq<char>, a: PeerAddr, e0: int, e1: int, e2: int, e3: int) -> bool {
    &&& octet_at(s, 0, e0, octet(a.ip, 0))
    &&& e0 < s.len() && s[e0] == '.'
    &&& octet_at(s, e0 + 1, e1, octet(a.ip, 1))
    &&& e1 < s.len() && s[e1] == '.'
    &&& octet_at(s, e1 + 1, e2, octet(a.ip, 2))
    &&& e2 < s.len() && s[e2] == '.'
    &&& octet_at(s, e2 + 1, e3, octet(a.ip, 3))
    &&& e3 < s.len() && s[e3] == ':'
    &&& port_at(s, e3 + 1, a.port as nat)
}

/// The text `s` is a dotted quad, a colon and a port that denote `a`.
pub open spec fn denotes(s: Seq<char>, a: PeerAddr) -> bool {
    exists|e0: int, e1: int, e2: int, e3: int| denotes_at(s, a, e0, e1, e2, e3)
}

impl PeerAddr {
    /// The endpoint `a.b.c.d:port`.
    pub fn new(a: u8, b: u8, c: u8, d: u8, port: u16) -> (r: Self)
        ensures
            r.ip == ip_of_octets(a as nat, b as nat, c as nat, d as nat),
            r.port == port,
            octet(r.ip, 0) == a,
            octet(r.ip, 1) == b,
            octet(r.ip, 2) == c,
            octet(r.ip, 3) == d,
    {
        let ip: u32 = (a as u32) * 0x100_0000 + (b as u32) * 0x1_0000 + (c as u32) * 0x100 + (
        d as u32);
        assert(ip / 0x100_0000 == a && (ip / 0x1_0000) % 0x100 == b && (ip / 0x100) % 0x100 == c
            && ip % 0x100 == d) by (bit_vector)
            requires
                ip == (a as u32) * 0x100_0000 + (b as u32) * 0x1_0000 + (c as u32) * 0x100 + (
                d as u32),
        ;
        PeerAddr { ip, port }
    }

    /// The endpoint `127.0.0.1:port`.
    pub fn loopback(port: u16) -> (r: Self)
        ensures
            r == (PeerAddr { ip: 0x7f00_0001, port }),
    {
        PeerAddr { ip: 0x7f00_0001, port }
    }

    /// The port of the endpoint.
    pub fn port(&self) -> (p: u16)
        ensures
            p == self.port,
    {
        self.port
    }

    /// The four octets of the address, the most significant first.
    pub fn octets(&self) -> (o: [u8; 4])
        ensures
            forall|i: int| 0 <= i < 4 ==> o[i] == octet(self.ip, i),
    {
        [
            (self.ip / 0x100_0000) as u8,
            ((self.ip / 0x1_0000) % 0x100) as u8,
            ((self.ip / 0x100) % 0x100) as u8,
            (self.ip % 0x100) as u8,
        ]
    }

    /// The text `a.b.c.d:port` of the endpoint, as ASCII bytes.
    pub fn to_text(&self) -> (t: Vec<u8>)
        ensures
            t@ == addr_text(*self),
    {
        let o = self.octets();
        let mut t: Vec<u8> = Vec::new();
        push_decimal(&mut t, o[0] as u16);
        t.push(46u8);
        push_decimal(&mut t, o[1] as u16);
        t.push(46u8);
        push_decimal(&mut t, o[2] as u16);
        t.push(46u8);
        push_decimal(&mut t, o[3] as u16);
        t.push(58u8);
        push_decimal(&mut t, self.port);
        assert(t@ =~= addr_text(*self));
        t
    }

    /// Reads an endpoint written as `a.b.c.d:port`.
    ///
    /// Each octet is one to three decimal digits without a leading zero and
    /// at most 255; the port is one or more decimal digits and at most 65535.
    /// Any other text gives `None`.
    pub fn parse(text: &str) -> (r: Option<PeerAddr>)
        ensures
            match r {
                Some(a) => denotes(text@, a),
                None => forall|a: PeerAddr| !denotes(text@, a),
            },
            r == parsed(text@),
    {
        let r = Self::parse_chars(text);
        proof {
            match r {
                Some(a) => {
                    lemma_denotes_unique(text@, a, choose|b: PeerAddr| denotes(text@, b));
                },
                None => {},
            }
        }
        r
    }

    fn parse_chars(text: &str) -> (r: Option<PeerAddr>)
        ensures
            match r {
                Some(a) => denotes(text@, a),
                None => forall|a: PeerAddr| !denotes(text@, a),
            },
    {
        let s = chars_of(text);
        let n = s.len();
        let (a, e0) = match read_octet(&s, 0) {
            Some(x) => x,
            None => {
                proof {
                    assert forall|x: PeerAddr| !denotes(s@, x) by {
                        lemma_no_octet_no_address(s@, x);
                    }
                }
                return None;
            },
        };
        let (b, e1) = match read_octet(&s, e0 + 1) {
            Some(x) => x,
            None => {
                proof {
                    assert forall|x: PeerAddr| !denotes(s@, x) by {
                        lemma_no_octet_no_address(s@, x);
                    }
                }
                return None;
            },
        };
        let (c, e2) = match read_octet(&s, e1 + 1) {
            Some(x) => x,
            None => {
                proof {
                    assert forall|x: PeerAddr| !denotes(s@, x) by {
                        lemma_no_octet_no_address(s@, x);
                    }
                }
                return None;
            },
        };
        let (d, e3) = match read_last_octet(&s, e2 + 1) {
            Some(x) => x,
            None => {
                proof {
                    assert forall|x: PeerAddr| !denotes(s@, x) by {
                        lemma_no_octet_no_address(s@, x);
                    }
                }
                return None;
            },
        };
        let port = match read_number(&s, e3 + 1, 65535) {
            Some((v, end)) => {
                if end != n {
                    proof {
                        assert forall|x: PeerAddr| !denotes(s@, x) by {
                            lemma_no_octet_no_address(s@, x);
                        }
                    }
                    return None;
                }
                v as u16
            },
            None => {
                proof {
                    assert forall|x: PeerAddr| !denotes(s@, x) by {
                        lemma_no_octet_no_address(s@, x);
                    }
                }
                return None;
            },
        };
        let r = PeerAddr::new(a, b, c, d, port);
        proof {
            lemma_digits_end_bounds(s@, e3 + 1);
            assert(all_digits(s@.subrange(e3 + 1, n as int)));
            assert(denotes_at(s@, r, e0 as int, e1 as int, e2 as int, e3 as int));
        }
        Some(r)
    }
}

/// Where an octet followed by `sep` starts at `from`, it ends at `to`:
/// `None` when there is none.
pub open spec fn octet_end(s: Seq<char>, from: int, sep: char) -> Option<int> {
    let to = digits_end(s, from);
    if from < to && to - from <= 3 && (s[from] == '0' ==> to == from + 1) && digits_value(
        s.subrange(from, to),
    ) <= 255 && to < s.len() && s[to] == sep {
        Some(to)
    } else {
        None
    }
}

fn read_octet(s: &Vec<char>, from: usize) -> (r: Option<(u8, usize)>)
    requires
        from <= s.len(),
    ensures
        match r {
            Some((v, to)) => octet_end(s@, from as int, '.') == Some(to as int) && octet_at(
                s@,
                from as int,
                to as int,
                v as nat,
            ) && to < s.len(),
            None => octet_end(s@, from as int, '.') is None,
        },
{
    read_octet_before(s, from, '.')
}

fn read_last_octet(s: &Vec<char>, from: usize) -> (r: Option<(u8, usize)>)
    requires
        from <= s.len(),
    ensures
        match r {
            Some((v, to)) => octet_end(s@, from as int, ':') == Some(to as int) && octet_at(
                s@,
                from as int,
                to as int,
                v as nat,
            ) && to < s.len(),
            None => octet_end(s@, from as int, ':') is None,
        },
{
    read_octet_before(s, from, ':')
}

fn read_octet_before(s: &Vec<char>, from: usize, sep: char) -> (r: Option<(u8, usize)>)
    requires
        from <= s.len(),
    ensures
        match r {
            Some((v, to)) => octet_end(s@, from as int, sep) == Some(to as int) && octet_at(
                s@,
                from as int,
                to as int,
                v as nat,
            ) && to < s.len(),
            None => octet_end(s@, from as int, sep) is None,
        },
{
    proof {
        lemma_digits_end_bounds(s@, from as int);
    }
    match read_number(s, from, 255) {
        Some((v, to)) => {
            if to - from > 3 || (s[from] == '0' && to != from + 1) || to >= s.len() || s[to]
                != sep {
                None
            } else {
                Some((v as u8, to))
            }
        },
        None => None,
    }
}

/// A run of digits that is followed by a character that is no digit, or by
/// the end of the text, is the longest run from its start.
pub proof fn lemma_digits_end_is(s: Seq<char>, from: int, to: int)
    requires
        0 <= from <= to <= s.len(),
        all_digits(s.subrange(from, to)),
        to < s.len() ==> !is_digit(s[to]),
    ensures
        digits_end(s, from) == to,
    decreases to - from,
{
    if from < to {
        assert(s.subrange(from, to)[0] == s[from]);
        assert forall|j: int| 0 <= j < to - (from + 1) implies is_digit(
            #[trigger] s.subrange(from + 1, to)[j],
        ) by {
            assert(s.subrange(from, to)[j + 1] == s[from + 1 + j]);
        }
        lemma_digits_end_is(s, from + 1, to);
    }
}

proof fn lemma_octet_end_is(s: Seq<char>, from: int, to: int, v: nat, sep: char)
    requires
        octet_at(s, from, to, v),
        to < s.len(),
        s[to] == sep,
        !is_digit(sep),
    ensures
        octet_end(s, from, sep) == Some(to),
{
    lemma_digits_end_is(s, from, to);
}

/// A text denotes an endpoint only if it splits, from the left, into the
/// four octets and the port that the reader finds.
proof fn lemma_no_octet_no_address(s: Seq<char>, a: PeerAddr)
    ensures
        denotes(s, a) ==> {
            let e0 = octet_end(s, 0, '.');
            &&& e0 is Some
            &&& {
                let e1 = octet_end(s, e0->0 + 1, '.');
                &&& e1 is Some
                &&& {
                    let e2 = octet_end(s, e1->0 + 1, '.');
                    &&& e2 is Some
                    &&& {
                        let e3 = octet_end(s, e2->0 + 1, ':');
                        &&& e3 is Some
                        &&& digits_end(s, e3->0 + 1) == s.len()
                        &&& e3->0 + 1 < s.len()
                        &&& digits_value(s.subrange(e3->0 + 1, s.len() as int)) <= 65535
                    }
                }
            }
        },
{
    if denotes(s, a) {
        let (e0, e1, e2, e3) = choose|e0: int, e1: int, e2: int, e3: int|
            denotes_at(s, a, e0, e1, e2, e3);
        lemma_octet_end_is(s, 0, e0, octet(a.ip, 0), '.');
        lemma_octet_end_is(s, e0 + 1, e1, octet(a.ip, 1), '.');
        lemma_octet_end_is(s, e1 + 1, e2, octet(a.ip, 2), '.');
        lemma_octet_end_is(s, e2 + 1, e3, octet(a.ip, 3), ':');
        lemma_digits_end_is(s, e3 + 1, s.len() as int);
    }
}

/// A text denotes at most one endpoint.
pub proof fn lemma_denotes_unique(s: Seq<char>, a: PeerAddr, b: PeerAddr)
    requires
        denotes(s, a),
        denotes(s, b),
    ensures
        a == b,
{
    let (a0, a1, a2, a3) = choose|e0: int, e1: int, e2: int, e3: int|
        denotes_at(s, a, e0, e1, e2, e3);
    let (b0, b1, b2, b3) = choose|e0: int, e1: int, e2: int, e3: int|
        denotes_at(s, b, e0, e1, e2, e3);
    lemma_octet_end_is(s, 0, a0, octet(a.ip, 0), '.');
    lemma_octet_end_is(s, 0, b0, octet(b.ip, 0), '.');
    lemma_octet_end_is(s, a0 + 1, a1, octet(a.ip, 1), '.');
    lemma_octet_end_is(s, b0 + 1, b1, octet(b.ip, 1), '.');
    lemma_octet_end_is(s, a1 + 1, a2, octet(a.ip, 2), '.');
    lemma_octet_end_is(s, b1 + 1, b2, octet(b.ip, 2), '.');
    lemma_octet_end_is(s, a2 + 1, a3, octet(a.ip, 3), ':');
    lemma_octet_end_is(s, b2 + 1, b3, octet(b.ip, 3), ':');
    let x = a.ip;
    let y = b.ip;
    assert(x == y) by (bit_vector)
        requires
            x / 0x100_0000 == y / 0x100_0000,
            (x / 0x1_0000) % 0x100 == (y / 0x1_0000) % 0x100,
            (x / 0x100) % 0x100 == (y / 0x100) % 0x100,
            x % 0x100 == y % 0x100,
    ;
}

/// The endpoint that a text denotes, if it denotes one.
pub open spec fn parsed(s: Seq<char>) -> Option<PeerAddr> {
    if exists|a: PeerAddr| denotes(s, a) {
        Some(choose|a: PeerAddr| denotes(s, a))
    } else {
        None
    }
}

/// The characters that the ASCII bytes `t` stand for.
pub open spec fn ascii_chars(t: Seq<u8>) -> Seq<char> {
    Seq::new(t.len(), |i: int| t[i] as char)
}

/// The decimal text of a number is one or more digits without a leading
/// zero that denote the number.
pub proof fn lemma_decimal_text(n: nat)
    ensures
        decimal_text(n).len() >= 1,
        all_digits(ascii_chars(decimal_text(n))),
        digits_value(ascii_chars(decimal_text(n))) == n,
        n >= 10 ==> ascii_chars(decimal_text(n))[0] != '0',
        n < 10 ==> decimal_text(n).len() == 1,
        n < 100 ==> decimal_text(n).len() <= 2,
        n < 1000 ==> decimal_text(n).len() <= 3,
    decreases n,
{
    let t = decimal_text(n);
    let c = ascii_chars(t);
    if n < 10 {
        let b = (48 + n) as u8;
        assert(c.drop_last() =~= Seq::<char>::empty());
        assert(c.last() == b as char);
        assert((b as char) as u32 == 48 + n);
        assert('0' as u32 == 48);
        assert(is_digit(b as char));
        assert(digit_value(b as char) == n);
        assert(digits_value(c.drop_last()) == 0);
        assert(digits_value(c) == n);
    } else {
        lemma_decimal_text(n / 10);
        let front = decimal_text(n / 10);
        let d = (48 + n % 10) as u8;
        assert(t == front.push(d));
        assert(c.drop_last() =~= ascii_chars(front));
        assert(c.last() == d as char);
        assert((d as char) as u32 == 48 + n % 10);
        assert(is_digit(d as char));
        assert(digit_value(d as char) == n % 10);
        assert(digits_value(c) == digits_value(ascii_chars(front)) * 10 + n % 10);
        assert(c[0] == ascii_chars(front)[0]);
        assert forall|i: int| 0 <= i < c.len() implies is_digit(#[trigger] c[i]) by {
            if i < front.len() {
                assert(c[i] == ascii_chars(front)[i]);
            }
        }
        if n / 10 < 10 {
            assert(ascii_chars(front)[0] == ((48 + n / 10) as u8) as char);
        }
    }
}

/// An octet's decimal text, standing in `s` at `from` and followed by
/// something that is no digit, is an octet there.
proof fn lemma_octet_text_at(s: Seq<char>, from: int, v: nat)
    requires
        v <= 255,
        0 <= from,
        from + decimal_text(v).len() <= s.len(),
        s.subrange(from, from + decimal_text(v).len()) == ascii_chars(decimal_text(v)),
    ensures
        octet_at(s, from, from + decimal_text(v).len(), v),
{
    lemma_decimal_text(v);
    let t = ascii_chars(decimal_text(v));
    assert(s[from] == t[0]);
    if v < 10 {
        assert(t[0] == ((48 + v) as u8) as char);
    }
}

/// The text that `to_text` writes for an endpoint denotes that endpoint and
/// no other.
pub proof fn lemma_text_denotes(a: PeerAddr)
    ensures
        denotes(ascii_chars(addr_text(a)), a),
        parsed(ascii_chars(addr_text(a))) == Some(a),
{
    let d0 = decimal_text(octet(a.ip, 0));
    let d1 = decimal_text(octet(a.ip, 1));
    let d2 = decimal_text(octet(a.ip, 2));
    let d3 = decimal_text(octet(a.ip, 3));
    let p = decimal_text(a.port as nat);
    let s = ascii_chars(addr_text(a));
    let e0 = d0.len() as int;
    let e1 = e0 + 1 + d1.len();
    let e2 = e1 + 1 + d2.len();
    let e3 = e2 + 1 + d3.len();
    lemma_decimal_text(octet(a.ip, 0));
    lemma_decimal_text(octet(a.ip, 1));
    lemma_decimal_text(octet(a.ip, 2));
    lemma_decimal_text(octet(a.ip, 3));
    lemma_decimal_text(a.port as nat);
    assert(s.len() == e3 + 1 + p.len());
    assert(s.subrange(0, e0) =~= ascii_chars(d0));
    assert(s.subrange(e0 + 1, e1) =~= ascii_chars(d1));
    assert(s.subrange(e1 + 1, e2) =~= ascii_chars(d2));
    assert(s.subrange(e2 + 1, e3) =~= ascii_chars(d3));
    assert(s.subrange(e3 + 1, s.len() as int) =~= ascii_chars(p));
    assert(s[e0] == '.');
    assert(s[e1] == '.');
    assert(s[e2] == '.');
    assert(s[e3] == ':');
    lemma_octet_text_at(s, 0, octet(a.ip, 0));
    lemma_octet_text_at(s, e0 + 1, octet(a.ip, 1));
    lemma_octet_text_at(s, e1 + 1, octet(a.ip, 2));
    lemma_octet_text_at(s, e2 + 1, octet(a.ip, 3));
    assert(denotes_at(s, a, e0, e1, e2, e3));
    assert(denotes(s, a));
    lemma_denotes_unique(s, a, choose|b: PeerAddr| denotes(s, b));
}

/// Appends the decimal digits of `n` to `out`.
pub fn push_decimal(out: &mut Vec<u8>, n: u16)
    ensures
        final(out)@ == old(out)@ + decimal_text(n as nat),
    decreases n,
{
    if n >= 10 {
        push_decimal(out, n / 10);
    }
    out.push(48u8 + (n % 10) as u8);
    proof {
        if n >= 10 {
            assert(final(out)@ =~= old(out)@ + decimal_text(n as nat));
        } else {
            assert(final(out)@ =~= old(out)@ + decimal_text(n as nat));
        }
    }
}

} // verus!
