//! Small helpers on text: decimal numbers, substring search, trimming.

use vstd::prelude::*;
use vstd::string::StrSliceExecFns;

verus! {

/// The characters of `s`, in order.
pub fn chars_of(s: &str) -> (v: Vec<char>)
    ensures
        v@ == s@,
{
    let n = s.unicode_len();
    let mut v: Vec<char> = Vec::new();
    let mut i: usize = 0;
    while i < n
        invariant
            n == s@.len(),
            i <= n,
            v@ == s@.subrange(0, i as int),
        decreases n - i,
    {
        let c = s.get_char(i);
        v.push(c);
        assert(s@.subrange(0, i + 1) =~= s@.subrange(0, i as int).push(c));
        i += 1;
    }
    assert(s@.subrange(0, n as int) =~= s@);
    v
}

/// Whether `c` is one of the ten ASCII decimal digits.
pub open spec fn is_digit(c: char) -> bool {
    '0' <= c && c <= '9'
}

/// The value of a decimal digit; 0 for any other character.
pub open spec fn digit_value(c: char) -> nat {
    if is_digit(c) {
        (c as u32 - '0' as u32) as nat
    } else {
        0
    }
}

/// Whether every character of `s` is a decimal digit.
pub open spec fn all_digits(s: Seq<char>) -> bool {
    forall|i: int| 0 <= i < s.len() ==> is_digit(#[trigger] s[i])
}

/// The number that a string of decimal digits denotes; 0 for the empty one.
pub open spec fn digits_value(s: Seq<char>) -> nat
    decreases s.len(),
{
    if s.len() == 0 {
        0
    } else {
        digits_value(s.drop_last()) * 10 + digit_value(s.last())
    }
}

/// Whether `c` is a decimal digit.
pub fn char_is_digit(c: char) -> (r: bool)
    ensures
        r == is_digit(c),
{
    '0' <= c && c <= '9'
}

/// The value of the decimal digit `c`.
pub fn char_digit_value(c: char) -> (v: u8)
    requires
        is_digit(c),
    ensures
        v == digit_value(c),
        v <= 9,
{
    ((c as u32) - ('0' as u32)) as u8
}

/// Index just past the longest run of decimal digits that starts at `start`.
pub open spec fn digits_end(s: Seq<char>, start: int) -> int
    decreases s.len() - start,
{
    if start < 0 || start >= s.len() || !is_digit(s[start]) {
        start
    } else {
        digits_end(s, start + 1)
    }
}

/// A digit string denotes at least what any of its prefixes denotes.
pub proof fn lemma_digits_value_prefix(s: Seq<char>, k: int)
    requires
        0 <= k <= s.len(),
    ensures
        digits_value(s.subrange(0, k)) <= digits_value(s),
    decreases s.len() - k,
{
    if k == s.len() {
        assert(s.subrange(0, k) =~= s);
    } else {
        lemma_digits_value_prefix(s.drop_last(), k);
        assert(s.drop_last().subrange(0, k) =~= s.subrange(0, k));
    }
}

/// Reads the longest run of decimal digits of `s` that starts at `start`.
///
/// Returns the number it denotes and the index just past it, or `None` when
/// the run is empty or denotes more than `limit`.
pub fn read_number(s: &Vec<char>, start: usize, limit: u64) -> (r: Option<(u64, usize)>)
    requires
        start <= s.len(),
    ensures
        match r {
            Some((v, end)) => {
                &&& end == digits_end(s@, start as int)
                &&& start < end <= s.len()
                &&& v == digits_value(s@.subrange(start as int, end as int))
                &&& v <= limit
            },
            None => {
                ||| digits_end(s@, start as int) == start
                ||| digits_value(s@.subrange(start as int, digits_end(s@, start as int))) > limit
            },
        },
{
    let n = s.len();
    let mut i: usize = start;
    let mut v: u64 = 0;
    proof {
        assert(s@.subrange(start as int, start as int) =~= Seq::<char>::empty());
    }
    while i < n && char_is_digit(s[i])
        invariant
            n == s.len(),
            start <= i <= n,
            v <= limit,
            v == digits_value(s@.subrange(start as int, i as int)),
            digits_end(s@, start as int) == digits_end(s@, i as int),
        decreases n - i,
    {
        let d = char_digit_value(s[i]);
        let next: u128 = (v as u128) * 10 + (d as u128);
        proof {
            let run = s@.subrange(start as int, i + 1);
            assert(run.drop_last() =~= s@.subrange(start as int, i as int));
            assert(digits_value(run) == next);
        }
        if next > limit as u128 {
            proof {
                lemma_digits_end_bounds(s@, i + 1);
                let end = digits_end(s@, start as int);
                let whole = s@.subrange(start as int, end);
                lemma_digits_value_prefix(whole, i + 1 - start);
                assert(whole.subrange(0, i + 1 - start) =~= s@.subrange(start as int, i + 1));
            }
            return None;
        }
        v = next as u64;
        i += 1;
    }
    if i == start {
        None
    } else {
        Some((v, i))
    }
}

/// `digits_end` stays within the string and at or after its starting point.
pub proof fn lemma_digits_end_bounds(s: Seq<char>, start: int)
    requires
        0 <= start <= s.len(),
    ensures
        start <= digits_end(s, start) <= s.len(),
        forall|j: int| start <= j < digits_end(s, start) ==> is_digit(#[trigger] s[j]),
        digits_end(s, start) < s.len() ==> !is_digit(s[digits_end(s, start)]),
    decreases s.len() - start,
{
    if start < s.len() && is_digit(s[start]) {
        lemma_digits_end_bounds(s, start + 1);
    }
}

/// The number that `s` denotes as a decimal with an optional `+` before it,
/// where it is at most `max`: `None` for any other text.
pub open spec fn number_value(s: Seq<char>, max: nat) -> Option<nat> {
    let digits = if s.len() > 0 && s[0] == '+' {
        s.skip(1)
    } else {
        s
    };
    if digits.len() > 0 && all_digits(digits) && digits_value(digits) <= max {
        Some(digits_value(digits))
    } else {
        None
    }
}

/// Reads a decimal number of at most `max`, with an optional `+` before it.
pub fn parse_number(text: &str, max: u64) -> (r: Option<u64>)
    ensures
        match r {
            Some(v) => number_value(text@, max as nat) == Some(v as nat),
            None => number_value(text@, max as nat) is None,
        },
{
    let s = chars_of(text);
    let n = s.len();
    let start: usize = if n > 0 && s[0] == '+' {
        1
    } else {
        0
    };
    let ghost digits = s@.skip(start as int);
    proof {
        lemma_digits_end_bounds(s@, start as int);
        assert(digits =~= s@.subrange(start as int, n as int));
        assert(digits == if text@.len() > 0 && text@[0] == '+' {
            text@.skip(1)
        } else {
            text@
        }) by {
            assert(s@.skip(0) =~= s@);
        }
        let end = digits_end(s@, start as int);
        if all_digits(digits) {
            assert forall|j: int| start <= j < n implies is_digit(#[trigger] s@[j]) by {
                assert(digits[j - start] == s@[j]);
            }
            assert(end == n);
        }
        if end == n {
            assert forall|j: int| 0 <= j < digits.len() implies is_digit(#[trigger] digits[j]) by {
                assert(digits[j] == s@[start + j]);
            }
            assert(all_digits(digits));
        }
    }
    match read_number(&s, start, max) {
        Some((v, end)) => if end == n {
            Some(v)
        } else {
            None
        },
        None => None,
    }
}

/// Whether `c` is white space: one of the characters with the Unicode
/// property `White_Space`.
pub open spec fn is_space(c: char) -> bool {
    ||| c == ' '
    ||| ('\u{9}' <= c && c <= '\u{d}')
    ||| c == '\u{85}'
    ||| c == '\u{a0}'
    ||| c == '\u{1680}'
    ||| ('\u{2000}' <= c && c <= '\u{200a}')
    ||| c == '\u{2028}'
    ||| c == '\u{2029}'
    ||| c == '\u{202f}'
    ||| c == '\u{205f}'
    ||| c == '\u{3000}'
}

/// Whether `c` is white space.
pub fn char_is_space(c: char) -> (r: bool)
    ensures
        r == is_space(c),
{
    c == ' ' || ('\u{9}' <= c && c <= '\u{d}') || c == '\u{85}' || c == '\u{a0}' || c
        == '\u{1680}' || ('\u{2000}' <= c && c <= '\u{200a}') || c == '\u{2028}' || c
        == '\u{2029}' || c == '\u{202f}' || c == '\u{205f}' || c == '\u{3000}'
}

/// Index of the first character of `s[from..to]` that is no white space, or
/// `to` where all are.
pub open spec fn space_end(s: Seq<char>, from: int, to: int) -> int
    decreases to - from,
{
    if from >= to || from < 0 || from >= s.len() || !is_space(s[from]) {
        from
    } else {
        space_end(s, from + 1, to)
    }
}

/// Index just past the last character of `s[from..to]` that is no white
/// space, or `from` where all are.
pub open spec fn space_start(s: Seq<char>, from: int, to: int) -> int
    decreases to - from,
{
    if from >= to || to > s.len() || to <= 0 || !is_space(s[to - 1]) {
        to
    } else {
        space_start(s, from, to - 1)
    }
}

/// `s[from..to]` without the white space at its two ends.
pub open spec fn trimmed(s: Seq<char>, from: int, to: int) -> Seq<char> {
    let a = space_end(s, from, to);
    let b = space_start(s, a, to);
    s.subrange(a, b)
}

/// The entries of the comma-separated list `s`, given that its characters
/// before `i` are read and the field being read starts at `start`: the
/// fields between commas, each without the white space at its ends, leaving
/// out those that are empty.
pub open spec fn entries_from(s: Seq<char>, start: int, i: int) -> Seq<Seq<char>>
    decreases s.len() - i,
{
    if i < 0 || i >= s.len() {
        entry(trimmed(s, start, s.len() as int))
    } else if s[i] == ',' {
        entry(trimmed(s, start, i)) + entries_from(s, i + 1, i + 1)
    } else {
        entries_from(s, start, i + 1)
    }
}

/// The list with `field` as its one entry, or the empty list where `field`
/// is empty.
pub open spec fn entry(field: Seq<char>) -> Seq<Seq<char>> {
    if field.len() > 0 {
        seq![field]
    } else {
        Seq::empty()
    }
}

/// The entries of the comma-separated list `s`.
pub open spec fn list_entries(s: Seq<char>) -> Seq<Seq<char>> {
    entries_from(s, 0, 0)
}

/// Splits a comma-separated list into its entries, each without the white
/// space at its ends; empty entries are left out.
pub fn split_list(text: &str) -> (entries: Vec<String>)
    ensures
        entries@.len() == list_entries(text@).len(),
        forall|i: int|
            0 <= i < entries@.len() ==> (#[trigger] entries@[i])@ == list_entries(text@)[i],
{
    let s = chars_of(text);
    let n = s.len();
    let mut entries: Vec<String> = Vec::new();
    let mut from: usize = 0;
    let mut done = false;
    let ghost mut got: Seq<Seq<char>> = Seq::empty();
    while !done
        invariant
            n == s@.len(),
            s@ == text@,
            from <= n,
            got.len() == entries@.len(),
            forall|i: int| 0 <= i < entries@.len() ==> (#[trigger] entries@[i])@ == got[i],
            !done ==> list_entries(s@) == got + entries_from(s@, from as int, from as int),
            done ==> list_entries(s@) == got,
        decreases n - from + (if done { 0int } else { 1int }),
    {
        let mut k: usize = from;
        while k < n && s[k] != ','
            invariant
                n == s@.len(),
                from <= k <= n,
                entries_from(s@, from as int, from as int) == entries_from(
                    s@,
                    from as int,
                    k as int,
                ),
            decreases n - k,
        {
            k += 1;
        }
        let mut a: usize = from;
        while a < k && char_is_space(s[a])
            invariant
                n == s@.len(),
                from <= a <= k <= n,
                space_end(s@, from as int, k as int) == space_end(s@, a as int, k as int),
            decreases k - a,
        {
            a += 1;
        }
        let mut b: usize = k;
        while a < b && char_is_space(s[b - 1])
            invariant
                n == s@.len(),
                a <= b <= k <= n,
                space_start(s@, a as int, k as int) == space_start(s@, a as int, b as int),
            decreases b - a,
        {
            b -= 1;
        }
        let ghost head = s@.subrange(a as int, b as int);
        let ghost before = got;
        assert(head == trimmed(s@, from as int, k as int));
        if a < b {
            let piece = text.substring_char(a, b);
            entries.push(piece.to_owned());
            proof {
                got = got.push(head);
            }
        }
        proof {
            assert(got =~= before + entry(head));
            if k < n {
                assert(got + entries_from(s@, k + 1, k + 1) =~= before + (entry(head)
                    + entries_from(s@, k + 1, k + 1)));
            }
        }
        if k >= n {
            done = true;
        } else {
            from = k + 1;
        }
    }
    entries
}

/// Whether `needle` stands in `hay` at index `k`.
pub open spec fn occurs_at(hay: Seq<char>, needle: Seq<char>, k: int) -> bool {
    &&& 0 <= k
    &&& k + needle.len() <= hay.len()
    &&& hay.subrange(k, k + needle.len()) == needle
}

/// Whether `needle` stands somewhere in `hay`.
pub open spec fn occurs_in(hay: Seq<char>, needle: Seq<char>) -> bool {
    exists|k: int| occurs_at(hay, needle, k)
}

fn matches_at(hay: &Vec<char>, needle: &Vec<char>, k: usize) -> (r: bool)
    requires
        k + needle.len() <= hay.len(),
    ensures
        r == occurs_at(hay@, needle@, k as int),
{
    let m = needle.len();
    let mut j: usize = 0;
    while j < m
        invariant
            m == needle.len(),
            k + m <= hay.len(),
            j <= m,
            forall|t: int| 0 <= t < j ==> hay@[k + t] == needle@[t],
        decreases m - j,
    {
        if hay[k + j] != needle[j] {
            proof {
                assert(hay@.subrange(k as int, k + m)[j as int] == hay@[k + j]);
            }
            return false;
        }
        j += 1;
    }
    assert(hay@.subrange(k as int, k + m) =~= needle@);
    true
}

/// Substring search.
pub fn contains(hay: &Vec<char>, needle: &Vec<char>) -> (r: bool)
    ensures
        r == occurs_in(hay@, needle@),
{
    let n = hay.len();
    let m = needle.len();
    if m > n {
        return false;
    }
    if m == 0 {
        assert(hay@.subrange(0, 0) =~= needle@);
        assert(occurs_at(hay@, needle@, 0));
        return true;
    }
    let mut k: usize = 0;
    while k <= n - m
        invariant
            n == hay.len(),
            m == needle.len(),
            1 <= m <= n,
            k <= n - m + 1,
            forall|t: int| 0 <= t < k ==> !occurs_at(hay@, needle@, t),
        decreases n - m + 1 - k,
    {
        if matches_at(hay, needle, k) {
            return true;
        }
        k += 1;
    }
    false
}

/// Whether the text `hay` holds the text `needle`.
pub fn str_contains(hay: &str, needle: &str) -> (r: bool)
    ensures
        r == occurs_in(hay@, needle@),
{
    let h = chars_of(hay);
    let n = chars_of(needle);
    contains(&h, &n)
}

/// Whether two texts are the same.
pub fn str_equal(a: &str, b: &str) -> (r: bool)
    ensures
        r == (a@ == b@),
{
    let x = chars_of(a);
    let y = chars_of(b);
    if x.len() != y.len() {
        return false;
    }
    let n = x.len();
    let mut i: usize = 0;
    while i < n
        invariant
            n == x.len(),
            n == y.len(),
            x@ == a@,
            y@ == b@,
            i <= n,
            forall|t: int| 0 <= t < i ==> x@[t] == y@[t],
        decreases n - i,
    {
        if x[i] != y[i] {
            assert(a@[i as int] != b@[i as int]);
            return false;
        }
        i += 1;
    }
    assert(x@ =~= y@);
    true
}

} // verus!
