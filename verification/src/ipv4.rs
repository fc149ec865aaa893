//! IPv4 addresses as 32-bit numbers, most significant octet first, and
//! their dotted-decimal text.

use vstd::prelude::*;
use crate::text::{digits_value, is_digit, push_char, split, split_bounds, to_chars};

verus! {

/// The number with octets `a.b.c.d`.
pub open spec fn from_octets(a: int, b: int, c: int, d: int) -> int {
    a * 0x100_0000 + b * 0x1_0000 + c * 0x100 + d
}

/// Octet `k` of `addr`, counting from the most significant one.
pub open spec fn octet(addr: u32, k: int) -> int {
    if k == 0 {
        addr as int / 0x100_0000
    } else if k == 1 {
        (addr as int / 0x1_0000) % 0x100
    } else if k == 2 {
        (addr as int / 0x100) % 0x100
    } else {
        addr as int % 0x100
    }
}

/// Whether `addr` lies in 127.0.0.0/8.
pub open spec fn loopback(addr: u32) -> bool {
    octet(addr, 0) == 127
}

/// Tests an address for the loopback range 127.0.0.0/8.
pub fn is_loopback(addr: u32) -> (looped: bool)
    ensures
        looped == loopback(addr),
{
    addr / 0x100_0000 == 127
}

/// Whether `s` writes one octet: one to three decimal digits, no leading
/// zero on a longer number, and a value of at most 255.
pub open spec fn is_octet_text(s: Seq<char>) -> bool {
    &&& 1 <= s.len() <= 3
    &&& forall|i: int| 0 <= i < s.len() ==> is_digit(s[i])
    &&& s.len() > 1 ==> s[0] != '0'
    &&& digits_value(s) <= 255
}

/// The address that the dotted-decimal text `s` denotes: four octets
/// separated by dots. `None` for every other text.
pub open spec fn parse_dotted(s: Seq<char>) -> Option<u32> {
    let parts = split(s, '.');
    if parts.len() == 4 && is_octet_text(parts[0]) && is_octet_text(parts[1]) && is_octet_text(
        parts[2],
    ) && is_octet_text(parts[3]) {
        Some(
            from_octets(
                digits_value(parts[0]),
                digits_value(parts[1]),
                digits_value(parts[2]),
                digits_value(parts[3]),
            ) as u32,
        )
    } else {
        None
    }
}

/// Reads one octet from `chars[from..to]`.
pub fn parse_octet(chars: &Vec<char>, from: usize, to: usize) -> (value: Option<u8>)
    requires
        from <= to <= chars.len(),
    ensures
        value is Some <==> is_octet_text(chars@.subrange(from as int, to as int)),
        value matches Some(v) ==> v == digits_value(chars@.subrange(from as int, to as int)),
{
    let ghost text = chars@.subrange(from as int, to as int);
    if to - from < 1 || to - from > 3 {
        return None;
    }
    if to - from > 1 && chars[from] == '0' {
        assert(text[0] == '0');
        return None;
    }
    let mut total: u32 = 0;
    let mut i: usize = from;
    while i < to
        invariant
            from <= i <= to <= chars.len(),
            to - from <= 3,
            text == chars@.subrange(from as int, to as int),
            forall|k: int| 0 <= k < i - from ==> is_digit(text[k]),
            total == digits_value(text.subrange(0, i - from)),
            total < 1000,
            i - from < 3 ==> total < 100,
            i - from < 2 ==> total < 10,
            i - from < 1 ==> total == 0,
        decreases to - i,
    {
        let c = chars[i];
        assert(c == text[i - from]);
        if c < '0' || c > '9' {
            return None;
        }
        let d: u32 = c as u32 - '0' as u32;
        assert(text.subrange(0, i - from + 1).drop_last() =~= text.subrange(0, i - from));
        total = total * 10 + d;
        i += 1;
    }
    assert(text.subrange(0, to - from) =~= text);
    if total > 255 {
        return None;
    }
    Some(total as u8)
}

/// Reads a dotted-decimal address.
pub fn parse_ipv4(s: &str) -> (addr: Option<u32>)
    ensures
        addr == parse_dotted(s@),
{
    let chars = to_chars(s);
    let pieces = split_bounds(&chars, '.');
    if pieces.len() != 4 {
        return None;
    }
    let ghost parts = split(chars@, '.');
    assert(parts[0] == chars@.subrange(pieces@[0].0 as int, pieces@[0].1 as int));
    assert(parts[1] == chars@.subrange(pieces@[1].0 as int, pieces@[1].1 as int));
    assert(parts[2] == chars@.subrange(pieces@[2].0 as int, pieces@[2].1 as int));
    assert(parts[3] == chars@.subrange(pieces@[3].0 as int, pieces@[3].1 as int));
    let a = parse_octet(&chars, pieces[0].0, pieces[0].1);
    let b = parse_octet(&chars, pieces[1].0, pieces[1].1);
    let c = parse_octet(&chars, pieces[2].0, pieces[2].1);
    let d = parse_octet(&chars, pieces[3].0, pieces[3].1);
    match (a, b, c, d) {
        (Some(a), Some(b), Some(c), Some(d)) => {
            let addr: u32 = (a as u32) * 0x100_0000 + (b as u32) * 0x1_0000 + (c as u32) * 0x100
                + (d as u32);
            Some(addr)
        },
        _ => None,
    }
}

/// The character that writes the digit `d`.
pub open spec fn digit_char(d: int) -> char {
    if d == 0 {
        '0'
    } else if d == 1 {
        '1'
    } else if d == 2 {
        '2'
    } else if d == 3 {
        '3'
    } else if d == 4 {
        '4'
    } else if d == 5 {
        '5'
    } else if d == 6 {
        '6'
    } else if d == 7 {
        '7'
    } else if d == 8 {
        '8'
    } else {
        '9'
    }
}

/// The decimal text of an octet, without leading zeros.
pub open spec fn octet_text(n: int) -> Seq<char> {
    if n < 10 {
        seq![digit_char(n)]
    } else if n < 100 {
        seq![digit_char(n / 10), digit_char(n % 10)]
    } else {
        seq![digit_char(n / 100), digit_char((n / 10) % 10), digit_char(n % 10)]
    }
}

/// The dotted-decimal text of `addr`.
pub open spec fn dotted(addr: u32) -> Seq<char> {
    octet_text(octet(addr, 0)) + seq!['.'] + octet_text(octet(addr, 1)) + seq!['.'] + octet_text(
        octet(addr, 2),
    ) + seq!['.'] + octet_text(octet(addr, 3))
}

pub(crate) fn digit_of(d: u32) -> (c: char)
    requires
        d < 10,
    ensures
        c == digit_char(d as int),
{
    if d == 0 {
        '0'
    } else if d == 1 {
        '1'
    } else if d == 2 {
        '2'
    } else if d == 3 {
        '3'
    } else if d == 4 {
        '4'
    } else if d == 5 {
        '5'
    } else if d == 6 {
        '6'
    } else if d == 7 {
        '7'
    } else if d == 8 {
        '8'
    } else {
        '9'
    }
}

fn push_octet(s: &mut String, n: u32)
    requires
        n < 256,
    ensures
        final(s)@ == old(s)@ + octet_text(n as int),
{
    if n >= 100 {
        push_char(s, digit_of(n / 100));
        push_char(s, digit_of((n / 10) % 10));
        push_char(s, digit_of(n % 10));
        assert(s@ =~= old(s)@ + octet_text(n as int));
    } else if n >= 10 {
        push_char(s, digit_of(n / 10));
        push_char(s, digit_of(n % 10));
        assert(s@ =~= old(s)@ + octet_text(n as int));
    } else {
        push_char(s, digit_of(n));
        assert(s@ =~= old(s)@ + octet_text(n as int));
    }
}

/// Writes `addr` in dotted-decimal form.
pub fn ipv4_to_string(addr: u32) -> (s: String)
    ensures
        s@ == dotted(addr),
{
    let mut s = String::new();
    push_octet(&mut s, addr / 0x100_0000);
    push_char(&mut s, '.');
    push_octet(&mut s, (addr / 0x1_0000) % 0x100);
    push_char(&mut s, '.');
    push_octet(&mut s, (addr / 0x100) % 0x100);
    push_char(&mut s, '.');
    push_octet(&mut s, addr % 0x100);
    assert(s@ =~= dotted(addr));
    s
}

/// The text of an octet holds no dot and reads as that octet.
pub proof fn lemma_octet_text(n: int)
    requires
        0 <= n < 256,
    ensures
        is_octet_text(octet_text(n)),
        digits_value(octet_text(n)) == n,
        forall|i: int| 0 <= i < octet_text(n).len() ==> octet_text(n)[i] != '.',
{
    let t = octet_text(n);
    reveal_with_fuel(digits_value, 4);
    if n < 10 {
        assert(t.drop_last() =~= Seq::<char>::empty());
    } else if n < 100 {
        assert(t.drop_last() =~= seq![digit_char(n / 10)]);
        assert(t.drop_last().drop_last() =~= Seq::<char>::empty());
    } else {
        assert(t.drop_last() =~= seq![digit_char(n / 100), digit_char((n / 10) % 10)]);
        assert(t.drop_last().drop_last() =~= seq![digit_char(n / 100)]);
        assert(t.drop_last().drop_last().drop_last() =~= Seq::<char>::empty());
    }
}

/// A text without the separator is its own single piece.
pub proof fn lemma_split_whole(t: Seq<char>, sep: char)
    requires
        forall|i: int| 0 <= i < t.len() ==> t[i] != sep,
    ensures
        split(t, sep) == seq![t],
{
    crate::text::lemma_index_of(t, sep, t.len() as int);
}

/// A piece without the separator, the separator and a rest split into that
/// piece and the pieces of the rest.
pub proof fn lemma_split_first(t: Seq<char>, sep: char, rest: Seq<char>)
    requires
        forall|i: int| 0 <= i < t.len() ==> t[i] != sep,
    ensures
        split(t + seq![sep] + rest, sep) == seq![t] + split(rest, sep),
{
    let s = t + seq![sep] + rest;
    crate::text::lemma_index_of(s, sep, t.len() as int);
    assert(s.subrange(0, t.len() as int) =~= t);
    assert(s.subrange(t.len() as int + 1, s.len() as int) =~= rest);
}

/// Four pieces without dots, joined by dots, split into those four.
pub proof fn lemma_four_parts(a: Seq<char>, b: Seq<char>, c: Seq<char>, d: Seq<char>)
    requires
        forall|i: int| 0 <= i < a.len() ==> a[i] != '.',
        forall|i: int| 0 <= i < b.len() ==> b[i] != '.',
        forall|i: int| 0 <= i < c.len() ==> c[i] != '.',
        forall|i: int| 0 <= i < d.len() ==> d[i] != '.',
    ensures
        split(a + seq!['.'] + b + seq!['.'] + c + seq!['.'] + d, '.') == seq![a, b, c, d],
{
    let dot = seq!['.'];
    let tail2 = c + dot + d;
    let tail1 = b + dot + tail2;
    assert(a + dot + b + dot + c + dot + d =~= a + dot + tail1);
    lemma_split_whole(d, '.');
    lemma_split_first(c, '.', d);
    lemma_split_first(b, '.', tail2);
    lemma_split_first(a, '.', tail1);
    assert(seq![a] + (seq![b] + (seq![c] + seq![d])) =~= seq![a, b, c, d]);
}

/// An address is made of its four octets.
pub proof fn lemma_octets_compose(addr: u32)
    ensures
        from_octets(octet(addr, 0), octet(addr, 1), octet(addr, 2), octet(addr, 3)) == addr,
        0 <= octet(addr, 0) < 256,
        0 <= octet(addr, 1) < 256,
        0 <= octet(addr, 2) < 256,
        0 <= octet(addr, 3) < 256,
{
}

/// An address that is written and read again is the same address.
pub proof fn lemma_written_address_reads_back(addr: u32)
    ensures
        parse_dotted(dotted(addr)) == Some(addr),
{
    let o0 = octet(addr, 0);
    let o1 = octet(addr, 1);
    let o2 = octet(addr, 2);
    let o3 = octet(addr, 3);
    lemma_octets_compose(addr);
    lemma_octet_text(o0);
    lemma_octet_text(o1);
    lemma_octet_text(o2);
    lemma_octet_text(o3);
    lemma_four_parts(octet_text(o0), octet_text(o1), octet_text(o2), octet_text(o3));
    let parts = split(dotted(addr), '.');
    assert(parts == seq![octet_text(o0), octet_text(o1), octet_text(o2), octet_text(o3)]);
    assert(parts.len() == 4);
    assert(parts[0] == octet_text(o0));
    assert(parts[1] == octet_text(o1));
    assert(parts[2] == octet_text(o2));
    assert(parts[3] == octet_text(o3));
}

} // verus!
