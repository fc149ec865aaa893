//! Character-level helpers: conversion between strings and their characters,
//! splitting, trimming and decimal numbers.

use vstd::prelude::*;

verus! {

/// `String::push`: appends one character to the end of the string.
#[verifier::external_body]
pub(crate) fn push_char(s: &mut String, c: char)
    ensures
        final(s)@ == old(s)@.push(c),
{
    s.push(c);
}

/// `str::eq`: two strings are equal exactly when they hold the same
/// characters in the same order.
#[verifier::external_body]
pub(crate) fn same_text(a: &str, b: &str) -> (same: bool)
    ensures
        same == (a@ == b@),
{
    a.eq(b)
}

/// The characters of `s`, in order.
pub fn to_chars(s: &str) -> (chars: Vec<char>)
    ensures
        chars@ == s@,
{
    let mut chars: Vec<char> = Vec::new();
    for c in it: s.chars()
        invariant
            it.seq() == s@,
            chars@ == s@.subrange(0, it.index() as int),
    {
        chars.push(c);
    }
    assert(s@.subrange(0, s@.len() as int) =~= s@);
    chars
}

/// The string made of `chars[from..to]`.
pub fn from_chars(chars: &Vec<char>, from: usize, to: usize) -> (s: String)
    requires
        from <= to <= chars.len(),
    ensures
        s@ == chars@.subrange(from as int, to as int),
{
    let mut s = String::new();
    let mut i: usize = from;
    while i < to
        invariant
            from <= i <= to <= chars.len(),
            s@ == chars@.subrange(from as int, i as int),
        decreases to - i,
    {
        push_char(&mut s, chars[i]);
        i += 1;
    }
    s
}

/// Whether `c` has the Unicode property White_Space.
pub open spec fn is_space(c: char) -> bool {
    let n = c as u32;
    ||| 0x09 <= n <= 0x0D
    ||| n == 0x20
    ||| n == 0x85
    ||| n == 0xA0
    ||| n == 0x1680
    ||| 0x2000 <= n <= 0x200A
    ||| n == 0x2028
    ||| n == 0x2029
    ||| n == 0x202F
    ||| n == 0x205F
    ||| n == 0x3000
}

/// Tests a character for the Unicode property White_Space.
pub fn is_whitespace(c: char) -> (space: bool)
    ensures
        space == is_space(c),
{
    let n: u32 = c as u32;
    (0x09 <= n && n <= 0x0D) || n == 0x20 || n == 0x85 || n == 0xA0 || n == 0x1680 || (0x2000 <= n
        && n <= 0x200A) || n == 0x2028 || n == 0x2029 || n == 0x202F || n == 0x205F || n == 0x3000
}

/// `s` without its leading white space.
pub open spec fn trim_start(s: Seq<char>) -> Seq<char>
    decreases s.len(),
{
    if s.len() > 0 && is_space(s[0]) {
        trim_start(s.drop_first())
    } else {
        s
    }
}

/// `s` without its trailing white space.
pub open spec fn trim_end(s: Seq<char>) -> Seq<char>
    decreases s.len(),
{
    if s.len() > 0 && is_space(s.last()) {
        trim_end(s.drop_last())
    } else {
        s
    }
}

/// `s` without leading and trailing white space.
pub open spec fn trim(s: Seq<char>) -> Seq<char> {
    trim_end(trim_start(s))
}

/// Bounds `(a, b)` of the trimmed part of `chars[from..to]`.
pub fn trim_bounds(chars: &Vec<char>, from: usize, to: usize) -> (bounds: (usize, usize))
    requires
        from <= to <= chars.len(),
    ensures
        from <= bounds.0 <= bounds.1 <= to,
        chars@.subrange(bounds.0 as int, bounds.1 as int) == trim(
            chars@.subrange(from as int, to as int),
        ),
{
    let mut a: usize = from;
    while a < to && is_whitespace(chars[a])
        invariant
            from <= a <= to <= chars.len(),
            trim_start(chars@.subrange(from as int, to as int)) == trim_start(
                chars@.subrange(a as int, to as int),
            ),
        decreases to - a,
    {
        assert(chars@.subrange(a as int, to as int).drop_first() =~= chars@.subrange(
            a as int + 1,
            to as int,
        ));
        a += 1;
    }
    assert(trim_start(chars@.subrange(a as int, to as int)) == chars@.subrange(
        a as int,
        to as int,
    ));
    let mut b: usize = to;
    while b > a && is_whitespace(chars[b - 1])
        invariant
            a <= b <= to <= chars.len(),
            trim_end(chars@.subrange(a as int, to as int)) == trim_end(
                chars@.subrange(a as int, b as int),
            ),
        decreases b - a,
    {
        assert(chars@.subrange(a as int, b as int).drop_last() =~= chars@.subrange(
            a as int,
            b as int - 1,
        ));
        b -= 1;
    }
    assert(trim_end(chars@.subrange(a as int, b as int)) == chars@.subrange(a as int, b as int));
    (a, b)
}

/// Index of the first `c` in `s`, or `s.len()` where there is none.
pub open spec fn index_of(s: Seq<char>, c: char) -> int
    decreases s.len(),
{
    if s.len() == 0 {
        0
    } else if s[0] == c {
        0
    } else {
        1 + index_of(s.drop_first(), c)
    }
}

/// The pieces of `s` between occurrences of `sep`: always at least one piece,
/// and empty pieces are kept.
pub open spec fn split(s: Seq<char>, sep: char) -> Seq<Seq<char>>
    decreases s.len(),
{
    let i = index_of(s, sep);
    if 0 <= i < s.len() {
        seq![s.subrange(0, i)] + split(s.subrange(i + 1, s.len() as int), sep)
    } else {
        seq![s]
    }
}

/// `index_of` is the least index that holds `c`.
pub proof fn lemma_index_of(s: Seq<char>, c: char, i: int)
    requires
        0 <= i <= s.len(),
        forall|j: int| 0 <= j < i ==> s[j] != c,
        i < s.len() ==> s[i] == c,
    ensures
        index_of(s, c) == i,
    decreases s.len(),
{
    if s.len() > 0 && i > 0 {
        lemma_index_of(s.drop_first(), c, i - 1);
    }
}

/// Splits `chars` on `sep`, giving the bounds of each piece in order.
pub fn split_bounds(chars: &Vec<char>, sep: char) -> (pieces: Vec<(usize, usize)>)
    ensures
        pieces@.len() == split(chars@, sep).len(),
        forall|k: int|
            0 <= k < pieces@.len() ==> #[trigger] pieces@[k].0 <= pieces@[k].1 <= chars@.len(),
        forall|k: int|
            0 <= k < pieces@.len() ==> chars@.subrange(
                pieces@[k].0 as int,
                pieces@[k].1 as int,
            ) == #[trigger] split(chars@, sep)[k],
{
    let mut pieces: Vec<(usize, usize)> = Vec::new();
    let n: usize = chars.len();
    let mut start: usize = 0;
    let mut i: usize = 0;
    assert(chars@.subrange(0, n as int) =~= chars@);
    while i < n
        invariant
            n == chars@.len(),
            start <= i <= n,
            forall|j: int| start <= j < i ==> chars@[j] != sep,
            split(chars@, sep) == Seq::new(
                pieces@.len(),
                |k: int| chars@.subrange(pieces@[k].0 as int, pieces@[k].1 as int),
            ) + split(chars@.subrange(start as int, n as int), sep),
            forall|k: int|
                0 <= k < pieces@.len() ==> #[trigger] pieces@[k].0 <= pieces@[k].1 <= chars@.len(),
        decreases n - i,
    {
        if chars[i] == sep {
            proof {
                let rest = chars@.subrange(start as int, n as int);
                lemma_index_of(rest, sep, i - start);
                assert(rest.subrange(0, i - start) =~= chars@.subrange(start as int, i as int));
                assert(rest.subrange(i - start + 1, rest.len() as int) =~= chars@.subrange(
                    i as int + 1,
                    n as int,
                ));
            }
            let ghost before = pieces@;
            pieces.push((start, i));
            proof {
                let f = |k: int| chars@.subrange(before[k].0 as int, before[k].1 as int);
                let g = |k: int| chars@.subrange(pieces@[k].0 as int, pieces@[k].1 as int);
                assert(Seq::new(pieces@.len(), g) =~= Seq::new(before.len(), f)
                    + seq![chars@.subrange(start as int, i as int)]);
                assert(split(chars@, sep) =~= Seq::new(pieces@.len(), g) + split(
                    chars@.subrange(i as int + 1, n as int),
                    sep,
                ));
            }
            start = i + 1;
        }
        i += 1;
    }
    proof {
        lemma_index_of(chars@.subrange(start as int, n as int), sep, n - start);
    }
    let ghost before = pieces@;
    pieces.push((start, n));
    proof {
        let f = |k: int| chars@.subrange(before[k].0 as int, before[k].1 as int);
        let g = |k: int| chars@.subrange(pieces@[k].0 as int, pieces@[k].1 as int);
        assert(Seq::new(pieces@.len(), g) =~= Seq::new(before.len(), f)
            + seq![chars@.subrange(start as int, n as int)]);
        assert(split(chars@, sep) =~= Seq::new(pieces@.len(), g));
        assert forall|k: int| 0 <= k < pieces@.len() implies chars@.subrange(
            pieces@[k].0 as int,
            pieces@[k].1 as int,
        ) == #[trigger] split(chars@, sep)[k] by {
            assert(Seq::new(pieces@.len(), g)[k] == g(k));
        }
    }
    pieces
}

/// Whether `c` is one of the ten decimal digits.
pub open spec fn is_digit(c: char) -> bool {
    '0' <= c <= '9'
}

/// The number that a string of decimal digits denotes.
pub open spec fn digits_value(s: Seq<char>) -> int
    decreases s.len(),
{
    if s.len() == 0 {
        0
    } else {
        10 * digits_value(s.drop_last()) + (s.last() as int - '0' as int)
    }
}

/// The integer written in `s`: an optional `+` or `-`, then at least one
/// decimal digit and nothing else. `None` for every other string.
pub open spec fn signed_decimal(s: Seq<char>) -> Option<int> {
    if s.len() == 0 {
        None
    } else {
        let signed = s[0] == '-' || s[0] == '+';
        let digits = if signed {
            s.drop_first()
        } else {
            s
        };
        if digits.len() == 0 || !(forall|i: int| 0 <= i < digits.len() ==> is_digit(digits[i])) {
            None
        } else if s[0] == '-' {
            Some(-digits_value(digits))
        } else {
            Some(digits_value(digits))
        }
    }
}

/// The `i64` written in `s`, where it is a decimal integer in range.
pub open spec fn decimal_i64(s: Seq<char>) -> Option<i64> {
    match signed_decimal(s) {
        Some(v) => if i64::MIN <= v <= i64::MAX {
            Some(v as i64)
        } else {
            None
        },
        None => None,
    }
}

/// The `i32` written in `s`, where it is a decimal integer in range.
pub open spec fn decimal_i32(s: Seq<char>) -> Option<i32> {
    match signed_decimal(s) {
        Some(v) => if i32::MIN <= v <= i32::MAX {
            Some(v as i32)
        } else {
            None
        },
        None => None,
    }
}

/// `str::parse::<i64>`: accepts an optional sign followed by decimal digits
/// only, and fails on the empty string, on any other character and on a value
/// outside the type's range.
#[verifier::external_body]
pub(crate) fn parse_i64(s: &str) -> (value: Option<i64>)
    ensures
        value == decimal_i64(s@),
{
    match s.parse::<i64>() {
        Ok(value) => Some(value),
        Err(_) => None,
    }
}

/// `str::parse::<i32>`: accepts an optional sign followed by decimal digits
/// only, and fails on the empty string, on any other character and on a value
/// outside the type's range.
#[verifier::external_body]
pub(crate) fn parse_i32(s: &str) -> (value: Option<i32>)
    ensures
        value == decimal_i32(s@),
{
    match s.parse::<i32>() {
        Ok(value) => Some(value),
        Err(_) => None,
    }
}

} // verus!
