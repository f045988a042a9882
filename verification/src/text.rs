//! Character-level text helpers shared by the library: conversion between
//! strings and character vectors, ASCII case folding, and whitespace trimming.

use vstd::prelude::*;

verus! {

/// Whether an ASCII character is whitespace: tab, line feed, vertical tab,
/// form feed, carriage return or space.
pub open spec fn ascii_whitespace(c: char) -> bool {
    c == '\t' || c == '\n' || c == '\u{0B}' || c == '\u{0C}' || c == '\r' || c == ' '
}

/// Whether an ASCII character is a letter or a digit.
pub open spec fn ascii_alphanumeric(c: char) -> bool {
    ('a' <= c <= 'z') || ('A' <= c <= 'Z') || ('0' <= c <= '9')
}

/// Whether a character beyond ASCII has the Unicode `White_Space` property, as
/// `char::is_whitespace` decides.
pub uninterp spec fn non_ascii_whitespace(c: char) -> bool;

/// Whether a character beyond ASCII is alphabetic or numeric in Unicode, as
/// `char::is_alphanumeric` decides.
pub uninterp spec fn non_ascii_alphanumeric(c: char) -> bool;

/// Whether `c` has the Unicode `White_Space` property.
pub open spec fn is_whitespace_char(c: char) -> bool {
    if (c as u32) < 128 {
        ascii_whitespace(c)
    } else {
        non_ascii_whitespace(c)
    }
}

/// Whether `c` is alphabetic or numeric in Unicode.
pub open spec fn is_alphanumeric_char(c: char) -> bool {
    if (c as u32) < 128 {
        ascii_alphanumeric(c)
    } else {
        non_ascii_alphanumeric(c)
    }
}

/// Calls `char::is_whitespace`. The contract claims that among ASCII
/// characters exactly tab, line feed, vertical tab, form feed, carriage return
/// and space are whitespace, and that for any other character the answer
/// depends on the character alone (named `non_ascii_whitespace`); which
/// characters beyond ASCII carry the Unicode property is left unsaid.
#[verifier::external_body]
pub(crate) fn char_is_whitespace(c: char) -> (b: bool)
    ensures
        (c as u32) < 128 ==> b == ascii_whitespace(c),
        (c as u32) >= 128 ==> b == non_ascii_whitespace(c),
        b == is_whitespace_char(c),
{
    c.is_whitespace()
}

/// Calls `char::is_alphanumeric`. The contract claims that among ASCII
/// characters exactly the letters and digits are alphanumeric, and that for
/// any other character the answer depends on the character alone (named
/// `non_ascii_alphanumeric`); which characters beyond ASCII are alphabetic or
/// numeric in Unicode is left unsaid.
#[verifier::external_body]
pub(crate) fn char_is_alphanumeric(c: char) -> (b: bool)
    ensures
        (c as u32) < 128 ==> b == ascii_alphanumeric(c),
        (c as u32) >= 128 ==> b == non_ascii_alphanumeric(c),
        b == is_alphanumeric_char(c),
{
    c.is_alphanumeric()
}

/// Calls `String::push`, which appends one character.
#[verifier::external_body]
pub(crate) fn push_char(s: &mut String, c: char)
    ensures
        final(s)@ == old(s)@.push(c),
{
    s.push(c)
}

/// The characters of a string slice, in order.
pub fn chars_of(s: &str) -> (v: Vec<char>)
    ensures
        v@ == s@,
{
    let mut v: Vec<char> = Vec::new();
    for c in it: s.chars()
        invariant
            it.seq() == s@,
            v@ == it.seq().take(it.index() as int),
    {
        v.push(c);
    }
    v
}


/// A string holding exactly the given characters.
pub fn string_of(v: &Vec<char>) -> (s: String)
    ensures
        s@ == v@,
{
    let mut s = String::new();
    let mut i: usize = 0;
    while i < v.len()
        invariant
            i <= v.len(),
            s@ == v@.take(i as int),
        decreases v.len() - i,
    {
        push_char(&mut s, v[i]);
        assert(v@.take(i + 1) == v@.take(i as int).push(v@[i as int]));
        i = i + 1;
    }
    assert(v@.take(v.len() as int) == v@);
    s
}

/// ASCII upper-case letters map to lower case; every other character is kept,
/// as `char::to_ascii_lowercase` does.
pub open spec fn ascii_lower_char(c: char) -> char {
    if 'A' <= c <= 'Z' {
        ((c as u32) + 32) as char
    } else {
        c
    }
}

/// `ascii_lower_char` applied to every character.
pub open spec fn ascii_lower(s: Seq<char>) -> Seq<char> {
    s.map_values(|c: char| ascii_lower_char(c))
}

/// Lower-cases one ASCII letter, leaving every other character alone.
pub fn lower_ascii_char(c: char) -> (r: char)
    ensures
        r == ascii_lower_char(c),
{
    if 'A' <= c && c <= 'Z' {
        let code: u8 = ((c as u32) + 32) as u8;
        code as char
    } else {
        c
    }
}

/// `to_ascii_lowercase` over a character vector.
pub fn lower_ascii(v: &Vec<char>) -> (r: Vec<char>)
    ensures
        r@ == ascii_lower(v@),
{
    let mut r: Vec<char> = Vec::new();
    let mut i: usize = 0;
    while i < v.len()
        invariant
            i <= v.len(),
            r@ == ascii_lower(v@.take(i as int)),
        decreases v.len() - i,
    {
        let c = lower_ascii_char(v[i]);
        r.push(c);
        assert(ascii_lower(v@.take(i + 1)) =~= ascii_lower(v@.take(i as int)).push(c));
        i = i + 1;
    }
    assert(v@.take(v.len() as int) == v@);
    r
}

/// `s` with leading whitespace removed, as `str::trim_start` does.
pub open spec fn trim_start(s: Seq<char>) -> Seq<char>
    decreases s.len(),
{
    if s.len() > 0 && is_whitespace_char(s[0]) {
        trim_start(s.drop_first())
    } else {
        s
    }
}

/// `s` with trailing whitespace removed, as `str::trim_end` does.
pub open spec fn trim_end(s: Seq<char>) -> Seq<char>
    decreases s.len(),
{
    if s.len() > 0 && is_whitespace_char(s.last()) {
        trim_end(s.drop_last())
    } else {
        s
    }
}

/// `s` with leading and trailing whitespace removed, as `str::trim` does.
pub open spec fn trim(s: Seq<char>) -> Seq<char> {
    trim_end(trim_start(s))
}

/// The whitespace-trimmed part of `v[from..to]`, as a new vector.
pub fn trim_range(v: &Vec<char>, from: usize, to: usize) -> (r: Vec<char>)
    requires
        from <= to <= v.len(),
    ensures
        r@ == trim(v@.subrange(from as int, to as int)),
{
    let mut a: usize = from;
    while a < to && char_is_whitespace(v[a])
        invariant
            from <= a <= to <= v.len(),
            trim_start(v@.subrange(from as int, to as int)) == trim_start(v@.subrange(a as int, to as int)),
        decreases to - a,
    {
        assert(v@.subrange(a as int, to as int).drop_first() =~= v@.subrange(a + 1, to as int));
        a = a + 1;
    }
    let mut b: usize = to;
    while b > a && char_is_whitespace(v[b - 1])
        invariant
            from <= a <= b <= to <= v.len(),
            trim_start(v@.subrange(from as int, to as int)) == v@.subrange(a as int, to as int),
            trim_end(v@.subrange(a as int, to as int)) == trim_end(v@.subrange(a as int, b as int)),
        decreases b - a,
    {
        assert(v@.subrange(a as int, b as int).drop_last() =~= v@.subrange(a as int, b - 1));
        b = b - 1;
    }
    let mut r: Vec<char> = Vec::new();
    let mut i: usize = a;
    while i < b
        invariant
            a <= i <= b <= v.len(),
            r@ == v@.subrange(a as int, i as int),
        decreases b - i,
    {
        r.push(v[i]);
        assert(v@.subrange(a as int, i + 1) =~= v@.subrange(a as int, i as int).push(v@[i as int]));
        i = i + 1;
    }
    r
}

/// `str::trim`, on a string slice.
pub fn trim_str(s: &str) -> (r: Vec<char>)
    ensures
        r@ == trim(s@),
{
    let v = chars_of(s);
    assert(v@.subrange(0, v@.len() as int) =~= v@);
    trim_range(&v, 0, v.len())
}

/// Whether two character vectors are equal.
pub fn same_chars(a: &Vec<char>, b: &Vec<char>) -> (r: bool)
    ensures
        r == (a@ == b@),
{
    if a.len() != b.len() {
        return false;
    }
    let mut i: usize = 0;
    while i < a.len()
        invariant
            a.len() == b.len(),
            i <= a.len(),
            forall|k: int| 0 <= k < i ==> a@[k] == b@[k],
        decreases a.len() - i,
    {
        if a[i] != b[i] {
            return false;
        }
        i = i + 1;
    }
    assert(a@ =~= b@);
    true
}

} // verus!
