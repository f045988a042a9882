//! The vocabulary file: one `misheard => desired` rule per line, blank lines
//! and `#` comments ignored. Rules are ordered longest phrase first, so the
//! most specific phrase wins when rules overlap.

use vstd::prelude::*;
use vstd::utf8::encode_utf8;

use crate::text::{chars_of, is_whitespace_char, string_of, trim, trim_end, trim_range, trim_start};
use crate::vocabulary::{all_heard_nonempty, find_from, find_match, Entry, Rule, Vocabulary};

verus! {

/// Why a vocabulary file was refused; `line` counts from 1.
#[derive(Clone, Copy, PartialEq, Eq, Structural, Debug)]
pub enum VocabularyError {
    /// The line is neither blank, a comment, nor of the form `misheard => desired`.
    MissingArrow { line: usize },
    /// One side of the `=>` is empty.
    EmptySide { line: usize },
}

/// The first line feed at or after `i`, or the length of `s` when there is none.
pub open spec fn next_newline(s: Seq<char>, i: int) -> int
    decreases s.len() - i,
{
    if i < 0 || i >= s.len() {
        s.len() as int
    } else if s[i] == '\n' {
        i
    } else {
        next_newline(s, i + 1)
    }
}

/// A line ended by `\r\n` loses its carriage return.
pub open spec fn strip_cr(line: Seq<char>) -> Seq<char> {
    if line.len() > 0 && line.last() == '\r' {
        line.drop_last()
    } else {
        line
    }
}

/// The lines of `s` from position `start` on, as `str::lines` yields them: split at
/// `\n` or `\r\n`, a final line ending being optional.
pub open spec fn lines_from(s: Seq<char>, start: int) -> Seq<Seq<char>>
    decreases s.len() - start,
{
    if start < 0 || start >= s.len() {
        Seq::empty()
    } else {
        let j = next_newline(s, start);
        if j < start || j >= s.len() {
            seq![s.subrange(start, s.len() as int)]
        } else {
            seq![strip_cr(s.subrange(start, j))] + lines_from(s, j + 1)
        }
    }
}

/// The lines of a whole text.
pub open spec fn text_lines(s: Seq<char>) -> Seq<Seq<char>> {
    lines_from(s, 0)
}

/// What one line of the file holds.
pub enum LineKind {
    /// Blank, or a `#` comment.
    Ignored,
    /// A rule, both sides trimmed.
    Rule(Entry),
    /// No `=>` on the line.
    NoArrow,
    /// A side of the `=>` is empty once trimmed.
    EmptySide,
}

/// The two characters that separate a rule's sides.
pub open spec fn arrow() -> Seq<char> {
    seq!['=', '>']
}

/// How a line reads: trimmed, split at its first `=>`, both sides trimmed.
pub open spec fn classify_line(line: Seq<char>) -> LineKind {
    let t = trim(line);
    if t.len() == 0 || t[0] == '#' {
        LineKind::Ignored
    } else {
        match find_from(t, arrow(), 0) {
            None => LineKind::NoArrow,
            Some(i) => {
                let h = trim(t.subrange(0, i));
                let r = trim(t.subrange(i + 2, t.len() as int));
                if h.len() == 0 || r.len() == 0 {
                    LineKind::EmptySide
                } else {
                    LineKind::Rule((h, r))
                }
            },
        }
    }
}

/// The rules of the given lines in file order, or the error of the first bad line.
pub open spec fn parse_lines(lines: Seq<Seq<char>>) -> Result<Seq<Entry>, VocabularyError>
    decreases lines.len(),
{
    if lines.len() == 0 {
        Ok(Seq::empty())
    } else {
        match parse_lines(lines.drop_last()) {
            Err(e) => Err(e),
            Ok(acc) => match classify_line(lines.last()) {
                LineKind::Ignored => Ok(acc),
                LineKind::Rule(e) => Ok(acc.push(e)),
                LineKind::NoArrow => Err(VocabularyError::MissingArrow { line: lines.len() as usize }),
                LineKind::EmptySide => Err(VocabularyError::EmptySide { line: lines.len() as usize }),
            },
        }
    }
}

/// The length in bytes of a rule's phrase, as `str::len` reports it.
pub open spec fn heard_bytes(e: Entry) -> nat {
    (encode_utf8(e.0).len() as usize) as nat
}

/// The predicate "the phrase is `k` bytes long".
pub open spec fn has_len(k: nat) -> spec_fn(Entry) -> bool {
    |e: Entry| heard_bytes(e) == k
}

/// The rules whose phrase is `k` bytes long, in their order.
pub open spec fn length_class(s: Seq<Entry>, k: nat) -> Seq<Entry> {
    s.filter(has_len(k))
}

/// Longer phrases come first.
pub open spec fn longest_first(s: Seq<Entry>) -> bool {
    forall|i: int, j: int| 0 <= i < j < s.len() ==> heard_bytes(#[trigger] s[i]) >= heard_bytes(#[trigger] s[j])
}

/// `out` is `input` sorted longest phrase first, rules of equal length keeping
/// their relative order.
pub open spec fn stable_longest_first(out: Seq<Entry>, input: Seq<Entry>) -> bool {
    &&& longest_first(out)
    &&& forall|k: nat| #[trigger] length_class(out, k) == length_class(input, k)
}

/// The views of a vector of rules.
pub open spec fn rule_views(rules: Seq<Rule>) -> Seq<Entry> {
    rules.map_values(|r: Rule| r@)
}

proof fn lemma_filter_push(s: Seq<Entry>, x: Entry, k: nat)
    ensures
        length_class(s.push(x), k) == if heard_bytes(x) == k {
            length_class(s, k).push(x)
        } else {
            length_class(s, k)
        },
{
    reveal(Seq::filter);
    assert(s.push(x).drop_last() =~= s);
}

proof fn lemma_filter_none(s: Seq<Entry>, k: nat)
    requires
        forall|i: int| 0 <= i < s.len() ==> heard_bytes(#[trigger] s[i]) != k,
    ensures
        length_class(s, k) == Seq::<Entry>::empty(),
    decreases s.len(),
{
    reveal(Seq::filter);
    if s.len() > 0 {
        lemma_filter_none(s.drop_last(), k);
    }
}

/// Inserting `x` after every rule at least as long keeps the order and adds `x`
/// as the last rule of its length.
proof fn lemma_insert_sorted(s: Seq<Entry>, p: int, x: Entry)
    requires
        0 <= p <= s.len(),
        longest_first(s),
        forall|i: int| 0 <= i < p ==> heard_bytes(#[trigger] s[i]) >= heard_bytes(x),
        forall|i: int| p <= i < s.len() ==> heard_bytes(#[trigger] s[i]) < heard_bytes(x),
    ensures
        longest_first(s.insert(p, x)),
        forall|k: nat| #[trigger] length_class(s.insert(p, x), k) == if heard_bytes(x) == k {
            length_class(s, k).push(x)
        } else {
            length_class(s, k)
        },
{
    let t = s.insert(p, x);
    assert forall|i: int, j: int| 0 <= i < j < t.len() implies heard_bytes(#[trigger] t[i]) >= heard_bytes(#[trigger] t[j]) by {
        if j < p {
            assert(t[i] == s[i] && t[j] == s[j]);
        } else if j == p {
            assert(t[i] == s[i]);
        } else if i < p {
            assert(t[i] == s[i] && t[j] == s[j - 1]);
        } else if i == p {
            assert(t[j] == s[j - 1]);
        } else {
            assert(t[i] == s[i - 1] && t[j] == s[j - 1]);
        }
    }
    let a = s.take(p);
    let b = s.skip(p);
    assert(t =~= a + seq![x] + b);
    assert(s =~= a + b);
    assert forall|k: nat| #[trigger] length_class(t, k) == if heard_bytes(x) == k {
        length_class(s, k).push(x)
    } else {
        length_class(s, k)
    } by {
        Seq::filter_distributes_over_add(a + seq![x], b, has_len(k));
        Seq::filter_distributes_over_add(a, seq![x], has_len(k));
        Seq::filter_distributes_over_add(a, b, has_len(k));
        lemma_filter_push(Seq::<Entry>::empty(), x, k);
        reveal(Seq::filter);
        assert(Seq::<Entry>::empty().push(x) =~= seq![x]);
        if heard_bytes(x) == k {
            lemma_filter_none(b, k);
            assert(length_class(a, k) + length_class(b, k) =~= length_class(a, k));
            assert(length_class(a, k) + seq![x] =~= length_class(a, k).push(x));
        } else {
            assert(length_class(seq![x], k) =~= Seq::<Entry>::empty());
            assert(length_class(a, k) + Seq::<Entry>::empty() =~= length_class(a, k));
        }
    }
}


/// Some rule of `s` has a phrase `k` bytes long when its length class is non-empty.
proof fn lemma_class_witness(s: Seq<Entry>, k: nat)
    requires
        length_class(s, k).len() > 0,
    ensures
        exists|i: int| 0 <= i < s.len() && heard_bytes(#[trigger] s[i]) == k,
{
    if !(exists|i: int| 0 <= i < s.len() && heard_bytes(#[trigger] s[i]) == k) {
        lemma_filter_none(s, k);
    }
}

/// Sorting longest phrase first while keeping equal lengths in order has one
/// outcome: two such orderings of the same rules are the same sequence.
pub proof fn lemma_stable_longest_first_unique(a: Seq<Entry>, b: Seq<Entry>)
    requires
        longest_first(a),
        longest_first(b),
        forall|k: nat| #[trigger] length_class(a, k) == length_class(b, k),
    ensures
        a == b,
    decreases a.len() + b.len(),
{
    if a.len() == 0 && b.len() == 0 {
        assert(a =~= b);
    } else if a.len() == 0 || b.len() == 0 {
        let (e, s, t) = if a.len() == 0 { (b.last(), b, a) } else { (a.last(), a, b) };
        let k = heard_bytes(e);
        assert(s =~= s.drop_last().push(e));
        lemma_filter_push(s.drop_last(), e, k);
        lemma_filter_none(t, k);
        assert(length_class(s, k).len() > 0);
        assert(length_class(a, k) == length_class(b, k));
    } else {
        let x = a.last();
        let y = b.last();
        let a1 = a.drop_last();
        let b1 = b.drop_last();
        assert(a =~= a1.push(x));
        assert(b =~= b1.push(y));
        let kx = heard_bytes(x);
        let ky = heard_bytes(y);
        lemma_filter_push(a1, x, kx);
        lemma_filter_push(b1, y, ky);
        assert(length_class(a, kx) == length_class(b, kx));
        assert(length_class(a, ky) == length_class(b, ky));
        lemma_class_witness(b, kx);
        lemma_class_witness(a, ky);
        let i = choose|i: int| 0 <= i < b.len() && heard_bytes(#[trigger] b[i]) == kx;
        let j = choose|j: int| 0 <= j < a.len() && heard_bytes(#[trigger] a[j]) == ky;
        if i < b.len() - 1 {
            assert(heard_bytes(b[i]) >= heard_bytes(b[b.len() - 1]));
        }
        if j < a.len() - 1 {
            assert(heard_bytes(a[j]) >= heard_bytes(a[a.len() - 1]));
        }
        assert(kx == ky);
        let k = kx;
        lemma_filter_push(b1, y, k);
        assert(length_class(a1, k).push(x) == length_class(b1, k).push(y));
        assert(x == length_class(a1, k).push(x).last());
        assert(x == y);
        assert(length_class(a1, k) =~= length_class(a1, k).push(x).drop_last());
        assert(length_class(b1, k) =~= length_class(b1, k).push(y).drop_last());
        assert forall|k2: nat| #[trigger] length_class(a1, k2) == length_class(b1, k2) by {
            lemma_filter_push(a1, x, k2);
            lemma_filter_push(b1, y, k2);
            assert(length_class(a, k2) == length_class(b, k2));
            if k2 == k {
                assert(length_class(a1, k2) =~= length_class(a1, k2).push(x).drop_last());
                assert(length_class(b1, k2) =~= length_class(b1, k2).push(y).drop_last());
            }
        }
        assert(longest_first(a1)) by {
            assert forall|p: int, q: int| 0 <= p < q < a1.len() implies heard_bytes(#[trigger] a1[p]) >= heard_bytes(#[trigger] a1[q]) by {
                assert(a1[p] == a[p] && a1[q] == a[q]);
            }
        }
        assert(longest_first(b1)) by {
            assert forall|p: int, q: int| 0 <= p < q < b1.len() implies heard_bytes(#[trigger] b1[p]) >= heard_bytes(#[trigger] b1[q]) by {
                assert(b1[p] == b[p] && b1[q] == b[q]);
            }
        }
        lemma_stable_longest_first_unique(a1, b1);
    }
}

/// Orders rules longest phrase (in bytes) first; rules of equal length keep
/// their order, as a stable sort does.
pub fn sort_longest_first(rules: Vec<Rule>) -> (out: Vec<Rule>)
    ensures
        stable_longest_first(rule_views(out@), rule_views(rules@)),
        forall|i: int| 0 <= i < out@.len() ==> rule_views(rules@).contains(#[trigger] rule_views(out@)[i]),
{
    let ghost all = rule_views(rules@);
    let mut input = rules;
    let mut out: Vec<Rule> = Vec::new();
    let ghost mut done: Seq<Entry> = Seq::empty();
    assert(longest_first(rule_views(out@)));
    while input.len() > 0
        invariant
            all == done + rule_views(input@),
            longest_first(rule_views(out@)),
            forall|k: nat| #[trigger] length_class(rule_views(out@), k) == length_class(done, k),
            forall|i: int| 0 <= i < out@.len() ==> all.contains(#[trigger] rule_views(out@)[i]),
        decreases input.len(),
    {
        let ghost before = rule_views(out@);
        let r = input.remove(0);
        let key = r.heard().len();
        let mut p: usize = 0;
        while p < out.len() && out[p].heard().len() >= key
            invariant
                p <= out.len(),
                before == rule_views(out@),
                key == heard_bytes(r@),
                forall|i: int| 0 <= i < p ==> heard_bytes(#[trigger] before[i]) >= heard_bytes(r@),
            decreases out.len() - p,
        {
            p = p + 1;
        }
        assert forall|i: int| p <= i < before.len() implies heard_bytes(#[trigger] before[i]) < heard_bytes(r@) by {
            assert(heard_bytes(before[p as int]) < heard_bytes(r@));
            assert(heard_bytes(before[p as int]) >= heard_bytes(before[i]));
        }
        proof {
            lemma_insert_sorted(before, p as int, r@);
            assert forall|k: nat| #[trigger] length_class(done.push(r@), k) == if heard_bytes(r@) == k {
                length_class(done, k).push(r@)
            } else {
                length_class(done, k)
            } by {
                lemma_filter_push(done, r@, k);
            }
            done = done.push(r@);
        }
        assert(all[done.len() - 1] == r@);
        out.insert(p, r);
        assert(rule_views(out@) =~= before.insert(p as int, r@));
        assert forall|i: int| 0 <= i < out@.len() implies all.contains(#[trigger] rule_views(out@)[i]) by {
            if i < p {
                assert(rule_views(out@)[i] == before[i]);
            } else if i > p {
                assert(rule_views(out@)[i] == before[i - 1]);
            }
        }
        assert(all =~= done + rule_views(input@));
    }
    assert(done =~= all);
    out
}


proof fn lemma_next_newline(s: Seq<char>, i: int)
    requires
        0 <= i <= s.len(),
    ensures
        i <= next_newline(s, i) <= s.len(),
        next_newline(s, i) < s.len() ==> s[next_newline(s, i)] == '\n',
    decreases s.len() - i,
{
    if i < s.len() && s[i] != '\n' {
        lemma_next_newline(s, i + 1);
    }
}

/// Once a line is refused, the lines after it do not matter.
proof fn lemma_parse_error_sticks(p: Seq<Seq<char>>, q: Seq<Seq<char>>)
    requires
        parse_lines(p) is Err,
    ensures
        parse_lines(p + q) == parse_lines(p),
    decreases q.len(),
{
    if q.len() == 0 {
        assert(p + q =~= p);
    } else {
        lemma_parse_error_sticks(p, q.drop_last());
        assert((p + q).drop_last() =~= p + q.drop_last());
    }
}

/// A parse outcome seen from one line further down the file: the same rules,
/// or the same error reported one line later.
pub open spec fn one_line_later(r: Result<Seq<Entry>, VocabularyError>) -> Result<Seq<Entry>, VocabularyError> {
    match r {
        Ok(rules) => Ok(rules),
        Err(VocabularyError::MissingArrow { line }) => Err(VocabularyError::MissingArrow { line: (line + 1) as usize }),
        Err(VocabularyError::EmptySide { line }) => Err(VocabularyError::EmptySide { line: (line + 1) as usize }),
    }
}

/// Whitespace that does not end a line.
pub open spec fn inline_whitespace(w: Seq<char>) -> bool {
    forall|i: int| 0 <= i < w.len() ==> is_whitespace_char(#[trigger] w[i]) && w[i] != '\n'
}

/// No line feed in `c`.
pub open spec fn single_line(c: Seq<char>) -> bool {
    forall|i: int| 0 <= i < c.len() ==> #[trigger] c[i] != '\n'
}

proof fn lemma_trim_start_skips(w: Seq<char>, t: Seq<char>)
    requires
        forall|i: int| 0 <= i < w.len() ==> is_whitespace_char(#[trigger] w[i]),
    ensures
        trim_start(w + t) == trim_start(t),
    decreases w.len(),
{
    if w.len() > 0 {
        assert((w + t)[0] == w[0]);
        assert((w + t).drop_first() =~= w.drop_first() + t);
        assert forall|i: int| 0 <= i < w.drop_first().len() implies is_whitespace_char(#[trigger] w.drop_first()[i]) by {
            assert(w.drop_first()[i] == w[i + 1]);
        }
        lemma_trim_start_skips(w.drop_first(), t);
    } else {
        assert(w + t =~= t);
    }
}

proof fn lemma_trim_end_keeps_first(s: Seq<char>)
    requires
        s.len() > 0,
        !is_whitespace_char(s[0]),
    ensures
        trim_end(s).len() > 0,
        trim_end(s)[0] == s[0],
    decreases s.len(),
{
    if s.len() > 1 && is_whitespace_char(s.last()) {
        assert(s.drop_last()[0] == s[0]);
        lemma_trim_end_keeps_first(s.drop_last());
    }
}

/// A line whose first non-blank character is `#` is a comment.
proof fn lemma_comment_classified(w: Seq<char>, c: Seq<char>)
    requires
        forall|i: int| 0 <= i < w.len() ==> is_whitespace_char(#[trigger] w[i]),
    ensures
        classify_line(w + seq!['#'] + c) == LineKind::Ignored,
{
    let t = seq!['#'] + c;
    assert(w + seq!['#'] + c =~= w + t);
    lemma_trim_start_skips(w, t);
    assert(!is_whitespace_char('#'));
    assert(t[0] == '#');
    assert(trim_start(t) == t);
    lemma_trim_end_keeps_first(t);
}

/// A comment line put in front of other lines is ignored: the same rules come
/// out, and an error is reported one line later.
pub proof fn lemma_comment_line_ignored(w: Seq<char>, c: Seq<char>, lines: Seq<Seq<char>>)
    requires
        forall|i: int| 0 <= i < w.len() ==> is_whitespace_char(#[trigger] w[i]),
        lines.len() < usize::MAX,
    ensures
        parse_lines(seq![w + seq!['#'] + c] + lines) == one_line_later(parse_lines(lines)),
    decreases lines.len(),
{
    let l = w + seq!['#'] + c;
    lemma_comment_classified(w, c);
    if lines.len() == 0 {
        assert(seq![l] + lines =~= seq![l]);
        assert(seq![l].drop_last() =~= Seq::<Seq<char>>::empty());
        assert(parse_lines(Seq::<Seq<char>>::empty()) == Ok::<Seq<Entry>, VocabularyError>(Seq::empty()));
        assert(parse_lines(seq![l]) == Ok::<Seq<Entry>, VocabularyError>(Seq::empty()));
    } else {
        lemma_comment_line_ignored(w, c, lines.drop_last());
        assert((seq![l] + lines).drop_last() =~= seq![l] + lines.drop_last());
        assert((seq![l] + lines).last() == lines.last());
        let all = seq![l] + lines;
        assert(all.len() == lines.len() + 1);
        match parse_lines(lines.drop_last()) {
            Err(e) => {
                assert(parse_lines(lines) == Err::<Seq<Entry>, VocabularyError>(e));
                assert(parse_lines(all) == one_line_later(parse_lines(lines)));
            },
            Ok(acc) => {
                assert(parse_lines(all.drop_last()) == Ok::<Seq<Entry>, VocabularyError>(acc));
                match classify_line(lines.last()) {
                    LineKind::NoArrow => {
                        assert(parse_lines(lines) == Err::<Seq<Entry>, VocabularyError>(VocabularyError::MissingArrow { line: lines.len() as usize }));
                        assert(parse_lines(all) == Err::<Seq<Entry>, VocabularyError>(VocabularyError::MissingArrow { line: all.len() as usize }));
                    },
                    LineKind::EmptySide => {
                        assert(parse_lines(lines) == Err::<Seq<Entry>, VocabularyError>(VocabularyError::EmptySide { line: lines.len() as usize }));
                        assert(parse_lines(all) == Err::<Seq<Entry>, VocabularyError>(VocabularyError::EmptySide { line: all.len() as usize }));
                    },
                    _ => {},
                }
                assert(parse_lines(all) == one_line_later(parse_lines(lines)));
            },
        }
    }
}

proof fn lemma_lines_count(s: Seq<char>, start: int)
    requires
        0 <= start,
    ensures
        lines_from(s, start).len() <= if start <= s.len() { s.len() - start } else { 0 },
    decreases s.len() - start,
{
    if start < s.len() {
        lemma_next_newline(s, start);
        let j = next_newline(s, start);
        if j < s.len() {
            lemma_lines_count(s, j + 1);
        }
    }
}

proof fn lemma_next_newline_shift(p: Seq<char>, r: Seq<char>, i: int)
    requires
        0 <= i,
    ensures
        next_newline(p + r, p.len() + i) == p.len() + next_newline(r, i),
    decreases r.len() - i,
{
    if i < r.len() {
        assert((p + r)[p.len() + i] == r[i]);
        if r[i] != '\n' {
            lemma_next_newline_shift(p, r, i + 1);
        }
    }
}

proof fn lemma_lines_shift(p: Seq<char>, r: Seq<char>, k: int)
    requires
        0 <= k,
    ensures
        lines_from(p + r, p.len() + k) == lines_from(r, k),
    decreases r.len() - k,
{
    let s = p + r;
    if k < r.len() {
        lemma_next_newline_shift(p, r, k);
        lemma_next_newline(r, k);
        let j = next_newline(r, k);
        if j < r.len() {
            assert(s.subrange(p.len() + k, p.len() + j) =~= r.subrange(k, j));
            lemma_lines_shift(p, r, j + 1);
        } else {
            assert(s.subrange(p.len() + k, s.len() as int) =~= r.subrange(k, r.len() as int));
        }
    }
}

proof fn lemma_next_newline_at(s: Seq<char>, i: int, m: int)
    requires
        0 <= i <= m < s.len(),
        s[m] == '\n',
        forall|k: int| i <= k < m ==> #[trigger] s[k] != '\n',
    ensures
        next_newline(s, i) == m,
    decreases m - i,
{
    if i < m {
        lemma_next_newline_at(s, i + 1, m);
    }
}

/// A comment line, possibly indented, at the top of a vocabulary file is
/// ignored: the file gives the same rules as the rest of it, and an error in
/// the rest is reported one line later.
pub proof fn lemma_comment_first_line(w: Seq<char>, c: Seq<char>, rest: Seq<char>)
    requires
        inline_whitespace(w),
        single_line(c),
        (w + seq!['#'] + c + seq!['\n'] + rest).len() <= usize::MAX,
    ensures
        parse_lines(text_lines(w + seq!['#'] + c + seq!['\n'] + rest)) == one_line_later(parse_lines(text_lines(rest))),
{
    let first = w + seq!['#'] + c;
    let p = first + seq!['\n'];
    let s = p + rest;
    assert(w + seq!['#'] + c + seq!['\n'] + rest =~= s);
    let m = first.len() as int;
    assert(s[m] == '\n');
    assert forall|k: int| 0 <= k < m implies #[trigger] s[k] != '\n' by {
        assert(s[k] == first[k]);
        if k < w.len() {
            assert(first[k] == w[k]);
        } else if k > w.len() {
            assert(first[k] == c[k - w.len() - 1]);
        }
    }
    lemma_next_newline_at(s, 0, m);
    assert(s.subrange(0, m) =~= first);
    lemma_lines_shift(p, rest, 0);
    assert(text_lines(s) == seq![strip_cr(first)] + text_lines(rest));
    lemma_lines_count(rest, 0);
    assert forall|i: int| 0 <= i < w.len() implies is_whitespace_char(#[trigger] w[i]) by {
        assert(is_whitespace_char(w[i]) && w[i] != '\n');
    }
    if first.last() == '\r' {
        assert(c.len() > 0);
        assert(strip_cr(first) =~= w + seq!['#'] + c.drop_last());
        lemma_comment_line_ignored(w, c.drop_last(), text_lines(rest));
    } else {
        lemma_comment_line_ignored(w, c, text_lines(rest));
    }
}

impl Vocabulary {
    /// Reads a vocabulary file's text: each non-blank, non-comment line must
    /// be `misheard => desired` with both sides non-empty. The rules come out
    /// longest phrase first, so the most specific phrase wins when rules
    /// overlap; the first bad line is reported with its 1-based number.
    pub fn parse(text: &str) -> (r: Result<Vocabulary, VocabularyError>)
        ensures
            match parse_lines(text_lines(text@)) {
                Err(e) => r == Err::<Vocabulary, VocabularyError>(e),
                Ok(entries) => r matches Ok(v) && stable_longest_first(v@, entries),
            },
    {
        let chars = chars_of(text);
        let n = chars.len();
        let arrow_chars = vec!['=', '>'];
        assert(arrow_chars@ =~= arrow());
        let mut rules: Vec<Rule> = Vec::new();
        let mut start: usize = 0;
        let mut line_no: usize = 0;
        let ghost mut done: Seq<Seq<char>> = Seq::empty();
        assert(rule_views(rules@) =~= Seq::<Entry>::empty());
        assert(text_lines(chars@) =~= done + lines_from(chars@, 0));
        while start < n
            invariant
                n == chars.len(),
                chars@ == text@,
                arrow_chars@ == arrow(),
                start <= n,
                line_no == done.len(),
                line_no <= start,
                text_lines(chars@) == done + lines_from(chars@, start as int),
                parse_lines(done) == Ok::<Seq<Entry>, VocabularyError>(rule_views(rules@)),
                all_heard_nonempty(rule_views(rules@)),
            decreases n - start,
        {
            let mut j: usize = start;
            while j < n && chars[j] != '\n'
                invariant
                    start <= j <= n,
                    n == chars.len(),
                    next_newline(chars@, start as int) == next_newline(chars@, j as int),
                decreases n - j,
            {
                j = j + 1;
            }
            proof {
                lemma_next_newline(chars@, start as int);
            }
            let line_end = if j < n && j > start && chars[j - 1] == '\r' {
                j - 1
            } else {
                j
            };
            let ghost line = if j < n {
                strip_cr(chars@.subrange(start as int, j as int))
            } else {
                chars@.subrange(start as int, n as int)
            };
            assert(line =~= chars@.subrange(start as int, line_end as int));
            assert(lines_from(chars@, start as int) =~= seq![line] + lines_from(chars@, if j < n {
                j + 1
            } else {
                n as int
            }));
            let t = trim_range(&chars, start, line_end);
            let ghost prev = done;
            proof {
                done = done.push(line);
                assert(done.drop_last() =~= prev);
            }
            assert(done + lines_from(chars@, if j < n {
                j + 1
            } else {
                n as int
            }) =~= prev + lines_from(chars@, start as int));
            line_no = line_no + 1;
            if t.len() > 0 && t[0] != '#' {
                match find_match(&t, &arrow_chars, 0) {
                    None => {
                        proof {
                            assert(trim(line) == t@);
                            assert(classify_line(line) == LineKind::NoArrow);
                            assert(done.last() == line);
                            assert(parse_lines(done) == Err::<Seq<Entry>, VocabularyError>(VocabularyError::MissingArrow { line: line_no }));
                            lemma_parse_error_sticks(done, lines_from(chars@, if j < n {
                                j + 1
                            } else {
                                n as int
                            }));
                        }
                        return Err(VocabularyError::MissingArrow { line: line_no });
                    },
                    Some(i) => {
                        proof {
                            crate::vocabulary::lemma_find_from(t@, arrow(), 0);
                        }
                        let heard = trim_range(&t, 0, i);
                        let replacement = trim_range(&t, i + 2, t.len());
                        if heard.len() == 0 || replacement.len() == 0 {
                            proof {
                                lemma_parse_error_sticks(done, lines_from(chars@, if j < n {
                                    j + 1
                                } else {
                                    n as int
                                }));
                            }
                            return Err(VocabularyError::EmptySide { line: line_no });
                        }
                        let rule = Rule::new(string_of(&heard), string_of(&replacement));
                        let ghost before_rules = rules@;
                        rules.push(rule);
                        assert(rule_views(rules@) =~= rule_views(before_rules).push(rule@));
                    },
                }
            }
            start = if j < n {
                j + 1
            } else {
                n
            };
        }
        assert(done + lines_from(chars@, start as int) =~= done);
        let ghost rules_before_sort = rules@;
        let sorted = sort_longest_first(rules);
        assert forall|i: int| 0 <= i < rule_views(sorted@).len() implies (#[trigger] rule_views(sorted@)[i]).0.len() > 0 by {
            assert(rule_views(rules_before_sort).contains(rule_views(sorted@)[i]));
        }
        Ok(Vocabulary::new(sorted))
    }
}

} // verus!
