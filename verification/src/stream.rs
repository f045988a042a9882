//! Live streaming: the recognizer's committed text is a stable prefix that
//! only grows, so typing the part beyond what was already emitted can never
//! require correcting text that was typed. Progress is counted in UTF-8 bytes.

use vstd::prelude::*;
use vstd::utf8::{encode_utf8, encode_utf8_first_scalar, encode_utf8_valid_utf8, is_char_boundary};

verus! {

/// Tracks how many bytes of the committed text have been handed out for typing.
pub struct CommittedText {
    emitted: usize,
}

/// The UTF-8 length of a text, as `str::len` reports it.
pub open spec fn byte_len(s: Seq<char>) -> nat {
    (encode_utf8(s).len() as usize) as nat
}

/// Emitting after `emitted` bytes went out, given the committed text: the new
/// count and the UTF-8 bytes of the delta to type, if the text grew past the count.
pub open spec fn emit(emitted: nat, committed: Seq<char>) -> (nat, Option<Seq<u8>>) {
    let b = encode_utf8(committed);
    if byte_len(committed) > emitted {
        (byte_len(committed), Some(b.subrange(emitted as int, b.len() as int)))
    } else {
        (emitted, None)
    }
}

/// Slicing the committed text at `emitted` bytes is possible: it grew past the
/// count only at a character boundary.
pub open spec fn can_emit(emitted: nat, committed: Seq<char>) -> bool {
    byte_len(committed) > emitted ==> is_char_boundary(encode_utf8(committed), emitted as int)
}

/// Feeding committed texts one after another: the final count and the UTF-8
/// bytes of everything typed.
pub open spec fn run_deltas(texts: Seq<Seq<char>>) -> (nat, Seq<u8>)
    decreases texts.len(),
{
    if texts.len() == 0 {
        (0, Seq::empty())
    } else {
        let (count, typed) = run_deltas(texts.drop_last());
        match emit(count, texts.last()).1 {
            Some(d) => (byte_len(texts.last()), typed + d),
            None => (count, typed),
        }
    }
}

/// Each committed text extends the one before it.
pub open spec fn prefix_chain(texts: Seq<Seq<char>>) -> bool {
    forall|i: int, j: int| 0 <= i < j < texts.len() ==> {
        &&& (#[trigger] texts[i]).len() <= (#[trigger] texts[j]).len()
        &&& texts[i] == texts[j].take(texts[i].len() as int)
    }
}

/// UTF-8 encoding distributes over concatenation.
pub proof fn lemma_encode_concat(a: Seq<char>, b: Seq<char>)
    ensures
        encode_utf8(a + b) == encode_utf8(a) + encode_utf8(b),
    decreases a.len(),
{
    if a.len() == 0 {
        assert(a + b =~= b);
        assert(encode_utf8(a) + encode_utf8(b) =~= encode_utf8(b));
    } else {
        lemma_encode_concat(a.drop_first(), b);
        assert((a + b).drop_first() =~= a.drop_first() + b);
        assert((a + b)[0] == a[0]);
        assert(encode_utf8(a + b) =~= encode_utf8(a) + encode_utf8(b));
    }
}

/// The end of a prefix's encoding is a character boundary of the whole encoding.
pub proof fn lemma_prefix_boundary(a: Seq<char>, b: Seq<char>)
    ensures
        is_char_boundary(encode_utf8(a + b), encode_utf8(a).len() as int),
    decreases a.len(),
{
    encode_utf8_valid_utf8(a + b);
    if a.len() == 0 {
        reveal_with_fuel(is_char_boundary, 1);
    } else {
        let bytes = encode_utf8(a + b);
        let rest = a.drop_first();
        assert((a + b).drop_first() =~= rest + b);
        assert((a + b)[0] == a[0]);
        encode_utf8_first_scalar(a + b);
        assert(bytes.subrange(encode_utf8(a + b).len() - encode_utf8(rest + b).len(), bytes.len() as int) =~= encode_utf8(rest + b));
        lemma_prefix_boundary(rest, b);
        encode_utf8_valid_utf8(rest + b);
        reveal_with_fuel(is_char_boundary, 2);
    }
}

/// When the committed text only grows, slicing is always possible, and what
/// has been typed is exactly the latest committed text: nothing is lost,
/// repeated, or in need of correction.
pub proof fn lemma_deltas_spell_committed(texts: Seq<Seq<char>>)
    requires
        texts.len() > 0,
        prefix_chain(texts),
        forall|i: int| 0 <= i < texts.len() ==> encode_utf8(#[trigger] texts[i]).len() <= usize::MAX,
    ensures
        can_emit(run_deltas(texts.drop_last()).0, texts.last()),
        run_deltas(texts).1 == encode_utf8(texts.last()),
        run_deltas(texts).0 == byte_len(texts.last()),
    decreases texts.len(),
{
    let c = texts.last();
    assert(encode_utf8(c).len() <= usize::MAX);
    if texts.len() > 1 {
        let prev = texts.drop_last();
        assert(prefix_chain(prev)) by {
            assert forall|i: int, j: int| 0 <= i < j < prev.len() implies {
                &&& (#[trigger] prev[i]).len() <= (#[trigger] prev[j]).len()
                &&& prev[i] == prev[j].take(prev[i].len() as int)
            } by {
                assert(prev[i] == texts[i] && prev[j] == texts[j]);
            }
        }
        assert forall|i: int| 0 <= i < prev.len() implies encode_utf8(#[trigger] prev[i]).len() <= usize::MAX by {
            assert(prev[i] == texts[i]);
        }
        lemma_deltas_spell_committed(prev);
        let p = prev.last();
        assert(p == texts[texts.len() - 2]);
        assert(p == c.take(p.len() as int) && p.len() <= c.len());
        let tail = c.skip(p.len() as int);
        assert(p + tail =~= c);
        lemma_encode_concat(p, tail);
        lemma_prefix_boundary(p, tail);
        assert(run_deltas(prev) == (byte_len(p), encode_utf8(p)));
        let e = encode_utf8(c);
        if byte_len(c) > byte_len(p) {
            assert(e.subrange(encode_utf8(p).len() as int, e.len() as int) =~= encode_utf8(tail));
            assert(encode_utf8(p) + e.subrange(byte_len(p) as int, e.len() as int) =~= e);
        } else {
            assert(encode_utf8(tail).len() == 0);
            assert(encode_utf8(p) =~= e);
        }
    } else {
        assert(texts.drop_last() =~= Seq::<Seq<char>>::empty());
        assert(run_deltas(Seq::<Seq<char>>::empty()) == (0nat, Seq::<u8>::empty()));
        encode_utf8_valid_utf8(c);
        reveal_with_fuel(is_char_boundary, 1);
        let e = encode_utf8(c);
        if byte_len(c) > 0 {
            assert(Seq::<u8>::empty() + e.subrange(0, e.len() as int) =~= e);
        } else {
            assert(e =~= Seq::<u8>::empty());
        }
    }
}

impl CommittedText {
    /// Nothing emitted yet.
    pub fn new() -> (c: CommittedText)
        ensures
            c.emitted() == 0,
    {
        CommittedText { emitted: 0 }
    }

    /// How many bytes have been handed out.
    pub closed spec fn emitted(&self) -> nat {
        self.emitted as nat
    }

    /// How many bytes have been handed out.
    pub fn emitted_bytes(&self) -> (n: usize)
        ensures
            n == self.emitted(),
    {
        self.emitted
    }

    /// The part of `committed` beyond the bytes already handed out, if it grew
    /// past them; it must have grown at a character boundary.
    pub fn delta(&mut self, committed: &str) -> (d: Option<String>)
        requires
            can_emit(old(self).emitted(), committed@),
        ensures
            (final(self).emitted(), match d {
                Some(s) => Some(encode_utf8(s@)),
                None => None,
            }) == emit(old(self).emitted(), committed@),
    {
        let n = committed.len();
        if n > self.emitted {
            let (_, rest) = committed.split_at(self.emitted);
            let out = rest.to_owned();
            self.emitted = n;
            Some(out)
        } else {
            None
        }
    }
}

} // verus!
