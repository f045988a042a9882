//! User-defined post-transcription corrections and Whisper vocabulary hints.
//!
//! A rule `heard => replacement` rewrites every whole-word occurrence of
//! `heard` (matched ASCII case-insensitively) into `replacement`, spelled
//! exactly as the user wrote it.

use vstd::prelude::*;

use crate::text::{
    ascii_lower_char, trim, trim_str, ascii_lower, char_is_alphanumeric, chars_of, is_alphanumeric_char, lower_ascii, string_of,
};

verus! {

/// Whether the lower-cased phrase `h` occurs in the lower-cased text `low` at `i`.
pub open spec fn matches_at(low: Seq<char>, h: Seq<char>, i: int) -> bool {
    &&& 0 <= i
    &&& i + h.len() <= low.len()
    &&& low.subrange(i, i + h.len()) == h
}

/// The first position at or after `i` where `h` occurs in `low`, if any.
pub open spec fn find_from(low: Seq<char>, h: Seq<char>, i: int) -> Option<int>
    decreases low.len() + 1 - i,
{
    if i < 0 || i + h.len() > low.len() {
        None
    } else if matches_at(low, h, i) {
        Some(i)
    } else {
        find_from(low, h, i + 1)
    }
}

/// No letter or digit stands just before position `i` of `text`.
pub open spec fn boundary_before(text: Seq<char>, i: int) -> bool {
    i <= 0 || !is_alphanumeric_char(text[i - 1])
}

/// No letter or digit stands at position `j` of `text` (just after a phrase ending there).
pub open spec fn boundary_after(text: Seq<char>, j: int) -> bool {
    j >= text.len() || !is_alphanumeric_char(text[j])
}

/// Scanning `text` from `cursor`: each occurrence of `h` in `low` (the
/// lower-cased text), taken left to right without overlap, is replaced by `r`
/// when it is a whole word or phrase, and kept as it stands otherwise.
pub open spec fn replace_from(text: Seq<char>, low: Seq<char>, h: Seq<char>, r: Seq<char>, cursor: int) -> Seq<char>
    decreases text.len() - cursor,
{
    if h.len() == 0 || cursor < 0 || cursor > text.len() {
        text.subrange(cursor, text.len() as int)
    } else {
        match find_from(low, h, cursor) {
            None => text.subrange(cursor, text.len() as int),
            Some(start) => {
                let end = start + h.len();
                if start < cursor || end > text.len() {
                    text.subrange(cursor, text.len() as int)
                } else if boundary_before(text, start) && boundary_after(text, end) {
                    text.subrange(cursor, start) + r + replace_from(text, low, h, r, end)
                } else {
                    text.subrange(cursor, end) + replace_from(text, low, h, r, end)
                }
            },
        }
    }
}

/// `text` with every whole-word occurrence of `heard` (ASCII case-insensitive)
/// replaced by `replacement`.
pub open spec fn replace_phrase(text: Seq<char>, heard: Seq<char>, replacement: Seq<char>) -> Seq<char> {
    replace_from(text, ascii_lower(text), ascii_lower(heard), replacement, 0)
}

/// The rules applied one after another, first rule first.
pub open spec fn apply_rules(rules: Seq<(Seq<char>, Seq<char>)>, text: Seq<char>) -> Seq<char>
    decreases rules.len(),
{
    if rules.len() == 0 {
        text
    } else {
        apply_rules(rules.drop_first(), replace_phrase(text, rules[0].0, rules[0].1))
    }
}

/// What `find_from` returns: the first occurrence at or after `i`, or none at all.
pub proof fn lemma_find_from(low: Seq<char>, h: Seq<char>, i: int)
    requires
        0 <= i,
    ensures
        match find_from(low, h, i) {
            Some(j) => i <= j && matches_at(low, h, j) && forall|k: int| i <= k < j ==> !matches_at(low, h, k),
            None => forall|k: int| i <= k ==> !matches_at(low, h, k),
        },
    decreases low.len() + 1 - i,
{
    if i + h.len() > low.len() {
    } else if matches_at(low, h, i) {
    } else {
        lemma_find_from(low, h, i + 1);
    }
}

/// The first position at or after `from` where `h` occurs in `low`.
pub(crate) fn find_match(low: &Vec<char>, h: &Vec<char>, from: usize) -> (r: Option<usize>)
    requires
        from <= low.len(),
    ensures
        match r {
            Some(j) => find_from(low@, h@, from as int) == Some(j as int),
            None => find_from(low@, h@, from as int) is None,
        },
{
    let n = low.len();
    let m = h.len();
    if m > n {
        return None;
    }
    let mut j: usize = from;
    while j <= n - m
        invariant
            from <= j,
            m <= n,
            n == low.len(),
            m == h.len(),
            find_from(low@, h@, from as int) == find_from(low@, h@, j as int),
        decreases n - j,
    {
        let mut k: usize = 0;
        let mut same = true;
        while k < m
            invariant
                k <= m,
                j + m <= n,
                n == low.len(),
                m == h.len(),
                same == (forall|q: int| 0 <= q < k ==> low@[j + q] == h@[q]),
            decreases m - k,
        {
            if low[j + k] != h[k] {
                same = false;
            }
            k = k + 1;
        }
        if same {
            assert(low@.subrange(j as int, j + m) =~= h@);
            return Some(j);
        }
        assert(!matches_at(low@, h@, j as int)) by {
            if matches_at(low@, h@, j as int) {
                assert(forall|q: int| 0 <= q < m ==> low@[j + q] == #[trigger] low@.subrange(j as int, j + m)[q]);
            }
        }
        j = j + 1;
    }
    None
}

/// Whether a word or phrase may start at position `index` of `text`: nothing
/// alphanumeric stands just before it.
pub fn is_boundary_before(text: &Vec<char>, index: usize) -> (b: bool)
    requires
        index <= text.len(),
    ensures
        b == boundary_before(text@, index as int),
{
    if index == 0 {
        true
    } else {
        !char_is_alphanumeric(text[index - 1])
    }
}

/// Whether a word or phrase may end at position `index` of `text`: nothing
/// alphanumeric stands just after it.
pub fn is_boundary_after(text: &Vec<char>, index: usize) -> (b: bool)
    requires
        index <= text.len(),
    ensures
        b == boundary_after(text@, index as int),
{
    if index == text.len() {
        true
    } else {
        !char_is_alphanumeric(text[index])
    }
}

/// Appends `src[from..to]` to `out`.
fn extend_range(out: &mut Vec<char>, src: &Vec<char>, from: usize, to: usize)
    requires
        from <= to <= src.len(),
    ensures
        final(out)@ == old(out)@ + src@.subrange(from as int, to as int),
{
    let mut i = from;
    while i < to
        invariant
            from <= i <= to <= src.len(),
            out@ == old(out)@ + src@.subrange(from as int, i as int),
        decreases to - i,
    {
        out.push(src[i]);
        assert(src@.subrange(from as int, i + 1) =~= src@.subrange(from as int, i as int).push(src@[i as int]));
        i = i + 1;
    }
}

/// Replaces every whole-word occurrence of `heard` in `text` (matched ASCII
/// case-insensitively) by `replacement`, on character vectors.
pub fn replace_whole_phrase_chars(text: &Vec<char>, heard: &Vec<char>, replacement: &Vec<char>) -> (out: Vec<char>)
    requires
        heard.len() > 0,
    ensures
        out@ == replace_phrase(text@, heard@, replacement@),
{
    let comparable = lower_ascii(text);
    let heard_low = lower_ascii(heard);
    let ghost total = replace_from(text@, comparable@, heard_low@, replacement@, 0);
    let mut result: Vec<char> = Vec::new();
    let mut cursor: usize = 0;
    loop
        invariant
            cursor <= text.len(),
            comparable@.len() == text@.len(),
            comparable@ == ascii_lower(text@),
            heard_low@ == ascii_lower(heard@),
            heard_low@.len() == heard@.len(),
            heard@.len() > 0,
            total == replace_from(text@, comparable@, heard_low@, replacement@, 0),
            result@ + replace_from(text@, comparable@, heard_low@, replacement@, cursor as int) == total,
        ensures
            cursor <= text.len(),
            result@ + text@.subrange(cursor as int, text@.len() as int) == total,
        decreases text.len() - cursor,
    {
        let found = find_match(&comparable, &heard_low, cursor);
        proof {
            lemma_find_from(comparable@, heard_low@, cursor as int);
        }
        match found {
            None => {
                assert(replace_from(text@, comparable@, heard_low@, replacement@, cursor as int)
                    == text@.subrange(cursor as int, text@.len() as int));
                break;
            },
            Some(start) => {
                let end = start + heard_low.len();
                if is_boundary_before(text, start) && is_boundary_after(text, end) {
                    extend_range(&mut result, text, cursor, start);
                    extend_range(&mut result, replacement, 0, replacement.len());
                    assert(replacement@.subrange(0, replacement@.len() as int) =~= replacement@);
                } else {
                    extend_range(&mut result, text, cursor, end);
                }
                cursor = end;
            },
        }
    }
    extend_range(&mut result, text, cursor, text.len());
    result
}

/// Replaces every whole-word occurrence of `heard` in `text` (matched ASCII
/// case-insensitively, so sentence-initial capitals still match) by
/// `replacement`; occurrences inside a longer word are kept.
pub fn replace_whole_phrase(text: &str, heard: &str, replacement: &str) -> (out: String)
    requires
        heard@.len() > 0,
    ensures
        out@ == replace_phrase(text@, heard@, replacement@),
{
    let t = chars_of(text);
    let h = chars_of(heard);
    let r = chars_of(replacement);
    let out = replace_whole_phrase_chars(&t, &h, &r);
    string_of(&out)
}


/// A correction as the user wrote it: the misheard phrase and its desired spelling.
pub type Entry = (Seq<char>, Seq<char>);

/// One correction rule: `heard => replacement`.
#[derive(Debug)]
pub struct Rule {
    heard: String,
    replacement: String,
}

impl View for Rule {
    type V = Entry;

    closed spec fn view(&self) -> Entry {
        (self.heard@, self.replacement@)
    }
}

impl Rule {
    /// A rule that rewrites `heard` into `replacement`.
    pub fn new(heard: String, replacement: String) -> (r: Rule)
        ensures
            r@ == (heard@, replacement@),
    {
        Rule { heard, replacement }
    }

    /// The phrase this rule looks for.
    pub fn heard(&self) -> (s: &str)
        ensures
            s@ == self@.0,
    {
        self.heard.as_str()
    }

    /// The spelling this rule puts in its place.
    pub fn replacement(&self) -> (s: &str)
        ensures
            s@ == self@.1,
    {
        self.replacement.as_str()
    }
}

/// Every rule has a non-empty phrase to look for.
pub open spec fn all_heard_nonempty(entries: Seq<Entry>) -> bool {
    forall|i: int| 0 <= i < entries.len() ==> (#[trigger] entries[i]).0.len() > 0
}

/// The user's correction rules, applied in order.
#[derive(Debug)]
pub struct Vocabulary {
    rules: Vec<Rule>,
}

impl View for Vocabulary {
    type V = Seq<Entry>;

    closed spec fn view(&self) -> Seq<Entry> {
        self.rules@.map_values(|r: Rule| r@)
    }
}

/// The words that open the Whisper prompt.
pub open spec fn prompt_lead() -> Seq<char> {
    "Technical terms and names: "@
}

/// The replacements of `entries`, in order, separated by a comma and a space.
pub open spec fn join_replacements(entries: Seq<Entry>) -> Seq<char>
    decreases entries.len(),
{
    if entries.len() == 0 {
        Seq::empty()
    } else if entries.len() == 1 {
        entries[0].1
    } else {
        join_replacements(entries.drop_last()) + seq![',', ' '] + entries.last().1
    }
}

/// The Whisper prompt listing the vocabulary's desired spellings, if it has any.
pub open spec fn prompt_for(entries: Seq<Entry>) -> Option<Seq<char>> {
    if entries.len() == 0 {
        None
    } else {
        Some(prompt_lead() + join_replacements(entries) + seq!['.'])
    }
}

impl Vocabulary {
    #[verifier::type_invariant]
    spec fn phrases_nonempty(self) -> bool {
        all_heard_nonempty(self@)
    }

    /// A vocabulary holding the given rules, applied in the given order.
    pub fn new(rules: Vec<Rule>) -> (v: Vocabulary)
        requires
            all_heard_nonempty(rules@.map_values(|r: Rule| r@)),
        ensures
            v@ == rules@.map_values(|r: Rule| r@),
    {
        Vocabulary { rules }
    }

    /// The number of rules.
    pub fn len(&self) -> (n: usize)
        ensures
            n == self@.len(),
    {
        self.rules.len()
    }

    /// Correct complete words and phrases while preserving the desired spelling:
    /// each rule in turn replaces the whole-word occurrences of its phrase.
    pub fn correct(&self, text: &str) -> (out: String)
        ensures
            out@ == apply_rules(self@, text@),
    {
        proof {
            use_type_invariant(self);
        }
        let mut cur = chars_of(text);
        let mut i: usize = 0;
        assert(self@.skip(0) =~= self@);
        while i < self.rules.len()
            invariant
                i <= self.rules.len(),
                all_heard_nonempty(self@),
                self@.len() == self.rules.len(),
                forall|k: int| 0 <= k < self.rules.len() ==> #[trigger] self@[k] == self.rules@[k]@,
                apply_rules(self@, text@) == apply_rules(self@.skip(i as int), cur@),
            decreases self.rules.len() - i,
        {
            let rule = &self.rules[i];
            let heard = chars_of(rule.heard.as_str());
            let replacement = chars_of(rule.replacement.as_str());
            assert(self@[i as int].0.len() > 0);
            cur = replace_whole_phrase_chars(&cur, &heard, &replacement);
            assert(self@.skip(i as int).drop_first() =~= self@.skip(i + 1));
            i = i + 1;
        }
        assert(self@.skip(i as int) =~= Seq::<Entry>::empty());
        string_of(&cur)
    }

    /// A contextual bias for Whisper listing the desired spellings; `None`
    /// when there are no rules.
    pub fn whisper_prompt(&self) -> (p: Option<String>)
        ensures
            match p {
                Some(s) => prompt_for(self@) == Some(s@),
                None => prompt_for(self@) is None,
            },
    {
        if self.rules.len() == 0 {
            return None;
        }
        let mut terms = String::new();
        let mut i: usize = 0;
        while i < self.rules.len()
            invariant
                i <= self.rules.len(),
                self@.len() == self.rules.len(),
                forall|k: int| 0 <= k < self.rules.len() ==> #[trigger] self@[k] == self.rules@[k]@,
                terms@ == join_replacements(self@.take(i as int)),
            decreases self.rules.len() - i,
        {
            if i > 0 {
                terms.append(", ");
                proof {
                    reveal_strlit(", ");
                }
            }
            terms.append(self.rules[i].replacement.as_str());
            assert(self@.take(i + 1).drop_last() =~= self@.take(i as int));
            i = i + 1;
        }
        assert(self@.take(i as int) =~= self@);
        let mut prompt = String::from_str("Technical terms and names: ");
        prompt.append(terms.as_str());
        prompt.append(".");
        proof {
            reveal_strlit(".");
        }
        Some(prompt)
    }
}

impl Default for Vocabulary {
    /// The empty vocabulary: no corrections and no prompt.
    fn default() -> (v: Vocabulary)
        ensures
            v@ == Seq::<Entry>::empty(),
    {
        let v = Vocabulary { rules: Vec::new() };
        assert(v@ =~= Seq::<Entry>::empty());
        v
    }
}

/// Whether the occurrence of `h` at `j` is a whole word or phrase of `text`.
pub open spec fn whole_word_at(text: Seq<char>, low: Seq<char>, h: Seq<char>, j: int) -> bool {
    matches_at(low, h, j) && boundary_before(text, j) && boundary_after(text, j + h.len())
}

proof fn lemma_kept_from(text: Seq<char>, low: Seq<char>, h: Seq<char>, r: Seq<char>, cursor: int)
    requires
        h.len() > 0,
        low.len() == text.len(),
        0 <= cursor <= text.len(),
        forall|j: int| #![trigger matches_at(low, h, j)] cursor <= j ==> !whole_word_at(text, low, h, j),
    ensures
        replace_from(text, low, h, r, cursor) == text.subrange(cursor, text.len() as int),
    decreases text.len() - cursor,
{
    lemma_find_from(low, h, cursor);
    match find_from(low, h, cursor) {
        None => {},
        Some(start) => {
            let end = start + h.len();
            assert(!whole_word_at(text, low, h, start));
            lemma_kept_from(text, low, h, r, end);
            assert(text.subrange(cursor, end) + text.subrange(end, text.len() as int) =~= text.subrange(cursor, text.len() as int));
        },
    }
}

/// A phrase that never stands as a whole word (it is absent, or only part of
/// longer words) leaves the text as it is: "rust" in "trusty" is kept.
pub proof fn lemma_substrings_untouched(text: Seq<char>, heard: Seq<char>, replacement: Seq<char>)
    requires
        heard.len() > 0,
        forall|j: int| #![trigger matches_at(ascii_lower(text), ascii_lower(heard), j)]
            !whole_word_at(text, ascii_lower(text), ascii_lower(heard), j),
    ensures
        replace_phrase(text, heard, replacement) == text,
{
    lemma_kept_from(text, ascii_lower(text), ascii_lower(heard), replacement, 0);
    assert(text.subrange(0, text.len() as int) =~= text);
}

/// A text that is the phrase itself, in any ASCII case, becomes the
/// replacement, spelled exactly as desired.
pub proof fn lemma_whole_text_replaced(text: Seq<char>, heard: Seq<char>, replacement: Seq<char>)
    requires
        heard.len() > 0,
        ascii_lower(text) == ascii_lower(heard),
    ensures
        replace_phrase(text, heard, replacement) == replacement,
{
    let low = ascii_lower(text);
    let h = ascii_lower(heard);
    assert(low.subrange(0, h.len() as int) =~= h);
    assert(matches_at(low, h, 0));
    assert(find_from(low, h, 0) == Some(0int));
    let n = text.len() as int;
    assert(replace_from(text, low, h, replacement, n) == text.subrange(n, n)) by {
        assert(find_from(low, h, n) is None);
    }
    assert(text.subrange(0, 0) + replacement + text.subrange(n, n) =~= replacement);
}


/// A character and its ASCII lower-case form are alike letters or digits, or alike not.
proof fn lemma_alphanumeric_ignores_case(c: char)
    ensures
        is_alphanumeric_char(c) == is_alphanumeric_char(ascii_lower_char(c)),
{
    if 'A' <= c <= 'Z' {
        let x: u32 = ((c as u32) + 32) as u32;
        assert(ascii_lower_char(c) == x as char);
        assert((x as char) as u32 == x);
    }
}

/// Word boundaries read the same in a text and in its ASCII lower-case form.
proof fn lemma_boundaries_ignore_case(u: Seq<char>, i: int)
    requires
        0 <= i <= u.len(),
    ensures
        boundary_before(u, i) == boundary_before(ascii_lower(u), i),
        boundary_after(u, i) == boundary_after(ascii_lower(u), i),
{
    if i > 0 {
        lemma_alphanumeric_ignores_case(u[i - 1]);
    }
    if i < u.len() {
        lemma_alphanumeric_ignores_case(u[i]);
    }
}

/// `n` positions left as they are.
pub open spec fn keep_all(n: int) -> Seq<Option<char>> {
    Seq::new(n as nat, |i: int| None::<char>)
}

/// `u` with each position that `m` fills replaced by `m`'s character.
pub open spec fn overlay(u: Seq<char>, m: Seq<Option<char>>) -> Seq<char> {
    Seq::new(u.len(), |p: int| match m[p] {
        Some(x) => x,
        None => u[p],
    })
}

/// `m2` laid over `m1`: where both fill a position, `m2` wins.
pub open spec fn combine(m1: Seq<Option<char>>, m2: Seq<Option<char>>) -> Seq<Option<char>> {
    Seq::new(m1.len(), |p: int| if m2[p] is Some { m2[p] } else { m1[p] })
}

/// The positions, from `cursor` on, that one rule rewrites, and with what, for
/// a text whose ASCII lower-case form is `low`.
pub open spec fn mask_from(low: Seq<char>, h: Seq<char>, r: Seq<char>, cursor: int) -> Seq<Option<char>>
    decreases low.len() - cursor,
{
    if h.len() == 0 || cursor < 0 || cursor > low.len() {
        keep_all(low.len() - cursor)
    } else {
        match find_from(low, h, cursor) {
            None => keep_all(low.len() - cursor),
            Some(start) => {
                let end = start + h.len();
                if start < cursor || end > low.len() {
                    keep_all(low.len() - cursor)
                } else if boundary_before(low, start) && boundary_after(low, end) {
                    keep_all(start - cursor) + r.map_values(|x: char| Some(x)) + mask_from(low, h, r, end)
                } else {
                    keep_all(end - cursor) + mask_from(low, h, r, end)
                }
            },
        }
    }
}

/// A rule that only changes ASCII case: a non-empty phrase whose replacement
/// reads the same in lower case.
pub open spec fn case_only(e: Entry) -> bool {
    e.0.len() > 0 && ascii_lower(e.1) == ascii_lower(e.0)
}

/// Every rule only changes ASCII case.
pub open spec fn all_case_only(rules: Seq<Entry>) -> bool {
    forall|i: int| 0 <= i < rules.len() ==> case_only(#[trigger] rules[i])
}

/// What the rules, in order, rewrite in a text whose ASCII lower-case form is `low`.
pub open spec fn rules_mask(rules: Seq<Entry>, low: Seq<char>) -> Seq<Option<char>>
    decreases rules.len(),
{
    if rules.len() == 0 {
        keep_all(low.len() as int)
    } else {
        combine(
            mask_from(low, ascii_lower(rules[0].0), rules[0].1, 0),
            rules_mask(rules.drop_first(), low),
        )
    }
}

proof fn lemma_lower_concat(a: Seq<char>, b: Seq<char>)
    ensures
        ascii_lower(a + b) == ascii_lower(a) + ascii_lower(b),
{
    assert(ascii_lower(a + b) =~= ascii_lower(a) + ascii_lower(b));
}

/// With a case-only replacement, a rewrite keeps the text's lower-case form.
proof fn lemma_replace_keeps_lower(u: Seq<char>, h: Seq<char>, r: Seq<char>, cursor: int)
    requires
        h.len() > 0,
        ascii_lower(r) == h,
        0 <= cursor <= u.len(),
    ensures
        ascii_lower(replace_from(u, ascii_lower(u), h, r, cursor)) == ascii_lower(u).subrange(cursor, u.len() as int),
    decreases u.len() - cursor,
{
    let low = ascii_lower(u);
    lemma_find_from(low, h, cursor);
    match find_from(low, h, cursor) {
        None => {
            assert(ascii_lower(u.subrange(cursor, u.len() as int)) =~= low.subrange(cursor, u.len() as int));
        },
        Some(start) => {
            let end = start + h.len();
            lemma_replace_keeps_lower(u, h, r, end);
            let y = replace_from(u, low, h, r, end);
            assert(low.subrange(start, end) =~= h);
            let n = u.len() as int;
            assert(ascii_lower(u.subrange(cursor, start)) =~= low.subrange(cursor, start));
            assert(ascii_lower(u.subrange(cursor, end)) =~= low.subrange(cursor, end));
            if boundary_before(u, start) && boundary_after(u, end) {
                lemma_lower_concat(u.subrange(cursor, start), r);
                lemma_lower_concat(u.subrange(cursor, start) + r, y);
                assert(low.subrange(cursor, start) + h + low.subrange(end, n) =~= low.subrange(cursor, n));
            } else {
                lemma_lower_concat(u.subrange(cursor, end), y);
                assert(low.subrange(cursor, end) + low.subrange(end, n) =~= low.subrange(cursor, n));
            }
        },
    }
}

/// With a case-only replacement, a rewrite lays the rule's mask over the text.
proof fn lemma_replace_is_overlay(u: Seq<char>, h: Seq<char>, r: Seq<char>, cursor: int)
    requires
        h.len() > 0,
        ascii_lower(r) == h,
        0 <= cursor <= u.len(),
    ensures
        mask_from(ascii_lower(u), h, r, cursor).len() == u.len() - cursor,
        replace_from(u, ascii_lower(u), h, r, cursor)
            == overlay(u.subrange(cursor, u.len() as int), mask_from(ascii_lower(u), h, r, cursor)),
    decreases u.len() - cursor,
{
    let low = ascii_lower(u);
    let n = u.len() as int;
    lemma_find_from(low, h, cursor);
    assert(r.len() == h.len());
    match find_from(low, h, cursor) {
        None => {
            assert(overlay(u.subrange(cursor, n), keep_all(n - cursor)) =~= u.subrange(cursor, n));
        },
        Some(start) => {
            let end = start + h.len();
            lemma_replace_is_overlay(u, h, r, end);
            lemma_boundaries_ignore_case(u, start);
            lemma_boundaries_ignore_case(u, end);
            let y = replace_from(u, low, h, r, end);
            let m = mask_from(low, h, r, end);
            assert(y == overlay(u.subrange(end, n), m));
            if boundary_before(u, start) && boundary_after(u, end) {
                let mk = keep_all(start - cursor) + r.map_values(|x: char| Some(x)) + m;
                assert(mask_from(low, h, r, cursor) == mk);
                assert forall|p: int| 0 <= p < n - cursor implies #[trigger] overlay(u.subrange(cursor, n), mk)[p]
                    == (u.subrange(cursor, start) + r + y)[p] by {
                    if p < start - cursor {
                    } else if p < end - cursor {
                    } else {
                        assert(y[p - (end - cursor)] == overlay(u.subrange(end, n), m)[p - (end - cursor)]);
                    }
                }
                assert(overlay(u.subrange(cursor, n), mk) =~= u.subrange(cursor, start) + r + y);
            } else {
                let mk = keep_all(end - cursor) + m;
                assert(mask_from(low, h, r, cursor) == mk);
                assert forall|p: int| 0 <= p < n - cursor implies #[trigger] overlay(u.subrange(cursor, n), mk)[p]
                    == (u.subrange(cursor, end) + y)[p] by {
                    if p >= end - cursor {
                        assert(y[p - (end - cursor)] == overlay(u.subrange(end, n), m)[p - (end - cursor)]);
                    }
                }
                assert(overlay(u.subrange(cursor, n), mk) =~= u.subrange(cursor, end) + y);
            }
        },
    }
}

proof fn lemma_overlay_combine(u: Seq<char>, m1: Seq<Option<char>>, m2: Seq<Option<char>>)
    requires
        m1.len() == u.len(),
        m2.len() == u.len(),
    ensures
        overlay(overlay(u, m1), m2) == overlay(u, combine(m1, m2)),
{
    assert(overlay(overlay(u, m1), m2) =~= overlay(u, combine(m1, m2)));
}

proof fn lemma_overlay_twice(u: Seq<char>, m: Seq<Option<char>>)
    requires
        m.len() == u.len(),
    ensures
        overlay(overlay(u, m), m) == overlay(u, m),
{
    assert(overlay(overlay(u, m), m) =~= overlay(u, m));
}

/// Case-only rules, applied in order, lay their combined mask over the text
/// and keep its lower-case form.
proof fn lemma_rules_are_overlay(rules: Seq<Entry>, u: Seq<char>)
    requires
        all_case_only(rules),
    ensures
        rules_mask(rules, ascii_lower(u)).len() == u.len(),
        apply_rules(rules, u) == overlay(u, rules_mask(rules, ascii_lower(u))),
        ascii_lower(apply_rules(rules, u)) == ascii_lower(u),
    decreases rules.len(),
{
    let low = ascii_lower(u);
    if rules.len() == 0 {
        assert(overlay(u, keep_all(u.len() as int)) =~= u);
    } else {
        let (h, r) = rules[0];
        assert(case_only(rules[0]));
        let hl = ascii_lower(h);
        lemma_replace_is_overlay(u, hl, r, 0);
        lemma_replace_keeps_lower(u, hl, r, 0);
        assert(u.subrange(0, u.len() as int) =~= u);
        assert(low.subrange(0, u.len() as int) =~= low);
        let w = replace_phrase(u, h, r);
        let rest = rules.drop_first();
        assert(all_case_only(rest)) by {
            assert forall|i: int| 0 <= i < rest.len() implies case_only(#[trigger] rest[i]) by {
                assert(rest[i] == rules[i + 1]);
            }
        }
        lemma_rules_are_overlay(rest, w);
        lemma_overlay_combine(u, mask_from(low, hl, r, 0), rules_mask(rest, low));
    }
}

/// `heard` occurs at position `k` of `text`, ASCII case-insensitively.
pub open spec fn occurs_at(text: Seq<char>, heard: Seq<char>, k: int) -> bool {
    &&& 0 <= k
    &&& k + heard.len() <= text.len()
    &&& ascii_lower(text.subrange(k, k + heard.len())) == ascii_lower(heard)
}

/// `t` is the end of `s`.
pub open spec fn ends_with(s: Seq<char>, t: Seq<char>) -> bool {
    &&& t.len() <= s.len()
    &&& s.subrange(s.len() - t.len(), s.len() as int) == t
}

proof fn lemma_occurs_is_match(text: Seq<char>, heard: Seq<char>, k: int)
    ensures
        occurs_at(text, heard, k) <==> matches_at(ascii_lower(text), ascii_lower(heard), k),
{
    if 0 <= k && k + heard.len() <= text.len() {
        assert(ascii_lower(text).subrange(k, k + heard.len()) =~= ascii_lower(text.subrange(k, k + heard.len())));
    }
}

/// The scan from `c`, when no occurrence starts after `p`, ends with what
/// follows the occurrence at `p`.
proof fn lemma_scan_keeps_tail(text: Seq<char>, low: Seq<char>, h: Seq<char>, r: Seq<char>, c: int, p: int)
    requires
        h.len() > 0,
        low.len() == text.len(),
        0 <= c <= p + h.len(),
        matches_at(low, h, p),
        forall|k: int| p < k ==> !#[trigger] matches_at(low, h, k),
    ensures
        ends_with(replace_from(text, low, h, r, c), text.subrange(p + h.len(), text.len() as int)),
    decreases text.len() - c,
{
    let tail = text.subrange(p + h.len(), text.len() as int);
    let out = replace_from(text, low, h, r, c);
    lemma_find_from(low, h, c);
    match find_from(low, h, c) {
        None => {
            assert(out == text.subrange(c, text.len() as int));
            assert(out.subrange(out.len() - tail.len(), out.len() as int) =~= tail);
        },
        Some(start) => {
            let end = start + h.len();
            assert(start <= p);
            lemma_scan_keeps_tail(text, low, h, r, end, p);
            let rest = replace_from(text, low, h, r, end);
            let head = if boundary_before(text, start) && boundary_after(text, end) {
                text.subrange(c, start) + r
            } else {
                text.subrange(c, end)
            };
            assert(out == head + rest);
            assert(out.subrange(out.len() - tail.len(), out.len() as int) =~= rest.subrange(rest.len() - tail.len(), rest.len() as int));
        },
    }
}

/// Everything after the last occurrence of the phrase is kept verbatim, for
/// any replacement.
pub proof fn lemma_tail_after_last_occurrence(text: Seq<char>, heard: Seq<char>, replacement: Seq<char>, p: int)
    requires
        heard.len() > 0,
        occurs_at(text, heard, p),
        forall|k: int| p < k ==> !#[trigger] occurs_at(text, heard, k),
    ensures
        ends_with(replace_phrase(text, heard, replacement), text.subrange(p + heard.len(), text.len() as int)),
{
    let low = ascii_lower(text);
    let h = ascii_lower(heard);
    lemma_occurs_is_match(text, heard, p);
    assert forall|k: int| p < k implies !#[trigger] matches_at(low, h, k) by {
        lemma_occurs_is_match(text, heard, k);
    }
    lemma_scan_keeps_tail(text, low, h, replacement, 0, p);
}

/// Everything before the first occurrence of the phrase is kept verbatim, for
/// any replacement.
pub proof fn lemma_head_before_first_occurrence(text: Seq<char>, heard: Seq<char>, replacement: Seq<char>, q: int)
    requires
        heard.len() > 0,
        0 <= q <= text.len(),
        forall|k: int| k < q ==> !#[trigger] occurs_at(text, heard, k),
    ensures
        q <= replace_phrase(text, heard, replacement).len(),
        replace_phrase(text, heard, replacement).subrange(0, q) == text.subrange(0, q),
{
    let low = ascii_lower(text);
    let h = ascii_lower(heard);
    let out = replace_phrase(text, heard, replacement);
    lemma_find_from(low, h, 0);
    match find_from(low, h, 0) {
        None => {
            assert(out == text.subrange(0, text.len() as int));
        },
        Some(start) => {
            lemma_occurs_is_match(text, heard, start);
            assert(q <= start);
            let end = start + h.len();
            let rest = replace_from(text, low, h, replacement, end);
            if boundary_before(text, start) && boundary_after(text, end) {
                assert(out == text.subrange(0, start) + replacement + rest);
            } else {
                assert(out == text.subrange(0, end) + rest);
            }
            assert(out.subrange(0, q) =~= text.subrange(0, q));
        },
    }
}

/// Replacing a whole-word occurrence keeps the text around it verbatim: when
/// `heard` stands between `a` and `b` as a whole word, and no other occurrence
/// starts in `a` or `b`, the result is `a`, the replacement, then `b`.
pub proof fn lemma_replace_single_occurrence(a: Seq<char>, heard: Seq<char>, b: Seq<char>, replacement: Seq<char>)
    requires
        heard.len() > 0,
        a.len() == 0 || !is_alphanumeric_char(a.last()),
        b.len() == 0 || !is_alphanumeric_char(b[0]),
        forall|k: int| (k < a.len() || a.len() + heard.len() <= k) ==> !#[trigger] occurs_at(a + heard + b, heard, k),
    ensures
        replace_phrase(a + heard + b, heard, replacement) == a + replacement + b,
{
    let text = a + heard + b;
    let low = ascii_lower(text);
    let h = ascii_lower(heard);
    let p = a.len() as int;
    let end = p + heard.len();
    assert(text.subrange(p, end) =~= heard);
    lemma_occurs_is_match(text, heard, p);
    assert forall|k: int| 0 <= k < p implies !#[trigger] matches_at(low, h, k) by {
        lemma_occurs_is_match(text, heard, k);
    }
    lemma_find_from(low, h, 0);
    assert(find_from(low, h, 0) == Some(p));
    assert(boundary_before(text, p)) by {
        if p > 0 {
            assert(text[p - 1] == a.last());
        }
    }
    assert(boundary_after(text, end)) by {
        if end < text.len() {
            assert(text[end] == b[0]);
        }
    }
    assert forall|k: int| end <= k implies !#[trigger] matches_at(low, h, k) by {
        lemma_occurs_is_match(text, heard, k);
    }
    lemma_find_from(low, h, end);
    assert(find_from(low, h, end) is None);
    assert(replace_from(text, low, h, replacement, end) == text.subrange(end, text.len() as int));
    assert(text.subrange(0, p) =~= a);
    assert(text.subrange(end, text.len() as int) =~= b);
}

/// A phrase's ASCII case does not matter: phrases that read the same in lower
/// case rewrite a text alike.
pub proof fn lemma_heard_case_irrelevant(text: Seq<char>, h1: Seq<char>, h2: Seq<char>, replacement: Seq<char>)
    requires
        ascii_lower(h1) == ascii_lower(h2),
    ensures
        replace_phrase(text, h1, replacement) == replace_phrase(text, h2, replacement),
{
}

/// ASCII upper-casing: lower-case letters map to upper case; every other
/// character is kept.
pub open spec fn ascii_upper(s: Seq<char>) -> Seq<char> {
    s.map_values(|c: char| if 'a' <= c <= 'z' { ((c as u32) - 32) as char } else { c })
}

/// An upper-cased phrase matches as the phrase itself does.
pub proof fn lemma_upper_case_phrase(text: Seq<char>, heard: Seq<char>, replacement: Seq<char>)
    ensures
        replace_phrase(text, ascii_upper(heard), replacement) == replace_phrase(text, heard, replacement),
{
    assert forall|i: int| 0 <= i < heard.len() implies #[trigger] ascii_lower(ascii_upper(heard))[i] == ascii_lower(heard)[i] by {
        let c = heard[i];
        if 'a' <= c <= 'z' {
            let x: u32 = ((c as u32) - 32) as u32;
            assert((x as char) as u32 == x);
            let y: u32 = (x + 32) as u32;
            assert((y as char) as u32 == y);
            assert(y == c as u32);
        }
    }
    assert(ascii_lower(ascii_upper(heard)) =~= ascii_lower(heard));
}

/// A case-only correction keeps the text's lower-case form, and applying it
/// again changes nothing.
pub proof fn lemma_case_only_replace(text: Seq<char>, heard: Seq<char>, replacement: Seq<char>)
    requires
        heard.len() > 0,
        ascii_lower(replacement) == ascii_lower(heard),
    ensures
        ascii_lower(replace_phrase(text, heard, replacement)) == ascii_lower(text),
        replace_phrase(replace_phrase(text, heard, replacement), heard, replacement)
            == replace_phrase(text, heard, replacement),
{
    let rules = seq![(heard, replacement)];
    assert(all_case_only(rules));
    lemma_rules_are_overlay(rules, text);
    let res = replace_phrase(text, heard, replacement);
    assert(rules.drop_first() =~= Seq::<Entry>::empty());
    reveal_with_fuel(apply_rules, 2);
    assert(apply_rules(rules, text) == res);
    lemma_rules_are_overlay(rules, res);
    assert(apply_rules(rules, res) == replace_phrase(res, heard, replacement));
    lemma_overlay_twice(text, rules_mask(rules, ascii_lower(text)));
}

/// A vocabulary of case-only corrections keeps the text's lower-case form, and
/// correcting a corrected text changes nothing.
pub proof fn lemma_case_only_correct(rules: Seq<Entry>, text: Seq<char>)
    requires
        all_case_only(rules),
    ensures
        ascii_lower(apply_rules(rules, text)) == ascii_lower(text),
        apply_rules(rules, apply_rules(rules, text)) == apply_rules(rules, text),
{
    lemma_rules_are_overlay(rules, text);
    let res = apply_rules(rules, text);
    lemma_rules_are_overlay(rules, res);
    lemma_overlay_twice(text, rules_mask(rules, ascii_lower(text)));
}

/// An empty vocabulary changes nothing.
pub proof fn lemma_no_rules_no_change(text: Seq<char>)
    ensures
        apply_rules(Seq::empty(), text) == text,
{
}

impl Vocabulary {
    /// The final transcript: the recognizer's text trimmed, then corrected.
    pub fn correct_transcript(&self, raw: &str) -> (out: String)
        ensures
            out@ == apply_rules(self@, trim(raw@)),
    {
        let trimmed = string_of(&trim_str(raw));
        self.correct(trimmed.as_str())
    }

    /// The prompt to bias the recognizer with: the vocabulary's Whisper
    /// prompt for a Whisper model, none for any other (Parakeet has no
    /// equivalent).
    pub fn initial_prompt(&self, is_whisper: bool) -> (p: Option<String>)
        ensures
            match p {
                Some(s) => is_whisper && prompt_for(self@) == Some(s@),
                None => !is_whisper || prompt_for(self@) is None,
            },
    {
        if is_whisper {
            self.whisper_prompt()
        } else {
            None
        }
    }
}

} // verus!
