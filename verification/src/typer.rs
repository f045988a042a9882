//! Keystroke planning for a US keyboard layout. Text is normalized to ASCII
//! first (dictation output is ASCII apart from the occasional typographic
//! character), then each character becomes a key, pressed with or without
//! Shift.

use vstd::prelude::*;

use crate::text::chars_of;

verus! {

/// The keys of a US keyboard that typing uses.
#[derive(Clone, Copy, PartialEq, Eq, Structural, Debug, Hash)]
pub enum Key {
    A, B, C, D, E, F, G, H, I, J, K, L, M, N, O, P, Q, R, S, T, U, V, W, X, Y, Z,
    Digit1, Digit2, Digit3, Digit4, Digit5, Digit6, Digit7, Digit8, Digit9, Digit0,
    Space,
    Enter,
    Tab,
    Minus,
    Equal,
    LeftBrace,
    RightBrace,
    Backslash,
    Semicolon,
    Apostrophe,
    Comma,
    Dot,
    Slash,
    Grave,
    LeftShift,
}

/// The character a key types on a US layout, without Shift (`shift == false`)
/// or with it; `None` for a key that types nothing.
pub open spec fn key_char(k: Key, shift: bool) -> Option<char> {
    match k {
        Key::A => Some(if shift { 'A' } else { 'a' }),
        Key::B => Some(if shift { 'B' } else { 'b' }),
        Key::C => Some(if shift { 'C' } else { 'c' }),
        Key::D => Some(if shift { 'D' } else { 'd' }),
        Key::E => Some(if shift { 'E' } else { 'e' }),
        Key::F => Some(if shift { 'F' } else { 'f' }),
        Key::G => Some(if shift { 'G' } else { 'g' }),
        Key::H => Some(if shift { 'H' } else { 'h' }),
        Key::I => Some(if shift { 'I' } else { 'i' }),
        Key::J => Some(if shift { 'J' } else { 'j' }),
        Key::K => Some(if shift { 'K' } else { 'k' }),
        Key::L => Some(if shift { 'L' } else { 'l' }),
        Key::M => Some(if shift { 'M' } else { 'm' }),
        Key::N => Some(if shift { 'N' } else { 'n' }),
        Key::O => Some(if shift { 'O' } else { 'o' }),
        Key::P => Some(if shift { 'P' } else { 'p' }),
        Key::Q => Some(if shift { 'Q' } else { 'q' }),
        Key::R => Some(if shift { 'R' } else { 'r' }),
        Key::S => Some(if shift { 'S' } else { 's' }),
        Key::T => Some(if shift { 'T' } else { 't' }),
        Key::U => Some(if shift { 'U' } else { 'u' }),
        Key::V => Some(if shift { 'V' } else { 'v' }),
        Key::W => Some(if shift { 'W' } else { 'w' }),
        Key::X => Some(if shift { 'X' } else { 'x' }),
        Key::Y => Some(if shift { 'Y' } else { 'y' }),
        Key::Z => Some(if shift { 'Z' } else { 'z' }),
        Key::Digit1 => Some(if shift { '!' } else { '1' }),
        Key::Digit2 => Some(if shift { '@' } else { '2' }),
        Key::Digit3 => Some(if shift { '#' } else { '3' }),
        Key::Digit4 => Some(if shift { '$' } else { '4' }),
        Key::Digit5 => Some(if shift { '%' } else { '5' }),
        Key::Digit6 => Some(if shift { '^' } else { '6' }),
        Key::Digit7 => Some(if shift { '&' } else { '7' }),
        Key::Digit8 => Some(if shift { '*' } else { '8' }),
        Key::Digit9 => Some(if shift { '(' } else { '9' }),
        Key::Digit0 => Some(if shift { ')' } else { '0' }),
        Key::Space => if shift { None } else { Some(' ') },
        Key::Enter => if shift { None } else { Some('\n') },
        Key::Tab => if shift { None } else { Some('\t') },
        Key::Minus => Some(if shift { '_' } else { '-' }),
        Key::Equal => Some(if shift { '+' } else { '=' }),
        Key::LeftBrace => Some(if shift { '{' } else { '[' }),
        Key::RightBrace => Some(if shift { '}' } else { ']' }),
        Key::Backslash => Some(if shift { '|' } else { '\\' }),
        Key::Semicolon => Some(if shift { ':' } else { ';' }),
        Key::Apostrophe => Some(if shift { '"' } else { '\'' }),
        Key::Comma => Some(if shift { '<' } else { ',' }),
        Key::Dot => Some(if shift { '>' } else { '.' }),
        Key::Slash => Some(if shift { '?' } else { '/' }),
        Key::Grave => Some(if shift { '~' } else { '`' }),
        Key::LeftShift => None,
    }
}

/// No two key presses type the same character, so a character names at most
/// one key and Shift state.
pub proof fn lemma_layout_unambiguous(k1: Key, s1: bool, k2: Key, s2: bool)
    requires
        key_char(k1, s1) is Some,
        key_char(k1, s1) == key_char(k2, s2),
    ensures
        k1 == k2,
        s1 == s2,
{
}


/// The key and Shift state that type `c`, if any key does.
pub open spec fn layout_of(c: char) -> Option<(Key, bool)> {
    if exists|k: Key, s: bool| key_char(k, s) == Some(c) {
        Some(choose|ks: (Key, bool)| key_char(ks.0, ks.1) == Some(c))
    } else {
        None
    }
}

/// The result of `layout_of` for a key press that types `c`.
pub proof fn lemma_layout_of(k: Key, s: bool, c: char)
    requires
        key_char(k, s) == Some(c),
    ensures
        layout_of(c) == Some((k, s)),
{
    let ks = choose|ks: (Key, bool)| key_char(ks.0, ks.1) == Some(c);
    assert(key_char((k, s).0, (k, s).1) == Some(c));
    lemma_layout_unambiguous(k, s, ks.0, ks.1);
}

/// The letter key for a lower-case ASCII letter.
pub fn letter(ch: char) -> (k: Key)
    requires
        'a' <= ch <= 'z',
    ensures
        key_char(k, false) == Some(ch),
{
    match ch {
        'a' => Key::A,
        'b' => Key::B,
        'c' => Key::C,
        'd' => Key::D,
        'e' => Key::E,
        'f' => Key::F,
        'g' => Key::G,
        'h' => Key::H,
        'i' => Key::I,
        'j' => Key::J,
        'k' => Key::K,
        'l' => Key::L,
        'm' => Key::M,
        'n' => Key::N,
        'o' => Key::O,
        'p' => Key::P,
        'q' => Key::Q,
        'r' => Key::R,
        's' => Key::S,
        't' => Key::T,
        'u' => Key::U,
        'v' => Key::V,
        'w' => Key::W,
        'x' => Key::X,
        'y' => Key::Y,
        _ => Key::Z,
    }
}

/// US-layout keymap: the key and Shift state that type `ch`. Every printable
/// ASCII character, newline and tab has one; nothing else does.
pub fn keymap(ch: char) -> (r: Option<(Key, bool)>)
    ensures
        r == layout_of(ch),
        r is Some <==> (' ' <= ch <= '~' || ch == '\n' || ch == '\t'),
{
    let r = match ch {
        'a'..='z' => Some((letter(ch), false)),
        'A'..='Z' => Some((letter(crate::text::lower_ascii_char(ch)), true)),
        '1' => Some((Key::Digit1, false)),
        '2' => Some((Key::Digit2, false)),
        '3' => Some((Key::Digit3, false)),
        '4' => Some((Key::Digit4, false)),
        '5' => Some((Key::Digit5, false)),
        '6' => Some((Key::Digit6, false)),
        '7' => Some((Key::Digit7, false)),
        '8' => Some((Key::Digit8, false)),
        '9' => Some((Key::Digit9, false)),
        '0' => Some((Key::Digit0, false)),
        '!' => Some((Key::Digit1, true)),
        '@' => Some((Key::Digit2, true)),
        '#' => Some((Key::Digit3, true)),
        '$' => Some((Key::Digit4, true)),
        '%' => Some((Key::Digit5, true)),
        '^' => Some((Key::Digit6, true)),
        '&' => Some((Key::Digit7, true)),
        '*' => Some((Key::Digit8, true)),
        '(' => Some((Key::Digit9, true)),
        ')' => Some((Key::Digit0, true)),
        ' ' => Some((Key::Space, false)),
        '\n' => Some((Key::Enter, false)),
        '\t' => Some((Key::Tab, false)),
        '-' => Some((Key::Minus, false)),
        '_' => Some((Key::Minus, true)),
        '=' => Some((Key::Equal, false)),
        '+' => Some((Key::Equal, true)),
        '[' => Some((Key::LeftBrace, false)),
        '{' => Some((Key::LeftBrace, true)),
        ']' => Some((Key::RightBrace, false)),
        '}' => Some((Key::RightBrace, true)),
        '\\' => Some((Key::Backslash, false)),
        '|' => Some((Key::Backslash, true)),
        ';' => Some((Key::Semicolon, false)),
        ':' => Some((Key::Semicolon, true)),
        '\'' => Some((Key::Apostrophe, false)),
        '"' => Some((Key::Apostrophe, true)),
        ',' => Some((Key::Comma, false)),
        '<' => Some((Key::Comma, true)),
        '.' => Some((Key::Dot, false)),
        '>' => Some((Key::Dot, true)),
        '/' => Some((Key::Slash, false)),
        '?' => Some((Key::Slash, true)),
        '`' => Some((Key::Grave, false)),
        '~' => Some((Key::Grave, true)),
        _ => None,
    };
    proof {
        match r {
            Some(ks) => {
                lemma_layout_of(ks.0, ks.1, ch);
            },
            None => {},
        }
    }
    r
}

/// Position of a key in the registration list.
pub open spec fn key_index(k: Key) -> int {
    match k {
        Key::A => 0,
        Key::B => 1,
        Key::C => 2,
        Key::D => 3,
        Key::E => 4,
        Key::F => 5,
        Key::G => 6,
        Key::H => 7,
        Key::I => 8,
        Key::J => 9,
        Key::K => 10,
        Key::L => 11,
        Key::M => 12,
        Key::N => 13,
        Key::O => 14,
        Key::P => 15,
        Key::Q => 16,
        Key::R => 17,
        Key::S => 18,
        Key::T => 19,
        Key::U => 20,
        Key::V => 21,
        Key::W => 22,
        Key::X => 23,
        Key::Y => 24,
        Key::Z => 25,
        Key::Digit1 => 26,
        Key::Digit2 => 27,
        Key::Digit3 => 28,
        Key::Digit4 => 29,
        Key::Digit5 => 30,
        Key::Digit6 => 31,
        Key::Digit7 => 32,
        Key::Digit8 => 33,
        Key::Digit9 => 34,
        Key::Digit0 => 35,
        Key::Space => 36,
        Key::Enter => 37,
        Key::Tab => 38,
        Key::Minus => 39,
        Key::Equal => 40,
        Key::LeftBrace => 41,
        Key::RightBrace => 42,
        Key::Backslash => 43,
        Key::Semicolon => 44,
        Key::Apostrophe => 45,
        Key::Comma => 46,
        Key::Dot => 47,
        Key::Slash => 48,
        Key::Grave => 49,
        Key::LeftShift => 50,
    }
}

/// Every key that typing uses, Shift included, in the order they are
/// registered with the virtual keyboard.
pub fn all_keys() -> (keys: Vec<Key>)
    ensures
        keys@.len() == 51,
        forall|k: Key| #[trigger] keys@[key_index(k)] == k,
        forall|k: Key| #[trigger] keys@.contains(k),
{
    let mut keys: Vec<Key> = Vec::new();
    keys.push(Key::A);
    keys.push(Key::B);
    keys.push(Key::C);
    keys.push(Key::D);
    keys.push(Key::E);
    keys.push(Key::F);
    keys.push(Key::G);
    keys.push(Key::H);
    keys.push(Key::I);
    keys.push(Key::J);
    keys.push(Key::K);
    keys.push(Key::L);
    keys.push(Key::M);
    keys.push(Key::N);
    keys.push(Key::O);
    keys.push(Key::P);
    keys.push(Key::Q);
    keys.push(Key::R);
    keys.push(Key::S);
    keys.push(Key::T);
    keys.push(Key::U);
    keys.push(Key::V);
    keys.push(Key::W);
    keys.push(Key::X);
    keys.push(Key::Y);
    keys.push(Key::Z);
    keys.push(Key::Digit1);
    keys.push(Key::Digit2);
    keys.push(Key::Digit3);
    keys.push(Key::Digit4);
    keys.push(Key::Digit5);
    keys.push(Key::Digit6);
    keys.push(Key::Digit7);
    keys.push(Key::Digit8);
    keys.push(Key::Digit9);
    keys.push(Key::Digit0);
    keys.push(Key::Space);
    keys.push(Key::Enter);
    keys.push(Key::Tab);
    keys.push(Key::Minus);
    keys.push(Key::Equal);
    keys.push(Key::LeftBrace);
    keys.push(Key::RightBrace);
    keys.push(Key::Backslash);
    keys.push(Key::Semicolon);
    keys.push(Key::Apostrophe);
    keys.push(Key::Comma);
    keys.push(Key::Dot);
    keys.push(Key::Slash);
    keys.push(Key::Grave);
    keys.push(Key::LeftShift);
    assert forall|k: Key| #[trigger] keys@.contains(k) by {
        assert(keys@[key_index(k)] == k);
    }
    keys
}


/// Replace common typographic characters with ASCII equivalents: curly
/// quotes and the modifier apostrophe become straight quotes, dashes and the
/// minus sign a hyphen, the ellipsis three dots, and narrow or non-breaking
/// spaces a space. Every other character stands for itself.
pub open spec fn normalized(c: char) -> Seq<char> {
    if c == '\u{2018}' || c == '\u{2019}' || c == '\u{02BC}' {
        seq!['\'']
    } else if c == '\u{201C}' || c == '\u{201D}' {
        seq!['"']
    } else if c == '\u{2013}' || c == '\u{2014}' || c == '\u{2212}' {
        seq!['-']
    } else if c == '\u{2026}' {
        seq!['.', '.', '.']
    } else if c == '\u{00A0}' || c == '\u{2009}' || c == '\u{200A}' {
        seq![' ']
    } else {
        seq![c]
    }
}

/// `normalized` applied to every character of `s`, the pieces joined.
pub open spec fn normalize_all(s: Seq<char>) -> Seq<char>
    decreases s.len(),
{
    if s.len() == 0 {
        Seq::empty()
    } else {
        normalize_all(s.drop_last()) + normalized(s.last())
    }
}

/// The ASCII replacement of one typographic character (the character itself
/// when it needs none).
pub fn normalize(ch: char) -> (r: Vec<char>)
    ensures
        r@ == normalized(ch),
{
    let r = match ch {
        '\u{2018}' | '\u{2019}' | '\u{02BC}' => vec!['\''],
        '\u{201C}' | '\u{201D}' => vec!['"'],
        '\u{2013}' | '\u{2014}' | '\u{2212}' => vec!['-'],
        '\u{2026}' => vec!['.', '.', '.'],
        '\u{00A0}' | '\u{2009}' | '\u{200A}' => vec![' '],
        _ => vec![ch],
    };
    assert(r@ =~= normalized(ch));
    r
}

/// The typographic characters that dictation produces and typing replaces:
/// curly and modifier apostrophes, curly double quotes, en and em dashes, the
/// minus sign, the ellipsis, and no-break, thin and hair spaces.
pub open spec fn typographic(c: char) -> bool {
    ||| c == '\u{2018}' || c == '\u{2019}' || c == '\u{02BC}'
    ||| c == '\u{201C}' || c == '\u{201D}'
    ||| c == '\u{2013}' || c == '\u{2014}' || c == '\u{2212}'
    ||| c == '\u{2026}'
    ||| c == '\u{00A0}' || c == '\u{2009}' || c == '\u{200A}'
}

/// Whether `c` is printable ASCII.
pub open spec fn printable_ascii(c: char) -> bool {
    ' ' <= c <= '~'
}

/// Every typographic character becomes printable ASCII that a key types, so
/// typing drops none of it; a dash or minus sign is typed as `-`.
pub proof fn lemma_typographic_typable(c: char)
    requires
        typographic(c),
    ensures
        normalized(c).len() > 0,
        forall|i: int| 0 <= i < normalized(c).len() ==> printable_ascii(#[trigger] normalized(c)[i]),
        untypable_in(normalize_all(seq![c])) == Seq::<char>::empty(),
        strokes_of(normalize_all(seq![c])).len() == normalized(c).len(),
        (c == '\u{2013}' || c == '\u{2014}' || c == '\u{2212}') ==> {
            &&& normalize_all(seq![c]) == seq!['-']
            &&& strokes_of(normalize_all(seq![c])) == seq![(Key::Minus, false)]
        },
{
    let n = normalized(c);
    assert(seq![c].drop_last() =~= Seq::<char>::empty());
    reveal_with_fuel(normalize_all, 2);
    assert(seq![c].last() == c);
    assert(normalize_all(seq![c]) =~= Seq::<char>::empty() + n);
    assert(normalize_all(seq![c]) =~= n);
    lemma_layout_of(Key::Apostrophe, false, '\'');
    lemma_layout_of(Key::Apostrophe, true, '"');
    lemma_layout_of(Key::Minus, false, '-');
    lemma_layout_of(Key::Dot, false, '.');
    lemma_layout_of(Key::Space, false, ' ');
    reveal(Seq::filter);
    reveal(Seq::filter_map);
    reveal_with_fuel(Seq::filter, 4);
    reveal_with_fuel(Seq::filter_map, 4);
    if n.len() == 1 {
        assert(n.drop_last() =~= Seq::<char>::empty());
    } else {
        assert(n.drop_last() =~= seq!['.', '.']);
        assert(n.drop_last().drop_last() =~= seq!['.']);
        assert(n.drop_last().drop_last().drop_last() =~= Seq::<char>::empty());
    }
}

/// Normalizing distributes over concatenation.
pub proof fn lemma_normalize_concat(a: Seq<char>, b: Seq<char>)
    ensures
        normalize_all(a + b) == normalize_all(a) + normalize_all(b),
    decreases b.len(),
{
    if b.len() == 0 {
        assert(a + b =~= a);
        assert(normalize_all(a) + normalize_all(b) =~= normalize_all(a));
    } else {
        lemma_normalize_concat(a, b.drop_last());
        assert((a + b).drop_last() =~= a + b.drop_last());
        assert((a + b).last() == b.last());
        assert(normalize_all(a + b) =~= normalize_all(a) + normalize_all(b));
    }
}

/// Normalizing twice changes nothing more: every replacement is plain ASCII.
pub proof fn lemma_normalize_idempotent(s: Seq<char>)
    ensures
        normalize_all(normalize_all(s)) == normalize_all(s),
    decreases s.len(),
{
    if s.len() > 0 {
        let c = s.last();
        lemma_normalize_idempotent(s.drop_last());
        lemma_normalize_concat(normalize_all(s.drop_last()), normalized(c));
        let n = normalized(c);
        reveal_with_fuel(normalize_all, 4);
        if n.len() == 1 {
            assert(n =~= Seq::<char>::empty().push(n[0]));
            assert(Seq::<char>::empty().push(n[0]).drop_last() =~= Seq::<char>::empty());
            assert(normalize_all(n) =~= normalized(n[0]));
        } else {
            assert(n.drop_last().drop_last().drop_last() =~= Seq::<char>::empty());
            assert(normalize_all(n) =~= n);
        }
    }
}

/// The key presses that type `s`: its characters in order, each with its key
/// and Shift state, characters no key types being skipped.
pub open spec fn strokes_of(s: Seq<char>) -> Seq<(Key, bool)> {
    s.filter_map(|c: char| layout_of(c))
}

/// The key presses that type `text` once normalized to ASCII; characters that
/// no key on a US layout types are skipped.
pub fn plan_keystrokes(text: &str) -> (strokes: Vec<(Key, bool)>)
    ensures
        strokes@ == strokes_of(normalize_all(text@)),
{
    let chars = chars_of(text);
    let ghost mut typed: Seq<char> = Seq::empty();
    let mut strokes: Vec<(Key, bool)> = Vec::new();
    let mut i: usize = 0;
    while i < chars.len()
        invariant
            i <= chars.len(),
            chars@ == text@,
            typed == normalize_all(chars@.take(i as int)),
            strokes@ == strokes_of(typed),
        decreases chars.len() - i,
    {
        let piece = normalize(chars[i]);
        let mut j: usize = 0;
        while j < piece.len()
            invariant
                j <= piece.len(),
                strokes@ == strokes_of(typed + piece@.take(j as int)),
            decreases piece.len() - j,
        {
            let ghost before = typed + piece@.take(j as int);
            match keymap(piece[j]) {
                Some(ks) => {
                    strokes.push(ks);
                },
                None => {},
            }
            proof {
                assert(typed + piece@.take(j + 1) =~= before.push(piece@[j as int]));
                reveal(Seq::filter_map);
                assert(before.push(piece@[j as int]).drop_last() =~= before);
            }
            j = j + 1;
        }
        proof {
            assert(piece@.take(j as int) =~= piece@);
            assert(chars@.take(i + 1).drop_last() =~= chars@.take(i as int));
            typed = typed + piece@;
        }
        i = i + 1;
    }
    assert(chars@.take(i as int) =~= chars@);
    strokes
}


/// The characters of `s` that no key types, in order.
pub open spec fn untypable_in(s: Seq<char>) -> Seq<char> {
    s.filter(|c: char| layout_of(c) is None)
}

/// The characters of `text`, once normalized to ASCII, that no key on a US
/// layout types; typing skips them.
pub fn untypable_chars(text: &str) -> (skipped: Vec<char>)
    ensures
        skipped@ == untypable_in(normalize_all(text@)),
{
    let chars = chars_of(text);
    let ghost mut typed: Seq<char> = Seq::empty();
    let mut skipped: Vec<char> = Vec::new();
    let mut i: usize = 0;
    while i < chars.len()
        invariant
            i <= chars.len(),
            chars@ == text@,
            typed == normalize_all(chars@.take(i as int)),
            skipped@ == untypable_in(typed),
        decreases chars.len() - i,
    {
        let piece = normalize(chars[i]);
        let mut j: usize = 0;
        while j < piece.len()
            invariant
                j <= piece.len(),
                skipped@ == untypable_in(typed + piece@.take(j as int)),
            decreases piece.len() - j,
        {
            let ghost before = typed + piece@.take(j as int);
            let c = piece[j];
            if keymap(c).is_none() {
                skipped.push(c);
            }
            proof {
                assert(typed + piece@.take(j + 1) =~= before.push(piece@[j as int]));
                reveal(Seq::filter);
                assert(before.push(piece@[j as int]).drop_last() =~= before);
            }
            j = j + 1;
        }
        proof {
            assert(piece@.take(j as int) =~= piece@);
            assert(chars@.take(i + 1).drop_last() =~= chars@.take(i as int));
            typed = typed + piece@;
        }
        i = i + 1;
    }
    assert(chars@.take(i as int) =~= chars@);
    skipped
}

/// A key going down (`true`) or up.
pub type KeyMove = (Key, bool);

/// The key moves that type one stroke: Shift held around the key when needed.
pub fn stroke_moves(key: Key, shift: bool) -> (moves: Vec<KeyMove>)
    ensures
        moves@ == if shift {
            seq![(Key::LeftShift, true), (key, true), (key, false), (Key::LeftShift, false)]
        } else {
            seq![(key, true), (key, false)]
        },
{
    let mut moves: Vec<KeyMove> = Vec::new();
    if shift {
        moves.push((Key::LeftShift, true));
    }
    moves.push((key, true));
    moves.push((key, false));
    if shift {
        moves.push((Key::LeftShift, false));
    }
    assert(moves@ =~= if shift {
        seq![(Key::LeftShift, true), (key, true), (key, false), (Key::LeftShift, false)]
    } else {
        seq![(key, true), (key, false)]
    });
    moves
}

} // verus!
