use mynah::typer::{all_keys, keymap, letter, normalize, plan_keystrokes, stroke_moves, untypable_chars, Key};

#[test]
fn keymap_covers_printable_ascii() {
    for b in 0x20u8..=0x7e {
        let ch = b as char;
        assert!(keymap(ch).is_some(), "no mapping for {ch:?}");
    }
}

#[test]
fn normalize_typographic() {
    let s: String = "\u{201C}hi\u{201D}\u{2014}ok\u{2026}"
        .chars()
        .flat_map(normalize)
        .collect();
    assert_eq!(s, "\"hi\"-ok...");
}

#[test]
fn normalizing_twice_changes_nothing() {
    let once: String = "\u{2018}a\u{2019}\u{00A0}\u{2212}".chars().flat_map(normalize).collect();
    let twice: String = once.chars().flat_map(normalize).collect();
    assert_eq!(once, "'a' -");
    assert_eq!(once, twice);
}

#[test]
fn keymap_examples() {
    assert_eq!(keymap('a'), Some((Key::A, false)));
    assert_eq!(keymap('Q'), Some((Key::Q, true)));
    assert_eq!(keymap('!'), Some((Key::Digit1, true)));
    assert_eq!(keymap('0'), Some((Key::Digit0, false)));
    assert_eq!(keymap('\n'), Some((Key::Enter, false)));
    assert_eq!(keymap('\t'), Some((Key::Tab, false)));
    assert_eq!(keymap('"'), Some((Key::Apostrophe, true)));
    assert_eq!(keymap('~'), Some((Key::Grave, true)));
    assert_eq!(keymap('é'), None);
    assert_eq!(keymap('\u{7f}'), None);
    assert_eq!(letter('z'), Key::Z);
}

#[test]
fn every_key_is_registered() {
    let keys = all_keys();
    assert_eq!(keys.len(), 51);
    for b in 0x20u8..=0x7e {
        let (key, _) = keymap(b as char).unwrap();
        assert!(keys.contains(&key));
    }
    assert!(keys.contains(&Key::LeftShift));
}

#[test]
fn keystrokes_skip_unmapped_characters() {
    let strokes = plan_keystrokes("Hi\u{2014}é!");
    assert_eq!(
        strokes,
        vec![(Key::H, true), (Key::I, false), (Key::Minus, false), (Key::Digit1, true)]
    );
}

#[test]
fn shift_wraps_the_key() {
    assert_eq!(
        stroke_moves(Key::A, true),
        vec![(Key::LeftShift, true), (Key::A, true), (Key::A, false), (Key::LeftShift, false)]
    );
    assert_eq!(stroke_moves(Key::Dot, false), vec![(Key::Dot, true), (Key::Dot, false)]);
}

#[test]
fn untypable_characters_are_reported() {
    assert_eq!(untypable_chars("Hi\u{2014}\u{e9}!"), vec!['\u{e9}']);
    assert!(untypable_chars("plain \u{201C}quoted\u{201D} text").is_empty());
    assert_eq!(untypable_chars("\u{e9}\u{fc}"), vec!['\u{e9}', '\u{fc}']);
}
