use mynah::vocabulary::{Rule, Vocabulary};
use mynah::vocabulary::replace_whole_phrase;
use mynah::vocabulary_file::VocabularyError;

fn rule(heard: &str, replacement: &str) -> Rule {
    Rule::new(heard.into(), replacement.into())
}

#[test]
fn replaces_whole_phrases_but_not_substrings() {
    let vocabulary = Vocabulary::new(vec![rule("rust", "Rust")]);
    assert_eq!(vocabulary.correct("rust is trusty"), "Rust is trusty");
}

#[test]
fn longer_phrases_win() {
    let vocabulary = Vocabulary::new(vec![rule("kite connect", "Kite Connect"), rule("kite", "Kite")]);
    assert_eq!(vocabulary.correct("kite connect"), "Kite Connect");
}

#[test]
fn matching_ignores_ascii_case() {
    assert_eq!(replace_whole_phrase("Rust and RUST", "rust", "Rust"), "Rust and Rust");
}

#[test]
fn phrase_inside_a_word_is_kept() {
    assert_eq!(replace_whole_phrase("trusty rusty", "rust", "Rust"), "trusty rusty");
    assert_eq!(replace_whole_phrase("rust2 rust", "rust", "Rust"), "rust2 Rust");
}

#[test]
fn whole_text_becomes_the_replacement() {
    assert_eq!(replace_whole_phrase("KITE", "kite", "Kite"), "Kite");
}

#[test]
fn punctuation_is_a_boundary() {
    assert_eq!(replace_whole_phrase("(rust), rust.", "rust", "Rust"), "(Rust), Rust.");
}

#[test]
fn unicode_letters_are_not_boundaries() {
    assert_eq!(replace_whole_phrase("érust rust", "rust", "Rust"), "érust Rust");
}

#[test]
fn non_overlapping_scan() {
    assert_eq!(replace_whole_phrase("aa aa", "a a", "X"), "aa aa");
    assert_eq!(replace_whole_phrase("a a a", "a a", "X"), "X a");
}

#[test]
fn empty_vocabulary_changes_nothing() {
    let vocabulary = Vocabulary::default();
    assert_eq!(vocabulary.correct("anything at all"), "anything at all");
    assert_eq!(vocabulary.whisper_prompt(), None);
}

#[test]
fn whisper_prompt_lists_replacements() {
    let vocabulary = Vocabulary::new(vec![rule("kite connect", "Kite Connect"), rule("rust", "Rust")]);
    assert_eq!(
        vocabulary.whisper_prompt().as_deref(),
        Some("Technical terms and names: Kite Connect, Rust.")
    );
    assert_eq!(vocabulary.initial_prompt(false), None);
    assert_eq!(
        vocabulary.initial_prompt(true).as_deref(),
        Some("Technical terms and names: Kite Connect, Rust.")
    );
}

#[test]
fn transcript_is_trimmed_then_corrected() {
    let vocabulary = Vocabulary::new(vec![rule("rust", "Rust")]);
    assert_eq!(vocabulary.correct_transcript("  rust rocks \n"), "Rust rocks");
}

#[test]
fn rules_apply_in_order() {
    let vocabulary = Vocabulary::new(vec![rule("a", "b"), rule("b", "c")]);
    assert_eq!(vocabulary.correct("a"), "c");
}

#[test]
fn parse_sorts_longest_first_and_keeps_ties_in_order() {
    let text = "# comment\n\nkite => Kite\r\nkite connect => Kite Connect\nab => AB\n  cd   =>   CD  \n";
    let vocabulary = Vocabulary::parse(text).unwrap();
    assert_eq!(vocabulary.len(), 4);
    assert_eq!(vocabulary.correct("kite connect kite ab cd"), "Kite Connect Kite AB CD");
    assert_eq!(
        vocabulary.whisper_prompt().as_deref(),
        Some("Technical terms and names: Kite Connect, Kite, AB, CD.")
    );
}

#[test]
fn parse_sorts_by_bytes() {
    // "é" is two bytes, so "éé" (4 bytes) sorts before "abc" (3 bytes).
    let vocabulary = Vocabulary::parse("abc => X\néé => Y").unwrap();
    assert_eq!(vocabulary.whisper_prompt().as_deref(), Some("Technical terms and names: Y, X."));
}

#[test]
fn parse_reports_missing_arrow_with_line_number() {
    let err = Vocabulary::parse("a => b\n\nnot a rule\n").unwrap_err();
    assert_eq!(err, VocabularyError::MissingArrow { line: 3 });
}

#[test]
fn parse_reports_empty_side() {
    assert_eq!(Vocabulary::parse("# x\n => b").unwrap_err(), VocabularyError::EmptySide { line: 2 });
    assert_eq!(Vocabulary::parse("a =>   ").unwrap_err(), VocabularyError::EmptySide { line: 1 });
}

#[test]
fn parse_splits_at_first_arrow() {
    let vocabulary = Vocabulary::parse("a => b => c").unwrap();
    assert_eq!(vocabulary.correct("a"), "b => c");
}

#[test]
fn parse_empty_file() {
    let vocabulary = Vocabulary::parse("").unwrap();
    assert_eq!(vocabulary.len(), 0);
}

#[test]
fn rule_accessors() {
    let r = rule("rust", "Rust");
    assert_eq!(r.heard(), "rust");
    assert_eq!(r.replacement(), "Rust");
}

#[test]
fn case_only_corrections_settle() {
    let vocabulary = Vocabulary::new(vec![rule("rust", "Rust"), rule("kite connect", "Kite Connect")]);
    let text = "RUST and kite CONNECT, trusty rust";
    let once = vocabulary.correct(text);
    assert_eq!(once, "Rust and Kite Connect, trusty Rust");
    assert_eq!(vocabulary.correct(&once), once);
    assert_eq!(once.to_ascii_lowercase(), text.to_ascii_lowercase());
}

#[test]
fn phrase_case_does_not_matter() {
    let text = "Rust and rust, RUST";
    assert_eq!(replace_whole_phrase(text, "rust", "Rust"), replace_whole_phrase(text, "RUST", "Rust"));
    assert_eq!(replace_whole_phrase(text, "rUsT", "Rust"), "Rust and Rust, Rust");
}

#[test]
fn no_rules_keep_whitespace() {
    let vocabulary = Vocabulary::new(vec![]);
    assert_eq!(vocabulary.correct("  anything at All "), "  anything at All ");
}
