use lyrics_core::detect::{detect_language, is_japanese, is_korean, ScriptVerdict};

#[test]
fn pure_hangul_is_korean() {
    assert_eq!(detect_language("\u{C548}\u{B155}\u{D558}\u{C138}\u{C694}"), ScriptVerdict::Korean);
}

#[test]
fn pure_kana_is_japanese() {
    // Hiragana followed by katakana.
    assert_eq!(detect_language("\u{3053}\u{3093}\u{306B}\u{3061}\u{306F}\u{30AB}\u{30CA}"), ScriptVerdict::Japanese);
}

#[test]
fn latin_is_other() {
    assert_eq!(detect_language("Hello world"), ScriptVerdict::Other);
}

#[test]
fn empty_is_other() {
    assert_eq!(detect_language(""), ScriptVerdict::Other);
}

#[test]
fn exact_tie_is_other() {
    // One Hangul syllable against one hiragana character.
    assert_eq!(detect_language("\u{AC00}\u{3042}"), ScriptVerdict::Other);
}

#[test]
fn majority_wins_in_mixed_text() {
    // Two Hangul syllables, one hiragana character, Latin filler.
    assert_eq!(detect_language("la \u{AC00}\u{AC01}\u{3042}"), ScriptVerdict::Korean);
    // One Hangul syllable, two katakana characters.
    assert_eq!(detect_language("la \u{AC00}\u{30A2}\u{30A3}"), ScriptVerdict::Japanese);
}

#[test]
fn char_classes_match_their_ranges() {
    assert!(is_korean('\u{1100}'));
    assert!(is_korean('\u{3130}'));
    assert!(is_korean('\u{AC00}'));
    assert!(!is_korean('a'));
    assert!(is_japanese('\u{3040}'));
    assert!(is_japanese('\u{30FF}'));
    assert!(is_japanese('\u{31F0}'));
    assert!(!is_japanese('\u{AC00}'));
}
