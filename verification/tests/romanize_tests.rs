use lyrics_core::romanize::{
    kana_to_romaji, readings_to_kana, readings_to_romaji, romanize_lyrics, RomanizeError,
    RomanizeOutcome, TokenReading,
};

fn token(surface: &str, details: Vec<&str>) -> TokenReading {
    TokenReading {
        surface: surface.to_string(),
        details: details.into_iter().map(|d| d.to_string()).collect(),
    }
}

#[test]
fn latin_text_passes_through_unchanged() {
    let r = romanize_lyrics("Already latin lyrics".to_string(), None);
    assert_eq!(r, Ok(RomanizeOutcome::Romanized("Already latin lyrics".to_string())));
}

#[test]
fn korean_text_is_delegated() {
    let korean = "\u{C548}\u{B155}".to_string();
    let r = romanize_lyrics(korean.clone(), None);
    assert_eq!(r, Ok(RomanizeOutcome::NeedsHangul(korean)));
}

#[test]
fn japanese_without_segmenter_is_an_error() {
    let r = romanize_lyrics("\u{3053}\u{3093}\u{306B}\u{3061}\u{306F}".to_string(), None);
    assert_eq!(r, Err(RomanizeError::TokenizerUnavailable));
}

#[test]
fn reading_field_preferred_over_surface() {
    let tokens = vec![
        token(
            "\u{65E5}\u{672C}",
            vec!["a", "b", "c", "d", "e", "f", "g", "h", "i", "j", "\u{30CB}\u{30DB}\u{30F3}"],
        ),
        token("\u{306B}\u{3083}", vec!["short"]),
    ];
    let kana = readings_to_kana(&tokens);
    assert_eq!(kana, "\u{30CB}\u{30DB}\u{30F3}\u{306B}\u{3083}");
}

#[test]
fn kana_converts_to_romaji() {
    // Hiragana input: the kakasi normalization leaves it unchanged and the
    // transliteration maps it to Latin.
    assert_eq!(kana_to_romaji("\u{304B}\u{3093}\u{305F}\u{3093}"), "kantan");
    // Katakana input: the normalization must first turn it into hiragana.
    assert_eq!(kana_to_romaji("\u{30AD}\u{30E3}"), "kya");
}

#[test]
fn kanji_goes_through_the_dictionary() {
    // A kanji word is readable only through the kakasi dictionary; an
    // identity normalization would leave the kanji in place.
    assert_eq!(kana_to_romaji("\u{69CB}\u{6210}"), "kousei");
}

#[test]
fn token_pipeline_ends_in_romaji() {
    let tokens = vec![token("\u{304B}\u{3093}\u{305F}\u{3093}", vec![])];
    assert_eq!(readings_to_romaji(&tokens), "kantan");
}
