//! Romanization dispatch: detect the script of a text and route it to the
//! matching transliteration path. The Japanese path tokenizes with an
//! injected morphological segmenter, picks a phonetic reading per token,
//! and converts the kana through the outside transliteration crates; the
//! Korean path is delegated to the caller's Hangul romanizer; anything
//! else passes through unchanged.
use vstd::prelude::*;

use crate::detect::{detect_language, spec_detect, ScriptVerdict};

verus! {

/// One token of the morphological segmentation, reduced to the plain
/// values the reading choice reads: the surface form and the dictionary's
/// indexed detail fields.
#[derive(Debug, PartialEq, Eq)]
pub struct TokenReading {
    pub surface: String,
    pub details: Vec<String>,
}

/// Why a romanization call could not produce text.
#[derive(Clone, Copy, Debug, PartialEq, Eq, Structural)]
pub enum RomanizeError {
    /// The Japanese path was taken but no segmenter was supplied.
    TokenizerUnavailable,
    /// The segmenter failed on the input.
    TokenizeFailed,
}

/// What the dispatch produced: finished text, or Korean text that the
/// caller must hand to its external Hangul romanizer.
#[derive(Debug, PartialEq, Eq)]
pub enum RomanizeOutcome {
    Romanized(String),
    NeedsHangul(String),
}

/// The kana contributed by one token: the dictionary reading field when
/// the details reach it, else the token's surface form. The dictionary
/// schema puts the reading at index 10; the pronunciation fields at
/// indices 13 and 15 that would come next in the fallback order can never
/// be reached, since a details vector long enough to hold them holds the
/// reading field too.
pub open spec fn chosen_reading(t: TokenReading) -> Seq<char> {
    if t.details@.len() > 10 {
        t.details@[10]@
    } else {
        t.surface@
    }
}

/// The kana string of a token sequence: each token's chosen reading,
/// concatenated in token order.
pub open spec fn kana_of(ts: Seq<TokenReading>) -> Seq<char>
    decreases ts.len(),
{
    if ts.len() == 0 {
        Seq::empty()
    } else {
        kana_of(ts.drop_last()) + chosen_reading(ts.last())
    }
}

/// The hiragana normalization that the kakasi conversion yields: kanji
/// and katakana replaced by hiragana, a function of the text alone.
pub uninterp spec fn kakasi_hiragana_of(s: Seq<char>) -> Seq<char>;

/// The Latin transliteration of a kana text, a function of the text
/// alone.
pub uninterp spec fn romaji_of(s: Seq<char>) -> Seq<char>;

/// Relies on kakasi::convert of the kakasi crate: its `hiragana` field is
/// the input with kanji and katakana converted to hiragana, computed from
/// the input and the crate's embedded dictionary alone.
#[verifier::external_body]
fn kakasi_to_hiragana(text: &str) -> (r: String)
    ensures
        r@ == kakasi_hiragana_of(text@),
{
    kakasi::convert(text).hiragana
}

/// Relies on ConvertJapanese::to_romaji of the wana_kana crate, as
/// implemented for string slices: converts kana to Latin script, a pure
/// function of the input text.
#[verifier::external_body]
fn wana_kana_to_romaji(text: &str) -> (r: String)
    ensures
        r@ == romaji_of(text@),
{
    wana_kana::ConvertJapanese::to_romaji(text)
}

#[verifier::external_type_specification]
#[verifier::external_body]
pub struct ExSegmenter(lindera::segmenter::Segmenter);

#[verifier::external_type_specification]
#[verifier::external_body]
pub struct ExLinderaError(lindera::error::LinderaError);

/// Relies on Segmenter::segment of the lindera crate: segments the text
/// into dictionary tokens; each token is reduced here to its surface form
/// and detail fields. Which tokens come back depends on the segmenter's
/// dictionary, so nothing is assumed of them.
#[verifier::external_body]
fn segment_tokens(seg: &lindera::segmenter::Segmenter, text: &str) -> (r: Result<
    Vec<TokenReading>,
    lindera::error::LinderaError,
>) {
    match seg.segment(std::borrow::Cow::Borrowed(text)) {
        Ok(tokens) => Ok(
            tokens.into_iter().map(
                |mut t| TokenReading {
                    surface: t.surface.to_string(),
                    details: t.details().into_iter().map(|d| d.to_string()).collect(),
                },
            ).collect(),
        ),
        Err(e) => Err(e),
    }
}

/// Concatenates each token's chosen phonetic reading, in token order.
pub fn readings_to_kana(tokens: &Vec<TokenReading>) -> (r: String)
    ensures
        r@ == kana_of(tokens@),
{
    let n = tokens.len();
    let mut out = String::new();
    let mut i: usize = 0;
    while i < n
        invariant
            n == tokens@.len(),
            i <= n,
            out@ == kana_of(tokens@.take(i as int)),
        decreases n - i,
    {
        proof {
            assert(tokens@.take(i + 1).drop_last() =~= tokens@.take(i as int));
            assert(tokens@.take(i + 1).last() == tokens@[i as int]);
        }
        let t = &tokens[i];
        if t.details.len() > 10 {
            out.append(t.details[10].as_str());
        } else {
            out.append(t.surface.as_str());
        }
        i += 1;
    }
    proof {
        assert(tokens@.take(n as int) =~= tokens@);
    }
    out
}

/// Converts a kana text to Latin script: the kakasi hiragana
/// normalization followed by the kana-to-romaji transliteration.
pub fn kana_to_romaji(kana: &str) -> (r: String)
    ensures
        r@ == romaji_of(kakasi_hiragana_of(kana@)),
{
    let hira = kakasi_to_hiragana(kana);
    wana_kana_to_romaji(hira.as_str())
}

/// The whole Japanese completion for a given segmentation: the romaji of
/// the normalized kana of the tokens' chosen readings. Verified for every
/// token sequence, whatever the segmenter returned.
pub fn readings_to_romaji(tokens: &Vec<TokenReading>) -> (r: String)
    ensures
        r@ == romaji_of(kakasi_hiragana_of(kana_of(tokens@))),
{
    let kana = readings_to_kana(tokens);
    kana_to_romaji(kana.as_str())
}

/// Romanizes Japanese lyrics with the given segmenter: tokenize, choose a
/// reading per token, and transliterate the kana. A segmentation failure
/// is surfaced, not swallowed.
pub fn romanize_japanese_lyrics(seg: &lindera::segmenter::Segmenter, lyrics: &str) -> (r: Result<
    String,
    RomanizeError,
>)
    ensures
        r is Err ==> r->Err_0 == RomanizeError::TokenizeFailed,
{
    match segment_tokens(seg, lyrics) {
        Ok(tokens) => Ok(readings_to_romaji(&tokens)),
        Err(_) => Err(RomanizeError::TokenizeFailed),
    }
}

/// Dispatches a text on its detected script. Korean text is handed back
/// for the caller's external Hangul romanizer; Japanese text is romanized
/// here through the segmenter, which the caller constructs once and
/// injects, and whose absence or failure is a surfaced error; anything
/// else — Latin among the rest — passes through unchanged.
pub fn romanize_lyrics(lyrics: String, seg: Option<&lindera::segmenter::Segmenter>) -> (r: Result<
    RomanizeOutcome,
    RomanizeError,
>)
    ensures
        spec_detect(lyrics@) == ScriptVerdict::Korean ==> r == Ok::<RomanizeOutcome, RomanizeError>(
            RomanizeOutcome::NeedsHangul(lyrics),
        ),
        spec_detect(lyrics@) == ScriptVerdict::Other ==> r == Ok::<RomanizeOutcome, RomanizeError>(
            RomanizeOutcome::Romanized(lyrics),
        ),
        spec_detect(lyrics@) == ScriptVerdict::Japanese ==> match r {
            Ok(o) => seg is Some && o is Romanized,
            Err(e) => (seg is None && e == RomanizeError::TokenizerUnavailable) || e
                == RomanizeError::TokenizeFailed,
        },
{
    match detect_language(lyrics.as_str()) {
        ScriptVerdict::Korean => Ok(RomanizeOutcome::NeedsHangul(lyrics)),
        ScriptVerdict::Japanese => {
            match seg {
                Some(s) => match romanize_japanese_lyrics(s, lyrics.as_str()) {
                    Ok(text) => Ok(RomanizeOutcome::Romanized(text)),
                    Err(e) => Err(e),
                },
                None => Err(RomanizeError::TokenizerUnavailable),
            }
        },
        ScriptVerdict::Other => Ok(RomanizeOutcome::Romanized(lyrics)),
    }
}

} // verus!
