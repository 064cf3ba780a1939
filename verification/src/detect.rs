//! Script detection: classifies a text as Korean, Japanese or other by
//! counting codepoints in the Hangul and Kana Unicode ranges.
use vstd::prelude::*;

verus! {

/// The verdict of script detection over a whole text.
#[derive(Clone, Copy, Debug, PartialEq, Eq, Structural)]
pub enum ScriptVerdict {
    Korean,
    Japanese,
    /// Empty text, a tie between the two counters, or a script outside
    /// both families (Latin among others).
    Other,
}

/// A codepoint in the Hangul Jamo, Hangul Compatibility Jamo or Hangul
/// Syllables blocks.
pub open spec fn is_korean_char(c: char) -> bool {
    (0x1100 <= c as u32 && c as u32 <= 0x11FF)
        || (0x3130 <= c as u32 && c as u32 <= 0x318F)
        || (0xAC00 <= c as u32 && c as u32 <= 0xD7AF)
}

/// A codepoint in the Hiragana, Katakana or Katakana Phonetic Extensions
/// blocks.
pub open spec fn is_japanese_char(c: char) -> bool {
    (0x3040 <= c as u32 && c as u32 <= 0x309F)
        || (0x30A0 <= c as u32 && c as u32 <= 0x30FF)
        || (0x31F0 <= c as u32 && c as u32 <= 0x31FF)
}

/// How many characters of `s` fall in the Korean ranges.
pub open spec fn korean_count(s: Seq<char>) -> int
    decreases s.len(),
{
    if s.len() == 0 {
        0
    } else {
        korean_count(s.drop_last()) + if is_korean_char(s.last()) {
            1int
        } else {
            0int
        }
    }
}

/// How many characters of `s` fall in the Japanese ranges; a character in a
/// Korean range is never also counted here, mirroring the scan that tests
/// Korean first (the ranges are disjoint, so this changes nothing).
pub open spec fn japanese_count(s: Seq<char>) -> int
    decreases s.len(),
{
    if s.len() == 0 {
        0
    } else {
        japanese_count(s.drop_last()) + if !is_korean_char(s.last()) && is_japanese_char(s.last()) {
            1int
        } else {
            0int
        }
    }
}

/// The decision over the two counters: Korean or Japanese when its counter
/// strictly dominates and is positive, otherwise Other.
pub open spec fn spec_detect(s: Seq<char>) -> ScriptVerdict {
    let k = korean_count(s);
    let j = japanese_count(s);
    if k > j && k > 0 {
        ScriptVerdict::Korean
    } else if j > k && j > 0 {
        ScriptVerdict::Japanese
    } else {
        ScriptVerdict::Other
    }
}

/// Whether `c` lies in one of the Hangul ranges.
pub fn is_korean(c: char) -> (r: bool)
    ensures
        r == is_korean_char(c),
{
    let x = c as u32;
    (0x1100 <= x && x <= 0x11FF) || (0x3130 <= x && x <= 0x318F) || (0xAC00 <= x && x <= 0xD7AF)
}

/// Whether `c` lies in one of the Hiragana/Katakana ranges.
pub fn is_japanese(c: char) -> (r: bool)
    ensures
        r == is_japanese_char(c),
{
    let x = c as u32;
    (0x3040 <= x && x <= 0x309F) || (0x30A0 <= x && x <= 0x30FF) || (0x31F0 <= x && x <= 0x31FF)
}

proof fn lemma_count_bounds(s: Seq<char>)
    ensures
        0 <= korean_count(s) <= s.len(),
        0 <= japanese_count(s) <= s.len(),
    decreases s.len(),
{
    if s.len() > 0 {
        lemma_count_bounds(s.drop_last());
    }
}

proof fn lemma_count_step(s: Seq<char>, i: int)
    requires
        0 <= i < s.len(),
    ensures
        korean_count(s.take(i + 1)) == korean_count(s.take(i)) + if is_korean_char(s[i]) {
            1int
        } else {
            0int
        },
        japanese_count(s.take(i + 1)) == japanese_count(s.take(i)) + if !is_korean_char(s[i])
            && is_japanese_char(s[i]) {
            1int
        } else {
            0int
        },
{
    assert(s.take(i + 1).drop_last() =~= s.take(i));
    assert(s.take(i + 1).last() == s[i]);
}

/// A codepoint in the Hangul Syllables block alone.
pub open spec fn is_hangul_syllable_char(c: char) -> bool {
    0xAC00 <= c as u32 && c as u32 <= 0xD7AF
}

/// A codepoint in the Hiragana or Katakana blocks alone.
pub open spec fn is_kana_char(c: char) -> bool {
    (0x3040 <= c as u32 && c as u32 <= 0x309F) || (0x30A0 <= c as u32 && c as u32 <= 0x30FF)
}

/// An ASCII Latin letter.
pub open spec fn is_latin_letter_char(c: char) -> bool {
    (0x41 <= c as u32 && c as u32 <= 0x5A) || (0x61 <= c as u32 && c as u32 <= 0x7A)
}

proof fn lemma_counts_of_uniform(s: Seq<char>)
    ensures
        (forall|i: int| 0 <= i < s.len() ==> is_korean_char(s[i])) ==> korean_count(s) == s.len()
            && japanese_count(s) == 0,
        (forall|i: int| 0 <= i < s.len() ==> !is_korean_char(s[i]) && is_japanese_char(s[i]))
            ==> japanese_count(s) == s.len() && korean_count(s) == 0,
        (forall|i: int| 0 <= i < s.len() ==> !is_korean_char(s[i]) && !is_japanese_char(s[i]))
            ==> korean_count(s) == 0 && japanese_count(s) == 0,
    decreases s.len(),
{
    if s.len() > 0 {
        lemma_counts_of_uniform(s.drop_last());
        assert(forall|i: int| 0 <= i < s.len() - 1 ==> s.drop_last()[i] == s[i]);
        assert(s.last() == s[s.len() - 1]);
    }
}

/// A text of Hangul Syllables alone is detected as Korean.
pub proof fn lemma_detect_pure_hangul(s: Seq<char>)
    requires
        s.len() > 0,
        forall|i: int| 0 <= i < s.len() ==> is_hangul_syllable_char(s[i]),
    ensures
        spec_detect(s) == ScriptVerdict::Korean,
{
    assert(forall|i: int| 0 <= i < s.len() ==> is_korean_char(s[i]));
    lemma_counts_of_uniform(s);
}

/// A text of Hiragana and Katakana alone is detected as Japanese.
pub proof fn lemma_detect_pure_kana(s: Seq<char>)
    requires
        s.len() > 0,
        forall|i: int| 0 <= i < s.len() ==> is_kana_char(s[i]),
    ensures
        spec_detect(s) == ScriptVerdict::Japanese,
{
    assert(forall|i: int| 0 <= i < s.len() ==> !is_korean_char(s[i]) && is_japanese_char(s[i]));
    lemma_counts_of_uniform(s);
}

/// A text of ASCII Latin letters alone is detected as Other, and so is the
/// empty text.
pub proof fn lemma_detect_pure_latin(s: Seq<char>)
    requires
        forall|i: int| 0 <= i < s.len() ==> is_latin_letter_char(s[i]),
    ensures
        spec_detect(s) == ScriptVerdict::Other,
{
    assert(forall|i: int| 0 <= i < s.len() ==> !is_korean_char(s[i]) && !is_japanese_char(s[i]));
    lemma_counts_of_uniform(s);
}

/// Classifies `text`: Korean when the Hangul counter strictly exceeds the
/// Kana counter and is positive, Japanese in the symmetric case, and Other
/// on a tie (including two zeros) or when neither script appears.
pub fn detect_language(text: &str) -> (r: ScriptVerdict)
    ensures
        r == spec_detect(text@),
{
    let n = text.unicode_len();
    let mut korean: usize = 0;
    let mut japanese: usize = 0;
    let mut i: usize = 0;
    while i < n
        invariant
            n == text@.len(),
            i <= n,
            korean == korean_count(text@.take(i as int)),
            japanese == japanese_count(text@.take(i as int)),
            korean <= i,
            japanese <= i,
        decreases n - i,
    {
        let c = text.get_char(i);
        proof {
            lemma_count_step(text@, i as int);
            lemma_count_bounds(text@.take(i as int));
        }
        if is_korean(c) {
            korean += 1;
        } else if is_japanese(c) {
            japanese += 1;
        }
        i += 1;
    }
    proof {
        assert(text@.take(n as int) =~= text@);
    }
    if korean > japanese && korean > 0 {
        ScriptVerdict::Korean
    } else if japanese > korean && japanese > 0 {
        ScriptVerdict::Japanese
    } else {
        ScriptVerdict::Other
    }
}

} // verus!
