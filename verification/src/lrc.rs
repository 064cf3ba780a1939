//! The LRC parser: turns raw (possibly timestamped) lyrics text into an
//! ordered sequence of timed lines, one per physical line, in input order.
//! Malformed timestamps degrade to zero instead of failing the parse.
use vstd::prelude::*;

use crate::text::{
    all_digits, digits_val, find_char, find_char_in, find_sep, find_sep_in, is_digit_char,
    scan_digits, split_lines, strip_tail_cr, trim_brackets, trim_spaces, trimmed_brackets,
    trimmed_spaces,
};

verus! {

/// One parsed lyric line: a time in milliseconds and the display text.
#[derive(Debug, PartialEq, Eq)]
pub struct LyricLine {
    pub time_ms: u64,
    pub text: String,
}

/// The uppercase mapping of a character, as the Unicode case tables give
/// it: one or more characters, a function of the character alone.
pub uninterp spec fn upper_of(c: char) -> Seq<char>;

/// Relies on char::to_uppercase of std: yields the Unicode uppercase
/// mapping of the character, always at least one character long.
#[verifier::external_body]
fn char_to_upper(c: char) -> (r: String)
    ensures
        r@ == upper_of(c),
        r@.len() >= 1,
{
    c.to_uppercase().collect()
}

/// A digit string read as a number, or zero when it is empty, holds a
/// non-digit, or overflows the component limit.
pub open spec fn num_or_zero(s: Seq<char>) -> int {
    if s.len() > 0 && all_digits(s) && digits_val(s) <= u32::MAX {
        digits_val(s)
    } else {
        0
    }
}

/// The milliseconds contributed by the fractional digits of a seconds
/// field, truncated to millisecond precision.
pub open spec fn frac_ms(fp: Seq<char>) -> int {
    if fp.len() >= 3 {
        digits_val(fp.take(3))
    } else if fp.len() == 2 {
        digits_val(fp) * 10
    } else if fp.len() == 1 {
        digits_val(fp) * 100
    } else {
        0
    }
}

/// A seconds field read as milliseconds: an optional decimal point splits
/// whole seconds from fractional digits; an invalid field reads as zero.
pub open spec fn spec_parse_secs_ms(s: Seq<char>) -> int {
    match find_char(s, '.') {
        None => num_or_zero(s) * 1000,
        Some(i) => {
            let ip = s.take(i);
            let fp = s.skip(i + 1);
            if all_digits(ip) && all_digits(fp) && (ip.len() > 0 || fp.len() > 0) && digits_val(ip)
                <= u32::MAX {
                digits_val(ip) * 1000 + frac_ms(fp)
            } else {
                0
            }
        },
    }
}

/// A timestamp token read as milliseconds: surrounding brackets are
/// stripped, the remainder must split into exactly two parts on a colon
/// (minutes and seconds), and each part degrades to zero on its own when
/// it does not parse.
pub open spec fn spec_parse_time(ts: Seq<char>) -> int {
    let core = trimmed_brackets(ts);
    match find_char(core, ':') {
        None => 0,
        Some(i) => {
            let secs_s = core.skip(i + 1);
            if find_char(secs_s, ':') is Some {
                0
            } else {
                num_or_zero(core.take(i)) * 60000 + spec_parse_secs_ms(secs_s)
            }
        },
    }
}

/// The timestamp token of a physical line: everything before the first
/// bracket-space separator, or the whole line when there is none.
pub open spec fn time_part(l: Seq<char>) -> Seq<char> {
    match find_sep(l) {
        Some(i) => l.take(i),
        None => l,
    }
}

/// The raw text of a physical line: everything after the first
/// bracket-space separator, or empty when there is none.
pub open spec fn text_part(l: Seq<char>) -> Seq<char> {
    match find_sep(l) {
        Some(i) => l.skip(i + 2),
        None => Seq::empty(),
    }
}

/// The display text before case normalization: trimmed, with the musical
/// note placeholder substituted for an empty result.
pub open spec fn normalized_text(t: Seq<char>) -> Seq<char> {
    if trimmed_spaces(t).len() == 0 {
        seq!['\u{266a}']
    } else {
        trimmed_spaces(t)
    }
}

/// The time of a parsed line.
pub open spec fn spec_line_time(l: Seq<char>) -> int {
    spec_parse_time(time_part(l))
}

/// The text of a parsed line: the normalized text with its first
/// character replaced by that character's uppercase mapping, the remainder
/// untouched.
pub open spec fn spec_line_text(l: Seq<char>) -> Seq<char> {
    let t = normalized_text(text_part(l));
    upper_of(t[0]) + t.skip(1)
}

/// Reads a whole-or-empty digit string, zero when invalid.
fn num_or_zero_exec(s: &str) -> (r: u32)
    ensures
        r as int == num_or_zero(s@),
{
    if s.unicode_len() == 0 {
        0
    } else {
        match scan_digits(s) {
            Some(v) => v,
            None => 0,
        }
    }
}

/// Whether every character of `s` is a decimal digit.
fn all_digits_check(s: &str) -> (r: bool)
    ensures
        r == all_digits(s@),
{
    let n = s.unicode_len();
    let mut i: usize = 0;
    while i < n
        invariant
            n == s@.len(),
            i <= n,
            forall|j: int| 0 <= j < i ==> is_digit_char(s@[j]),
        decreases n - i,
    {
        let x = s.get_char(i) as u32;
        if !(0x30 <= x && x <= 0x39) {
            return false;
        }
        i += 1;
    }
    true
}

/// Reads a seconds field as milliseconds; an invalid field reads as zero.
fn parse_secs_ms(s: &str) -> (t: u64)
    ensures
        t as int == spec_parse_secs_ms(s@),
        t <= 4294967295999,
{
    let n = s.unicode_len();
    match find_char_in(s, '.') {
        None => {
            let v = num_or_zero_exec(s);
            v as u64 * 1000
        },
        Some(i) => {
            let ip = s.substring_char(0, i);
            let fp = s.substring_char(i + 1, n);
            proof {
                assert(ip@ =~= s@.take(i as int));
                assert(fp@ =~= s@.skip(i + 1));
            }
            let ip_v = scan_digits(ip);
            let fp_len = fp.unicode_len();
            if !(all_digits_check(fp) && ip_v.is_some() && (ip.unicode_len() > 0 || fp_len > 0)) {
                return 0;
            }
            let whole: u32 = match ip_v {
                Some(v) => v,
                None => 0,
            };
            proof {
                if fp@.len() > 0 {
                    crate::text::lemma_digits_val_step(fp@, 0);
                    assert(fp@.take(0) =~= Seq::<char>::empty());
                }
                if fp@.len() > 1 {
                    crate::text::lemma_digits_val_step(fp@, 1);
                }
                if fp@.len() > 2 {
                    crate::text::lemma_digits_val_step(fp@, 2);
                }
                if fp@.len() == 1 {
                    assert(fp@.take(1) =~= fp@);
                }
                if fp@.len() == 2 {
                    assert(fp@.take(2) =~= fp@);
                }
            }
            let frac: u64 = if fp_len >= 3 {
                let fpp = fp.substring_char(0, 3);
                proof {
                    assert(fpp@ =~= fp@.take(3));
                }
                match scan_digits(fpp) {
                    Some(v) => v as u64,
                    None => 0,
                }
            } else if fp_len == 2 {
                match scan_digits(fp) {
                    Some(v) => v as u64 * 10,
                    None => 0,
                }
            } else if fp_len == 1 {
                match scan_digits(fp) {
                    Some(v) => v as u64 * 100,
                    None => 0,
                }
            } else {
                0
            };
            proof {
                assert(frac <= 999);
            }
            whole as u64 * 1000 + frac
        },
    }
}

/// Reads a bracketed `minutes:seconds` token as milliseconds; each
/// component degrades to zero on its own when malformed, and a token
/// without exactly one colon reads as zero entirely.
pub fn parse_time(ts: &str) -> (t: u64)
    ensures
        t as int == spec_parse_time(ts@),
{
    let core = trim_brackets(ts);
    let n = core.unicode_len();
    match find_char_in(core, ':') {
        None => 0,
        Some(i) => {
            let mins_str = core.substring_char(0, i);
            let secs_str = core.substring_char(i + 1, n);
            proof {
                assert(mins_str@ =~= core@.take(i as int));
                assert(secs_str@ =~= core@.skip(i + 1));
            }
            if find_char_in(secs_str, ':').is_some() {
                return 0;
            }
            let mins = num_or_zero_exec(mins_str);
            let secs_ms = parse_secs_ms(secs_str);
            mins as u64 * 60000 + secs_ms
        },
    }
}

/// Parses one physical line into its timed form.
pub fn parse_line(line: &str) -> (r: LyricLine)
    ensures
        r.time_ms as int == spec_line_time(line@),
        r.text@ == spec_line_text(line@),
{
    let n = line.unicode_len();
    let sep = find_sep_in(line);
    let time_str: &str = match sep {
        Some(i) => line.substring_char(0, i),
        None => line,
    };
    let text_str: &str = match sep {
        Some(i) => line.substring_char(i + 2, n),
        None => "",
    };
    proof {
        reveal_strlit("");
        match find_sep(line@) {
            Some(i) => {
                assert(time_str@ =~= time_part(line@));
                assert(text_str@ =~= text_part(line@));
            },
            None => {
                assert(text_str@ =~= text_part(line@));
            },
        }
    }
    let time_ms = parse_time(time_str);
    let trimmed = trim_spaces(text_str);
    let base: &str = if trimmed.unicode_len() == 0 {
        let placeholder = "\u{266a}";
        proof {
            reveal_strlit("\u{266a}");
        }
        placeholder
    } else {
        trimmed
    };
    proof {
        assert(base@ == normalized_text(text_part(line@)));
        assert(base@.len() >= 1);
    }
    let first = base.get_char(0);
    let upper = char_to_upper(first);
    let rest = base.substring_char(1, base.unicode_len());
    proof {
        assert(rest@ =~= base@.skip(1));
    }
    let text = upper.concat(rest);
    LyricLine { time_ms, text }
}

/// Parses raw lyrics text: one `LyricLine` per physical line, in input
/// order, with no merging, deduplication or chronological re-sorting.
pub fn parse_lyrics(lyrics: &str) -> (r: Vec<LyricLine>)
    ensures
        r@.len() == split_lines(lyrics@).len(),
        forall|k: int|
            0 <= k < r@.len() ==> r@[k].time_ms as int == spec_line_time(split_lines(lyrics@)[k])
                && r@[k].text@ == spec_line_text(split_lines(lyrics@)[k]),
{
    let n = lyrics.unicode_len();
    let mut out: Vec<LyricLine> = Vec::new();
    let mut start: usize = 0;
    proof {
        assert(lyrics@.skip(0) =~= lyrics@);
        assert(split_lines(lyrics@).skip(0) =~= split_lines(lyrics@));
    }
    while start < n
        invariant
            n == lyrics@.len(),
            start <= n,
            out@.len() <= split_lines(lyrics@).len(),
            split_lines(lyrics@.skip(start as int)) =~= split_lines(lyrics@).skip(
                out@.len() as int,
            ),
            forall|k: int|
                0 <= k < out@.len() ==> out@[k].time_ms as int == spec_line_time(
                    split_lines(lyrics@)[k],
                ) && out@[k].text@ == spec_line_text(split_lines(lyrics@)[k]),
        decreases n - start,
    {
        let rest = lyrics.substring_char(start, n);
        proof {
            assert(rest@ =~= lyrics@.skip(start as int));
        }
        let ghost total = split_lines(lyrics@);
        let ghost pos = out@.len() as int;
        let rest_len = rest.unicode_len();
        match find_char_in(rest, '\n') {
            Some(i) => {
                let raw = rest.substring_char(0, i);
                proof {
                    assert(raw@ =~= rest@.take(i as int));
                }
                let raw_len = raw.unicode_len();
                let line: &str = if raw_len > 0 && raw.get_char(raw_len - 1) == '\r' {
                    raw.substring_char(0, raw_len - 1)
                } else {
                    raw
                };
                proof {
                    if raw_len > 0 && raw@.last() == '\r' {
                        assert(line@ =~= raw@.drop_last());
                    }
                    assert(line@ == strip_tail_cr(rest@.take(i as int)));
                    let tail = split_lines(rest@.skip(i + 1));
                    assert(split_lines(rest@) == seq![line@] + tail);
                    assert(total.skip(pos) == seq![line@] + tail);
                    assert(total.skip(pos)[0] == line@);
                    assert(total[pos] == line@);
                    assert((seq![line@] + tail).skip(1) =~= tail);
                    assert(total.skip(pos).skip(1) =~= total.skip(pos + 1));
                    assert(tail =~= total.skip(pos + 1));
                    assert(rest@.skip(i + 1) =~= lyrics@.skip(start + i + 1));
                }
                let parsed = parse_line(line);
                out.push(parsed);
                start = start + i + 1;
            },
            None => {
                proof {
                    assert(rest@.len() > 0);
                    assert(split_lines(rest@) == seq![rest@]);
                    assert(total.skip(pos) == seq![rest@]);
                    assert(total.skip(pos)[0] == rest@);
                    assert(total[pos] == rest@);
                    assert(total.skip(pos).len() == 1);
                    assert(total.skip(pos + 1) =~= Seq::<Seq<char>>::empty());
                    assert(lyrics@.skip(n as int) =~= Seq::<char>::empty());
                    assert(split_lines(lyrics@.skip(n as int)) =~= Seq::<Seq<char>>::empty());
                }
                let parsed = parse_line(rest);
                out.push(parsed);
                start = n;
            },
        }
    }
    proof {
        assert(lyrics@.skip(start as int) =~= Seq::<char>::empty());
        assert(split_lines(Seq::<char>::empty()) =~= Seq::<Seq<char>>::empty());
        assert(split_lines(lyrics@).skip(out@.len() as int) =~= Seq::<Seq<char>>::empty());
    }
    out
}

/// Case normalization touches only the head of the text: every parsed
/// line's text is never empty before normalization, and it is exactly the
/// uppercase mapping of the normalized text's first character followed by
/// the untouched remainder.
pub proof fn lemma_text_normalization(l: Seq<char>)
    ensures
        normalized_text(text_part(l)).len() >= 1,
        spec_line_text(l) == upper_of(normalized_text(text_part(l))[0]) + normalized_text(
            text_part(l),
        ).skip(1),
        spec_line_text(l).skip(upper_of(normalized_text(text_part(l))[0]).len() as int)
            == normalized_text(text_part(l)).skip(1),
{
    let t = normalized_text(text_part(l));
    let u = upper_of(t[0]);
    assert((u + t.skip(1)).skip(u.len() as int) =~= t.skip(1));
}

/// A value rendered in decimal and left-padded with one zero below ten,
/// as the seconds and centisecond fields of an LRC timestamp are written.
pub open spec fn pad2(n: int) -> Seq<char> {
    if 0 <= n < 10 {
        seq!['0'] + crate::text::digits_seq(n)
    } else {
        crate::text::digits_seq(n)
    }
}

/// An LRC timestamp rendering of a time: unpadded-or-padded minutes, a
/// colon, two-digit seconds, a point, and two centisecond digits.
pub open spec fn spec_format_ts(ms: int) -> Seq<char> {
    pad2(ms / 60000) + seq![':'] + pad2((ms % 60000) / 1000) + seq!['.'] + pad2((ms % 1000) / 10)
}

proof fn lemma_digits_val_prepend_zero(t: Seq<char>)
    ensures
        digits_val(seq!['0'] + t) == digits_val(t),
    decreases t.len(),
{
    if t.len() == 0 {
        assert((seq!['0'] + t) =~= seq!['0']);
        assert((seq!['0']).drop_last() =~= Seq::<char>::empty());
        assert((seq!['0']).last() == '0');
        assert(digits_val(Seq::<char>::empty()) == 0);
        assert(digits_val(seq!['0']) == digits_val((seq!['0']).drop_last()) * 10 + crate::text::digit_of('0'));
        assert(crate::text::digit_of('0') == 0);
    } else {
        assert((seq!['0'] + t).drop_last() =~= seq!['0'] + t.drop_last());
        assert((seq!['0'] + t).last() == t.last());
        lemma_digits_val_prepend_zero(t.drop_last());
        assert(digits_val(seq!['0'] + t) == digits_val((seq!['0'] + t).drop_last()) * 10
            + crate::text::digit_of((seq!['0'] + t).last()));
        assert(digits_val(t) == digits_val(t.drop_last()) * 10 + crate::text::digit_of(t.last()));
    }
}

proof fn lemma_pad2(n: int)
    requires
        n >= 0,
    ensures
        all_digits(pad2(n)),
        pad2(n).len() >= 1,
        digits_val(pad2(n)) == n,
        n <= 99 ==> pad2(n).len() == 2,
{
    crate::text::lemma_digits_seq_val(n);
    if n < 10 {
        lemma_digits_val_prepend_zero(crate::text::digits_seq(n));
        assert forall|j: int| 0 <= j < pad2(n).len() implies is_digit_char(pad2(n)[j]) by {
            if j == 0 {
                assert(pad2(n)[0] == '0');
            } else {
                assert(pad2(n)[j] == crate::text::digits_seq(n)[j - 1]);
            }
        }
    } else if n <= 99 {
        assert(crate::text::digits_seq(n) == crate::text::digits_seq(n / 10).push(
            crate::text::digit_char(n % 10),
        ));
        assert(crate::text::digits_seq(n / 10).len() == 1);
    }
}

/// Renders a value padded to at least two digits.
fn pad2_exec(n: u64) -> (r: String)
    ensures
        r@ == pad2(n as int),
{
    proof {
        reveal_strlit("0");
    }
    if n < 10 {
        let mut s = String::from_str("0");
        let d = crate::text::u64_to_string(n);
        s.append(d.as_str());
        proof {
            assert(s@ =~= seq!['0'] + crate::text::digits_seq(n as int));
        }
        s
    } else {
        crate::text::u64_to_string(n)
    }
}

/// Renders a millisecond time back into the LRC `minutes:seconds.frac`
/// shape with two-digit seconds and centiseconds.
pub fn format_timestamp(ms: u64) -> (r: String)
    ensures
        r@ == spec_format_ts(ms as int),
{
    proof {
        reveal_strlit(":");
        reveal_strlit(".");
    }
    let mut s = pad2_exec(ms / 60000);
    s.append(":");
    let secs = pad2_exec((ms % 60000) / 1000);
    s.append(secs.as_str());
    s.append(".");
    let centis = pad2_exec((ms % 1000) / 10);
    s.append(centis.as_str());
    proof {
        assert(s@ =~= spec_format_ts(ms as int));
    }
    s
}

/// Round trip of the numeric conversion: rendering a time and parsing the
/// rendering recovers the time up to the rendering's centisecond
/// precision. The bound keeps the minutes inside the parser's component
/// limit.
pub proof fn lemma_format_parse_round_trip(ms: u64)
    requires
        ms as int / 60000 <= u32::MAX,
    ensures
        spec_parse_time(spec_format_ts(ms as int)) == (ms as int / 10) * 10,
{
    let m = ms as int;
    let mm = m / 60000;
    let ss = (m % 60000) / 1000;
    let cc = (m % 1000) / 10;
    let a = pad2(mm);
    let b = pad2(ss);
    let c = pad2(cc);
    let s = spec_format_ts(m);
    lemma_pad2(mm);
    lemma_pad2(ss);
    lemma_pad2(cc);
    assert(ss <= 59);
    assert(cc <= 99);
    assert(b.len() == 2);
    assert(c.len() == 2);
    assert(s == a + seq![':'] + b + seq!['.'] + c);
    let la = a.len() as int;
    // No brackets anywhere in the rendering, so bracket trimming is the
    // identity on it.
    assert forall|j: int| 0 <= j < s.len() implies !crate::text::is_bracket(s[j]) by {
        if j < la {
            assert(s[j] == a[j]);
            assert(is_digit_char(s[j]));
        } else if j == la {
            assert(s[j] == ':');
        } else if j < la + 1 + 2 {
            assert(s[j] == b[j - la - 1]);
            assert(is_digit_char(s[j]));
        } else if j == la + 3 {
            assert(s[j] == '.');
        } else {
            assert(s[j] == c[j - la - 4]);
            assert(is_digit_char(s[j]));
        }
    }
    crate::text::lemma_trim_range(s, |ch: char| crate::text::is_bracket(ch), 0, s.len() as int);
    assert(s.subrange(0, s.len() as int) =~= s);
    assert(trimmed_brackets(s) == s);
    // The first colon stands right after the minutes digits.
    assert forall|j: int| 0 <= j < la implies s[j] != ':' by {
        assert(s[j] == a[j]);
        assert(is_digit_char(s[j]));
    }
    assert(s[la] == ':');
    crate::text::lemma_find_char_at(s, ':', la);
    let secs_s = s.skip(la + 1);
    assert(secs_s =~= b + seq!['.'] + c);
    assert(s.take(la) =~= a);
    // The seconds field holds no further colon.
    assert forall|j: int| 0 <= j < secs_s.len() implies secs_s[j] != ':' by {
        if j < 2 {
            assert(secs_s[j] == b[j]);
            assert(is_digit_char(secs_s[j]));
        } else if j == 2 {
            assert(secs_s[j] == '.');
        } else {
            assert(secs_s[j] == c[j - 3]);
            assert(is_digit_char(secs_s[j]));
        }
    }
    crate::text::lemma_find_char_none(secs_s, ':');
    // Minutes read back exactly.
    assert(num_or_zero(s.take(la)) == mm);
    // The decimal point stands right after the seconds digits.
    assert(secs_s[2] == '.');
    assert forall|j: int| 0 <= j < 2 implies secs_s[j] != '.' by {
        assert(secs_s[j] == b[j]);
        assert(is_digit_char(secs_s[j]));
    }
    crate::text::lemma_find_char_at(secs_s, '.', 2);
    let ip = secs_s.take(2);
    let fp = secs_s.skip(3);
    assert(ip =~= b);
    assert(fp =~= c);
    assert(digits_val(ip) == ss);
    assert(digits_val(fp) == cc);
    assert(frac_ms(fp) == cc * 10);
    assert(spec_parse_secs_ms(secs_s) == ss * 1000 + cc * 10);
    assert(spec_parse_time(s) == mm * 60000 + ss * 1000 + cc * 10);
    // Reassemble: the rendered fields cover the time down to its last
    // centisecond.
    vstd::arithmetic::div_mod::lemma_mod_mod(m, 1000, 60);
    assert(1000 * 60 == 60000);
    assert((m % 60000) % 1000 == m % 1000);
    assert(m % 60000 == ss * 1000 + m % 1000);
    assert(m == mm * 60000 + m % 60000);
    assert(m % 1000 == cc * 10 + m % 10);
    assert(m == mm * 60000 + ss * 1000 + cc * 10 + m % 10);
    assert(m == (m / 10) * 10 + m % 10);
}

} // verus!
