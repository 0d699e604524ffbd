use vstd::prelude::*;
use icu_segmenter::options::WordBreakInvariantOptions;
use icu_segmenter::WordSegmenter;
use unicode_normalization::UnicodeNormalization;

verus! {

/// The Unicode Normalization Form KC of a string, as the
/// `unicode-normalization` crate computes it.
pub uninterp spec fn spec_nfkc(s: Seq<char>) -> Seq<char>;

/// The lowercase form of a string, as std's `str::to_lowercase` computes it.
pub uninterp spec fn spec_to_lowercase(s: Seq<char>) -> Seq<char>;

/// Whether a character has the Unicode `White_Space` property, which std's
/// `char::is_whitespace` tests: U+0009..=U+000D, U+0020, U+0085, U+00A0,
/// U+1680, U+2000..=U+200A, U+2028, U+2029, U+202F, U+205F and U+3000.
pub open spec fn spec_is_whitespace(c: char) -> bool {
    ('\u{9}' <= c <= '\u{d}') || c == ' ' || c == '\u{85}' || c == '\u{a0}' || c == '\u{1680}'
        || ('\u{2000}' <= c <= '\u{200a}') || c == '\u{2028}' || c == '\u{2029}' || c
        == '\u{202f}' || c == '\u{205f}' || c == '\u{3000}'
}

/// Whether a character has the Unicode `Uppercase` property, as std's
/// `char::is_uppercase` says.
pub uninterp spec fn spec_is_uppercase(c: char) -> bool;

/// Whether a character has the Unicode `Lowercase` property, as std's
/// `char::is_lowercase` says.
pub uninterp spec fn spec_is_lowercase(c: char) -> bool;

/// The word-break positions (UTF-8 byte offsets) that ICU4X's automatic
/// word segmenter, built with the default invariant options and its compiled
/// data, finds in a string.
pub uninterp spec fn spec_word_breaks(s: Seq<char>) -> Seq<usize>;

/// Whether every character of a string is ASCII.
pub open spec fn is_ascii_text(s: Seq<char>) -> bool {
    forall|i: int| 0 <= i < s.len() ==> (#[trigger] s[i] as u32) < 128
}

/// The lowercase form of an ASCII character: `A`..=`Z` become `a`..=`z`,
/// every other character stays.
pub open spec fn ascii_lower_char(c: char) -> char {
    if 'A' <= c <= 'Z' {
        ((c as u32) + 32) as char
    } else {
        c
    }
}

/// The string with `ascii_lower_char` applied to each character.
pub open spec fn ascii_lower(s: Seq<char>) -> Seq<char> {
    s.map_values(|c: char| ascii_lower_char(c))
}

/// `unicode_normalization::UnicodeNormalization::nfkc`, collected into a
/// `String`. The contract names the result (the string's NFKC form as this
/// crate computes it) and states one fact of it: an ASCII string is its own
/// NFKC form (the crate's decomposition emits every 7-bit ASCII character
/// unchanged, and no two ASCII characters compose).
#[verifier::external_body]
pub(crate) fn nfkc(s: &str) -> (r: String)
    ensures
        r@ == spec_nfkc(s@),
        is_ascii_text(s@) ==> r@ == s@,
{
    s.nfkc().collect()
}

/// std's `str::to_lowercase`. The contract names the result (the lowercase
/// form by Unicode's full mapping) and states one fact of it: on ASCII text
/// the mapping lowercases `A`..=`Z` and keeps every other character.
#[verifier::external_body]
pub(crate) fn to_lowercase(s: &str) -> (r: String)
    ensures
        r@ == spec_to_lowercase(s@),
        is_ascii_text(s@) ==> r@ == ascii_lower(s@),
{
    s.to_lowercase()
}

/// Whether a character has the Unicode `White_Space` property.
pub fn is_whitespace(c: char) -> (r: bool)
    ensures
        r == spec_is_whitespace(c),
{
    ('\u{9}' <= c && c <= '\u{d}') || c == ' ' || c == '\u{85}' || c == '\u{a0}' || c
        == '\u{1680}' || ('\u{2000}' <= c && c <= '\u{200a}') || c == '\u{2028}' || c
        == '\u{2029}' || c == '\u{202f}' || c == '\u{205f}' || c == '\u{3000}'
}

/// std's `char::is_uppercase`; the contract names the property it tests.
#[verifier::external_body]
pub(crate) fn is_uppercase(c: char) -> (r: bool)
    ensures
        r == spec_is_uppercase(c),
{
    c.is_uppercase()
}

/// std's `char::is_lowercase`; the contract names the property it tests.
#[verifier::external_body]
pub(crate) fn is_lowercase(c: char) -> (r: bool)
    ensures
        r == spec_is_lowercase(c),
{
    c.is_lowercase()
}

/// ICU4X's `WordSegmenter::new_auto(WordBreakInvariantOptions::default())`
/// and `segment_str`, collected. The contract claims only that the positions
/// are the ones the segmenter finds in the string; nothing is claimed of their
/// order or of where they fall.
#[verifier::external_body]
pub(crate) fn word_breaks(s: &str) -> (r: Vec<usize>)
    ensures
        r@ == spec_word_breaks(s@),
{
    WordSegmenter::new_auto(WordBreakInvariantOptions::default()).segment_str(s).collect()
}

/// Whether a character is an ASCII decimal digit (`char::is_ascii_digit`).
pub open spec fn spec_is_ascii_digit(c: char) -> bool {
    '0' <= c <= '9'
}

/// Whether a character is an ASCII decimal digit, as std's
/// `char::is_ascii_digit` documents it: `'0'..='9'`.
pub fn is_ascii_digit(c: char) -> (r: bool)
    ensures
        r == spec_is_ascii_digit(c),
{
    '0' <= c && c <= '9'
}

/// Number of bytes that UTF-8 takes for a character, as `char::len_utf8`
/// documents it.
pub open spec fn spec_utf8_width(c: char) -> nat {
    if (c as u32) < 0x80 {
        1
    } else if (c as u32) < 0x800 {
        2
    } else if (c as u32) < 0x10000 {
        3
    } else {
        4
    }
}

/// Number of bytes that UTF-8 takes for a character.
pub fn utf8_width(c: char) -> (r: usize)
    ensures
        r == spec_utf8_width(c),
        1 <= r <= 4,
{
    let v = c as u32;
    if v < 0x80 {
        1
    } else if v < 0x800 {
        2
    } else if v < 0x10000 {
        3
    } else {
        4
    }
}

} // verus!
