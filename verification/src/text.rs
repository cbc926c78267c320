//! Characters and strings: the character classes the segmentation rests on,
//! and the conversions between strings and character vectors.

use vstd::prelude::*;
use vstd::string::StringSliceAdditionalSpecFns;
use vstd::utf8::{
    decode_utf8, encode_utf8_decode_utf8, encode_utf8_valid_utf8, is_ascii_chars,
    is_char_boundary, is_char_boundary_iff_not_is_continuation_byte,
    is_char_boundary_start_end_of_seq, length_of_first_scalar, pop_first_scalar, valid_utf8,
    valid_utf8_split,
};

verus! {

/// Whether `c` is one of the 128 ASCII characters.
pub open spec fn is_ascii_char(c: char) -> bool {
    c <= '\u{7f}'
}

/// Whether `c` is Unicode whitespace: one of the 25 characters with the
/// property White_Space.
pub open spec fn is_whitespace_char(c: char) -> bool {
    ||| '\u{9}' <= c && c <= '\u{d}'
    ||| c == ' '
    ||| c == '\u{85}'
    ||| c == '\u{a0}'
    ||| c == '\u{1680}'
    ||| '\u{2000}' <= c && c <= '\u{200a}'
    ||| c == '\u{2028}'
    ||| c == '\u{2029}'
    ||| c == '\u{202f}'
    ||| c == '\u{205f}'
    ||| c == '\u{3000}'
}

/// Whether a character beyond ASCII has the Unicode property Uppercase.
pub uninterp spec fn is_uppercase_beyond_ascii(c: char) -> bool;

/// Whether a character beyond ASCII has the Unicode property Lowercase.
pub uninterp spec fn is_lowercase_beyond_ascii(c: char) -> bool;

/// The lowercase form, under the Unicode case mappings, of a text that is
/// not all ASCII.
pub uninterp spec fn lowercase_beyond_ascii(text: Seq<char>) -> Seq<char>;

/// Whether `c` has the Unicode property Uppercase. Among the ASCII
/// characters the letters `A` to `Z` have it.
pub open spec fn is_uppercase_char(c: char) -> bool {
    if is_ascii_char(c) {
        'A' <= c && c <= 'Z'
    } else {
        is_uppercase_beyond_ascii(c)
    }
}

/// Whether `c` has the Unicode property Lowercase. Among the ASCII
/// characters the letters `a` to `z` have it.
pub open spec fn is_lowercase_char(c: char) -> bool {
    if is_ascii_char(c) {
        'a' <= c && c <= 'z'
    } else {
        is_lowercase_beyond_ascii(c)
    }
}

/// The lowercase form of an ASCII character: the letters `A` to `Z` become
/// `a` to `z`, every other character stays.
pub open spec fn ascii_lowercase_char(c: char) -> char {
    if 'A' <= c && c <= 'Z' {
        ((c as u32) + 32) as char
    } else {
        c
    }
}

/// The lowercase form of `text` under the Unicode case mappings. In a text
/// that is all ASCII every character is put in lowercase by itself.
pub open spec fn lowercase_of(text: Seq<char>) -> Seq<char> {
    if is_ascii_chars(text) {
        text.map_values(|c: char| ascii_lowercase_char(c))
    } else {
        lowercase_beyond_ascii(text)
    }
}

/// `char::is_uppercase` of the standard library: on ASCII it holds of the
/// letters `A` to `Z` alone; beyond ASCII its answer depends on the
/// character alone, and `is_uppercase_beyond_ascii` is the name for it.
pub assume_specification[ char::is_uppercase ](c: char) -> (r: bool)
    ensures
        is_ascii_char(c) ==> r == ('A' <= c && c <= 'Z'),
        !is_ascii_char(c) ==> r == is_uppercase_beyond_ascii(c),
;

/// `char::is_lowercase` of the standard library: on ASCII it holds of the
/// letters `a` to `z` alone; beyond ASCII its answer depends on the
/// character alone, and `is_lowercase_beyond_ascii` is the name for it.
pub assume_specification[ char::is_lowercase ](c: char) -> (r: bool)
    ensures
        is_ascii_char(c) ==> r == ('a' <= c && c <= 'z'),
        !is_ascii_char(c) ==> r == is_lowercase_beyond_ascii(c),
;

/// `str::to_lowercase` of the standard library: of a text that is all ASCII
/// it returns the ASCII lowercase form; of any other text the returned
/// string depends on the characters alone, and `lowercase_beyond_ascii` is
/// the name for it.
pub assume_specification[ str::to_lowercase ](text: &str) -> (lowered: String)
    ensures
        is_ascii_chars(text@) ==> lowered@ == text@.map_values(|c: char| ascii_lowercase_char(c)),
        !is_ascii_chars(text@) ==> lowered@ == lowercase_beyond_ascii(text@),
;

/// `String::push` of the standard library appends the one character to the
/// end of the string.
pub assume_specification[ String::push ](text: &mut String, c: char)
    ensures
        final(text)@ == old(text)@.push(c),
;

/// `==` on string slices (`PartialEq::eq` for `str`) holds exactly when the
/// two hold the same characters.
pub assume_specification[ <str as PartialEq>::eq ](a: &str, b: &str) -> (r: bool)
    ensures
        r == (a@ == b@),
;

/// Whether `c` is one of the ASCII digits `0` to `9`.
pub open spec fn is_digit_char(c: char) -> bool {
    '0' <= c && c <= '9'
}

/// Decides whether `c` is an ASCII digit.
pub fn is_ascii_digit(c: char) -> (r: bool)
    ensures
        r == is_digit_char(c),
{
    '0' <= c && c <= '9'
}

/// Decides whether `c` is Unicode whitespace.
pub fn is_whitespace(c: char) -> (r: bool)
    ensures
        r == is_whitespace_char(c),
{
    ('\u{9}' <= c && c <= '\u{d}') || c == ' ' || c == '\u{85}' || c == '\u{a0}' || c == '\u{1680}'
        || ('\u{2000}' <= c && c <= '\u{200a}') || c == '\u{2028}' || c == '\u{2029}' || c
        == '\u{202f}' || c == '\u{205f}' || c == '\u{3000}'
}

/// The characters of `text`, in order.
pub fn chars_of(text: &str) -> (chars: Vec<char>)
    ensures
        chars@ == text@,
{
    let mut chars: Vec<char> = Vec::new();
    for c in it: text.chars()
        invariant
            it.seq() == text@,
            chars@ == it.seq().take(it.index()),
    {
        chars.push(c);
    }
    chars
}

/// The string made of `chars[start..end]`.
pub fn string_from(chars: &Vec<char>, start: usize, end: usize) -> (text: String)
    requires
        start <= end <= chars.len(),
    ensures
        text@ == chars@.subrange(start as int, end as int),
{
    let mut text = String::new();
    let mut i: usize = start;
    while i < end
        invariant
            start <= i <= end <= chars.len(),
            text@ == chars@.subrange(start as int, i as int),
        decreases end - i,
    {
        text.push(chars[i]);
        i += 1;
    }
    text
}

/// Whether the bytes `start..end` of the UTF-8 text `bytes` are text of
/// their own: the range lies inside `bytes`, and neither end cuts a
/// character in two.
pub open spec fn is_text_span(bytes: Seq<u8>, start: int, end: int) -> bool {
    &&& 0 <= start <= end <= bytes.len()
    &&& is_char_boundary(bytes, start)
    &&& is_char_boundary(bytes, end)
}

/// The characters that the bytes `start..end` of `bytes` encode.
pub open spec fn span_text(bytes: Seq<u8>, start: int, end: int) -> Seq<char> {
    decode_utf8(bytes.subrange(start, end))
}

/// A character boundary lies inside the text or at its end.
pub proof fn lemma_char_boundary_in_range(bytes: Seq<u8>, index: int)
    requires
        valid_utf8(bytes),
        is_char_boundary(bytes, index),
    ensures
        0 <= index <= bytes.len(),
    decreases bytes.len(),
{
    if index != 0 {
        lemma_char_boundary_in_range(
            pop_first_scalar(bytes),
            index - length_of_first_scalar(bytes),
        );
    }
}

/// The part of `source` that its bytes `start..end` hold, or `None` where
/// that range is no text of its own.
pub fn slice_text<'a>(source: &'a str, start: usize, end: usize) -> (text: Option<&'a str>)
    ensures
        text is Some <==> is_text_span(source.spec_bytes(), start as int, end as int),
        text matches Some(t) ==> t@ == span_text(source.spec_bytes(), start as int, end as int),
{
    let ghost bytes = source.spec_bytes();
    proof {
        encode_utf8_valid_utf8(source@);
        if is_char_boundary(bytes, end as int) {
            lemma_char_boundary_in_range(bytes, end as int);
        }
    }
    if start > end || !source.is_char_boundary(start) || !source.is_char_boundary(end) {
        return None;
    }
    proof {
        valid_utf8_split(bytes, end as int);
        let head_bytes = bytes.subrange(0, end as int);
        if start < end {
            is_char_boundary_iff_not_is_continuation_byte(bytes, start as int);
            is_char_boundary_iff_not_is_continuation_byte(head_bytes, start as int);
        } else {
            is_char_boundary_start_end_of_seq(head_bytes);
        }
    }
    let (head, _) = source.split_at(end);
    let (_, text) = head.split_at(start);
    proof {
        assert(text.spec_bytes() =~= bytes.subrange(start as int, end as int));
        encode_utf8_decode_utf8(text@);
    }
    Some(text)
}

} // verus!
