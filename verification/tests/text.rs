use code_typos::parsing::letter_case::LetterCase;
use code_typos::parsing::separators::Separator;
use code_typos::text::{chars_of, is_ascii_digit, is_whitespace, slice_text, string_from};

#[test]
fn is_ascii_digit_knows_the_ten_digits() {
    for c in '0'..='9' {
        assert!(is_ascii_digit(c), "{c:?}");
    }
    for c in ['/', ':', 'a', 'Z', ' ', '٣', '²', '\0'] {
        assert!(!is_ascii_digit(c), "{c:?}");
    }
}

#[test]
fn is_ascii_digit_agrees_with_std() {
    for code in 0..0x3000u32 {
        if let Some(c) = char::from_u32(code) {
            assert_eq!(is_ascii_digit(c), c.is_ascii_digit(), "{c:?}");
        }
    }
}

#[test]
fn is_whitespace_knows_the_unicode_spaces() {
    for c in [' ', '\t', '\n', '\u{b}', '\u{c}', '\r', '\u{85}', '\u{a0}', '\u{1680}', '\u{2003}'] {
        assert!(is_whitespace(c), "{c:?}");
    }
    for c in ['\u{2028}', '\u{2029}', '\u{202f}', '\u{205f}', '\u{3000}'] {
        assert!(is_whitespace(c), "{c:?}");
    }
    for c in ['a', '_', '0', '\0', '\u{8}', '\u{e}', '\u{1f}', '\u{200b}', '\u{180e}', '\u{feff}'] {
        assert!(!is_whitespace(c), "{c:?}");
    }
}

#[test]
fn is_whitespace_agrees_with_std_on_every_character() {
    let mut spaces = 0;
    for code in 0..=0x10ffffu32 {
        if let Some(c) = char::from_u32(code) {
            assert_eq!(is_whitespace(c), c.is_whitespace(), "{c:?}");
            if is_whitespace(c) {
                spaces += 1;
            }
        }
    }
    assert_eq!(spaces, 25);
}

#[test]
fn letter_cases_on_ascii_are_the_ascii_letters() {
    for code in 0u8..128 {
        let c = char::from(code);
        assert_eq!(LetterCase::Upper.test(c), c.is_ascii_uppercase(), "{c:?}");
        assert_eq!(LetterCase::Lower.test(c), c.is_ascii_lowercase(), "{c:?}");
    }
}

#[test]
fn separator_classes() {
    assert!(Separator::Whitespace.is_match(' '));
    assert!(Separator::Whitespace.is_match('\n'));
    assert!(Separator::Whitespace.is_match('\u{a0}'));
    assert!(!Separator::Whitespace.is_match('_'));
    assert!(Separator::Digit.is_match('5'));
    assert!(!Separator::Digit.is_match('a'));
    assert!(Separator::Char('_').is_match('_'));
    assert!(!Separator::Char('_').is_match('-'));
    assert!(Separator::Char('\n').is_match('\n'));
    assert!(!Separator::Char('\n').is_match('\r'));
}

#[test]
fn letter_cases() {
    assert!(LetterCase::Upper.test('A'));
    assert!(LetterCase::Upper.test('É'));
    assert!(!LetterCase::Upper.test('a'));
    assert!(!LetterCase::Upper.test('1'));
    assert!(LetterCase::Lower.test('a'));
    assert!(LetterCase::Lower.test('ß'));
    assert!(!LetterCase::Lower.test('A'));
    assert!(!LetterCase::Lower.test('_'));
    assert!(!LetterCase::Lower.test('語'));
    assert!(!LetterCase::Upper.test('語'));
}

#[test]
fn chars_of_gives_the_characters_in_order() {
    assert_eq!(chars_of("héllo"), ['h', 'é', 'l', 'l', 'o']);
    assert_eq!(chars_of(""), Vec::<char>::new());
    assert_eq!(chars_of("a\u{307}"), ['a', '\u{307}']);
}

#[test]
fn string_from_takes_a_range_of_characters() {
    let chars = chars_of("héllo wörld");
    assert_eq!(string_from(&chars, 0, 5), "héllo");
    assert_eq!(string_from(&chars, 6, 11), "wörld");
    assert_eq!(string_from(&chars, 3, 3), "");
    assert_eq!(string_from(&chars, 0, 11), "héllo wörld");
    assert_eq!(string_from(&Vec::new(), 0, 0), "");
}

#[test]
fn slice_text_takes_a_range_of_bytes() {
    let source = "let héllo = 1;";
    assert_eq!(slice_text(source, 0, 3), Some("let"));
    assert_eq!(slice_text(source, 4, 10), Some("héllo"));
    assert_eq!(slice_text(source, 0, source.len()), Some(source));
    assert_eq!(slice_text(source, 7, 7), Some(""));
    assert_eq!(slice_text(source, source.len(), source.len()), Some(""));
    assert_eq!(slice_text("", 0, 0), Some(""));
}

#[test]
fn slice_text_refuses_a_range_that_is_no_text() {
    let source = "let héllo = 1;";
    // Byte 6 lies inside the two bytes of `é`.
    assert_eq!(slice_text(source, 4, 6), None);
    assert_eq!(slice_text(source, 6, 10), None);
    assert_eq!(slice_text(source, 6, 6), None);
    // The range is reversed, or reaches outside the text.
    assert_eq!(slice_text(source, 3, 0), None);
    assert_eq!(slice_text(source, 0, source.len() + 1), None);
    assert_eq!(slice_text(source, source.len() + 1, source.len() + 1), None);
    assert_eq!(slice_text("", 0, 1), None);
    assert_eq!(slice_text(source, usize::MAX, usize::MAX), None);
}

#[test]
fn slice_text_agrees_with_checked_slicing() {
    let source = "aé語😀b";
    for start in 0..=source.len() + 1 {
        for end in 0..=source.len() + 1 {
            let expected = if start <= end { source.get(start..end) } else { None };
            assert_eq!(slice_text(source, start, end), expected, "{start}..{end}");
        }
    }
}

#[test]
fn letter_cases_follow_the_unicode_properties() {
    // Uppercase and Lowercase reach beyond the letters: the Roman numeral
    // and the circled letter are uppercase, the ordinal indicator is
    // lowercase.
    assert!(LetterCase::Upper.test('\u{2160}'));
    assert!(LetterCase::Upper.test('\u{24b6}'));
    assert!(LetterCase::Lower.test('\u{aa}'));
    assert!(LetterCase::Lower.test('\u{2170}'));
    // Titlecase letters and letters without case are neither.
    for c in ['\u{1c5}', 'م', 'ש', '한', '語'] {
        assert!(!LetterCase::Upper.test(c), "{c:?}");
        assert!(!LetterCase::Lower.test(c), "{c:?}");
    }
}
