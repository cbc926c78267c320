use code_typos::parsing::separators::{split_terminator, Separator};
use code_typos::parsing::word_separator::{
    extract_words, flat_map, keep_long, split_camel_case, split_on_numbers, split_snake_case,
    split_whitespace, to_lowercase_all, Stage,
};
use fancy_regex::Regex;
use unicode_segmentation::UnicodeSegmentation;

fn strings(words: &[&str]) -> Vec<String> {
    words.iter().map(|word| word.to_string()).collect()
}

/// Every text over `alphabet` of at most `max_len` characters.
fn texts_over(alphabet: &[char], max_len: usize) -> Vec<String> {
    let mut all = vec![String::new()];
    let mut last = vec![String::new()];
    for _ in 0..max_len {
        let mut next = Vec::new();
        for text in &last {
            for c in alphabet {
                let mut longer = text.clone();
                longer.push(*c);
                next.push(longer);
            }
        }
        all.extend(next.iter().cloned());
        last = next;
    }
    all
}

fn case_pattern() -> Regex {
    Regex::new(r"(\p{Lu}+(?=\p{Lu}\p{Ll})|\p{Lu}?\p{Ll}+)").unwrap()
}

fn pattern_matches(pattern: &Regex, text: &str) -> Vec<String> {
    pattern.find_iter(text).filter_map(|found| found.ok()).map(|found| found.as_str().to_string()).collect()
}

#[test]
fn split_terminator_keeps_inner_empty_pieces() {
    assert_eq!(split_terminator("a12b", Separator::Digit), ["a", "", "b"]);
    assert_eq!(split_terminator("a1", Separator::Digit), ["a"]);
    assert_eq!(split_terminator("1a", Separator::Digit), ["", "a"]);
    assert_eq!(split_terminator("1", Separator::Digit), [""]);
    assert_eq!(split_terminator("", Separator::Digit), Vec::<String>::new());
    assert_eq!(split_terminator("abc", Separator::Digit), ["abc"]);
}

#[test]
fn split_terminator_agrees_with_std_on_digits() {
    for text in texts_over(&['a', 'b', '0', '7', '_'], 6) {
        let expected: Vec<String> =
            text.split_terminator(|c: char| c.is_ascii_digit()).map(str::to_string).collect();
        assert_eq!(split_terminator(&text, Separator::Digit), expected, "on {text:?}");
    }
}

#[test]
fn split_on_numbers_takes_digits_in_a_row_as_one_separator() {
    assert_eq!(split_on_numbers("a12b"), ["a", "b"]);
    assert_eq!(split_on_numbers("hello2world"), ["hello", "world"]);
    assert_eq!(split_on_numbers("2024-01-02"), ["-", "-"]);
    assert_eq!(split_on_numbers("1a"), ["a"]);
    assert_eq!(split_on_numbers("a1"), ["a"]);
    assert_eq!(split_on_numbers("123"), Vec::<String>::new());
    assert_eq!(split_on_numbers(""), Vec::<String>::new());
    assert_eq!(split_on_numbers("abc"), ["abc"]);
}

#[test]
fn split_on_numbers_gives_the_runs_between_digits() {
    for text in texts_over(&['a', 'b', '0', '7', '_'], 6) {
        let expected: Vec<String> = text
            .split(|c: char| c.is_ascii_digit())
            .filter(|piece| !piece.is_empty())
            .map(str::to_string)
            .collect();
        assert_eq!(split_on_numbers(&text), expected, "on {text:?}");
    }
}

#[test]
fn split_terminator_agrees_with_std_on_underscores() {
    for text in texts_over(&['a', 'B', '1', '_'], 6) {
        let expected: Vec<String> = text.split_terminator("_").map(str::to_string).collect();
        assert_eq!(split_snake_case(&text), expected, "on {text:?}");
        assert_eq!(split_terminator(&text, Separator::Char('_')), expected, "on {text:?}");
    }
}

#[test]
fn split_on_numbers_sees_only_ascii_digits() {
    assert_eq!(split_on_numbers("a٣b"), ["a٣b"]);
    assert_eq!(split_on_numbers("a/b:c"), ["a/b:c"]);
    assert_eq!(split_on_numbers("x0y9z"), ["x", "y", "z"]);
}

#[test]
fn split_whitespace_agrees_with_std() {
    for text in texts_over(&['a', 'b', ' ', '\t', '\n', '\u{a0}'], 6) {
        let expected: Vec<String> = text.split_whitespace().map(str::to_string).collect();
        assert_eq!(split_whitespace(&text), expected, "on {text:?}");
    }
}

#[test]
fn split_whitespace_knows_unicode_spaces() {
    assert_eq!(split_whitespace("one\u{2003}two\u{3000}three"), ["one", "two", "three"]);
    assert_eq!(split_whitespace("  "), Vec::<String>::new());
    assert_eq!(split_whitespace(""), Vec::<String>::new());
}

#[test]
fn word_boundary_stage_drops_punctuation() {
    assert_eq!(
        Stage::WordBoundaries.split("The quick (\"brown\") fox can't jump 32.3 feet, right?"),
        ["The", "quick", "brown", "fox", "can't", "jump", "32.3", "feet", "right"]
    );
    assert_eq!(Stage::WordBoundaries.split("parseJson(text:"), ["parseJson", "text"]);
    assert_eq!(Stage::WordBoundaries.split("..."), Vec::<String>::new());
    assert_eq!(Stage::WordBoundaries.split(""), Vec::<String>::new());
}

#[test]
fn word_boundary_stage_agrees_with_unicode_words() {
    for text in texts_over(&['a', 'B', '.', '\'', '-', 'é', '語'], 5) {
        let expected: Vec<String> = text.unicode_words().map(str::to_string).collect();
        assert_eq!(Stage::WordBoundaries.split(&text), expected, "on {text:?}");
    }
}

#[test]
fn word_boundary_stage_leaves_an_ascii_word_whole() {
    for text in texts_over(&['a', 'z', 'A', 'Z', '0', '9', '_'], 5) {
        if text.chars().any(|c| c.is_ascii_alphanumeric()) {
            assert_eq!(Stage::WordBoundaries.split(&text), [text.clone()], "on {text:?}");
        }
    }
    let letters: String = ('a'..='z').chain('A'..='Z').chain('0'..='9').collect();
    assert_eq!(Stage::WordBoundaries.split(&letters), [letters.clone()]);
}

#[test]
fn split_camel_case_handles_acronyms() {
    assert_eq!(split_camel_case("XMLParser"), ["XML", "Parser"]);
    assert_eq!(split_camel_case("parseXMLFile"), ["parse", "XML", "File"]);
    assert_eq!(split_camel_case("PascalCase"), ["Pascal", "Case"]);
    assert_eq!(split_camel_case("camelCaseTest"), ["camel", "Case", "Test"]);
    assert_eq!(split_camel_case("lower"), ["lower"]);
    assert_eq!(split_camel_case("ABc"), ["A", "Bc"]);
    assert_eq!(split_camel_case("AABc"), ["AA", "Bc"]);
}

#[test]
fn split_camel_case_keeps_what_is_no_cased_letter() {
    assert_eq!(split_camel_case("PascalCase123"), ["Pascal", "Case123"]);
    assert_eq!(split_camel_case("123abc"), ["123abc"]);
    assert_eq!(split_camel_case("a-b"), ["a-b"]);
    assert_eq!(split_camel_case("e.g"), ["e.g"]);
    assert_eq!(split_camel_case("can'tStop"), ["can't", "Stop"]);
    assert_eq!(split_camel_case("abc日本語def"), ["abc日本語def"]);
    assert_eq!(split_camel_case("مرحبا"), ["مرحبا"]);
    assert_eq!(split_camel_case("שלום"), ["שלום"]);
    assert_eq!(split_camel_case("안녕하세요"), ["안녕하세요"]);
    assert_eq!(split_camel_case("-"), ["-"]);
    assert_eq!(split_camel_case(""), Vec::<String>::new());
}

#[test]
fn split_camel_case_cuts_before_every_other_uppercase_letter() {
    assert_eq!(split_camel_case("A"), ["A"]);
    assert_eq!(split_camel_case("Ab"), ["Ab"]);
    assert_eq!(split_camel_case("XML"), ["X", "M", "L"]);
    assert_eq!(split_camel_case("parseXML"), ["parse", "X", "M", "L"]);
    assert_eq!(split_camel_case("README"), ["R", "E", "A", "D", "M", "E"]);
    assert_eq!(split_camel_case("aB1C"), ["a", "B1", "C"]);
    assert_eq!(split_camel_case("AB1c"), ["A", "B1c"]);
}

#[test]
fn split_camel_case_drops_no_character() {
    for text in texts_over(&['a', 'B', 'C', '1', '-', 'é', '語'], 6) {
        let words = split_camel_case(&text);
        assert_eq!(words.concat(), text, "on {text:?}");
        for (k, word) in words.iter().enumerate() {
            let first = word.chars().next();
            assert!(first.is_some(), "on {text:?}");
            if k > 0 {
                assert!(first.unwrap().is_uppercase(), "on {text:?}");
            }
        }
    }
}

#[test]
fn split_camel_case_knows_letters_beyond_ascii() {
    assert_eq!(split_camel_case("naïveCafé"), ["naïve", "Café"]);
    assert_eq!(split_camel_case("ÉtatÜber"), ["État", "Über"]);
    assert_eq!(split_camel_case("ΑΒΓδ"), ["ΑΒ", "Γδ"]);
}

#[test]
fn split_camel_case_agrees_with_the_pattern_on_ascii_letters() {
    // On a text of letters the matches of the pattern are the words that
    // hold a lowercase letter and the acronyms, which are the words before a
    // word that begins with an uppercase and then a lowercase letter. What
    // is left are single uppercase letters.
    let pattern = case_pattern();
    for text in texts_over(&['a', 'b', 'A', 'B'], 8) {
        let words = split_camel_case(&text);
        let mut expected = Vec::new();
        for (k, word) in words.iter().enumerate() {
            let has_lowercase = word.chars().any(|c| c.is_lowercase());
            let before_a_word = words.get(k + 1).is_some_and(|next| {
                let mut chars = next.chars().skip(1);
                chars.next().is_some_and(|c| c.is_lowercase())
            });
            if has_lowercase || before_a_word {
                expected.push(word.clone());
            } else {
                assert_eq!(word.chars().count(), 1, "on {text:?}");
            }
        }
        assert_eq!(pattern_matches(&pattern, &text), expected, "on {text:?}");
    }
}

#[test]
fn split_camel_case_agrees_with_the_pattern_on_letters_beyond_ascii() {
    let pattern = case_pattern();
    for text in texts_over(&['é', 'É', 'δ', 'Δ', 'a'], 6) {
        let words = split_camel_case(&text);
        let mut expected = Vec::new();
        for (k, word) in words.iter().enumerate() {
            let has_lowercase = word.chars().any(|c| c.is_lowercase());
            let before_a_word = words
                .get(k + 1)
                .is_some_and(|next| next.chars().nth(1).is_some_and(|c| c.is_lowercase()));
            if has_lowercase || before_a_word {
                expected.push(word.clone());
            }
        }
        assert_eq!(pattern_matches(&pattern, &text), expected, "on {text:?}");
    }
}

#[test]
fn split_camel_case_takes_every_uppercase_character_for_a_letter() {
    // The Roman numeral one has the property Uppercase and is no letter.
    assert_eq!(split_camel_case("a\u{2160}b"), ["a", "\u{2160}b"]);
}

#[test]
fn stage_split_is_the_split_of_its_kind() {
    assert_eq!(Stage::Numbers.split("a1b"), split_on_numbers("a1b"));
    assert_eq!(Stage::Numbers.split("a12b"), ["a", "b"]);
    assert_eq!(Stage::WordBoundaries.split("a.b c"), ["a.b", "c"]);
    assert_eq!(Stage::SnakeCase.split("a_b"), split_snake_case("a_b"));
    assert_eq!(Stage::CamelCase.split("aBc"), split_camel_case("aBc"));
    assert_eq!(Stage::CamelCase.split("PascalCase123"), ["Pascal", "Case123"]);
}

#[test]
fn flat_map_keeps_the_order_of_the_parts() {
    let parts = strings(&["a_b", "", "c", "d__e"]);
    assert_eq!(flat_map(&parts, Stage::SnakeCase), ["a", "b", "c", "d", "", "e"]);
    assert_eq!(flat_map(&Vec::new(), Stage::SnakeCase), Vec::<String>::new());
    assert_eq!(flat_map(&strings(&["oneTwo", "XMLFile"]), Stage::CamelCase), ["one", "Two", "XML", "File"]);
}

#[test]
fn keep_long_counts_characters() {
    let words = strings(&["ab", "abc", "", "éé", "ééé", "abcd"]);
    assert_eq!(keep_long(&words, 3), ["abc", "ééé", "abcd"]);
    assert_eq!(keep_long(&words, 1), ["ab", "abc", "éé", "ééé", "abcd"]);
    assert_eq!(keep_long(&words, 0), words);
}

#[test]
fn to_lowercase_all_uses_the_unicode_mappings() {
    let words = strings(&["Hello", "ÉTAT", "already", "ΣΑΣ", ""]);
    assert_eq!(to_lowercase_all(&words), ["hello", "état", "already", "σας", ""]);
}

#[test]
fn to_lowercase_all_puts_ascii_text_in_ascii_lowercase() {
    let every: String = (0u8..128).map(char::from).collect();
    assert_eq!(to_lowercase_all(&vec![every.clone()]), [every.to_ascii_lowercase()]);
    let texts = texts_over(&['a', 'B', 'Z', '1', '_', ' ', '@', '['], 4);
    let expected: Vec<String> = texts.iter().map(|text| text.to_ascii_lowercase()).collect();
    assert_eq!(to_lowercase_all(&texts), expected);
    assert_eq!(to_lowercase_all(&strings(&["already"])), ["already"]);
}

#[test]
fn extract_words_agrees_with_the_chain_of_adaptors_on_letters_and_separators() {
    // On letters, digits, underscores and spaces the words are those of the
    // stages written with iterator adaptors and the pattern.
    let pattern = case_pattern();
    for text in texts_over(&['a', 'b', 'C', 'D', '_', '4', ' '], 6) {
        let expected: Vec<String> = text
            .split_whitespace()
            .flat_map(|part| part.split_terminator(|c: char| c.is_ascii_digit()))
            .flat_map(|part| part.unicode_words())
            .flat_map(|part| part.split_terminator("_"))
            .flat_map(|part| pattern_matches(&pattern, part))
            .map(|word| word.to_lowercase())
            .filter(|word| word.len() > 2)
            .collect();
        assert_eq!(extract_words(&text), expected, "on {text:?}");
    }
}

#[test]
fn extract_words_of_longer_texts() {
    assert_eq!(
        extract_words("src/parsing/word_separator.rs:42 parseHTTPResponse2xx"),
        ["src", "parsing", "word", "separator.rs", "parse", "http", "response"]
    );
    assert_eq!(extract_words("PascalCase123"), ["pascal", "case"]);
    assert_eq!(extract_words("XMLParser"), ["xml", "parser"]);
    assert_eq!(extract_words("naïveCafé"), ["naïve", "café"]);
}

#[test]
fn extract_words_keeps_words_of_letters_without_case() {
    assert_eq!(extract_words("مرحبا"), ["مرحبا"]);
    assert_eq!(extract_words("שלום עולם"), ["שלום", "עולם"]);
    assert_eq!(extract_words("안녕하세요"), ["안녕하세요"]);
    assert_eq!(extract_words("can't"), ["can't"]);
}

#[test]
fn extract_words_can_be_empty() {
    assert_eq!(extract_words(""), Vec::<String>::new());
    assert_eq!(extract_words("ab"), Vec::<String>::new());
    assert_eq!(extract_words("12345"), Vec::<String>::new());
    assert_eq!(extract_words("a b c_d eF"), Vec::<String>::new());
    assert_eq!(extract_words("README"), Vec::<String>::new());
}

#[test]
fn extract_words_leaves_a_plain_word_whole() {
    assert_eq!(extract_words("xyzqqqw"), ["xyzqqqw"]);
    assert_eq!(extract_words("hello"), ["hello"]);
    assert_eq!(extract_words("Hello"), ["hello"]);
    for word in texts_over(&['a', 'm', 'z'], 6) {
        if word.len() >= 3 {
            assert_eq!(extract_words(&word), [word.clone()]);
        }
    }
}
