use code_typos::parsing::word_separator::extract_words;

#[test]
fn test_split_white_space() {
    assert_eq!(extract_words("hello world"), ["hello", "world"]);
}

#[test]
fn test_split_snake_case() {
    assert_eq!(extract_words("hello_world_test"), ["hello", "world", "test"]);
}

#[test]
fn test_split_on_numbers() {
    assert_eq!(extract_words("hello2world"), ["hello", "world"]);
}

#[test]
fn test_split_camel_case() {
    assert_eq!(extract_words("camelCaseTest"), ["camel", "case", "test"]);
}

#[test]
fn test_function_definition() {
    assert_eq!(
        extract_words("function parseJson(text: string)"),
        ["function", "parse", "json", "text", "string"]
    );
}

#[test]
fn discards_short_words_after_parsing() {
    assert_eq!(extract_words("fn isTheCatInTheDog"), ["the", "cat", "the", "dog"])
}
