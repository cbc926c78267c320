//! The typo classifier: decides whether a token is a typo.

use vstd::prelude::*;
use vstd::string::StrSliceExecFns;
use crate::dictionary::Dictionary;
use crate::parsing::word_separator::{
    extract_words, extract_words_spec, is_ascii_lowercase_word, is_plain_word,
    lemma_ascii_lowercase_word_is_whole, lemma_plain_word_is_whole, unicode_words_of,
    MIN_WORD_LEN,
};
use crate::text::lowercase_of;

verus! {

/// Whether `word` is long enough to be judged and is not in the dictionary.
pub open spec fn is_unknown_word(dictionary: Set<Seq<char>>, word: Seq<char>) -> bool {
    word.len() >= MIN_WORD_LEN && !dictionary.contains(word)
}

/// Whether `token` is a typo, when its words may be taken apart `depth`
/// more times.
///
/// A token of fewer than three characters is none, and a token that the
/// dictionary holds is none. Any other token is cut into words. If exactly
/// one word comes out, the token cannot be taken apart and is a typo.
/// Else the token is a typo if one of its words, put in lowercase, is one
/// by this same rule. At depth 0 the words are not taken apart again: the
/// token is a typo if one of them, put in lowercase, is unknown.
pub open spec fn is_typo_at_depth(dictionary: Set<Seq<char>>, token: Seq<char>, depth: nat) -> bool
    decreases depth,
{
    if token.len() < MIN_WORD_LEN || dictionary.contains(token) {
        false
    } else {
        let parts = extract_words_spec(token);
        if parts.len() == 1 {
            true
        } else if depth == 0 {
            exists|i: int|
                0 <= i < parts.len() && is_unknown_word(dictionary, lowercase_of(#[trigger] parts[i]))
        } else {
            exists|i: int|
                0 <= i < parts.len() && is_typo_at_depth(
                    dictionary,
                    lowercase_of(#[trigger] parts[i]),
                    (depth - 1) as nat,
                )
        }
    }
}

/// Whether `token` is a typo. The number of characters of the token bounds
/// how often its words are taken apart.
pub open spec fn is_typo_spec(dictionary: Set<Seq<char>>, token: Seq<char>) -> bool {
    is_typo_at_depth(dictionary, token, token.len())
}

/// Decides whether `token` is a typo when its words may be taken apart
/// `depth` more times.
pub fn is_typo_within(token: &str, dictionary: &Dictionary, depth: usize) -> (typo: bool)
    ensures
        typo == is_typo_at_depth(dictionary@, token@, depth as nat),
    decreases depth,
{
    if token.unicode_len() < MIN_WORD_LEN || dictionary.contains(token) {
        return false;
    }
    let parts = extract_words(token);
    if parts.len() == 1 {
        return true;
    }
    let mut i: usize = 0;
    while i < parts.len()
        invariant
            i <= parts.len(),
            token@.len() >= MIN_WORD_LEN,
            !dictionary@.contains(token@),
            parts.len() != 1,
            parts.deep_view() == extract_words_spec(token@),
            forall|k: int|
                0 <= k < i ==> !(if depth == 0 {
                    is_unknown_word(dictionary@, lowercase_of(#[trigger] parts.deep_view()[k]))
                } else {
                    is_typo_at_depth(
                        dictionary@,
                        lowercase_of(parts.deep_view()[k]),
                        (depth - 1) as nat,
                    )
                }),
        decreases parts.len() - i,
    {
        let part = parts[i].as_str().to_lowercase();
        assert(parts[i as int]@ == parts.deep_view()[i as int]);
        let typo = if depth == 0 {
            part.as_str().unicode_len() >= MIN_WORD_LEN && !dictionary.contains(part.as_str())
        } else {
            is_typo_within(part.as_str(), dictionary, depth - 1)
        };
        if typo {
            assert(extract_words_spec(token@)[i as int] == parts[i as int]@);
            return true;
        }
        i += 1;
    }
    false
}

/// Decides whether `token` is a typo: a token of three or more characters
/// that the dictionary does not hold and that is either a single word or
/// has a word that is a typo.
pub fn is_typo(token: &str, dictionary: &Dictionary) -> (typo: bool)
    ensures
        typo == is_typo_spec(dictionary@, token@),
        token@.len() < MIN_WORD_LEN ==> !typo,
        dictionary@.contains(token@) ==> !typo,
{
    is_typo_within(token, dictionary, token.unicode_len())
}

/// A plain word of three or more characters that the Unicode word
/// boundaries leave whole is its own and only word; where the dictionary
/// does not hold it, it is a typo.
pub proof fn lemma_unknown_plain_word_is_typo(dictionary: Set<Seq<char>>, word: Seq<char>)
    requires
        word.len() >= MIN_WORD_LEN,
        is_plain_word(word),
        unicode_words_of(word) == seq![word],
        !dictionary.contains(word),
    ensures
        extract_words_spec(word) == seq![word],
        is_typo_spec(dictionary, word),
{
    lemma_plain_word_is_whole(word);
}

/// A word of three or more of the letters `a` to `z` is its own and only
/// word; where the dictionary does not hold it, it is a typo.
pub proof fn lemma_unknown_ascii_lowercase_word_is_typo(
    dictionary: Set<Seq<char>>,
    word: Seq<char>,
)
    requires
        word.len() >= MIN_WORD_LEN,
        is_ascii_lowercase_word(word),
        !dictionary.contains(word),
    ensures
        extract_words_spec(word) == seq![word],
        is_typo_spec(dictionary, word),
{
    lemma_ascii_lowercase_word_is_whole(word);
}

} // verus!
