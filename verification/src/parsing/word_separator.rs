//! Word segmentation: cuts a token into the natural-language words it is
//! made of.
//!
//! The stages run in a fixed order, each one applied to every piece that the
//! stage before it produced: whitespace, digits, Unicode word boundaries,
//! underscores, letter case. What remains is put in lowercase, and pieces of
//! fewer than three characters are dropped.

use vstd::prelude::*;
use unicode_segmentation::UnicodeSegmentation;
use crate::parsing::letter_case::{
    camel_words, camel_words_from, lemma_camel_whole, lemma_camel_words_join, token_end,
};
use crate::parsing::separators::{lemma_split_whole, split_spec, split_terminator, Separator};
use crate::text::{
    chars_of, is_digit_char, is_uppercase_char, is_whitespace_char, lowercase_of, string_from,
};

verus! {

/// The least number of characters of a word.
pub const MIN_WORD_LEN: usize = 3;

/// Whether `c` is an ASCII letter or an ASCII digit.
pub open spec fn is_ascii_alphanumeric_char(c: char) -> bool {
    ('a' <= c && c <= 'z') || ('A' <= c && c <= 'Z') || ('0' <= c && c <= '9')
}

/// Whether `text` is one run of ASCII letters, ASCII digits and underscores
/// that holds a letter or a digit.
pub open spec fn is_ascii_word(text: Seq<char>) -> bool {
    &&& forall|i: int|
        0 <= i < text.len() ==> is_ascii_alphanumeric_char(#[trigger] text[i]) || text[i] == '_'
    &&& exists|i: int| 0 <= i < text.len() && is_ascii_alphanumeric_char(#[trigger] text[i])
}

/// The words, under the word-boundary rules of Unicode Standard Annex #29,
/// of a text that is not one ASCII word: the segments between word
/// boundaries that hold a letter or a digit, in order.
pub uninterp spec fn unicode_words_beyond_ascii_word(text: Seq<char>) -> Seq<Seq<char>>;

/// The words of `text` under the word-boundary rules of Unicode Standard
/// Annex #29. A run of ASCII letters, digits and underscores that holds a
/// letter or a digit is one word.
pub open spec fn unicode_words_of(text: Seq<char>) -> Seq<Seq<char>> {
    if is_ascii_word(text) {
        seq![text]
    } else {
        unicode_words_beyond_ascii_word(text)
    }
}

/// Splits `text` at the Unicode word boundaries and keeps the segments that
/// hold a letter or a digit.
///
/// This is `UnicodeSegmentation::unicode_words` of the crate
/// unicode-segmentation. Of a run of ASCII letters, digits and underscores
/// that holds a letter or a digit it yields the run as one word. Of any
/// other text the words it yields depend on the characters alone;
/// `unicode_words_beyond_ascii_word` is the name for them.
#[verifier::external_body]
fn split_unicode_word_boundary(text: &str) -> (words: Vec<String>)
    ensures
        is_ascii_word(text@) ==> words.deep_view() == seq![text@],
        !is_ascii_word(text@) ==> words.deep_view() == unicode_words_beyond_ascii_word(text@),
{
    text.unicode_words().map(|word| word.to_string()).collect()
}

/// The stages of the segmentation that cut one piece into smaller pieces,
/// in the order in which they run.
#[derive(Clone, Copy, Debug)]
pub enum Stage {
    /// Cut at the ASCII digits.
    Numbers,
    /// Cut at the Unicode word boundaries.
    WordBoundaries,
    /// Cut at the underscores.
    SnakeCase,
    /// Cut where the letter case changes.
    CamelCase,
}

impl Stage {
    /// The pieces that this stage makes of `text`.
    pub open spec fn pieces(self, text: Seq<char>) -> Seq<Seq<char>> {
        match self {
            Stage::Numbers => split_on_numbers_spec(text),
            Stage::WordBoundaries => unicode_words_of(text),
            Stage::SnakeCase => split_spec(text, Separator::Char('_')),
            Stage::CamelCase => camel_words(text),
        }
    }

    /// Cuts `text` as this stage does.
    pub fn split(self, text: &str) -> (pieces: Vec<String>)
        ensures
            pieces.deep_view() == self.pieces(text@),
    {
        match self {
            Stage::Numbers => split_on_numbers(text),
            Stage::WordBoundaries => split_unicode_word_boundary(text),
            Stage::SnakeCase => split_snake_case(text),
            Stage::CamelCase => split_camel_case(text),
        }
    }
}

/// The non-empty runs of `text` between ASCII digits: digits in a row are
/// one separator.
pub open spec fn split_on_numbers_spec(text: Seq<char>) -> Seq<Seq<char>> {
    keep_long_spec(split_spec(text, Separator::Digit), 1)
}

/// The pieces that `stage` makes of each of `parts`, in one sequence.
pub open spec fn flat_map_spec(parts: Seq<Seq<char>>, stage: Stage) -> Seq<Seq<char>> {
    parts.map_values(|part: Seq<char>| stage.pieces(part)).flatten()
}

/// Those of `words` that have at least `min_len` characters.
pub open spec fn keep_long_spec(words: Seq<Seq<char>>, min_len: nat) -> Seq<Seq<char>> {
    words.filter(|word: Seq<char>| word.len() >= min_len)
}

/// The non-empty runs of `text` between whitespace characters.
pub open spec fn split_whitespace_spec(text: Seq<char>) -> Seq<Seq<char>> {
    keep_long_spec(split_spec(text, Separator::Whitespace), 1)
}

/// The pieces of `text` after every cutting stage, before they are put in
/// lowercase and the short ones are dropped.
pub open spec fn fragments(text: Seq<char>) -> Seq<Seq<char>> {
    flat_map_spec(
        flat_map_spec(
            flat_map_spec(
                flat_map_spec(split_whitespace_spec(text), Stage::Numbers),
                Stage::WordBoundaries,
            ),
            Stage::SnakeCase,
        ),
        Stage::CamelCase,
    )
}

/// Each of `words` in lowercase.
pub open spec fn lowercased(words: Seq<Seq<char>>) -> Seq<Seq<char>> {
    words.map_values(|word: Seq<char>| lowercase_of(word))
}

/// The words of `text`: its fragments in lowercase, those of fewer than
/// three characters left out.
pub open spec fn extract_words_spec(text: Seq<char>) -> Seq<Seq<char>> {
    keep_long_spec(lowercased(fragments(text)), MIN_WORD_LEN as nat)
}

/// Splits `text` at Unicode whitespace, the empty pieces left out.
pub fn split_whitespace(text: &str) -> (pieces: Vec<String>)
    ensures
        pieces.deep_view() == split_whitespace_spec(text@),
{
    let pieces = split_terminator(text, Separator::Whitespace);
    keep_long(&pieces, 1)
}

/// Splits `text` at the ASCII digits. The digits are separators, not part
/// of a word; digits in a row are one separator, so no piece is empty.
pub fn split_on_numbers(text: &str) -> (pieces: Vec<String>)
    ensures
        pieces.deep_view() == split_on_numbers_spec(text@),
{
    let pieces = split_terminator(text, Separator::Digit);
    keep_long(&pieces, 1)
}

/// Splits `text` at every underscore.
pub fn split_snake_case(text: &str) -> (pieces: Vec<String>)
    ensures
        pieces.deep_view() == split_spec(text@, Separator::Char('_')),
{
    split_terminator(text, Separator::Char('_'))
}

/// Splits `text` where the letter case changes. The text is cut before
/// uppercase letters only, and no character is dropped: an acronym,
/// uppercase letters in a row with an uppercase and then a lowercase letter
/// behind them, is one word; any other uppercase letter starts a word that
/// runs up to the next uppercase letter.
pub fn split_camel_case(text: &str) -> (words: Vec<String>)
    ensures
        words.deep_view() == camel_words(text@),
{
    let chars = chars_of(text);
    let mut words: Vec<String> = Vec::new();
    let mut at: usize = 0;
    while at < chars.len()
        invariant
            chars@ == text@,
            at <= chars.len(),
            words.deep_view() + camel_words_from(chars@, at as int) == camel_words(chars@),
        decreases chars.len() - at,
    {
        let end = token_end(&chars, at);
        let word = string_from(&chars, at, end);
        let ghost before = words.deep_view();
        let ghost word_view = word@;
        words.push(word);
        proof {
            assert(words.deep_view() =~= before.push(word_view));
            if end == chars.len() {
                assert(chars@.skip(at as int) =~= word_view);
                assert(camel_words_from(chars@, end as int) =~= Seq::<Seq<char>>::empty());
            }
            assert(words.deep_view() + camel_words_from(chars@, end as int) =~= before
                + camel_words_from(chars@, at as int));
        }
        at = end;
    }
    words
}

/// Applies `stage` to each of `parts` and collects the pieces in order.
pub fn flat_map(parts: &Vec<String>, stage: Stage) -> (pieces: Vec<String>)
    ensures
        pieces.deep_view() == flat_map_spec(parts.deep_view(), stage),
{
    let ghost cut = |part: Seq<char>| stage.pieces(part);
    let mut pieces: Vec<String> = Vec::new();
    let mut i: usize = 0;
    assert(parts.deep_view().take(0).map_values(cut) =~= Seq::<Seq<Seq<char>>>::empty());
    while i < parts.len()
        invariant
            i <= parts.len(),
            cut == |part: Seq<char>| stage.pieces(part),
            pieces.deep_view() == parts.deep_view().take(i as int).map_values(cut).flatten(),
        decreases parts.len() - i,
    {
        let ghost before = pieces.deep_view();
        let ghost seen = parts.deep_view().take(i as int);
        let mut more = stage.split(parts[i].as_str());
        let ghost more_view = more.deep_view();
        pieces.append(&mut more);
        proof {
            assert(pieces.deep_view() =~= before + more_view);
            assert(parts.deep_view().take(i + 1).map_values(cut) =~= seen.map_values(cut).push(
                more_view,
            ));
            Seq::lemma_flatten_push(seen.map_values(cut), more_view);
        }
        i += 1;
    }
    assert(parts.deep_view().take(parts.len() as int) =~= parts.deep_view());
    pieces
}

/// Puts each of `words` in lowercase.
pub fn to_lowercase_all(words: &Vec<String>) -> (lowered: Vec<String>)
    ensures
        lowered.deep_view() == lowercased(words.deep_view()),
{
    let mut lowered: Vec<String> = Vec::new();
    let mut i: usize = 0;
    while i < words.len()
        invariant
            i <= words.len(),
            lowered.len() == i,
            forall|k: int| 0 <= k < i ==> (#[trigger] lowered[k])@ == lowercase_of(words[k]@),
        decreases words.len() - i,
    {
        let word = words[i].as_str().to_lowercase();
        lowered.push(word);
        i += 1;
    }
    assert(lowered.deep_view() =~= lowercased(words.deep_view()));
    lowered
}

/// Keeps those of `words` that have at least `min_len` characters, in
/// their order.
pub fn keep_long(words: &Vec<String>, min_len: usize) -> (kept: Vec<String>)
    ensures
        kept.deep_view() == keep_long_spec(words.deep_view(), min_len as nat),
{
    let ghost pred = |word: Seq<char>| word.len() >= min_len as nat;
    let mut kept: Vec<String> = Vec::new();
    let mut i: usize = 0;
    assert(words.deep_view().take(0) =~= Seq::<Seq<char>>::empty());
    while i < words.len()
        invariant
            i <= words.len(),
            pred == |word: Seq<char>| word.len() >= min_len as nat,
            kept.deep_view() == words.deep_view().take(i as int).filter(pred),
        decreases words.len() - i,
    {
        let ghost before = kept.deep_view();
        let ghost seen = words.deep_view().take(i as int);
        proof {
            assert(words.deep_view().take(i + 1) =~= seen.push(words[i as int]@));
            Seq::lemma_filter_push(seen, words[i as int]@, pred);
        }
        if words[i].as_str().unicode_len() >= min_len {
            let word = words[i].clone();
            kept.push(word);
            assert(kept.deep_view() =~= before.push(words[i as int]@));
        }
        i += 1;
    }
    assert(words.deep_view().take(words.len() as int) =~= words.deep_view());
    kept
}

/// Cuts `text` into its words: split at whitespace, at digits, at Unicode
/// word boundaries, at underscores and where the letter case changes, in
/// that order; then every piece is put in lowercase, and the pieces of
/// fewer than three characters are dropped.
pub fn extract_words(text: &str) -> (words: Vec<String>)
    ensures
        words.deep_view() == extract_words_spec(text@),
        forall|i: int| 0 <= i < words.len() ==> (#[trigger] words[i])@.len() >= MIN_WORD_LEN,
{
    let spaced = split_whitespace(text);
    let unnumbered = flat_map(&spaced, Stage::Numbers);
    let bounded = flat_map(&unnumbered, Stage::WordBoundaries);
    let unscored = flat_map(&bounded, Stage::SnakeCase);
    let cased = flat_map(&unscored, Stage::CamelCase);
    let lowered = to_lowercase_all(&cased);
    let words = keep_long(&lowered, MIN_WORD_LEN);
    proof {
        let pred = |word: Seq<char>| word.len() >= MIN_WORD_LEN as nat;
        assert forall|i: int| 0 <= i < words.len() implies (#[trigger] words[i])@.len()
            >= MIN_WORD_LEN by {
            assert(words[i]@ == words.deep_view()[i]);
            lowered.deep_view().lemma_filter_pred(pred, i);
        }
    }
    words
}

/// A stage mapped over one part gives the pieces of that part.
pub proof fn lemma_flat_map_single(part: Seq<char>, stage: Stage)
    ensures
        flat_map_spec(seq![part], stage) == stage.pieces(part),
{
    let cut = |part: Seq<char>| stage.pieces(part);
    let mapped = seq![part].map_values(cut);
    assert(mapped =~= seq![stage.pieces(part)]);
    mapped.lemma_flatten_singleton();
}

/// Segmentation gives at least one word where a fragment of the text, put
/// in lowercase, has three characters or more. On any other text it gives
/// none: every fragment is dropped as too short.
pub proof fn lemma_extract_words_nonempty(text: Seq<char>)
    ensures
        extract_words_spec(text).len() >= 1 <==> exists|i: int|
            0 <= i < fragments(text).len() && lowercase_of(#[trigger] fragments(text)[i]).len()
                >= MIN_WORD_LEN,
{
    let lowered = lowercased(fragments(text));
    let long = |word: Seq<char>| word.len() >= MIN_WORD_LEN as nat;
    let words = extract_words_spec(text);
    assert(words == lowered.filter(long));
    if words.len() >= 1 {
        lowered.lemma_filter_contains_rev(long, words[0]);
        let i = choose|i: int| 0 <= i < lowered.len() && lowered[i] == words[0];
        assert(lowercase_of(fragments(text)[i]).len() >= MIN_WORD_LEN);
    }
    if exists|i: int|
        0 <= i < fragments(text).len() && lowercase_of(#[trigger] fragments(text)[i]).len()
            >= MIN_WORD_LEN {
        let i = choose|i: int|
            0 <= i < fragments(text).len() && lowercase_of(#[trigger] fragments(text)[i]).len()
                >= MIN_WORD_LEN;
        assert(long(lowered[i]));
        lowered.lemma_filter_contains(long, i);
    }
}

/// Whether `word` is plain: it has no uppercase letter, no whitespace, no
/// digit and no underscore, and putting it in lowercase changes nothing.
pub open spec fn is_plain_word(word: Seq<char>) -> bool {
    &&& lowercase_of(word) == word
    &&& forall|i: int|
        0 <= i < word.len() ==> {
            &&& !is_uppercase_char(#[trigger] word[i])
            &&& !is_whitespace_char(word[i])
            &&& !is_digit_char(word[i])
            &&& word[i] != '_'
        }
}

/// Keeping the long ones of a single word keeps it if it is long enough.
proof fn lemma_keep_long_single(word: Seq<char>, min_len: nat)
    requires
        word.len() >= min_len,
    ensures
        keep_long_spec(seq![word], min_len) == seq![word],
{
    let long = |w: Seq<char>| w.len() >= min_len;
    let none = Seq::<Seq<char>>::empty();
    assert(seq![word] =~= none.push(word));
    Seq::lemma_filter_push(none, word, long);
    assert(none.filter(long) =~= none) by {
        none.lemma_filter_len(long);
    }
}

/// A plain word of three or more characters that the Unicode word
/// boundaries leave whole passes every stage unchanged: it is its own and
/// only word.
pub proof fn lemma_plain_word_is_whole(word: Seq<char>)
    requires
        word.len() >= MIN_WORD_LEN,
        is_plain_word(word),
        unicode_words_of(word) == seq![word],
    ensures
        fragments(word) == seq![word],
        extract_words_spec(word) == seq![word],
{
    let spaced = split_whitespace_spec(word);
    assert(spaced == seq![word]) by {
        lemma_split_whole(word, Separator::Whitespace);
        lemma_keep_long_single(word, 1);
    }
    let unnumbered = flat_map_spec(spaced, Stage::Numbers);
    assert(unnumbered == seq![word]) by {
        lemma_split_whole(word, Separator::Digit);
        lemma_keep_long_single(word, 1);
        lemma_flat_map_single(word, Stage::Numbers);
    }
    let bounded = flat_map_spec(unnumbered, Stage::WordBoundaries);
    assert(bounded == seq![word]) by {
        lemma_flat_map_single(word, Stage::WordBoundaries);
    }
    let unscored = flat_map_spec(bounded, Stage::SnakeCase);
    assert(unscored == seq![word]) by {
        lemma_split_whole(word, Separator::Char('_'));
        lemma_flat_map_single(word, Stage::SnakeCase);
    }
    let cased = flat_map_spec(unscored, Stage::CamelCase);
    assert(cased == seq![word]) by {
        lemma_camel_whole(word);
        lemma_flat_map_single(word, Stage::CamelCase);
    }
    assert(fragments(word) == cased);
    assert(lowercased(seq![word]) =~= seq![word]);
    lemma_keep_long_single(word, MIN_WORD_LEN as nat);
}

/// Whether `word` is made of the ASCII letters `a` to `z` alone.
pub open spec fn is_ascii_lowercase_word(word: Seq<char>) -> bool {
    forall|i: int| 0 <= i < word.len() ==> 'a' <= #[trigger] word[i] && word[i] <= 'z'
}

/// A word of the letters `a` to `z` is plain, and the Unicode word
/// boundaries leave it whole.
pub proof fn lemma_ascii_lowercase_word_is_plain(word: Seq<char>)
    requires
        word.len() > 0,
        is_ascii_lowercase_word(word),
    ensures
        is_plain_word(word),
        unicode_words_of(word) == seq![word],
{
    assert(is_ascii_alphanumeric_char(word[0]));
    assert(is_ascii_word(word));
    assert(lowercase_of(word) =~= word);
}

/// A word of three or more of the letters `a` to `z` is its own and only
/// word: nothing is cut, changed or dropped.
pub proof fn lemma_ascii_lowercase_word_is_whole(word: Seq<char>)
    requires
        word.len() >= MIN_WORD_LEN,
        is_ascii_lowercase_word(word),
    ensures
        extract_words_spec(word) == seq![word],
{
    lemma_ascii_lowercase_word_is_plain(word);
    lemma_plain_word_is_whole(word);
}

/// The case split, applied to each of `parts`, gives no empty word.
proof fn lemma_case_split_gives_no_empty_word(parts: Seq<Seq<char>>)
    ensures
        forall|k: int|
            0 <= k < flat_map_spec(parts, Stage::CamelCase).len() ==> (#[trigger] flat_map_spec(
                parts,
                Stage::CamelCase,
            )[k]).len() > 0,
    decreases parts.len(),
{
    let cut = |part: Seq<char>| Stage::CamelCase.pieces(part);
    if parts.len() == 0 {
        assert(parts.map_values(cut) =~= Seq::<Seq<Seq<char>>>::empty());
    } else {
        let rest = parts.drop_last();
        let last = parts.last();
        lemma_case_split_gives_no_empty_word(rest);
        lemma_camel_words_join(last, 0);
        assert(parts.map_values(cut) =~= rest.map_values(cut).push(camel_words(last)));
        Seq::lemma_flatten_push(rest.map_values(cut), camel_words(last));
        let before = flat_map_spec(rest, Stage::CamelCase);
        let words = flat_map_spec(parts, Stage::CamelCase);
        assert(words =~= before + camel_words(last));
        assert forall|k: int| 0 <= k < words.len() implies (#[trigger] words[k]).len() > 0 by {
            if k < before.len() {
                assert(words[k] == before[k]);
            } else {
                assert(words[k] == camel_words(last)[k - before.len()]);
            }
        }
    }
}

/// No fragment of a text is empty.
pub proof fn lemma_fragments_are_not_empty(text: Seq<char>)
    ensures
        forall|k: int| 0 <= k < fragments(text).len() ==> (#[trigger] fragments(text)[k]).len() > 0,
{
    let parts = flat_map_spec(
        flat_map_spec(
            flat_map_spec(split_whitespace_spec(text), Stage::Numbers),
            Stage::WordBoundaries,
        ),
        Stage::SnakeCase,
    );
    lemma_case_split_gives_no_empty_word(parts);
}

} // verus!
