//! The dictionary: the set of known words.

use vstd::prelude::*;
use vstd::hash_set::StringHashSet;
use crate::parsing::separators::{piece_end, piece_len, Separator};
use crate::text::{chars_of, string_from};

verus! {

/// The set of known words. A word is looked up as it is written: the
/// dictionary tells upper case from lower case.
pub struct Dictionary {
    words: StringHashSet,
}

impl View for Dictionary {
    type V = Set<Seq<char>>;

    closed spec fn view(&self) -> Set<Seq<char>> {
        self.words@
    }
}

/// `line` without the carriage return at its end, if it has one.
pub open spec fn without_carriage_return(line: Seq<char>) -> Seq<char> {
    if line.len() > 0 && line.last() == '\r' {
        line.drop_last()
    } else {
        line
    }
}

/// The lines of `text[from..]`. A line ends at a line feed; the line feed,
/// and a carriage return right before it, are not part of the line. What
/// follows the last line feed is a line, as it stands, unless it is empty.
pub open spec fn lines_from(text: Seq<char>, from: int) -> Seq<Seq<char>>
    decreases text.len() - from,
{
    if from < 0 || from >= text.len() {
        Seq::empty()
    } else {
        let stop = from + piece_len(text, Separator::Char('\n'), from);
        if stop >= text.len() {
            seq![text.skip(from)]
        } else {
            seq![without_carriage_return(text.subrange(from, stop))] + lines_from(text, stop + 1)
        }
    }
}

/// The lines of `text`.
pub open spec fn lines_spec(text: Seq<char>) -> Seq<Seq<char>> {
    lines_from(text, 0)
}

/// The words on the lines of every text of `texts`.
pub open spec fn words_of(texts: Seq<Seq<char>>) -> Set<Seq<char>>
    decreases texts.len(),
{
    if texts.len() == 0 {
        Set::empty()
    } else {
        words_of(texts.drop_last()).union(lines_spec(texts.last()).to_set())
    }
}

/// The lines of `text`, in order.
pub fn lines(text: &str) -> (lines: Vec<String>)
    ensures
        lines.deep_view() == lines_spec(text@),
{
    let chars = chars_of(text);
    let feed = Separator::Char('\n');
    let mut lines: Vec<String> = Vec::new();
    let mut start: usize = 0;
    while start < chars.len()
        invariant
            chars@ == text@,
            feed == Separator::Char('\n'),
            start <= chars.len(),
            lines.deep_view() + lines_from(chars@, start as int) == lines_spec(chars@),
        decreases chars.len() - start,
    {
        let stop = piece_end(&chars, feed, start);
        let ghost before = lines.deep_view();
        if stop == chars.len() {
            let line = string_from(&chars, start, stop);
            let ghost line_view = line@;
            lines.push(line);
            proof {
                assert(lines.deep_view() =~= before.push(line_view));
                assert(chars@.skip(start as int) =~= line_view);
                assert(lines.deep_view() =~= before + lines_from(chars@, start as int));
            }
            return lines;
        }
        let end = if stop > start && chars[stop - 1] == '\r' {
            stop - 1
        } else {
            stop
        };
        let line = string_from(&chars, start, end);
        let ghost line_view = line@;
        lines.push(line);
        proof {
            assert(lines.deep_view() =~= before.push(line_view));
            assert(line_view =~= without_carriage_return(
                chars@.subrange(start as int, stop as int),
            ));
            assert(lines.deep_view() + lines_from(chars@, stop + 1) =~= before + lines_from(
                chars@,
                start as int,
            ));
        }
        start = stop + 1;
    }
    lines
}

impl Dictionary {
    /// The dictionary without words.
    pub fn new() -> (dictionary: Self)
        ensures
            dictionary@ == Set::<Seq<char>>::empty(),
    {
        Dictionary { words: StringHashSet::new() }
    }

    /// The dictionary without words, with room for `capacity` of them.
    pub fn with_capacity(capacity: usize) -> (dictionary: Self)
        ensures
            dictionary@ == Set::<Seq<char>>::empty(),
    {
        Dictionary { words: StringHashSet::with_capacity(capacity) }
    }

    /// Adds `word` to the dictionary.
    pub fn insert(&mut self, word: String)
        ensures
            final(self)@ == old(self)@.insert(word@),
    {
        self.words.insert(word);
    }

    /// Whether `word` is in the dictionary, letter for letter.
    pub fn contains(&self, word: &str) -> (known: bool)
        ensures
            known == self@.contains(word@),
    {
        self.words.contains(word)
    }

    /// Adds every one of `words` to the dictionary.
    pub fn extend(&mut self, words: &Vec<String>)
        ensures
            final(self)@ == old(self)@.union(words.deep_view().to_set()),
    {
        let mut i: usize = 0;
        assert(words.deep_view().take(0).to_set() =~= Set::<Seq<char>>::empty());
        assert(self@ =~= old(self)@.union(words.deep_view().take(0).to_set()));
        while i < words.len()
            invariant
                i <= words.len(),
                self@ == old(self)@.union(words.deep_view().take(i as int).to_set()),
            decreases words.len() - i,
        {
            let word = words[i].clone();
            proof {
                let seen = words.deep_view().take(i as int);
                let next = words.deep_view().take(i + 1);
                assert(next =~= seen.push(word@));
                assert forall|w: Seq<char>| next.to_set().contains(w) <==> (seen.to_set().contains(
                    w,
                ) || w == word@) by {
                    if seen.contains(w) {
                        let k = choose|k: int| 0 <= k < seen.len() && seen[k] == w;
                        assert(next[k] == w);
                    }
                    if w == word@ {
                        assert(next[i as int] == w);
                    }
                }
                assert(old(self)@.union(seen.to_set()).insert(word@) =~= old(self)@.union(
                    next.to_set(),
                ));
            }
            self.insert(word);
            i += 1;
        }
        assert(words.deep_view().take(words.len() as int) =~= words.deep_view());
    }

    /// The dictionary of the given words.
    pub fn from_words(words: &Vec<String>) -> (dictionary: Self)
        ensures
            dictionary@ == words.deep_view().to_set(),
    {
        let mut dictionary = Dictionary::with_capacity(words.len());
        dictionary.extend(words);
        assert(dictionary@ =~= words.deep_view().to_set());
        dictionary
    }
}

/// Builds the dictionary from the texts of word lists: every line of every
/// text is a word.
pub fn load_dictionaries(texts: &Vec<String>) -> (dictionary: Dictionary)
    ensures
        dictionary@ == words_of(texts.deep_view()),
{
    let mut dictionary = Dictionary::new();
    let mut i: usize = 0;
    assert(texts.deep_view().take(0) =~= Seq::<Seq<char>>::empty());
    while i < texts.len()
        invariant
            i <= texts.len(),
            dictionary@ == words_of(texts.deep_view().take(i as int)),
        decreases texts.len() - i,
    {
        let words = lines(texts[i].as_str());
        proof {
            let next = texts.deep_view().take(i + 1);
            assert(next.drop_last() =~= texts.deep_view().take(i as int));
            assert(next.last() == texts[i as int]@);
        }
        dictionary.extend(&words);
        i += 1;
    }
    assert(texts.deep_view().take(texts.len() as int) =~= texts.deep_view());
    dictionary
}

} // verus!
