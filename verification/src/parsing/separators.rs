//! Splitting a text at separator characters.

use vstd::prelude::*;
use crate::text::{
    chars_of, is_ascii_digit, is_digit_char, is_whitespace, is_whitespace_char, string_from,
};

verus! {

/// A class of characters that separate the pieces of a text.
#[derive(Clone, Copy, Debug)]
pub enum Separator {
    /// Unicode whitespace.
    Whitespace,
    /// The ASCII digits.
    Digit,
    /// One given character.
    Char(char),
}

impl Separator {
    /// Whether `c` belongs to this class.
    pub open spec fn matches(self, c: char) -> bool {
        match self {
            Separator::Whitespace => is_whitespace_char(c),
            Separator::Digit => is_digit_char(c),
            Separator::Char(separator) => c == separator,
        }
    }

    /// Decides whether `c` belongs to this class.
    pub fn is_match(self, c: char) -> (r: bool)
        ensures
            r == self.matches(c),
    {
        match self {
            Separator::Whitespace => is_whitespace(c),
            Separator::Digit => is_ascii_digit(c),
            Separator::Char(separator) => c == separator,
        }
    }
}

/// The number of characters of `text` from `from` on that come before the
/// next separator, or before the end where no separator follows.
pub open spec fn piece_len(text: Seq<char>, sep: Separator, from: int) -> nat
    decreases text.len() - from,
{
    if 0 <= from < text.len() && !sep.matches(text[from]) {
        1 + piece_len(text, sep, from + 1)
    } else {
        0
    }
}

/// The pieces of `text[from..]` that the separators delimit. Each separator
/// ends one piece, which may be empty; what follows the last separator is a
/// piece only if it is not empty.
pub open spec fn pieces_from(text: Seq<char>, sep: Separator, from: int) -> Seq<Seq<char>>
    decreases text.len() - from,
{
    if from < 0 || from >= text.len() {
        Seq::empty()
    } else {
        let stop = from + piece_len(text, sep, from);
        if stop >= text.len() {
            seq![text.skip(from)]
        } else {
            seq![text.subrange(from, stop)] + pieces_from(text, sep, stop + 1)
        }
    }
}

/// The pieces of `text` that the separators of class `sep` delimit, the
/// separators themselves left out.
pub open spec fn split_spec(text: Seq<char>, sep: Separator) -> Seq<Seq<char>> {
    pieces_from(text, sep, 0)
}

/// A piece ends at a separator or at the end of the text, and holds no
/// separator.
pub proof fn lemma_piece_len(text: Seq<char>, sep: Separator, from: int)
    requires
        0 <= from <= text.len(),
    ensures
        from + piece_len(text, sep, from) <= text.len(),
        from + piece_len(text, sep, from) < text.len() ==> sep.matches(
            text[from + piece_len(text, sep, from)],
        ),
        forall|i: int| from <= i < from + piece_len(text, sep, from) ==> !sep.matches(text[i]),
    decreases text.len() - from,
{
    if from < text.len() && !sep.matches(text[from]) {
        lemma_piece_len(text, sep, from + 1);
    }
}

/// A text without separators is one piece.
pub proof fn lemma_split_whole(text: Seq<char>, sep: Separator)
    requires
        text.len() > 0,
        forall|i: int| 0 <= i < text.len() ==> !sep.matches(#[trigger] text[i]),
    ensures
        split_spec(text, sep) == seq![text],
{
    lemma_piece_len(text, sep, 0);
    assert(text.skip(0) =~= text);
}

/// The end of the piece of `chars` that starts at `from`.
pub(crate) fn piece_end(chars: &Vec<char>, sep: Separator, from: usize) -> (stop: usize)
    requires
        from <= chars.len(),
    ensures
        stop == from + piece_len(chars@, sep, from as int),
        from <= stop <= chars.len(),
{
    let mut stop: usize = from;
    while stop < chars.len() && !sep.is_match(chars[stop])
        invariant
            from <= stop <= chars.len(),
            from + piece_len(chars@, sep, from as int) == stop + piece_len(
                chars@,
                sep,
                stop as int,
            ),
        decreases chars.len() - stop,
    {
        stop += 1;
    }
    stop
}

/// Splits `text` at the separators of class `sep`. Every separator ends a
/// piece, so two separators in a row give an empty piece; a text that ends
/// in a separator gives no empty piece after it.
pub fn split_terminator(text: &str, sep: Separator) -> (pieces: Vec<String>)
    ensures
        pieces.deep_view() == split_spec(text@, sep),
{
    let chars = chars_of(text);
    let mut pieces: Vec<String> = Vec::new();
    let mut start: usize = 0;
    while start < chars.len()
        invariant
            chars@ == text@,
            start <= chars.len(),
            pieces.deep_view() + pieces_from(chars@, sep, start as int) == split_spec(chars@, sep),
        decreases chars.len() - start,
    {
        let stop = piece_end(&chars, sep, start);
        let piece = string_from(&chars, start, stop);
        let ghost before = pieces.deep_view();
        let ghost piece_view = piece@;
        pieces.push(piece);
        proof {
            assert(pieces.deep_view() =~= before.push(piece_view));
            if stop == chars.len() {
                assert(chars@.skip(start as int) =~= piece_view);
                assert(pieces.deep_view() =~= before + pieces_from(chars@, sep, start as int));
            } else {
                assert(pieces.deep_view() + pieces_from(chars@, sep, stop + 1) =~= before
                    + pieces_from(chars@, sep, start as int));
            }
        }
        if stop == chars.len() {
            return pieces;
        }
        start = stop + 1;
    }
    pieces
}

} // verus!
