//! Splitting a text where the letter case changes.
//!
//! The text is cut before uppercase letters and nowhere else, and no
//! character is dropped. An acronym, uppercase letters in a row with an
//! uppercase and then a lowercase letter behind them, stays in one piece
//! (`XML` in `XMLParser`). Any other uppercase letter that does not begin the
//! text starts a new word (`Pascal`, `Case123` in `PascalCase123`).

use vstd::prelude::*;
use crate::text::{is_lowercase_char, is_uppercase_char};

verus! {

/// The two letter cases that the case split tells apart.
#[derive(Clone, Copy, Debug)]
pub enum LetterCase {
    /// Characters with the Unicode property Uppercase.
    Upper,
    /// Characters with the Unicode property Lowercase.
    Lower,
}

impl LetterCase {
    /// Whether `c` is of this case.
    pub open spec fn holds(self, c: char) -> bool {
        match self {
            LetterCase::Upper => is_uppercase_char(c),
            LetterCase::Lower => is_lowercase_char(c),
        }
    }

    /// Decides whether `c` is of this case.
    pub fn test(self, c: char) -> (r: bool)
        ensures
            r == self.holds(c),
    {
        match self {
            LetterCase::Upper => c.is_uppercase(),
            LetterCase::Lower => c.is_lowercase(),
        }
    }
}

/// Whether `text` has a character of case `case` at index `at`.
pub open spec fn case_at(text: Seq<char>, case: LetterCase, at: int) -> bool {
    0 <= at < text.len() && case.holds(text[at])
}

/// The number of characters of case `case` that `text` holds in a row from
/// `from` on.
pub open spec fn case_run(text: Seq<char>, case: LetterCase, from: int) -> nat
    decreases text.len() - from,
{
    if case_at(text, case, from) {
        1 + case_run(text, case, from + 1)
    } else {
        0
    }
}

/// Whether the `n` characters of `text` from `from` on are an acronym: one
/// or more uppercase letters, with an uppercase letter and then a lowercase
/// letter right after them.
pub open spec fn is_acronym(text: Seq<char>, from: int, n: int) -> bool {
    &&& 1 <= n
    &&& forall|i: int| from <= i <= from + n ==> case_at(text, LetterCase::Upper, i)
    &&& case_at(text, LetterCase::Lower, from + n + 1)
}

/// The greatest `n <= limit` for which an uppercase letter stands at
/// `from + n` and a lowercase letter after it, or 0 where there is none.
pub open spec fn acronym_len_within(text: Seq<char>, from: int, limit: nat) -> nat
    decreases limit,
{
    if limit == 0 {
        0
    } else if case_at(text, LetterCase::Upper, from + limit) && case_at(
        text,
        LetterCase::Lower,
        from + limit + 1,
    ) {
        limit
    } else {
        acronym_len_within(text, from, (limit - 1) as nat)
    }
}

/// The length of the longest acronym of `text` at `from`, or 0 where no
/// acronym starts there.
pub open spec fn acronym_len(text: Seq<char>, from: int) -> nat {
    acronym_len_within(text, from, case_run(text, LetterCase::Upper, from))
}

/// The number of characters of `text` from `from` on that come before the
/// next uppercase letter, or before the end where none follows.
pub open spec fn tail_len(text: Seq<char>, from: int) -> nat
    decreases text.len() - from,
{
    if 0 <= from < text.len() && !is_uppercase_char(text[from]) {
        1 + tail_len(text, from + 1)
    } else {
        0
    }
}

/// The length of the word of `text` that starts at `from`: the acronym
/// there; where there is none, the character at `from` and all that follows
/// it up to the next uppercase letter.
pub open spec fn token_len(text: Seq<char>, from: int) -> nat {
    if acronym_len(text, from) > 0 {
        acronym_len(text, from)
    } else {
        1 + tail_len(text, from + 1)
    }
}

/// The words of `text[from..]`, from left to right: the word that starts at
/// `from`, then the words of what follows it.
pub open spec fn camel_words_from(text: Seq<char>, from: int) -> Seq<Seq<char>>
    decreases text.len() - from,
{
    if from < 0 || from >= text.len() {
        Seq::empty()
    } else {
        let n = token_len(text, from);
        if from + n >= text.len() {
            seq![text.skip(from)]
        } else {
            seq![text.subrange(from, from + n)] + camel_words_from(text, from + n)
        }
    }
}

/// The words that the case split makes of `text`. Put one after the other
/// they are `text` again.
pub open spec fn camel_words(text: Seq<char>) -> Seq<Seq<char>> {
    camel_words_from(text, 0)
}

/// A run of one case ends inside the text, at a character of another kind
/// or at the end, and holds only characters of that case.
pub proof fn lemma_case_run(text: Seq<char>, case: LetterCase, from: int)
    requires
        0 <= from <= text.len(),
    ensures
        from + case_run(text, case, from) <= text.len(),
        !case_at(text, case, from + case_run(text, case, from)),
        forall|i: int| from <= i < from + case_run(text, case, from) ==> case_at(text, case, i),
    decreases text.len() - from,
{
    if case_at(text, case, from) {
        lemma_case_run(text, case, from + 1);
    }
}

/// The tail of a word ends inside the text, at an uppercase letter or at
/// the end, and holds no uppercase letter.
pub proof fn lemma_tail_len(text: Seq<char>, from: int)
    requires
        0 <= from <= text.len(),
    ensures
        from + tail_len(text, from) <= text.len(),
        from + tail_len(text, from) < text.len() ==> is_uppercase_char(
            text[from + tail_len(text, from)],
        ),
        forall|i: int| from <= i < from + tail_len(text, from) ==> !is_uppercase_char(text[i]),
    decreases text.len() - from,
{
    if from < text.len() && !is_uppercase_char(text[from]) {
        lemma_tail_len(text, from + 1);
    }
}

/// What `acronym_len_within` returns is an acronym's length, and no acronym
/// within the limit is longer.
proof fn lemma_acronym_len_within(text: Seq<char>, from: int, limit: nat)
    requires
        0 <= from <= text.len(),
        limit <= case_run(text, LetterCase::Upper, from),
    ensures
        acronym_len_within(text, from, limit) <= limit,
        acronym_len_within(text, from, limit) > 0 ==> is_acronym(
            text,
            from,
            acronym_len_within(text, from, limit) as int,
        ),
        forall|n: int|
            acronym_len_within(text, from, limit) < n <= limit ==> !is_acronym(text, from, n),
    decreases limit,
{
    lemma_case_run(text, LetterCase::Upper, from);
    if limit == 0 {
    } else if case_at(text, LetterCase::Upper, from + limit) && case_at(
        text,
        LetterCase::Lower,
        from + limit + 1,
    ) {
    } else {
        lemma_acronym_len_within(text, from, (limit - 1) as nat);
    }
}

/// `acronym_len` is the length of the longest acronym at `from`: it is an
/// acronym's length unless it is 0, and nothing longer is an acronym.
pub proof fn lemma_acronym_len(text: Seq<char>, from: int)
    requires
        0 <= from <= text.len(),
    ensures
        acronym_len(text, from) > 0 ==> is_acronym(text, from, acronym_len(text, from) as int),
        forall|n: int| acronym_len(text, from) < n ==> !is_acronym(text, from, n),
        from + acronym_len(text, from) <= text.len(),
{
    let run = case_run(text, LetterCase::Upper, from);
    lemma_case_run(text, LetterCase::Upper, from);
    lemma_acronym_len_within(text, from, run);
    assert forall|n: int| acronym_len(text, from) < n implies !is_acronym(text, from, n) by {
        if n > run && is_acronym(text, from, n) {
            assert(case_at(text, LetterCase::Upper, from + run));
        }
    }
}

/// A word has at least one character and ends inside the text, before an
/// uppercase letter or at the end of the text.
pub proof fn lemma_token_len(text: Seq<char>, from: int)
    requires
        0 <= from < text.len(),
    ensures
        1 <= token_len(text, from),
        from + token_len(text, from) <= text.len(),
        from + token_len(text, from) < text.len() ==> is_uppercase_char(
            text[from + token_len(text, from)],
        ),
{
    lemma_acronym_len(text, from);
    lemma_tail_len(text, from + 1);
    if acronym_len(text, from) > 0 {
        assert(case_at(text, LetterCase::Upper, from + acronym_len(text, from)));
    }
}

/// The case split drops nothing and cuts before uppercase letters only: the
/// words of `text[from..]`, put one after the other, are `text[from..]`; no
/// word is empty; and every word but the first begins with an uppercase
/// letter.
pub proof fn lemma_camel_words_join(text: Seq<char>, from: int)
    requires
        0 <= from <= text.len(),
    ensures
        camel_words_from(text, from).flatten() == text.skip(from),
        forall|k: int|
            0 <= k < camel_words_from(text, from).len() ==> (#[trigger] camel_words_from(
                text,
                from,
            )[k]).len() > 0,
        forall|k: int|
            0 < k < camel_words_from(text, from).len() ==> is_uppercase_char(
                (#[trigger] camel_words_from(text, from)[k])[0],
            ),
    decreases text.len() - from,
{
    let words = camel_words_from(text, from);
    if from >= text.len() {
        assert(text.skip(from) =~= Seq::<char>::empty());
        assert(words.flatten() =~= Seq::<char>::empty());
    } else {
        let n = token_len(text, from);
        lemma_token_len(text, from);
        if from + n >= text.len() {
            assert(words =~= seq![text.skip(from)]);
            words.lemma_flatten_one_element();
        } else {
            let word = text.subrange(from, from + n);
            let rest = camel_words_from(text, from + n);
            lemma_camel_words_join(text, from + n);
            assert(words =~= seq![word] + rest);
            assert(words.drop_first() =~= rest);
            assert(words.flatten() =~= word + rest.flatten());
            assert(word + text.skip(from + n) =~= text.skip(from));
            lemma_token_len(text, from + n);
            assert(rest[0][0] == text[from + n]) by {
                if from + n + token_len(text, from + n) >= text.len() {
                    assert(rest[0] == text.skip(from + n));
                } else {
                    assert(rest[0] == text.subrange(
                        from + n,
                        from + n + token_len(text, from + n),
                    ));
                }
            }
            assert forall|k: int| 0 <= k < words.len() implies (#[trigger] words[k]).len()
                > 0 by {
                if k > 0 {
                    assert(words[k] == rest[k - 1]);
                }
            }
            assert forall|k: int| 0 < k < words.len() implies is_uppercase_char(
                (#[trigger] words[k])[0],
            ) by {
                assert(words[k] == rest[k - 1]);
            }
        }
    }
}

/// A text without an uppercase letter behind its first character is one
/// word to the case split.
pub proof fn lemma_camel_whole(text: Seq<char>)
    requires
        text.len() > 0,
        forall|i: int| 0 < i < text.len() ==> !is_uppercase_char(#[trigger] text[i]),
    ensures
        camel_words(text) == seq![text],
{
    lemma_token_len(text, 0);
    assert(text.skip(0) =~= text);
}

/// The end of the run of `case` characters of `chars` that starts at `from`.
fn case_run_end(chars: &Vec<char>, case: LetterCase, from: usize) -> (end: usize)
    requires
        from <= chars.len(),
    ensures
        end == from + case_run(chars@, case, from as int),
        from <= end <= chars.len(),
{
    let mut end: usize = from;
    while end < chars.len() && case.test(chars[end])
        invariant
            from <= end <= chars.len(),
            from + case_run(chars@, case, from as int) == end + case_run(chars@, case, end as int),
        decreases chars.len() - end,
    {
        end += 1;
    }
    end
}

/// The end of the tail of `chars` that starts at `from`: the place of the
/// next uppercase letter, or the end of `chars`.
fn tail_end(chars: &Vec<char>, from: usize) -> (end: usize)
    requires
        from <= chars.len(),
    ensures
        end == from + tail_len(chars@, from as int),
        from <= end <= chars.len(),
{
    let mut end: usize = from;
    while end < chars.len() && !LetterCase::Upper.test(chars[end])
        invariant
            from <= end <= chars.len(),
            from + tail_len(chars@, from as int) == end + tail_len(chars@, end as int),
        decreases chars.len() - end,
    {
        end += 1;
    }
    end
}

/// The end of the longest acronym of `chars` at `from`; `from` itself where
/// no acronym starts there.
fn acronym_end(chars: &Vec<char>, from: usize) -> (end: usize)
    requires
        from <= chars.len(),
    ensures
        end == from + acronym_len(chars@, from as int),
        from <= end <= chars.len(),
{
    let run_end = case_run_end(chars, LetterCase::Upper, from);
    let mut end: usize = run_end;
    while end > from
        invariant
            from <= end <= run_end <= chars.len(),
            acronym_len(chars@, from as int) == acronym_len_within(
                chars@,
                from as int,
                (end - from) as nat,
            ),
        decreases end,
    {
        if end < chars.len() && LetterCase::Upper.test(chars[end]) && end + 1 < chars.len()
            && LetterCase::Lower.test(chars[end + 1]) {
            return end;
        }
        end -= 1;
    }
    end
}

/// The end of the word of `chars` that starts at `from`.
pub(crate) fn token_end(chars: &Vec<char>, from: usize) -> (end: usize)
    requires
        from < chars.len(),
    ensures
        end == from + token_len(chars@, from as int),
        from < end <= chars.len(),
{
    let acronym = acronym_end(chars, from);
    if acronym > from {
        acronym
    } else {
        tail_end(chars, from + 1)
    }
}

} // verus!
