//! Counts: how many of a file's candidates are typos, and the sums over the
//! files of a run.

use vstd::prelude::*;
use crate::classifier::{is_typo, is_typo_spec, lemma_unknown_ascii_lowercase_word_is_typo};
use crate::dictionary::Dictionary;
use crate::parsing::parser::{span_views, CandidateSpan, SpanView};
use crate::parsing::word_separator::{is_ascii_lowercase_word, MIN_WORD_LEN};

verus! {

/// The result for one file: how many candidates it has, and how many of
/// them are typos.
#[derive(Clone, Copy, Debug, PartialEq, Eq, Structural)]
pub struct FileCount {
    /// The number of candidates that are typos.
    pub found: usize,
    /// The number of candidates.
    pub total: usize,
}

/// The number of `spans` whose text is a typo.
pub open spec fn typo_count(dictionary: Set<Seq<char>>, spans: Seq<SpanView>) -> nat {
    spans.filter(|span: SpanView| is_typo_spec(dictionary, span.text)).len()
}

/// Classifies the text of every span and counts: every span adds one to
/// `total`, a span whose text is a typo adds one to `found`.
pub fn count_typos(spans: &Vec<CandidateSpan<'_>>, dictionary: &Dictionary) -> (count: FileCount)
    ensures
        count.total == spans.len(),
        count.found == typo_count(dictionary@, span_views(spans@)),
        count.found <= count.total,
{
    let ghost typo = |span: SpanView| is_typo_spec(dictionary@, span.text);
    let ghost views = span_views(spans@);
    let mut found: usize = 0;
    let mut i: usize = 0;
    assert(views.take(0) =~= Seq::<SpanView>::empty());
    while i < spans.len()
        invariant
            i <= spans.len(),
            views == span_views(spans@),
            typo == |span: SpanView| is_typo_spec(dictionary@, span.text),
            found == views.take(i as int).filter(typo).len(),
            found <= i,
        decreases spans.len() - i,
    {
        proof {
            assert(views.take(i + 1) =~= views.take(i as int).push(spans[i as int]@));
            Seq::lemma_filter_push(views.take(i as int), spans[i as int]@, typo);
        }
        if is_typo(spans[i].text, dictionary) {
            found += 1;
        }
        i += 1;
    }
    assert(views.take(spans.len() as int) =~= views);
    FileCount { found, total: spans.len() }
}

/// A candidate whose text has fewer than three characters adds to the
/// number of candidates and never to the number of typos.
pub proof fn lemma_short_span_is_not_counted(
    dictionary: Set<Seq<char>>,
    spans: Seq<SpanView>,
    span: SpanView,
)
    requires
        span.text.len() < MIN_WORD_LEN,
    ensures
        spans.push(span).len() == spans.len() + 1,
        typo_count(dictionary, spans.push(span)) == typo_count(dictionary, spans),
{
    let typo = |span: SpanView| is_typo_spec(dictionary, span.text);
    Seq::lemma_filter_push(spans, span, typo);
}

/// A candidate whose text is an unknown word of three or more of the letters
/// `a` to `z` adds one to the number of candidates and one to the number of
/// typos.
pub proof fn lemma_unknown_ascii_word_is_counted(
    dictionary: Set<Seq<char>>,
    spans: Seq<SpanView>,
    span: SpanView,
)
    requires
        span.text.len() >= MIN_WORD_LEN,
        is_ascii_lowercase_word(span.text),
        !dictionary.contains(span.text),
    ensures
        spans.push(span).len() == spans.len() + 1,
        typo_count(dictionary, spans.push(span)) == typo_count(dictionary, spans) + 1,
{
    let typo = |span: SpanView| is_typo_spec(dictionary, span.text);
    lemma_unknown_ascii_lowercase_word_is_typo(dictionary, span.text);
    Seq::lemma_filter_push(spans, span, typo);
}

/// Sums over the files of a run, as numbers without an upper limit.
pub struct Totals {
    /// The typos found in all the files.
    pub found: nat,
    /// The candidates of all the files.
    pub total: nat,
    /// The files that were analysed without a failure.
    pub files: nat,
}

impl Totals {
    /// The sums over no file.
    pub open spec fn zero() -> Totals {
        Totals { found: 0, total: 0, files: 0 }
    }

    /// What one file adds: its counts and one file where its analysis
    /// succeeded, nothing where it failed.
    pub open spec fn of_file(result: Option<FileCount>) -> Totals {
        match result {
            Some(count) => Totals { found: count.found as nat, total: count.total as nat, files: 1 },
            None => Totals::zero(),
        }
    }

    /// The sums of two sets of files together.
    pub open spec fn plus(self, other: Totals) -> Totals {
        Totals {
            found: self.found + other.found,
            total: self.total + other.total,
            files: self.files + other.files,
        }
    }

    /// Whether every sum fits the machine's word.
    pub open spec fn fits(self) -> bool {
        self.found <= usize::MAX && self.total <= usize::MAX && self.files <= usize::MAX
    }
}

/// The sums over the files whose results are `results`.
pub open spec fn totals_of(results: Seq<Option<FileCount>>) -> Totals
    decreases results.len(),
{
    if results.len() == 0 {
        Totals::zero()
    } else {
        totals_of(results.drop_last()).plus(Totals::of_file(results.last()))
    }
}

/// The summary of a run: the sums of `found` and `total` over the files,
/// and the number of files that were analysed without a failure.
#[derive(Clone, Copy, Debug, PartialEq, Eq, Structural)]
pub struct RunSummary {
    /// The typos found in all the files.
    pub found: usize,
    /// The candidates of all the files.
    pub total: usize,
    /// The files that were analysed without a failure.
    pub files: usize,
}

impl View for RunSummary {
    type V = Totals;

    open spec fn view(&self) -> Totals {
        Totals { found: self.found as nat, total: self.total as nat, files: self.files as nat }
    }
}

impl RunSummary {
    /// The summary of a run without files.
    pub fn new() -> (summary: Self)
        ensures
            summary@ == Totals::zero(),
    {
        RunSummary { found: 0, total: 0, files: 0 }
    }

    /// The summary of one file: a failed file adds nothing and is not
    /// counted.
    pub fn of_file(result: Option<FileCount>) -> (summary: Self)
        ensures
            summary@ == Totals::of_file(result),
    {
        match result {
            Some(count) => RunSummary { found: count.found, total: count.total, files: 1 },
            None => RunSummary::new(),
        }
    }

    /// The summary of two sets of files together, or `None` where a sum
    /// does not fit the machine's word.
    pub fn merge(self, other: RunSummary) -> (merged: Option<RunSummary>)
        ensures
            merged is Some <==> self@.plus(other@).fits(),
            merged matches Some(summary) ==> summary@ == self@.plus(other@),
    {
        if other.found > usize::MAX - self.found || other.total > usize::MAX - self.total
            || other.files > usize::MAX - self.files {
            return None;
        }
        Some(
            RunSummary {
                found: self.found + other.found,
                total: self.total + other.total,
                files: self.files + other.files,
            },
        )
    }
}

/// The sums only grow with more files.
pub proof fn lemma_totals_grow(results: Seq<Option<FileCount>>, n: int)
    requires
        0 <= n <= results.len(),
    ensures
        totals_of(results.take(n)).found <= totals_of(results).found,
        totals_of(results.take(n)).total <= totals_of(results).total,
        totals_of(results.take(n)).files <= totals_of(results).files,
    decreases results.len(),
{
    if n == results.len() {
        assert(results.take(n) =~= results);
    } else {
        assert(results.drop_last().take(n) =~= results.take(n));
        lemma_totals_grow(results.drop_last(), n);
    }
}

/// Adds up the results of the files of a run. A failed file, given as
/// `None`, adds nothing and is not counted. Returns `None` where a sum does
/// not fit the machine's word.
pub fn summarize(results: &Vec<Option<FileCount>>) -> (summary: Option<RunSummary>)
    ensures
        summary is Some <==> totals_of(results@).fits(),
        summary matches Some(sums) ==> sums@ == totals_of(results@),
{
    let mut sums = RunSummary::new();
    let mut i: usize = 0;
    assert(results@.take(0) =~= Seq::<Option<FileCount>>::empty());
    while i < results.len()
        invariant
            i <= results.len(),
            sums@ == totals_of(results@.take(i as int)),
        decreases results.len() - i,
    {
        proof {
            assert(results@.take(i + 1).drop_last() =~= results@.take(i as int));
            lemma_totals_grow(results@, i + 1);
        }
        match sums.merge(RunSummary::of_file(results[i])) {
            Some(next) => {
                sums = next;
            },
            None => {
                return None;
            },
        }
        i += 1;
    }
    assert(results@.take(results.len() as int) =~= results@);
    Some(sums)
}

/// Adding up is commutative and associative: sums of parts of a run can be
/// combined in any grouping and any order.
pub proof fn lemma_plus_commutes_and_associates(a: Totals, b: Totals, c: Totals)
    ensures
        a.plus(b) == b.plus(a),
        a.plus(b).plus(c) == a.plus(b.plus(c)),
        a.plus(Totals::zero()) == a,
{
}

/// The sums over two lists of files, one after the other, are the sums of
/// the two lists added up.
pub proof fn lemma_totals_concat(first: Seq<Option<FileCount>>, second: Seq<Option<FileCount>>)
    ensures
        totals_of(first + second) == totals_of(first).plus(totals_of(second)),
    decreases second.len(),
{
    if second.len() == 0 {
        assert(first + second =~= first);
    } else {
        assert((first + second).drop_last() =~= first + second.drop_last());
        lemma_totals_concat(first, second.drop_last());
    }
}

/// Taking one file out of the list takes its counts out of the sums.
proof fn lemma_totals_remove(results: Seq<Option<FileCount>>, at: int)
    requires
        0 <= at < results.len(),
    ensures
        totals_of(results) == totals_of(results.remove(at)).plus(Totals::of_file(results[at])),
    decreases results.len(),
{
    if at == results.len() - 1 {
        assert(results.remove(at) =~= results.drop_last());
    } else {
        assert(results.remove(at).drop_last() =~= results.drop_last().remove(at));
        lemma_totals_remove(results.drop_last(), at);
    }
}

/// The sums do not depend on the order of the files: two lists that hold
/// the same results, each as often as the other, have the same sums.
pub proof fn lemma_totals_any_order(
    first: Seq<Option<FileCount>>,
    second: Seq<Option<FileCount>>,
)
    requires
        first.to_multiset() == second.to_multiset(),
    ensures
        totals_of(first) == totals_of(second),
    decreases first.len(),
{
    first.to_multiset_ensures();
    second.to_multiset_ensures();
    if first.len() != 0 {
        let last = first.last();
        let rest = first.drop_last();
        rest.to_multiset_ensures();
        assert(first =~= rest.push(last));
        assert(first.to_multiset().count(last) > 0) by {
            assert(first[first.len() - 1] == last);
        }
        let at = choose|at: int| 0 <= at < second.len() && second[at] == last;
        assert(rest.to_multiset() =~= second.remove(at).to_multiset()) by {
            assert(first.to_multiset().remove(last) =~= rest.to_multiset());
        }
        lemma_totals_any_order(rest, second.remove(at));
        lemma_totals_remove(second, at);
    }
}

} // verus!
