//! The walk over a syntax tree that picks out the texts to check.

use vstd::prelude::*;
use vstd::string::StringSliceAdditionalSpecFns;
use tree_sitter::{Language, Tree};
use crate::dictionary::Dictionary;
use crate::parsing::syntax_tree::{
    current_node, cursor_index, cursor_nodes, cursor_wf, goto_next_node, parse_with,
    parsed_nodes, tree_nodes, SyntaxNode,
};
use crate::report::{count_typos, typo_count, FileCount};
use crate::text::{is_text_span, slice_text, span_text};

verus! {

/// Whether nodes of kind `kind` are checked for typos: comments, string
/// fragments, identifiers and property identifiers are.
pub open spec fn is_candidate_kind(kind: Seq<char>) -> bool {
    ||| kind == "comment"@
    ||| kind == "string_fragment"@
    ||| kind == "identifier"@
    ||| kind == "property_identifier"@
}

/// Decides whether nodes of kind `kind` are checked for typos.
pub fn is_candidate(kind: &str) -> (r: bool)
    ensures
        r == is_candidate_kind(kind@),
{
    kind.eq("comment") || kind.eq("string_fragment") || kind.eq("identifier") || kind.eq(
        "property_identifier",
    )
}

/// The text of a node that is checked for typos, with the node's kind. The
/// text is a part of the source, not a copy.
#[derive(Clone, Copy, Debug)]
pub struct CandidateSpan<'a> {
    /// The part of the source text that the node covers.
    pub text: &'a str,
    /// The node's kind.
    pub kind: &'a str,
}

/// A candidate span as a value: the characters of its text and of its kind.
pub struct SpanView {
    /// The characters of the text.
    pub text: Seq<char>,
    /// The characters of the kind.
    pub kind: Seq<char>,
}

impl<'a> View for CandidateSpan<'a> {
    type V = SpanView;

    open spec fn view(&self) -> SpanView {
        SpanView { text: self.text@, kind: self.kind@ }
    }
}

/// The byte range of a node that is not a text of its own in the source:
/// it reaches outside the source, or one of its ends cuts a character.
#[derive(Clone, Copy, Debug)]
pub struct ExtractError {
    /// The offset of the node's first byte.
    pub start: usize,
    /// The offset behind the node's last byte.
    pub end: usize,
}

/// Whether the node at `at` is a candidate whose byte range is no text of
/// its own in the source `bytes`.
pub open spec fn is_broken_candidate(bytes: Seq<u8>, nodes: Seq<SyntaxNode>, at: int) -> bool {
    &&& 0 <= at < nodes.len()
    &&& is_candidate_kind(nodes[at].kind)
    &&& !is_text_span(bytes, nodes[at].start as int, nodes[at].end as int)
}

/// The candidate span that the source `bytes` holds for `node`.
pub open spec fn span_of(bytes: Seq<u8>, node: SyntaxNode) -> SpanView {
    SpanView { text: span_text(bytes, node.start as int, node.end as int), kind: node.kind }
}

/// The candidate spans of `nodes` in the source `bytes`: one for each node
/// of a candidate kind, in the order of the nodes.
pub open spec fn candidate_spans(bytes: Seq<u8>, nodes: Seq<SyntaxNode>) -> Seq<SpanView> {
    nodes.filter(|node: SyntaxNode| is_candidate_kind(node.kind)).map_values(
        |node: SyntaxNode| span_of(bytes, node),
    )
}

/// The values of `spans`.
pub open spec fn span_views(spans: Seq<CandidateSpan<'_>>) -> Seq<SpanView> {
    spans.map_values(|span: CandidateSpan<'_>| span@)
}

/// Whether `error` is the byte range of the first candidate among `nodes`,
/// in document order, whose range is no text of its own in `bytes`.
pub open spec fn is_first_broken(bytes: Seq<u8>, nodes: Seq<SyntaxNode>, error: ExtractError) -> bool {
    exists|at: int|
        {
            &&& #[trigger] is_broken_candidate(bytes, nodes, at)
            &&& forall|before: int| before < at ==> !is_broken_candidate(bytes, nodes, before)
            &&& error.start == nodes[at].start
            &&& error.end == nodes[at].end
        }
}

/// Whether `count` is the result for a file with the source `bytes` and
/// the syntax nodes `nodes`: every candidate's range is a text of its own,
/// `total` is the number of candidates and `found` the number of those
/// whose text is a typo.
pub open spec fn is_file_count(
    bytes: Seq<u8>,
    nodes: Seq<SyntaxNode>,
    dictionary: Set<Seq<char>>,
    count: FileCount,
) -> bool {
    &&& forall|at: int| !is_broken_candidate(bytes, nodes, at)
    &&& count.total == candidate_spans(bytes, nodes).len()
    &&& count.found == typo_count(dictionary, candidate_spans(bytes, nodes))
    &&& count.found <= count.total
}

/// Walks `tree` in document order and returns the text of every node of
/// a candidate kind, cut out of `source` by the node's byte range.
///
/// The walk stops at the first candidate whose byte range is no text of its
/// own in `source`, and returns that range as the error.
pub fn traverse_tree<'a>(tree: &'a Tree, source: &'a str) -> (result: Result<
    Vec<CandidateSpan<'a>>,
    ExtractError,
>)
    ensures
        match result {
            Ok(spans) => {
                &&& forall|at: int| !is_broken_candidate(source.spec_bytes(), tree_nodes(*tree), at)
                &&& span_views(spans@) == candidate_spans(source.spec_bytes(), tree_nodes(*tree))
            },
            Err(error) => is_first_broken(source.spec_bytes(), tree_nodes(*tree), error),
        },
{
    let ghost nodes = tree_nodes(*tree);
    let ghost bytes = source.spec_bytes();
    let ghost wanted = |node: SyntaxNode| is_candidate_kind(node.kind);
    let ghost cut = |node: SyntaxNode| span_of(bytes, node);
    let mut cursor = tree.walk();
    let mut spans: Vec<CandidateSpan<'a>> = Vec::new();
    proof {
        assert(nodes.take(0) =~= Seq::<SyntaxNode>::empty());
        assert(span_views(spans@) =~= nodes.take(0).filter(wanted).map_values(cut));
    }
    loop
        invariant
            cursor_wf(cursor),
            cursor_nodes(cursor) == nodes,
            nodes == tree_nodes(*tree),
            bytes == source.spec_bytes(),
            wanted == |node: SyntaxNode| is_candidate_kind(node.kind),
            cut == |node: SyntaxNode| span_of(bytes, node),
            forall|before: int|
                before < cursor_index(cursor) ==> !is_broken_candidate(bytes, nodes, before),
            span_views(spans@) == nodes.take(cursor_index(cursor)).filter(wanted).map_values(cut),
        decreases nodes.len() - cursor_index(cursor),
    {
        let ghost at = cursor_index(cursor);
        let ghost seen = nodes.take(at);
        let ghost views = span_views(spans@);
        let info = current_node(&cursor);
        proof {
            assert(nodes.take(at + 1) =~= seen.push(nodes[at]));
            Seq::lemma_filter_push(seen, nodes[at], wanted);
        }
        if is_candidate(info.kind) {
            match slice_text(source, info.start, info.end) {
                Some(text) => {
                    spans.push(CandidateSpan { text, kind: info.kind });
                    assert(span_views(spans@) =~= views.push(span_of(bytes, nodes[at])));
                    assert(seen.filter(wanted).push(nodes[at]).map_values(cut) =~= views.push(
                        span_of(bytes, nodes[at]),
                    ));
                },
                None => {
                    assert(is_broken_candidate(bytes, nodes, at));
                    return Err(ExtractError { start: info.start, end: info.end });
                },
            }
        }
        if !goto_next_node(&mut cursor) {
            assert(nodes.take(at + 1) =~= nodes);
            return Ok(spans);
        }
    }
}

/// Analyses one parsed file: walks `tree`, classifies the text of every
/// candidate and counts. Fails, with the offending byte range, where a
/// candidate's range is no text of its own in `source`.
pub fn check_tree(tree: &Tree, source: &str, dictionary: &Dictionary) -> (result: Result<
    FileCount,
    ExtractError,
>)
    ensures
        match result {
            Ok(count) => is_file_count(
                source.spec_bytes(),
                tree_nodes(*tree),
                dictionary@,
                count,
            ),
            Err(error) => is_first_broken(source.spec_bytes(), tree_nodes(*tree), error),
        },
{
    match traverse_tree(tree, source) {
        Ok(spans) => Ok(count_typos(&spans, dictionary)),
        Err(error) => Err(error),
    }
}

/// Why the analysis of a file failed.
#[derive(Clone, Copy, Debug)]
pub enum FileError {
    /// The parser did not accept the grammar, or gave no syntax tree.
    Parse,
    /// A candidate's byte range is no text of its own in the source.
    Extract(ExtractError),
}

/// Analyses one file from what the parser gave for it: without a tree the
/// file failed to parse; with one, the result is that of `check_tree`.
pub fn check_parsed(tree: Option<Tree>, source: &str, dictionary: &Dictionary) -> (result: Result<
    FileCount,
    FileError,
>)
    ensures
        tree is None ==> result matches Err(FileError::Parse),
        tree matches Some(parsed) ==> match result {
            Ok(count) => is_file_count(
                source.spec_bytes(),
                tree_nodes(parsed),
                dictionary@,
                count,
            ),
            Err(FileError::Extract(error)) => is_first_broken(
                source.spec_bytes(),
                tree_nodes(parsed),
                error,
            ),
            Err(FileError::Parse) => false,
        },
{
    match tree {
        None => Err(FileError::Parse),
        Some(parsed) => match check_tree(&parsed, source, dictionary) {
            Ok(count) => Ok(count),
            Err(error) => Err(FileError::Extract(error)),
        },
    }
}

/// Analyses the text of one file: parses `content` with the grammar
/// `language`, walks the syntax tree, and counts the candidates and the
/// typos among them.
///
/// Fails with `FileError::Parse` exactly where the parser refuses the
/// grammar or gives no tree for `content`; else the result is that of
/// `check_tree` for the tree of `content`.
pub fn parse_file(content: &str, language: &Language, dictionary: &Dictionary) -> (result: Result<
    FileCount,
    FileError,
>)
    ensures
        match parsed_nodes(*language, content@) {
            None => result matches Err(FileError::Parse),
            Some(nodes) => match result {
                Ok(count) => is_file_count(content.spec_bytes(), nodes, dictionary@, count),
                Err(FileError::Extract(error)) => is_first_broken(
                    content.spec_bytes(),
                    nodes,
                    error,
                ),
                Err(FileError::Parse) => false,
            },
        },
{
    check_parsed(parse_with(language, content), content, dictionary)
}

} // verus!
