//! The syntax tree as the walk sees it: its nodes in document order, and a
//! cursor that stands on one of them.
//!
//! A tree-sitter tree is read through a cursor that can step to the first
//! child, to the next sibling and to the parent of the node it stands on.
//! Here the tree is modelled by the list of its nodes in document order
//! (every node before its children, the children from left to right), each
//! with its depth below the root. Children, siblings and parents are then
//! relations between positions in that list.

use vstd::prelude::*;
use tree_sitter::{Language, Parser, Tree, TreeCursor};

verus! {

/// A syntax tree of tree-sitter, opaque to the verifier.
#[verifier::external_type_specification]
#[verifier::external_body]
pub struct ExTree(Tree);

/// A cursor of tree-sitter over a syntax tree, opaque to the verifier.
#[verifier::external_type_specification]
#[verifier::external_body]
pub struct ExTreeCursor<'tree>(TreeCursor<'tree>);

/// A grammar of tree-sitter, opaque to the verifier.
#[verifier::external_type_specification]
#[verifier::external_body]
pub struct ExLanguage(Language);

/// What the walk reads of a node.
pub struct SyntaxNode {
    /// The node's depth in the tree: a child lies one level deeper than
    /// its parent.
    pub depth: nat,
    /// The node's kind, as the grammar names it.
    pub kind: Seq<char>,
    /// The offset of the node's first byte in the source text.
    pub start: nat,
    /// The offset behind the node's last byte in the source text.
    pub end: nat,
}

/// The nodes of `tree` in document order.
pub uninterp spec fn tree_nodes(tree: Tree) -> Seq<SyntaxNode>;

/// The nodes of the tree that `cursor` walks, in document order.
pub uninterp spec fn cursor_nodes(cursor: TreeCursor<'_>) -> Seq<SyntaxNode>;

/// The position in `cursor_nodes` of the node that `cursor` stands on.
pub uninterp spec fn cursor_index(cursor: TreeCursor<'_>) -> int;

/// Whether `nodes` can be the nodes of a tree in document order: the root
/// comes first, and every other node lies below it.
pub open spec fn is_document_order(nodes: Seq<SyntaxNode>) -> bool {
    &&& nodes.len() > 0
    &&& forall|i: int| 0 < i < nodes.len() ==> (#[trigger] nodes[i]).depth > nodes[0].depth
}

/// Whether the node at `node` has a child: the node after it lies deeper.
pub open spec fn has_child(nodes: Seq<SyntaxNode>, node: int) -> bool {
    node + 1 < nodes.len() && nodes[node + 1].depth > nodes[node].depth
}

/// Whether the node at `sibling` is the next sibling of the node at `node`:
/// the first node behind it on the same depth, with only deeper nodes, the
/// descendants of `node`, between the two.
pub open spec fn is_next_sibling(nodes: Seq<SyntaxNode>, node: int, sibling: int) -> bool {
    &&& node < sibling < nodes.len()
    &&& nodes[sibling].depth == nodes[node].depth
    &&& forall|k: int| node < k < sibling ==> (#[trigger] nodes[k]).depth > nodes[node].depth
}

/// Whether the node at `parent` is the parent of the node at `node`: the
/// last node before it that lies one level higher, with no node above the
/// depth of `node` between the two.
pub open spec fn is_parent(nodes: Seq<SyntaxNode>, node: int, parent: int) -> bool {
    &&& 0 <= parent < node
    &&& nodes[parent].depth + 1 == nodes[node].depth
    &&& forall|k: int| parent < k < node ==> (#[trigger] nodes[k]).depth >= nodes[node].depth
}

/// Whether `cursor` stands on a node of a tree in document order.
pub open spec fn cursor_wf(cursor: TreeCursor<'_>) -> bool {
    &&& is_document_order(cursor_nodes(cursor))
    &&& 0 <= cursor_index(cursor) < cursor_nodes(cursor).len()
}

/// `Tree::walk` of tree-sitter: the new cursor walks the nodes of `tree`
/// and stands on its root, the first node in document order.
pub assume_specification<'a>[ Tree::walk ](tree: &'a Tree) -> (cursor: TreeCursor<'a>)
    ensures
        cursor_nodes(cursor) == tree_nodes(*tree),
        cursor_index(cursor) == 0,
        is_document_order(cursor_nodes(cursor)),
;

/// `TreeCursor::goto_first_child` of tree-sitter: where the node has
/// children the cursor moves to the first of them, which is the next node
/// in document order, and the call returns `true`; else the cursor stays
/// and the call returns `false`.
pub assume_specification<'tree>[ TreeCursor::<'tree>::goto_first_child ](
    cursor: &mut TreeCursor<'tree>,
) -> (moved: bool)
    ensures
        cursor_nodes(*final(cursor)) == cursor_nodes(*old(cursor)),
        moved == has_child(cursor_nodes(*old(cursor)), cursor_index(*old(cursor))),
        moved ==> cursor_index(*final(cursor)) == cursor_index(*old(cursor)) + 1,
        !moved ==> cursor_index(*final(cursor)) == cursor_index(*old(cursor)),
;

/// `TreeCursor::goto_next_sibling` of tree-sitter: where the node has a
/// next sibling the cursor moves to it and the call returns `true`; else
/// the cursor stays and the call returns `false`.
pub assume_specification<'tree>[ TreeCursor::<'tree>::goto_next_sibling ](
    cursor: &mut TreeCursor<'tree>,
) -> (moved: bool)
    ensures
        cursor_nodes(*final(cursor)) == cursor_nodes(*old(cursor)),
        moved ==> is_next_sibling(
            cursor_nodes(*old(cursor)),
            cursor_index(*old(cursor)),
            cursor_index(*final(cursor)),
        ),
        !moved ==> cursor_index(*final(cursor)) == cursor_index(*old(cursor)),
        !moved ==> forall|sibling: int|
            !is_next_sibling(cursor_nodes(*old(cursor)), cursor_index(*old(cursor)), sibling),
;

/// `TreeCursor::goto_parent` of tree-sitter: on the root the cursor stays
/// and the call returns `false`; on any other node the cursor moves to the
/// node's parent and the call returns `true`.
pub assume_specification<'tree>[ TreeCursor::<'tree>::goto_parent ](
    cursor: &mut TreeCursor<'tree>,
) -> (moved: bool)
    ensures
        cursor_nodes(*final(cursor)) == cursor_nodes(*old(cursor)),
        moved == (cursor_index(*old(cursor)) != 0),
        moved ==> is_parent(
            cursor_nodes(*old(cursor)),
            cursor_index(*old(cursor)),
            cursor_index(*final(cursor)),
        ),
        !moved ==> cursor_index(*final(cursor)) == cursor_index(*old(cursor)),
;

/// The nodes, in document order, of the syntax tree that a parser with the
/// grammar `language` gives for `text`; `None` where the parser refuses the
/// grammar or gives no tree.
pub uninterp spec fn parsed_nodes(language: Language, text: Seq<char>) -> Option<Seq<SyntaxNode>>;

/// Parses `text` with the grammar `language`.
///
/// This is `Parser::parse` of tree-sitter, on a parser from `Parser::new`
/// that `Parser::set_language` gave the grammar, and without an earlier
/// tree. Whether a tree comes back, and which, depends on the grammar and
/// the text alone; `parsed_nodes` is the name for its nodes.
#[verifier::external_body]
pub(crate) fn parse_with(language: &Language, text: &str) -> (tree: Option<Tree>)
    ensures
        tree matches Some(parsed) ==> parsed_nodes(*language, text@) == Some(tree_nodes(parsed)),
        tree is None ==> parsed_nodes(*language, text@) is None,
{
    let mut parser = Parser::new();
    parser.set_language(language).ok()?;
    parser.parse(text, None)
}

/// The kind and the byte range of a node, as the walk reads them.
pub struct NodeInfo<'a> {
    /// The node's kind.
    pub kind: &'a str,
    /// The offset of the node's first byte.
    pub start: usize,
    /// The offset behind the node's last byte.
    pub end: usize,
}

/// `TreeCursor::node` of tree-sitter, with `Node::kind`, `Node::start_byte`
/// and `Node::end_byte` of the node it returns: the kind and the byte range
/// of the node that the cursor stands on. `Node::kind` expects the grammar
/// to name its kinds in UTF-8, as every generated grammar does.
#[verifier::external_body]
pub(crate) fn current_node<'a>(cursor: &TreeCursor<'a>) -> (info: NodeInfo<'a>)
    ensures
        info.kind@ == cursor_nodes(*cursor)[cursor_index(*cursor)].kind,
        info.start == cursor_nodes(*cursor)[cursor_index(*cursor)].start,
        info.end == cursor_nodes(*cursor)[cursor_index(*cursor)].end,
{
    let node = cursor.node();
    NodeInfo { kind: node.kind(), start: node.start_byte(), end: node.end_byte() }
}

/// Moves `cursor` to the next node in document order: to the first child
/// of its node, else to the next sibling of the node or of the nearest
/// ancestor that has one. Returns `false` where the node was the last one;
/// the cursor then stands on the root.
pub fn goto_next_node<'tree>(cursor: &mut TreeCursor<'tree>) -> (moved: bool)
    requires
        cursor_wf(*old(cursor)),
    ensures
        cursor_wf(*final(cursor)),
        cursor_nodes(*final(cursor)) == cursor_nodes(*old(cursor)),
        moved == (cursor_index(*old(cursor)) + 1 < cursor_nodes(*old(cursor)).len()),
        moved ==> cursor_index(*final(cursor)) == cursor_index(*old(cursor)) + 1,
        !moved ==> cursor_index(*final(cursor)) == 0,
{
    let ghost nodes = cursor_nodes(*cursor);
    let ghost last = cursor_index(*cursor);
    if cursor.goto_first_child() {
        return true;
    }
    loop
        invariant
            nodes == cursor_nodes(*old(cursor)),
            last == cursor_index(*old(cursor)),
            nodes == cursor_nodes(*cursor),
            is_document_order(nodes),
            0 <= cursor_index(*cursor) <= last < nodes.len(),
            forall|k: int| cursor_index(*cursor) < k <= last ==> (#[trigger] nodes[k]).depth
                > nodes[cursor_index(*cursor)].depth,
            last + 1 < nodes.len() ==> nodes[last + 1].depth <= nodes[cursor_index(*cursor)].depth,
        decreases cursor_index(*cursor),
    {
        let ghost at = cursor_index(*cursor);
        if cursor.goto_next_sibling() {
            proof {
                let sibling = cursor_index(*cursor);
                if sibling <= last {
                    assert(nodes[sibling].depth > nodes[at].depth);
                }
                if sibling > last + 1 {
                    assert(nodes[last + 1].depth > nodes[at].depth);
                }
            }
            return true;
        }
        proof {
            if last + 1 < nodes.len() && nodes[last + 1].depth == nodes[at].depth {
                assert(is_next_sibling(nodes, at, last + 1));
            }
        }
        if !cursor.goto_parent() {
            proof {
                if last + 1 < nodes.len() {
                    assert(nodes[last + 1].depth > nodes[0].depth);
                }
            }
            return false;
        }
    }
}

} // verus!
