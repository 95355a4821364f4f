//! The parser service: tree-sitter and the grammars linked into this build.

use vstd::prelude::*;

verus! {

#[verifier::external_type_specification]
#[verifier::external_body]
pub struct ExTree(tree_sitter::Tree);

/// What the parser reports of one node, with its depth below the root.
pub struct NodeInfo {
    pub depth: u32,
    pub kind_id: u16,
    pub kind: Seq<char>,
    pub is_named: bool,
    pub is_missing: bool,
    pub start: usize,
    pub end: usize,
}

/// One node of a parse tree as plain values.
pub struct RawNode {
    pub depth: u32,
    pub kind_id: u16,
    pub kind: String,
    pub is_named: bool,
    pub is_missing: bool,
    pub start: usize,
    pub end: usize,
}

impl RawNode {
    pub open spec fn view(&self) -> NodeInfo {
        NodeInfo {
            depth: self.depth,
            kind_id: self.kind_id,
            kind: self.kind@,
            is_named: self.is_named,
            is_missing: self.is_missing,
            start: self.start,
            end: self.end,
        }
    }
}

/// The nodes of a parse tree, in pre-order.
pub uninterp spec fn tree_nodes(t: tree_sitter::Tree) -> Seq<NodeInfo>;

/// The nodes, in pre-order, of the parse of a source with the TSX grammar.
pub uninterp spec fn tsx_parse(src: Seq<char>) -> Seq<NodeInfo>;

/// The nodes, in pre-order, of the parse of a source with the TypeScript grammar.
pub uninterp spec fn typescript_parse(src: Seq<char>) -> Seq<NodeInfo>;

/// The id of a named node kind in the TSX grammar, as tree-sitter looks it
/// up (0 where there is none).
pub uninterp spec fn tsx_kind_id(name: Seq<char>) -> u16;

/// The id of a named node kind in the TypeScript grammar, as tree-sitter
/// looks it up (0 where there is none).
pub uninterp spec fn typescript_kind_id(name: Seq<char>) -> u16;

/// Relies on `tree_sitter::Parser::{new, set_language, parse}` with
/// `tree_sitter_typescript::LANGUAGE_TSX`: the grammar's ABI version is one
/// this tree-sitter accepts, and a parser with a language, no timeout and no
/// cancellation flag always returns a tree, which has at least its root.
#[verifier::external_body]
pub(crate) fn parse_tsx(src: &str) -> (r: tree_sitter::Tree)
    ensures
        tree_nodes(r) == tsx_parse(src@),
        tree_nodes(r).len() >= 1,
{
    let mut parser = tree_sitter::Parser::new();
    parser.set_language(&tree_sitter_typescript::LANGUAGE_TSX.into()).expect("supported grammar version");
    parser.parse(src, None).expect("a parser with a language returns a tree")
}

/// Relies on `tree_sitter::Parser::{new, set_language, parse}` with
/// `tree_sitter_typescript::LANGUAGE_TYPESCRIPT`, as `parse_tsx` does.
#[verifier::external_body]
pub(crate) fn parse_typescript(src: &str) -> (r: tree_sitter::Tree)
    ensures
        tree_nodes(r) == typescript_parse(src@),
        tree_nodes(r).len() >= 1,
{
    let mut parser = tree_sitter::Parser::new();
    parser.set_language(&tree_sitter_typescript::LANGUAGE_TYPESCRIPT.into()).expect("supported grammar version");
    parser.parse(src, None).expect("a parser with a language returns a tree")
}

/// Relies on `tree_sitter::Node::descendant_count` of the root: the number of
/// nodes in the tree, the root included.
#[verifier::external_body]
pub(crate) fn tree_size(tree: &tree_sitter::Tree) -> (r: usize)
    ensures
        r == tree_nodes(*tree).len(),
{
    tree.root_node().descendant_count()
}

/// Relies on `tree_sitter::TreeCursor::{goto_descendant, depth, node}` and on
/// the node's `kind_id`, `kind`, `is_named`, `is_missing`, `start_byte` and
/// `end_byte`: the node at position `index` of the tree in pre-order.
#[verifier::external_body]
pub(crate) fn tree_descendant(tree: &tree_sitter::Tree, index: usize) -> (r: RawNode)
    requires
        index < tree_nodes(*tree).len(),
    ensures
        r@ == tree_nodes(*tree)[index as int],
{
    let mut cursor = tree.walk();
    cursor.goto_descendant(index);
    let node = cursor.node();
    RawNode {
        depth: cursor.depth(),
        kind_id: node.kind_id(),
        kind: node.kind().to_string(),
        is_named: node.is_named(),
        is_missing: node.is_missing(),
        start: node.start_byte(),
        end: node.end_byte(),
    }
}

/// Relies on `tree_sitter::Language::id_for_node_kind` for a named kind of
/// the TSX grammar.
#[verifier::external_body]
pub(crate) fn tsx_kind(name: &str) -> (r: u16)
    ensures
        r == tsx_kind_id(name@),
{
    let grammar: tree_sitter::Language = tree_sitter_typescript::LANGUAGE_TSX.into();
    grammar.id_for_node_kind(name, true)
}

/// Relies on `tree_sitter::Language::id_for_node_kind` for a named kind of
/// the TypeScript grammar.
#[verifier::external_body]
pub(crate) fn typescript_kind(name: &str) -> (r: u16)
    ensures
        r == typescript_kind_id(name@),
{
    let grammar: tree_sitter::Language = tree_sitter_typescript::LANGUAGE_TYPESCRIPT.into();
    grammar.id_for_node_kind(name, true)
}

} // verus!
