//! The incremental parser `tree-sitter` and its Python grammar, as far as the
//! library uses them.
//!
//! Every item of this module stands for something of these crates that is
//! used without proof; what is relied on is stated at each of them.

use tree_sitter::{Node, Parser, Tree};
use vstd::prelude::*;
use vstd::utf8::*;

verus! {

/// `tree-sitter`'s syntax tree of one source text.
#[verifier::external_type_specification]
#[verifier::external_body]
pub struct ExTree(tree_sitter::Tree);

/// `tree-sitter`'s reference to one node of a syntax tree.
#[verifier::external_type_specification]
#[verifier::external_body]
pub struct ExNode<'tree>(tree_sitter::Node<'tree>);

/// A node of a concrete syntax tree, with everything below it.
pub ghost struct Cst {
    /// The name of the grammar rule or token.
    pub kind: Seq<char>,
    /// The bytes of the source from `start` up to `end`.
    pub start: nat,
    pub end: nat,
    /// True when the node is, or holds, a syntax error.
    pub has_error: bool,
    /// The number of all children, named or not.
    pub parts: nat,
    /// The named children, in order.
    pub named: Seq<Cst>,
    /// The first child under a field name.
    pub fields: spec_fn(Seq<char>) -> Option<Cst>,
}

/// The node and all nodes below it lie within the first `len` bytes.
pub open spec fn within(c: Cst, len: nat) -> bool
    decreases c,
{
    &&& c.start <= c.end <= len
    &&& forall|i: int| 0 <= i < c.named.len() ==> within(#[trigger] c.named[i], len)
    &&& forall|f: Seq<char>| (#[trigger] (c.fields)(f)) is Some ==> within(
        (c.fields)(f)->Some_0,
        len,
    )
}

/// The contents of a syntax tree: its root.
pub uninterp spec fn tree_contents(tree: Tree) -> Cst;

/// The contents of the node that a reference stands for.
pub uninterp spec fn node_contents(node: Node) -> Cst;

/// What parsing a Python source gives: a tree, no tree, or the message of an
/// error in loading the grammar.
pub uninterp spec fn python_parse(source: Seq<char>) -> Result<Option<Cst>, Seq<char>>;

/// The message of the error that invalid UTF-8 gives.
pub uninterp spec fn utf8_complaint(bytes: Seq<u8>) -> Seq<char>;

/// The source text of a node, or the message of an error in decoding it.
pub open spec fn text_of_node(c: Cst, source: Seq<u8>) -> Result<Seq<char>, Seq<char>> {
    let bytes = source.subrange(c.start as int, c.end as int);
    if valid_utf8(bytes) {
        Ok(decode_utf8(bytes))
    } else {
        Err(utf8_complaint(bytes))
    }
}

/// `Parser::set_language` with the Python grammar and `Parser::parse` on a
/// new parser.
///
/// The outcome depends on the source alone. Positions are counted in 32 bits,
/// so longer sources are left out; the nodes of the tree lie within the
/// source.
#[verifier::external_body]
pub(crate) fn parse_python(source: &str) -> (res: Result<Option<Tree>, String>)
    requires
        encode_utf8(source@).len() <= u32::MAX,
    ensures
        match res {
            Ok(Some(tree)) => {
                &&& python_parse(source@) == Ok::<Option<Cst>, Seq<char>>(
                    Some(tree_contents(tree)),
                )
                &&& within(tree_contents(tree), encode_utf8(source@).len())
            },
            Ok(None) => python_parse(source@) == Ok::<Option<Cst>, Seq<char>>(None),
            Err(m) => python_parse(source@) == Err::<Option<Cst>, Seq<char>>(m@),
        },
{
    let mut parser = Parser::new();
    parser
        .set_language(&tree_sitter::Language::from(tree_sitter_python::LANGUAGE))
        .map_err(|e| e.to_string())?;
    Ok(parser.parse(source, None))
}

/// `Tree::root_node` is the root of the tree.
#[verifier::external_body]
pub(crate) fn root_of<'tree>(tree: &'tree Tree) -> (res: Node<'tree>)
    ensures
        node_contents(res) == tree_contents(*tree),
{
    tree.root_node()
}

/// `Node::kind` is the name of the node's grammar rule or token.
#[verifier::external_body]
pub(crate) fn kind_of_node(node: &Node<'_>) -> (res: &'static str)
    ensures
        res@ == node_contents(*node).kind,
{
    node.kind()
}

/// `Node::has_error` tells whether the node is, or holds, a syntax error.
#[verifier::external_body]
pub(crate) fn has_error(node: &Node<'_>) -> (res: bool)
    ensures
        res == node_contents(*node).has_error,
{
    node.has_error()
}

/// `Node::start_byte` is the position of the node's first byte.
#[verifier::external_body]
pub(crate) fn start_byte(node: &Node<'_>) -> (res: usize)
    ensures
        res == node_contents(*node).start,
{
    node.start_byte()
}

/// `Node::child_count` is the number of all children, named or not; comments
/// and continued lines count. The named children are among them.
#[verifier::external_body]
pub(crate) fn child_count(node: &Node<'_>) -> (res: usize)
    ensures
        res == node_contents(*node).parts,
        res >= node_contents(*node).named.len(),
{
    node.child_count()
}

/// `Node::named_child_count` is the number of named children.
#[verifier::external_body]
pub(crate) fn named_child_count(node: &Node<'_>) -> (res: usize)
    ensures
        res == node_contents(*node).named.len(),
{
    node.named_child_count()
}

/// `Node::named_child` is the named child at the given place, where there is
/// one.
#[verifier::external_body]
pub(crate) fn named_child<'tree>(node: &Node<'tree>, i: usize) -> (res: Node<'tree>)
    requires
        i < node_contents(*node).named.len(),
    ensures
        node_contents(res) == node_contents(*node).named[i as int],
{
    node.named_child(i).unwrap()
}

/// `Node::child_by_field_name` is the first child under the field name, if
/// there is one.
#[verifier::external_body]
pub(crate) fn child_by_field_name<'tree>(node: &Node<'tree>, field: &str) -> (res: Option<
    Node<'tree>,
>)
    ensures
        match res {
            Some(child) => (node_contents(*node).fields)(field@) == Some(node_contents(child)),
            None => (node_contents(*node).fields)(field@) is None,
        },
{
    node.child_by_field_name(field)
}

/// `Node::utf8_text` is the text of the node's bytes, or the error of
/// decoding them, which is turned into its message.
#[verifier::external_body]
pub(crate) fn node_text(node: &Node<'_>, source: &str) -> (res: Result<String, String>)
    requires
        node_contents(*node).start <= node_contents(*node).end <= encode_utf8(source@).len(),
    ensures
        ({
            let c = node_contents(*node);
            let bytes = encode_utf8(source@).subrange(c.start as int, c.end as int);
            match res {
                Ok(text) => valid_utf8(bytes) && text@ == decode_utf8(bytes),
                Err(m) => !valid_utf8(bytes) && m@ == utf8_complaint(bytes),
            }
        }),
{
    node.utf8_text(source.as_bytes()).map(|text| text.to_string()).map_err(|e| e.to_string())
}

} // verus!
