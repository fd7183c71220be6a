//! Python syntax as far as the frontend reads it.
//!
//! [`Syntax`] is a plain tree: the expressions and statements of the
//! supported subset with what they are made of, and the bare kind of
//! everything else. It is taken over from the parser's tree by
//! [`parse_module`]. Every construct keeps the number of its parts, so that
//! what is not taken over (a comment, a stray comma) does not go unnoticed; a
//! backslash that continues a line is layout and no part.

use crate::concrete_syntax::{
    child_by_field_name, child_count, has_error, kind_of_node, named_child, named_child_count,
    node_contents, node_text, parse_python, python_parse, root_of, start_byte, text_of_node,
    utf8_complaint, within, Cst,
};
use crate::text::same_text;
use tree_sitter::Node;
use vstd::prelude::*;
use vstd::utf8::*;

verus! {

/// A node of the syntax tree.
#[derive(Debug, PartialEq, Eq)]
pub enum Syntax {
    /// An integer literal: its text, or why it cannot be decoded.
    Integer { text: Result<String, String> },
    /// A name: its text, or why it cannot be decoded.
    Identifier { text: Result<String, String> },
    /// An expression in parentheses, with everything found between them.
    Parenthesized { start_byte: usize, parts: usize, children: Vec<Syntax> },
    /// An operator between two operands.
    Binary {
        parts: usize,
        left: Option<Box<Syntax>>,
        operator: Option<String>,
        right: Option<Box<Syntax>>,
    },
    /// An operator in front of an operand.
    Unary { parts: usize, argument: Option<Box<Syntax>>, operator: Option<String> },
    /// An assignment, and whether it has a type annotation.
    Assignment {
        parts: usize,
        annotated: bool,
        left: Option<Box<Syntax>>,
        right: Option<Box<Syntax>>,
    },
    /// A statement that is an expression, or wraps an assignment.
    ExpressionStatement { start_byte: usize, parts: usize, children: Vec<Syntax> },
    /// Any other construct.
    Other { kind: String },
}

/// A whole source.
#[derive(Debug, PartialEq, Eq)]
pub struct Module {
    /// True when the source has a syntax error anywhere.
    pub has_error: bool,
    /// The kind of the root: `module`.
    pub kind: String,
    /// The position of the root's first byte.
    pub start_byte: usize,
    pub statements: Vec<Syntax>,
}

/// What a [`Syntax`] holds.
pub ghost enum Shape {
    Integer { text: Result<Seq<char>, Seq<char>> },
    Identifier { text: Result<Seq<char>, Seq<char>> },
    Parenthesized { start_byte: nat, parts: nat, children: Seq<Shape> },
    Binary {
        parts: nat,
        left: Option<Box<Shape>>,
        operator: Option<Seq<char>>,
        right: Option<Box<Shape>>,
    },
    Unary { parts: nat, argument: Option<Box<Shape>>, operator: Option<Seq<char>> },
    Assignment {
        parts: nat,
        annotated: bool,
        left: Option<Box<Shape>>,
        right: Option<Box<Shape>>,
    },
    ExpressionStatement { start_byte: nat, parts: nat, children: Seq<Shape> },
    Other { kind: Seq<char> },
}

/// What a [`Module`] holds.
pub ghost struct ModuleShape {
    pub has_error: bool,
    pub kind: Seq<char>,
    pub start_byte: nat,
    pub statements: Seq<Shape>,
}

pub open spec fn text_view(text: Result<String, String>) -> Result<Seq<char>, Seq<char>> {
    match text {
        Ok(t) => Ok(t@),
        Err(m) => Err(m@),
    }
}

pub open spec fn optional_text(text: Option<String>) -> Option<Seq<char>> {
    match text {
        Some(t) => Some(t@),
        None => None,
    }
}

pub open spec fn shape(s: Syntax) -> Shape
    decreases s,
{
    match s {
        Syntax::Integer { text } => Shape::Integer { text: text_view(text) },
        Syntax::Identifier { text } => Shape::Identifier { text: text_view(text) },
        Syntax::Parenthesized { start_byte, parts, children } => Shape::Parenthesized {
            start_byte: start_byte as nat,
            parts: parts as nat,
            children: shapes(children@),
        },
        Syntax::Binary { parts, left, operator, right } => Shape::Binary {
            parts: parts as nat,
            left: optional_shape(left),
            operator: optional_text(operator),
            right: optional_shape(right),
        },
        Syntax::Unary { parts, argument, operator } => Shape::Unary {
            parts: parts as nat,
            argument: optional_shape(argument),
            operator: optional_text(operator),
        },
        Syntax::Assignment { parts, annotated, left, right } => Shape::Assignment {
            parts: parts as nat,
            annotated,
            left: optional_shape(left),
            right: optional_shape(right),
        },
        Syntax::ExpressionStatement { start_byte, parts, children } => Shape::ExpressionStatement {
            start_byte: start_byte as nat,
            parts: parts as nat,
            children: shapes(children@),
        },
        Syntax::Other { kind } => Shape::Other { kind: kind@ },
    }
}

pub open spec fn optional_shape(s: Option<Box<Syntax>>) -> Option<Box<Shape>>
    decreases s,
{
    match s {
        Some(s) => Some(Box::new(shape(*s))),
        None => None,
    }
}

pub open spec fn shapes(ss: Seq<Syntax>) -> Seq<Shape>
    decreases ss,
{
    if ss.len() == 0 {
        Seq::empty()
    } else {
        shapes(ss.drop_last()).push(shape(ss.last()))
    }
}

impl View for Syntax {
    type V = Shape;

    open spec fn view(&self) -> Shape {
        shape(*self)
    }
}

impl View for Module {
    type V = ModuleShape;

    open spec fn view(&self) -> ModuleShape {
        ModuleShape {
            has_error: self.has_error,
            kind: self.kind@,
            start_byte: self.start_byte as nat,
            statements: shapes(self.statements@),
        }
    }
}

/// How many of the nodes continue a line.
pub open spec fn continuations(cs: Seq<Cst>) -> nat
    decreases cs.len(),
{
    if cs.len() == 0 {
        0
    } else {
        continuations(cs.drop_last()) + if cs.last().kind == "line_continuation"@ {
            1nat
        } else {
            0nat
        }
    }
}

/// The number of a node's parts: its children, except those that continue a
/// line.
pub open spec fn parts_of(c: Cst) -> nat {
    (c.parts - continuations(c.named)) as nat
}

/// What the frontend reads of a node of the parser's tree.
pub open spec fn shape_of(c: Cst, source: Seq<u8>) -> Shape
    decreases c,
{
    if c.kind == "integer"@ {
        Shape::Integer { text: text_of_node(c, source) }
    } else if c.kind == "identifier"@ {
        Shape::Identifier { text: text_of_node(c, source) }
    } else if c.kind == "parenthesized_expression"@ {
        Shape::Parenthesized {
            start_byte: c.start,
            parts: parts_of(c),
            children: shapes_of(c.named, source),
        }
    } else if c.kind == "binary_operator"@ {
        Shape::Binary {
            parts: parts_of(c),
            left: field_shape((c.fields)("left"@), source),
            operator: field_kind((c.fields)("operator"@)),
            right: field_shape((c.fields)("right"@), source),
        }
    } else if c.kind == "unary_operator"@ {
        Shape::Unary {
            parts: parts_of(c),
            argument: field_shape((c.fields)("argument"@), source),
            operator: field_kind((c.fields)("operator"@)),
        }
    } else if c.kind == "assignment"@ {
        Shape::Assignment {
            parts: parts_of(c),
            annotated: (c.fields)("type"@) is Some,
            left: field_shape((c.fields)("left"@), source),
            right: field_shape((c.fields)("right"@), source),
        }
    } else if c.kind == "expression_statement"@ {
        Shape::ExpressionStatement {
            start_byte: c.start,
            parts: parts_of(c),
            children: shapes_of(c.named, source),
        }
    } else {
        Shape::Other { kind: c.kind }
    }
}

pub open spec fn field_kind(c: Option<Cst>) -> Option<Seq<char>> {
    match c {
        Some(c) => Some(c.kind),
        None => None,
    }
}

pub open spec fn field_shape(c: Option<Cst>, source: Seq<u8>) -> Option<Box<Shape>>
    decreases c,
{
    match c {
        Some(c) => Some(Box::new(shape_of(c, source))),
        None => None,
    }
}

pub open spec fn shapes_of(cs: Seq<Cst>, source: Seq<u8>) -> Seq<Shape>
    decreases cs,
{
    if cs.len() == 0 {
        Seq::empty()
    } else {
        shapes_of(cs.drop_last(), source).push(shape_of(cs.last(), source))
    }
}

/// What the frontend reads of the parser's tree.
pub open spec fn module_of(c: Cst, source: Seq<u8>) -> ModuleShape {
    ModuleShape {
        has_error: c.has_error,
        kind: c.kind,
        start_byte: c.start,
        statements: shapes_of(c.named, source),
    }
}

/// The number of a node's parts.
fn count_parts(node: &Node<'_>) -> (res: usize)
    ensures
        res == parts_of(node_contents(*node)),
{
    let ghost named = node_contents(*node).named;
    let all: usize = child_count(node);
    let count: usize = named_child_count(node);
    let mut continued: usize = 0;
    let mut i: usize = 0;
    assert(named.take(0) =~= Seq::<Cst>::empty());
    while i < count
        invariant
            i <= count,
            named == node_contents(*node).named,
            count == named.len(),
            continued <= i,
            continued == continuations(named.take(i as int)),
        decreases count - i,
    {
        let child = named_child(node, i);
        assert(named.take(i + 1).drop_last() =~= named.take(i as int));
        if same_text(kind_of_node(&child), "line_continuation") {
            continued += 1;
        }
        i += 1;
    }
    assert(named.take(i as int) =~= named);
    all - continued
}

/// Take over one node and what the frontend reads below it.
fn import(node: &Node<'_>, source: &str) -> (res: Syntax)
    requires
        within(node_contents(*node), encode_utf8(source@).len()),
    ensures
        res@ == shape_of(node_contents(*node), encode_utf8(source@)),
    decreases node_contents(*node), 1nat,
{
    let kind = kind_of_node(node);
    if same_text(kind, "integer") {
        Syntax::Integer { text: node_text(node, source) }
    } else if same_text(kind, "identifier") {
        Syntax::Identifier { text: node_text(node, source) }
    } else if same_text(kind, "parenthesized_expression") {
        Syntax::Parenthesized {
            start_byte: start_byte(node),
            parts: count_parts(node),
            children: import_children(node, source),
        }
    } else if same_text(kind, "binary_operator") {
        Syntax::Binary {
            parts: count_parts(node),
            left: import_field(node, "left", source),
            operator: field_kind_of(node, "operator"),
            right: import_field(node, "right", source),
        }
    } else if same_text(kind, "unary_operator") {
        Syntax::Unary {
            parts: count_parts(node),
            argument: import_field(node, "argument", source),
            operator: field_kind_of(node, "operator"),
        }
    } else if same_text(kind, "assignment") {
        Syntax::Assignment {
            parts: count_parts(node),
            annotated: child_by_field_name(node, "type").is_some(),
            left: import_field(node, "left", source),
            right: import_field(node, "right", source),
        }
    } else if same_text(kind, "expression_statement") {
        Syntax::ExpressionStatement {
            start_byte: start_byte(node),
            parts: count_parts(node),
            children: import_children(node, source),
        }
    } else {
        Syntax::Other { kind: kind.to_owned() }
    }
}

/// The kind of the first child under a field name.
fn field_kind_of(node: &Node<'_>, field: &str) -> (res: Option<String>)
    ensures
        optional_text(res) == field_kind((node_contents(*node).fields)(field@)),
{
    match child_by_field_name(node, field) {
        Some(child) => Some(kind_of_node(&child).to_owned()),
        None => None,
    }
}

/// Take over the first child under a field name.
fn import_field(node: &Node<'_>, field: &str, source: &str) -> (res: Option<Box<Syntax>>)
    requires
        within(node_contents(*node), encode_utf8(source@).len()),
    ensures
        optional_shape(res) == field_shape(
            (node_contents(*node).fields)(field@),
            encode_utf8(source@),
        ),
    decreases node_contents(*node), 0nat,
{
    match child_by_field_name(node, field) {
        Some(child) => Some(Box::new(import(&child, source))),
        None => None,
    }
}

/// Take over the named children.
fn import_children(node: &Node<'_>, source: &str) -> (res: Vec<Syntax>)
    requires
        within(node_contents(*node), encode_utf8(source@).len()),
    ensures
        shapes(res@) == shapes_of(node_contents(*node).named, encode_utf8(source@)),
    decreases node_contents(*node), 0nat,
{
    let ghost named = node_contents(*node).named;
    let count: usize = named_child_count(node);
    let mut out: Vec<Syntax> = Vec::new();
    let mut i: usize = 0;
    assert(named.take(0) =~= Seq::<Cst>::empty());
    while i < count
        invariant
            i <= count,
            named == node_contents(*node).named,
            count == named.len(),
            within(node_contents(*node), encode_utf8(source@).len()),
            shapes(out@) == shapes_of(named.take(i as int), encode_utf8(source@)),
        decreases count - i,
    {
        let child = named_child(node, i);
        let ghost earlier = out@;
        out.push(import(&child, source));
        proof {
            assert(out@.drop_last() =~= earlier);
            assert(named.take(i + 1).drop_last() =~= named.take(i as int));
        }
        i += 1;
    }
    assert(named.take(i as int) =~= named);
    out
}

/// What parsing a source gives, as far as the frontend reads it.
pub open spec fn module_parse(source: Seq<char>) -> Result<Option<ModuleShape>, Seq<char>> {
    match python_parse(source) {
        Ok(Some(c)) => Ok(Some(module_of(c, encode_utf8(source)))),
        Ok(None) => Ok(None),
        Err(m) => Err(m),
    }
}

/// Parse a source; an error is one in loading the grammar.
pub fn parse_module(source: &str) -> (res: Result<Option<Module>, String>)
    requires
        encode_utf8(source@).len() <= u32::MAX,
    ensures
        match res {
            Ok(Some(m)) => module_parse(source@) == Ok::<Option<ModuleShape>, Seq<char>>(Some(m@)),
            Ok(None) => module_parse(source@) == Ok::<Option<ModuleShape>, Seq<char>>(None),
            Err(m) => module_parse(source@) == Err::<Option<ModuleShape>, Seq<char>>(m@),
        },
{
    match parse_python(source) {
        Ok(Some(tree)) => {
            let root = root_of(&tree);
            Ok(
                Some(
                    Module {
                        has_error: has_error(&root),
                        kind: kind_of_node(&root).to_owned(),
                        start_byte: start_byte(&root),
                        statements: import_children(&root, source),
                    },
                ),
            )
        },
        Ok(None) => Ok(None),
        Err(message) => Err(message),
    }
}

/// Every node is read by its kind, and its parts by their names: an operand
/// of an operation is what stands under the operand's field, and so on. No
/// part is read in place of another.
pub proof fn law_nodes_are_read_by_their_fields(c: Cst, source: Seq<u8>)
    ensures
        ({
            let under = |field: Seq<char>| field_shape((c.fields)(field), source);
            let s = shape_of(c, source);
            &&& c.kind == "integer"@ ==> s == (Shape::Integer { text: text_of_node(c, source) })
            &&& c.kind == "identifier"@ ==> s == (Shape::Identifier {
                text: text_of_node(c, source),
            })
            &&& c.kind == "binary_operator"@ ==> {
                &&& s is Binary
                &&& s->Binary_left == under("left"@)
                &&& s->Binary_right == under("right"@)
                &&& s->Binary_operator == field_kind((c.fields)("operator"@))
            }
            &&& c.kind == "unary_operator"@ ==> {
                &&& s is Unary
                &&& s->argument == under("argument"@)
                &&& s->Unary_operator == field_kind((c.fields)("operator"@))
            }
            &&& c.kind == "assignment"@ ==> {
                &&& s is Assignment
                &&& s->annotated <==> (c.fields)("type"@) is Some
                &&& s->Assignment_left == under("left"@)
                &&& s->Assignment_right == under("right"@)
            }
            &&& c.kind == "parenthesized_expression"@ ==> {
                &&& s is Parenthesized
                &&& s->Parenthesized_start_byte == c.start
                &&& s->Parenthesized_children == shapes_of(c.named, source)
            }
            &&& c.kind == "expression_statement"@ ==> {
                &&& s is ExpressionStatement
                &&& s->ExpressionStatement_start_byte == c.start
                &&& s->ExpressionStatement_children == shapes_of(c.named, source)
            }
        }),
{
    reveal_strlit("integer");
    reveal_strlit("identifier");
    reveal_strlit("parenthesized_expression");
    reveal_strlit("binary_operator");
    reveal_strlit("unary_operator");
    reveal_strlit("assignment");
    reveal_strlit("expression_statement");
    assert("integer"@.len() == 7);
    assert("identifier"@.len() == 10 && "identifier"@[0] == 'i');
    assert("parenthesized_expression"@.len() == 24);
    assert("binary_operator"@.len() == 15);
    assert("unary_operator"@.len() == 14);
    assert("assignment"@.len() == 10 && "assignment"@[0] == 'a');
    assert("expression_statement"@.len() == 20);
}

/// What stands under a field is read as itself, and nothing where nothing
/// stands.
pub proof fn law_fields_are_read_as_nodes(c: Cst, source: Seq<u8>)
    ensures
        field_shape(Some(c), source) == Some(Box::new(shape_of(c, source))),
        field_shape(None, source) is None,
        field_kind(Some(c)) == Some(c.kind),
        field_kind(None) is None,
{
}

/// The children of a node are read one by one, in order.
pub proof fn law_children_are_read_in_order(cs: Seq<Cst>, source: Seq<u8>, i: int)
    requires
        0 <= i < cs.len(),
    ensures
        shapes_of(cs, source).len() == cs.len(),
        shapes_of(cs, source)[i] == shape_of(cs[i], source),
    decreases cs.len(),
{
    let rest = cs.drop_last();
    if cs.len() > 1 {
        law_children_are_read_in_order(
            rest,
            source,
            if i < rest.len() {
                i
            } else {
                0
            },
        );
    } else {
        assert(shapes_of(rest, source).len() == 0);
    }
}

/// The statements of a module are the named children of its root.
pub proof fn law_statements_are_the_children_of_the_root(c: Cst, source: Seq<u8>, i: int)
    requires
        0 <= i < c.named.len(),
    ensures
        module_of(c, source).statements.len() == c.named.len(),
        module_of(c, source).statements[i] == shape_of(c.named[i], source),
        module_of(c, source).has_error == c.has_error,
        module_of(c, source).kind == c.kind,
        module_of(c, source).start_byte == c.start,
{
    law_children_are_read_in_order(c.named, source, i);
}

/// Only the children that continue a line are no parts.
pub proof fn law_parts_are_the_other_children(c: Cst)
    requires
        c.named.len() <= c.parts,
    ensures
        parts_of(c) == c.parts - c.named.filter(
            |child: Cst| child.kind == "line_continuation"@,
        ).len(),
{
    lemma_continuations(c.named);
}

proof fn lemma_continuations(cs: Seq<Cst>)
    ensures
        continuations(cs) == cs.filter(|child: Cst| child.kind == "line_continuation"@).len(),
        continuations(cs) <= cs.len(),
    decreases cs.len(),
{
    reveal(Seq::filter);
    if cs.len() > 0 {
        lemma_continuations(cs.drop_last());
    }
}

/// The text of a node is that of the bytes from its start up to its end.
pub proof fn law_texts_are_the_bytes_of_their_nodes(c: Cst, source: Seq<u8>)
    ensures
        ({
            let bytes = source.subrange(c.start as int, c.end as int);
            &&& valid_utf8(bytes) ==> text_of_node(c, source) == Ok::<Seq<char>, Seq<char>>(
                decode_utf8(bytes),
            )
            &&& !valid_utf8(bytes) ==> text_of_node(c, source) == Err::<Seq<char>, Seq<char>>(
                utf8_complaint(bytes),
            )
        }),
{
}

} // verus!
