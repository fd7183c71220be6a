//! Python frontend: lowers a constrained but real subset of Python into data
//! flow graphs.
//!
//! Supported are integer literals (decimal, hexadecimal, octal and binary,
//! with digit separators), `name = expr`, the binary operators `+`, `-` and
//! `*`, the unary operators `-` and `+`, parentheses, and bare expressions as
//! statements. Everything else is rejected as unsupported with a message that
//! names the construct; nothing is silently dropped, not even a comment or a
//! type annotation. A source with a syntax error is rejected as a whole.
//!
//! All statements extend one graph in the order of the source. Rebinding a
//! name leaves its earlier value in the graph. A name that is read before it
//! was ever bound is an input: its first occurrence declares a parameter,
//! which later occurrences share. `a - b` becomes `add a (neg b)`.

use crate::python_syntax::{
    module_parse, optional_shape, parse_module, shape, shapes, Module, ModuleShape, Shape, Syntax,
};
use crate::ssa::{lemma_ordinal_push, param_count, Op, Ssa, Value};
use crate::text::{
    chars_without, decimal, literal_of, push_decimal, read_integer, same_text, texts, without,
    Literal,
};
use vstd::prelude::*;
use vstd::utf8::*;

verus! {

/// Why a source was rejected.
#[derive(Debug, Clone, PartialEq, Eq)]
pub struct LoweringError {
    pub message: String,
}

impl LoweringError {
    /// The error as one line of text.
    pub open spec fn line(self) -> Seq<char> {
        "python frontend: "@ + self.message@
    }

    /// The error as one line of text.
    pub fn to_string(&self) -> (res: String)
        ensures
            res@ == self.line(),
    {
        let mut out = String::new();
        out.append("python frontend: ");
        out.append(self.message.as_str());
        assert(out@ =~= self.line());
        out
    }
}

/// The names that are bound, each with its current value.
#[derive(Debug, Clone)]
pub struct Bindings {
    entries: Vec<(String, Value)>,
}

/// The map that a list of bindings stands for.
pub open spec fn bindings_map(entries: Seq<(String, Value)>) -> Map<Seq<char>, Value>
    decreases entries.len(),
{
    if entries.len() == 0 {
        Map::empty()
    } else {
        bindings_map(entries.drop_last()).insert(entries.last().0@, entries.last().1)
    }
}

impl View for Bindings {
    type V = Map<Seq<char>, Value>;

    closed spec fn view(&self) -> Map<Seq<char>, Value> {
        bindings_map(self.entries@)
    }
}

impl Bindings {
    /// No name is bound twice.
    pub closed spec fn distinct(self) -> bool {
        forall|i: int, j: int|
            0 <= i < j < self.entries@.len() ==> #[trigger] self.entries@[i].0@
                != #[trigger] self.entries@[j].0@
    }

    fn new() -> (res: Self)
        ensures
            res@ == Map::<Seq<char>, Value>::empty(),
            res.distinct(),
    {
        Bindings { entries: Vec::new() }
    }

    /// The place of a name.
    fn position(&self, name: &str) -> (res: Option<usize>)
        ensures
            match res {
                Some(i) => {
                    &&& i < self.entries@.len()
                    &&& self.entries@[i as int].0@ == name@
                    &&& forall|j: int|
                        i < j < self.entries@.len() ==> (#[trigger] self.entries@[j]).0@ != name@
                },
                None => forall|j: int|
                    0 <= j < self.entries@.len() ==> (#[trigger] self.entries@[j]).0@ != name@,
            },
    {
        let mut i: usize = self.entries.len();
        while i > 0
            invariant
                i <= self.entries@.len(),
                forall|j: int|
                    i <= j < self.entries@.len() ==> (#[trigger] self.entries@[j]).0@ != name@,
            decreases i,
        {
            i -= 1;
            if same_text(self.entries[i].0.as_str(), name) {
                return Some(i);
            }
        }
        None
    }

    /// The current value of a name.
    pub fn get(&self, name: &str) -> (res: Option<Value>)
        ensures
            res == if self@.contains_key(name@) {
                Some(self@[name@])
            } else {
                None
            },
    {
        match self.position(name) {
            Some(i) => {
                proof {
                    lemma_bound(self.entries@, i as int);
                }
                Some(self.entries[i].1)
            },
            None => {
                proof {
                    lemma_unbound(self.entries@, name@);
                }
                None
            },
        }
    }

    /// Bind a name, in place of its earlier binding.
    fn insert(&mut self, name: &str, v: Value)
        ensures
            final(self)@ == old(self)@.insert(name@, v),
            old(self).distinct() ==> final(self).distinct(),
    {
        match self.position(name) {
            Some(i) => {
                let entry = (name.to_owned(), v);
                self.entries.set(i, entry);
                proof {
                    lemma_rebound(old(self).entries@, i as int, entry);
                }
            },
            None => {
                self.entries.push((name.to_owned(), v));
                proof {
                    assert(self.entries@.drop_last() =~= old(self).entries@);
                }
            },
        }
    }
}

/// The last binding of a name is its value.
proof fn lemma_bound(entries: Seq<(String, Value)>, i: int)
    requires
        0 <= i < entries.len(),
        forall|j: int|
            i < j < entries.len() ==> (#[trigger] entries[j]).0@ != entries[i].0@,
    ensures
        bindings_map(entries).contains_key(entries[i].0@),
        bindings_map(entries)[entries[i].0@] == entries[i].1,
    decreases entries.len(),
{
    if i < entries.len() - 1 {
        let rest = entries.drop_last();
        assert(entries.last() == entries[entries.len() - 1]);
        assert forall|j: int| i < j < rest.len() implies (#[trigger] rest[j]).0@ != rest[i].0@ by {
            assert(rest[j] == entries[j]);
        }
        lemma_bound(rest, i);
    }
}

/// A name without a binding is not in the map.
proof fn lemma_unbound(entries: Seq<(String, Value)>, name: Seq<char>)
    requires
        forall|j: int| 0 <= j < entries.len() ==> (#[trigger] entries[j]).0@ != name,
    ensures
        !bindings_map(entries).contains_key(name),
    decreases entries.len(),
{
    if entries.len() > 0 {
        let rest = entries.drop_last();
        assert(entries.last() == entries[entries.len() - 1]);
        assert forall|j: int| 0 <= j < rest.len() implies (#[trigger] rest[j]).0@ != name by {
            assert(rest[j] == entries[j]);
        }
        lemma_unbound(rest, name);
    }
}

/// Replacing the last binding of a name binds the name anew.
proof fn lemma_rebound(entries: Seq<(String, Value)>, i: int, entry: (String, Value))
    requires
        0 <= i < entries.len(),
        entry.0@ == entries[i].0@,
        forall|j: int|
            i < j < entries.len() ==> (#[trigger] entries[j]).0@ != entries[i].0@,
    ensures
        bindings_map(entries.update(i, entry)) == bindings_map(entries).insert(entry.0@, entry.1),
    decreases entries.len(),
{
    let rest = entries.drop_last();
    let last = entries[entries.len() - 1];
    let changed = entries.update(i, entry);
    if i == entries.len() - 1 {
        assert(changed.drop_last() =~= rest);
        assert(bindings_map(changed) =~= bindings_map(entries).insert(entry.0@, entry.1));
    } else {
        assert(changed.drop_last() =~= rest.update(i, entry));
        assert forall|j: int| i < j < rest.len() implies (#[trigger] rest[j]).0@ != rest[i].0@ by {
            assert(rest[j] == entries[j]);
        }
        lemma_rebound(rest, i, entry);
        assert(changed.last() == last);
        assert(entry.0@ != last.0@);
        assert(bindings_map(changed) =~= bindings_map(entries).insert(entry.0@, entry.1));
    }
}

/// How far a source is lowered: the graph, the names that are bound, the
/// names of the inputs in the order of their parameters, and the value that
/// was assigned last.
#[verifier::ext_equal]
pub ghost struct Progress {
    pub defs: Seq<Option<Op>>,
    pub env: Map<Seq<char>, Value>,
    pub inputs: Seq<Seq<char>>,
    pub assigned: Option<Value>,
}

impl Progress {
    /// Nothing is lowered yet.
    pub open spec fn start() -> Progress {
        Progress { defs: Seq::empty(), env: Map::empty(), inputs: Seq::empty(), assigned: None }
    }

    /// The value that the next definition gets.
    pub open spec fn next(self) -> Value {
        Value(self.defs.len() as u32)
    }

    /// One more operation.
    pub open spec fn define(self, op: Op) -> Progress {
        Progress { defs: self.defs.push(Some(op)), ..self }
    }

    /// One more input, under the given name.
    pub open spec fn declare(self, name: Seq<char>) -> Progress {
        Progress {
            defs: self.defs.push(None),
            env: self.env.insert(name, self.next()),
            inputs: self.inputs.push(name),
            ..self
        }
    }

    /// A name bound to a value by an assignment.
    pub open spec fn bind(self, name: Seq<char>, v: Value) -> Progress {
        Progress { env: self.env.insert(name, v), assigned: Some(v), ..self }
    }
}

/// The kind of a construct.
pub open spec fn kind(s: Shape) -> Seq<char> {
    match s {
        Shape::Integer { .. } => "integer"@,
        Shape::Identifier { .. } => "identifier"@,
        Shape::Parenthesized { .. } => "parenthesized_expression"@,
        Shape::Binary { .. } => "binary_operator"@,
        Shape::Unary { .. } => "unary_operator"@,
        Shape::Assignment { .. } => "assignment"@,
        Shape::ExpressionStatement { .. } => "expression_statement"@,
        Shape::Other { kind } => kind,
    }
}

/// The complaint about a wrapper that does not hold exactly one expression.
pub open spec fn crowd_complaint(kind: Seq<char>, n: nat, start_byte: nat) -> Seq<char> {
    "unsupported construct `"@ + kind + "` with "@ + decimal(n) + " sub-expressions near byte "@
        + decimal(start_byte) + " (expected exactly one)"@
}

/// The complaint about a construct with more or fewer parts than it needs: a
/// comment or a stray comma stands in it.
pub open spec fn parts_complaint(kind: Seq<char>, n: nat, needed: nat) -> Seq<char> {
    "unsupported construct `"@ + kind + "` with "@ + decimal(n) + " parts (expected "@ + decimal(
        needed,
    ) + ": comments and stray commas are not supported)"@
}

/// The value of an expression, and the progress after it; or the complaint
/// about it.
///
/// Operands are lowered from left to right, and before their operator is
/// looked at.
pub open spec fn lower_shape(s: Shape, p: Progress) -> Result<(Value, Progress), Seq<char>>
    decreases s,
{
    match s {
        Shape::Integer { text: Err(m) } => Err("invalid integer literal encoding: "@ + m),
        Shape::Integer { text: Ok(t) } => match literal_of(without(t, '_')) {
            Literal::Fits(c) => Ok((p.next(), p.define(Op::Const(c)))),
            Literal::TooLarge => Err("integer literal `"@ + t + "` out of i64 range"@),
            Literal::Malformed => Err(
                "unsupported construct: integer literal `"@ + t
                    + "` (supported: decimal, hexadecimal, octal and binary digits)"@,
            ),
        },
        Shape::Identifier { text: Err(m) } => Err("invalid identifier encoding: "@ + m),
        Shape::Identifier { text: Ok(name) } => if p.env.contains_key(name) {
            Ok((p.env[name], p))
        } else {
            Ok((p.next(), p.declare(name)))
        },
        Shape::Parenthesized { start_byte, parts, children } => if children.len() != 1 {
            Err(crowd_complaint("parenthesized_expression"@, children.len(), start_byte))
        } else if parts != 3 {
            Err(parts_complaint("parenthesized_expression"@, parts, 3))
        } else {
            lower_shape(children[0], p)
        },
        Shape::Binary { left: None, .. } => Err("malformed binary_operator: missing `left`"@),
        Shape::Binary { operator: None, .. } => Err(
            "malformed binary_operator: missing `operator`"@,
        ),
        Shape::Binary { right: None, .. } => Err("malformed binary_operator: missing `right`"@),
        Shape::Binary { parts, left: Some(left), operator: Some(op), right: Some(right) } => {
            if parts != 3 {
                Err(parts_complaint("binary_operator"@, parts, 3))
            } else {
                match lower_shape(*left, p) {
                    Err(m) => Err(m),
                    Ok((l, p1)) => match lower_shape(*right, p1) {
                        Err(m) => Err(m),
                        Ok((r, p2)) => if op == "+"@ {
                            Ok((p2.next(), p2.define(Op::Add(l, r))))
                        } else if op == "-"@ {
                            let p3 = p2.define(Op::Neg(r));
                            Ok((p3.next(), p3.define(Op::Add(l, p2.next()))))
                        } else if op == "*"@ {
                            Ok((p2.next(), p2.define(Op::Mul(l, r))))
                        } else {
                            Err("unsupported binary operator `"@ + op + "` (supported: + - *)"@)
                        },
                    },
                }
            }
        },
        Shape::Unary { argument: None, .. } => Err("malformed unary_operator: missing `argument`"@),
        Shape::Unary { operator: None, .. } => Err("malformed unary_operator: missing `operator`"@),
        Shape::Unary { parts, argument: Some(argument), operator: Some(op) } => {
            if parts != 2 {
                Err(parts_complaint("unary_operator"@, parts, 2))
            } else {
                match lower_shape(*argument, p) {
                    Err(m) => Err(m),
                    Ok((a, p1)) => if op == "-"@ {
                        Ok((p1.next(), p1.define(Op::Neg(a))))
                    } else if op == "+"@ {
                        Ok((a, p1))
                    } else {
                        Err("unsupported unary operator `"@ + op + "` (supported: -)"@)
                    },
                }
            }
        },
        _ => Err(
            "unsupported construct `"@ + kind(s)
                + "` in expression position (supported: integers, names, parentheses, + - *, unary -)"@,
        ),
    }
}

/// The complaint about an assignment with a type annotation.
pub open spec fn annotation_complaint() -> Seq<char> {
    "unsupported construct: annotated assignment (supported: plain `name = expr` only)"@
}

/// The progress after an assignment, or the complaint about it.
pub open spec fn lower_assignment(
    parts: nat,
    annotated: bool,
    left: Option<Box<Shape>>,
    right: Option<Box<Shape>>,
    p: Progress,
) -> Result<Progress, Seq<char>> {
    match (left, right) {
        _ if annotated => Err(annotation_complaint()),
        (None, _) => Err("malformed assignment: missing `left`"@),
        (_, None) => Err("malformed assignment: missing `right`"@),
        (Some(left), Some(right)) => match *left {
            Shape::Identifier { text } => {
                if kind(*right) == "assignment"@ || kind(*right) == "augmented_assignment"@ {
                    Err(
                        "unsupported construct: chained/augmented assignment (`"@ + kind(*right)
                            + "`)"@,
                    )
                } else if parts != 3 {
                    Err(parts_complaint("assignment"@, parts, 3))
                } else {
                    match text {
                        Err(m) => Err("invalid identifier encoding: "@ + m),
                        Ok(name) => match lower_shape(*right, p) {
                            Err(m) => Err(m),
                            Ok((v, p1)) => Ok(p1.bind(name, v)),
                        },
                    }
                }
            },
            _ => Err("unsupported assignment target `"@ + kind(*left) + "` (only plain names)"@),
        },
    }
}

/// The progress after a statement and the value of the last bare expression;
/// or the complaint about the statement.
pub open spec fn lower_statement(s: Shape, p: Progress, last: Option<Value>) -> Result<
    (Progress, Option<Value>),
    Seq<char>,
> {
    match s {
        Shape::ExpressionStatement { start_byte, parts, children } => if children.len() != 1 {
            Err(crowd_complaint("expression_statement"@, children.len(), start_byte))
        } else if parts != 1 {
            Err(parts_complaint("expression_statement"@, parts, 1))
        } else {
            match children[0] {
                Shape::Assignment { parts, annotated, left, right } => match lower_assignment(
                    parts,
                    annotated,
                    left,
                    right,
                    p,
                ) {
                    Err(m) => Err(m),
                    Ok(p1) => Ok((p1, last)),
                },
                inner => if kind(inner) == "augmented_assignment"@ {
                    Err(
                        "unsupported construct: augmented assignment (`+=` etc.; supported: plain `=` only)"@,
                    )
                } else {
                    match lower_shape(inner, p) {
                        Err(m) => Err(m),
                        Ok((v, p1)) => Ok((p1, Some(v))),
                    }
                },
            }
        },
        Shape::Assignment { parts, annotated, left, right } => match lower_assignment(
            parts,
            annotated,
            left,
            right,
            p,
        ) {
            Err(m) => Err(m),
            Ok(p1) => Ok((p1, last)),
        },
        _ => Err(
            "unsupported construct `"@ + kind(s)
                + "` (supported: assignments, integer arithmetic with + - *, unary minus, parentheses)"@,
        ),
    }
}

/// The outcome of lowering a list of statements in order, up to the first
/// complaint.
pub open spec fn lower_statements(ss: Seq<Shape>) -> Result<
    (Progress, Option<Value>),
    Seq<char>,
>
    decreases ss.len(),
{
    if ss.len() == 0 {
        Ok((Progress::start(), None))
    } else {
        match lower_statements(ss.drop_last()) {
            Err(m) => Err(m),
            Ok((p, last)) => lower_statement(ss.last(), p, last),
        }
    }
}

/// The outcome of lowering a module.
pub open spec fn lower_shape_of_module(m: ModuleShape) -> Result<
    (Progress, Option<Value>),
    Seq<char>,
> {
    if m.has_error {
        Err(
            "syntax error at byte "@ + decimal(m.start_byte)
                + " (input is outside the supported subset)"@,
        )
    } else if m.kind != "module"@ {
        Err("unsupported construct: expected a module, found `"@ + m.kind + "`"@)
    } else {
        lower_statements(m.statements)
    }
}

/// A lowered module: the graph, the value of the last bare expression, the
/// names that are bound at the end, the names of the inputs in the order of
/// their parameters, and the value that was assigned last.
#[derive(Debug, Clone)]
pub struct Lowered {
    pub ssa: Ssa,
    pub last: Option<Value>,
    pub env: Bindings,
    pub inputs: Vec<String>,
    pub assigned: Option<Value>,
}

impl Lowered {
    /// The names that are bound at the end.
    pub open spec fn names(self) -> Map<Seq<char>, Value> {
        self.env@
    }

    /// The value that is bound to a name at the end, if any.
    pub fn value_of(&self, name: &str) -> (res: Option<Value>)
        ensures
            res == if self.names().contains_key(name@) {
                Some(self.names()[name@])
            } else {
                None
            },
    {
        self.env.get(name)
    }
}

/// The result is that of the given outcome.
pub open spec fn lowered_as(
    res: Result<Lowered, LoweringError>,
    outcome: Result<(Progress, Option<Value>), Seq<char>>,
) -> bool {
    match (res, outcome) {
        (Ok(l), Ok((p, last))) => {
            &&& l.ssa@ == p.defs
            &&& l.ssa.wf()
            &&& l.last == last
            &&& l.names() == p.env
            &&& l.env.distinct()
            &&& texts(l.inputs@) == p.inputs
            &&& l.inputs@.len() == param_count(l.ssa@)
            &&& l.assigned == p.assigned
        },
        (Err(e), Err(m)) => e.message@ == m,
        _ => false,
    }
}

/// An error whose message is made of the given texts.
fn complaint(a: &str, b: &str, c: &str) -> (res: LoweringError)
    ensures
        res.message@ == a@ + b@ + c@,
{
    let mut message = String::new();
    message.append(a);
    message.append(b);
    message.append(c);
    assert(message@ =~= a@ + b@ + c@);
    LoweringError { message }
}

/// An error whose message is made of the given texts.
fn prefixed_complaint(a: &str, b: &str) -> (res: LoweringError)
    ensures
        res.message@ == a@ + b@,
{
    let mut message = String::new();
    message.append(a);
    message.append(b);
    assert(message@ =~= a@ + b@);
    LoweringError { message }
}

/// An error with the given message.
fn plain_complaint(message: &str) -> (res: LoweringError)
    ensures
        res.message@ == message@,
{
    LoweringError { message: message.to_owned() }
}

/// The error of a wrapper that does not hold exactly one expression.
fn crowd_error(kind: &str, n: usize, start_byte: usize) -> (res: LoweringError)
    ensures
        res.message@ == crowd_complaint(kind@, n as nat, start_byte as nat),
{
    let mut message = String::new();
    message.append("unsupported construct `");
    message.append(kind);
    message.append("` with ");
    push_decimal(&mut message, n as u128);
    message.append(" sub-expressions near byte ");
    push_decimal(&mut message, start_byte as u128);
    message.append(" (expected exactly one)");
    assert(message@ =~= crowd_complaint(kind@, n as nat, start_byte as nat));
    LoweringError { message }
}

/// The kind of a construct.
fn kind_text(s: &Syntax) -> (res: &str)
    ensures
        res@ == kind(s@),
{
    match s {
        Syntax::Integer { .. } => "integer",
        Syntax::Identifier { .. } => "identifier",
        Syntax::Parenthesized { .. } => "parenthesized_expression",
        Syntax::Binary { .. } => "binary_operator",
        Syntax::Unary { .. } => "unary_operator",
        Syntax::Assignment { .. } => "assignment",
        Syntax::ExpressionStatement { .. } => "expression_statement",
        Syntax::Other { kind } => kind.as_str(),
    }
}

/// The shapes of a list, one by one.
proof fn lemma_shapes(ss: Seq<Syntax>)
    ensures
        shapes(ss).len() == ss.len(),
        forall|i: int| 0 <= i < ss.len() ==> #[trigger] shapes(ss)[i] == shape(ss[i]),
    decreases ss.len(),
{
    if ss.len() > 0 {
        lemma_shapes(ss.drop_last());
        assert forall|i: int| 0 <= i < ss.len() implies #[trigger] shapes(ss)[i] == shape(ss[i]) by {
            if i < ss.len() - 1 {
                assert(shapes(ss)[i] == shapes(ss.drop_last())[i]);
            }
        }
    }
}

/// A module on the way: the graph, the names that are bound, the names of the
/// inputs, and the value that was assigned last.
struct Builder {
    ssa: Ssa,
    env: Bindings,
    inputs: Vec<String>,
    assigned: Option<Value>,
}

impl View for Builder {
    type V = Progress;

    closed spec fn view(&self) -> Progress {
        Progress {
            defs: self.ssa@,
            env: self.env@,
            inputs: texts(self.inputs@),
            assigned: self.assigned,
        }
    }
}

impl Builder {
    spec fn wf(self) -> bool {
        self.ssa.wf() && self.env.distinct() && self.inputs@.len() == param_count(self.ssa@)
    }

    fn new() -> (res: Self)
        ensures
            res@ == Progress::start(),
            res.wf(),
    {
        let b = Builder {
            ssa: Ssa::new(),
            env: Bindings::new(),
            inputs: Vec::new(),
            assigned: None,
        };
        assert(b@ =~= Progress::start());
        b
    }

    /// Declare an input.
    fn declare(&mut self, name: &str) -> (res: Value)
        requires
            old(self).wf(),
        ensures
            res == old(self)@.next(),
            final(self)@ == old(self)@.declare(name@),
            final(self).wf(),
    {
        proof {
            lemma_ordinal_push(self.ssa@, None);
        }
        let v = self.ssa.new_param();
        self.env.insert(name, v);
        self.inputs.push(name.to_owned());
        assert(self@ =~= old(self)@.declare(name@));
        v
    }

    /// Define a value by an operation.
    fn define(&mut self, op: Op) -> (res: Value)
        requires
            old(self).wf(),
        ensures
            res == old(self)@.next(),
            final(self)@ == old(self)@.define(op),
            final(self).wf(),
    {
        proof {
            lemma_ordinal_push(self.ssa@, Some(op));
        }
        let v = self.ssa.push(op);
        assert(self@ =~= old(self)@.define(op));
        v
    }

    /// Bind a name by an assignment.
    fn bind(&mut self, name: &str, v: Value)
        requires
            old(self).wf(),
        ensures
            final(self)@ == old(self)@.bind(name@, v),
            final(self).wf(),
    {
        self.env.insert(name, v);
        self.assigned = Some(v);
        assert(self@ =~= old(self)@.bind(name@, v));
    }
}

/// The error of a construct with more or fewer parts than it needs.
fn parts_error(kind: &str, n: usize, needed: usize) -> (res: LoweringError)
    ensures
        res.message@ == parts_complaint(kind@, n as nat, needed as nat),
{
    let mut message = String::new();
    message.append("unsupported construct `");
    message.append(kind);
    message.append("` with ");
    push_decimal(&mut message, n as u128);
    message.append(" parts (expected ");
    push_decimal(&mut message, needed as u128);
    message.append(": comments and stray commas are not supported)");
    assert(message@ =~= parts_complaint(kind@, n as nat, needed as nat));
    LoweringError { message }
}

/// Lower an expression.
fn lower_expr(b: &mut Builder, node: &Syntax) -> (res: Result<Value, LoweringError>)
    requires
        old(b).wf(),
    ensures
        match (res, lower_shape(node@, old(b)@)) {
            (Ok(v), Ok((w, p))) => v == w && final(b)@ == p,
            (Err(e), Err(m)) => e.message@ == m,
            _ => false,
        },
        final(b).wf(),
    decreases node,
{
    match node {
        Syntax::Integer { text } => match text {
            Ok(text) => {
                let cleaned: Vec<char> = chars_without(text.as_str(), '_');
                match read_integer(&cleaned) {
                    Literal::Fits(c) => {
                        Ok(b.define(Op::Const(c)))
                    },
                    Literal::TooLarge => Err(
                        complaint("integer literal `", text.as_str(), "` out of i64 range"),
                    ),
                    Literal::Malformed => Err(
                        complaint(
                            "unsupported construct: integer literal `",
                            text.as_str(),
                            "` (supported: decimal, hexadecimal, octal and binary digits)",
                        ),
                    ),
                }
            },
            Err(m) => Err(prefixed_complaint("invalid integer literal encoding: ", m.as_str())),
        },
        Syntax::Identifier { text } => match text {
            Ok(name) => match b.env.get(name.as_str()) {
                Some(v) => Ok(v),
                None => Ok(b.declare(name.as_str())),
            },
            Err(m) => Err(prefixed_complaint("invalid identifier encoding: ", m.as_str())),
        },
        Syntax::Parenthesized { start_byte, parts, children } => {
            proof {
                lemma_shapes(children@);
            }
            if children.len() != 1 {
                Err(crowd_error("parenthesized_expression", children.len(), *start_byte))
            } else if *parts != 3 {
                Err(parts_error("parenthesized_expression", *parts, 3))
            } else {
                lower_expr(b, &children[0])
            }
        },
        Syntax::Binary { parts, left, operator, right } => match (left, operator, right) {
            (None, _, _) => Err(plain_complaint("malformed binary_operator: missing `left`")),
            (_, None, _) => Err(plain_complaint("malformed binary_operator: missing `operator`")),
            (_, _, None) => Err(plain_complaint("malformed binary_operator: missing `right`")),
            (Some(left), Some(op), Some(right)) => {
                if *parts != 3 {
                    return Err(parts_error("binary_operator", *parts, 3));
                }
                let l = match lower_expr(b, left) {
                    Ok(l) => l,
                    Err(e) => return Err(e),
                };
                let r = match lower_expr(b, right) {
                    Ok(r) => r,
                    Err(e) => return Err(e),
                };
                if same_text(op.as_str(), "+") {
                    Ok(b.define(Op::Add(l, r)))
                } else if same_text(op.as_str(), "-") {
                    let nr = b.define(Op::Neg(r));
                    Ok(b.define(Op::Add(l, nr)))
                } else if same_text(op.as_str(), "*") {
                    Ok(b.define(Op::Mul(l, r)))
                } else {
                    Err(
                        complaint(
                            "unsupported binary operator `",
                            op.as_str(),
                            "` (supported: + - *)",
                        ),
                    )
                }
            },
        },
        Syntax::Unary { parts, argument, operator } => match (argument, operator) {
            (None, _) => Err(plain_complaint("malformed unary_operator: missing `argument`")),
            (_, None) => Err(plain_complaint("malformed unary_operator: missing `operator`")),
            (Some(argument), Some(op)) => {
                if *parts != 2 {
                    return Err(parts_error("unary_operator", *parts, 2));
                }
                let a = match lower_expr(b, argument) {
                    Ok(a) => a,
                    Err(e) => return Err(e),
                };
                if same_text(op.as_str(), "-") {
                    Ok(b.define(Op::Neg(a)))
                } else if same_text(op.as_str(), "+") {
                    Ok(a)
                } else {
                    Err(
                        complaint("unsupported unary operator `", op.as_str(), "` (supported: -)"),
                    )
                }
            },
        },
        other => Err(
            complaint(
                "unsupported construct `",
                kind_text(other),
                "` in expression position (supported: integers, names, parentheses, + - *, unary -)",
            ),
        ),
    }
}

/// Lower an assignment: the right side against the names bound so far, and
/// only after that the name is bound anew.
fn handle_assignment(
    b: &mut Builder,
    parts: usize,
    annotated: bool,
    left: &Option<Box<Syntax>>,
    right: &Option<Box<Syntax>>,
) -> (res: Result<(), LoweringError>)
    requires
        old(b).wf(),
    ensures
        match (
            res,
            lower_assignment(
                parts as nat,
                annotated,
                optional_shape(*left),
                optional_shape(*right),
                old(b)@,
            ),
        ) {
            (Ok(_), Ok(p)) => final(b)@ == p,
            (Err(e), Err(m)) => e.message@ == m,
            _ => false,
        },
        final(b).wf(),
{
    if annotated {
        return Err(
            plain_complaint(
                "unsupported construct: annotated assignment (supported: plain `name = expr` only)",
            ),
        );
    }
    match (left, right) {
        (None, _) => Err(plain_complaint("malformed assignment: missing `left`")),
        (_, None) => Err(plain_complaint("malformed assignment: missing `right`")),
        (Some(left), Some(right)) => {
            let left: &Syntax = left;
            let right: &Syntax = right;
            match left {
                Syntax::Identifier { text } => {
                    let kind = kind_text(right);
                    if same_text(kind, "assignment") || same_text(kind, "augmented_assignment") {
                        return Err(
                            complaint(
                                "unsupported construct: chained/augmented assignment (`",
                                kind,
                                "`)",
                            ),
                        );
                    }
                    if parts != 3 {
                        return Err(parts_error("assignment", parts, 3));
                    }
                    match text {
                        Err(m) => Err(
                            prefixed_complaint("invalid identifier encoding: ", m.as_str()),
                        ),
                        Ok(name) => match lower_expr(b, right) {
                            Err(e) => Err(e),
                            Ok(v) => {
                                b.bind(name.as_str(), v);
                                Ok(())
                            },
                        },
                    }
                },
                other => Err(
                    complaint(
                        "unsupported assignment target `",
                        kind_text(other),
                        "` (only plain names)",
                    ),
                ),
            }
        },
    }
}

/// Lower a statement; `last` is the value of the last bare expression.
fn handle_statement(b: &mut Builder, stmt: &Syntax, last: Option<Value>) -> (res: Result<
    Option<Value>,
    LoweringError,
>)
    requires
        old(b).wf(),
    ensures
        match (res, lower_statement(stmt@, old(b)@, last)) {
            (Ok(v), Ok((p, w))) => v == w && final(b)@ == p,
            (Err(e), Err(m)) => e.message@ == m,
            _ => false,
        },
        final(b).wf(),
{
    match stmt {
        Syntax::ExpressionStatement { start_byte, parts, children } => {
            proof {
                lemma_shapes(children@);
            }
            if children.len() != 1 {
                return Err(crowd_error("expression_statement", children.len(), *start_byte));
            }
            if *parts != 1 {
                return Err(parts_error("expression_statement", *parts, 1));
            }
            match &children[0] {
                Syntax::Assignment { parts, annotated, left, right } => match handle_assignment(
                    b,
                    *parts,
                    *annotated,
                    left,
                    right,
                ) {
                    Err(e) => Err(e),
                    Ok(_) => Ok(last),
                },
                inner => {
                    if same_text(kind_text(inner), "augmented_assignment") {
                        Err(
                            plain_complaint(
                                "unsupported construct: augmented assignment (`+=` etc.; supported: plain `=` only)",
                            ),
                        )
                    } else {
                        match lower_expr(b, inner) {
                            Err(e) => Err(e),
                            Ok(v) => Ok(Some(v)),
                        }
                    }
                },
            }
        },
        Syntax::Assignment { parts, annotated, left, right } => match handle_assignment(
            b,
            *parts,
            *annotated,
            left,
            right,
        ) {
            Err(e) => Err(e),
            Ok(_) => Ok(last),
        },
        other => Err(
            complaint(
                "unsupported construct `",
                kind_text(other),
                "` (supported: assignments, integer arithmetic with + - *, unary minus, parentheses)",
            ),
        ),
    }
}

/// Lower a parsed module.
pub fn lower_tree(module: &Module) -> (res: Result<Lowered, LoweringError>)
    ensures
        lowered_as(res, lower_shape_of_module(module@)),
{
    if module.has_error {
        let mut message = String::new();
        message.append("syntax error at byte ");
        push_decimal(&mut message, module.start_byte as u128);
        message.append(" (input is outside the supported subset)");
        assert(message@ =~= "syntax error at byte "@ + decimal(module.start_byte as nat)
            + " (input is outside the supported subset)"@);
        return Err(LoweringError { message });
    }
    if !same_text(module.kind.as_str(), "module") {
        return Err(
            complaint(
                "unsupported construct: expected a module, found `",
                module.kind.as_str(),
                "`",
            ),
        );
    }
    let ghost all = shapes(module.statements@);
    let mut b = Builder::new();
    let mut last: Option<Value> = None;
    let mut i: usize = 0;
    proof {
        lemma_shapes(module.statements@);
        assert(all.take(0) =~= Seq::<Shape>::empty());
    }
    while i < module.statements.len()
        invariant
            i <= module.statements@.len(),
            all == shapes(module.statements@),
            all.len() == module.statements@.len(),
            forall|k: int| 0 <= k < all.len() ==> #[trigger] all[k] == shape(module.statements@[k]),
            !module.has_error,
            module.kind@ == "module"@,
            lower_statements(all.take(i as int)) == Ok::<(Progress, Option<Value>), Seq<char>>(
                (b@, last),
            ),
            b.wf(),
        decreases module.statements@.len() - i,
    {
        proof {
            assert(all.take(i + 1).drop_last() =~= all.take(i as int));
            assert(all.take(i + 1).last() == all[i as int]);
        }
        match handle_statement(&mut b, &module.statements[i], last) {
            Err(e) => {
                proof {
                    lemma_first_complaint(all, i + 1);
                }
                return Err(e);
            },
            Ok(v) => {
                last = v;
            },
        }
        i += 1;
    }
    assert(all.take(i as int) =~= all);
    Ok(Lowered { ssa: b.ssa, last, env: b.env, inputs: b.inputs, assigned: b.assigned })
}

/// The first complaint is the outcome.
proof fn lemma_first_complaint(ss: Seq<Shape>, k: int)
    requires
        0 <= k <= ss.len(),
        lower_statements(ss.take(k)) is Err,
    ensures
        lower_statements(ss) == lower_statements(ss.take(k)),
    decreases ss.len(),
{
    if k == ss.len() {
        assert(ss.take(k) =~= ss);
    } else {
        assert(ss.drop_last().take(k) =~= ss.take(k));
        lemma_first_complaint(ss.drop_last(), k);
    }
}

/// The outcome of lowering a source.
pub open spec fn lower_source(source: Seq<char>) -> Result<
    (Progress, Option<Value>),
    Seq<char>,
> {
    match module_parse(source) {
        Ok(Some(m)) => lower_shape_of_module(m),
        Ok(None) => Err("internal: python parser returned no tree"@),
        Err(m) => Err("failed to load python grammar: "@ + m),
    }
}

/// Parse and lower a source. Positions in it are counted in 32 bits.
pub fn lower_module(source: &str) -> (res: Result<Lowered, LoweringError>)
    requires
        encode_utf8(source@).len() <= u32::MAX,
    ensures
        lowered_as(res, lower_source(source@)),
{
    match parse_module(source) {
        Ok(Some(module)) => lower_tree(&module),
        Ok(None) => Err(plain_complaint("internal: python parser returned no tree")),
        Err(m) => Err(prefixed_complaint("failed to load python grammar: ", m.as_str())),
    }
}

/// Parse and lower a source, and keep the graph alone.
pub fn lower(source: &str) -> (res: Result<Ssa, LoweringError>)
    requires
        encode_utf8(source@).len() <= u32::MAX,
    ensures
        match (res, lower_source(source@)) {
            (Ok(ssa), Ok((p, _))) => ssa@ == p.defs && ssa.wf(),
            (Err(e), Err(m)) => e.message@ == m,
            _ => false,
        },
{
    match lower_module(source) {
        Ok(lowered) => Ok(lowered.ssa),
        Err(e) => Err(e),
    }
}

/// A lowered source is what its statements are lowered to: the graph, the
/// last bare expression, the names, the inputs in order and the value that
/// was assigned last. A source that is refused is refused with the complaint
/// about it. Keeping the graph alone changes neither.
pub proof fn law_sources_are_lowered(
    source: &str,
    res: Result<Lowered, LoweringError>,
    graph: Result<Ssa, LoweringError>,
)
    requires
        call_ensures(lower_module, (source,), res),
        call_ensures(lower, (source,), graph),
    ensures
        match lower_source(source@) {
            Ok((p, last)) => {
                &&& res is Ok
                &&& graph is Ok
                &&& res->Ok_0.ssa@ == p.defs
                &&& graph->Ok_0@ == p.defs
                &&& res->Ok_0.last == last
                &&& res->Ok_0.env@ == p.env
                &&& res->Ok_0.inputs@.len() == p.inputs.len()
                &&& forall|k: int|
                    0 <= k < p.inputs.len() ==> (#[trigger] res->Ok_0.inputs@[k])@ == p.inputs[k]
                &&& res->Ok_0.assigned == p.assigned
            },
            Err(m) => {
                &&& res is Err
                &&& graph is Err
                &&& res->Err_0.message@ == m
                &&& graph->Err_0.message@ == m
            },
        },
{
    if let Ok((p, _)) = lower_source(source@) {
        assert(texts(res->Ok_0.inputs@) == p.inputs);
        assert forall|k: int| 0 <= k < p.inputs.len() implies (#[trigger] res->Ok_0.inputs@[k])@
            == p.inputs[k] by {
            assert(texts(res->Ok_0.inputs@)[k] == p.inputs[k]);
        }
    }
}

/// A parsed module is lowered as its contents say.
pub proof fn law_modules_are_lowered(module: &Module, res: Result<Lowered, LoweringError>)
    requires
        call_ensures(lower_tree, (module,), res),
    ensures
        match lower_shape_of_module(module@) {
            Ok((p, last)) => {
                &&& res is Ok
                &&& res->Ok_0.ssa@ == p.defs
                &&& res->Ok_0.last == last
                &&& res->Ok_0.env@ == p.env
                &&& res->Ok_0.assigned == p.assigned
            },
            Err(m) => res is Err && res->Err_0.message@ == m,
        },
{
}

/// Looking up a name gives what it is bound to, and nothing for a name that
/// is not bound.
pub proof fn law_values_are_looked_up(l: &Lowered, name: &str, res: Option<Value>)
    requires
        call_ensures(Lowered::value_of, (l, name), res),
    ensures
        l.env@.contains_key(name@) ==> res == Some(l.env@[name@]),
        !l.env@.contains_key(name@) ==> res is None,
{
}

/// An error of the frontend is its message behind the frontend's name.
pub proof fn law_complaints_are_told_in_one_line(e: &LoweringError, line: String)
    requires
        call_ensures(LoweringError::to_string, (e,), line),
    ensures
        line@ == "python frontend: "@ + e.message@,
{
}

} // verus!
