//! What sources of the supported subset mean, and that lowering preserves it.
//!
//! The meaning of a source is that of integer arithmetic without bounds:
//! statements run in order, a name stands for the value that was assigned to
//! it last, and a name that was never assigned stands for an input.

use crate::concrete_syntax::python_parse;
use crate::frontend_python::{
    kind, lower_assignment, lower_module, lower_shape, lower_shape_of_module, lower_source,
    lower_statement, lower_statements, Lowered, Progress,
};
use crate::python_syntax::{module_of, module_parse, ModuleShape, Shape};
use crate::ssa::{
    arguments_env, law_evaluation_computes_meaning, lemma_append_meaning, lemma_append_valid,
    lemma_ordinal_bound, lemma_ordinal_push, meaning, operands_of, param_count, param_ordinal,
    reads, valid, Op, Ssa, Value,
};
use crate::text::{
    decimal, law_decimal_literals_read_back, literal_integer, literal_of, texts, without,
};
use vstd::prelude::*;
use vstd::utf8::*;

verus! {

/// The value of an expression whose names stand for the given integers.
pub open spec fn python_value(s: Shape, vars: spec_fn(Seq<char>) -> int) -> int
    decreases s,
{
    match s {
        Shape::Integer { text: Ok(t) } => match literal_integer(without(t, '_')) {
            Some(n) => n,
            None => 0,
        },
        Shape::Identifier { text: Ok(name) } => vars(name),
        Shape::Parenthesized { children, .. } => if children.len() == 1 {
            python_value(children[0], vars)
        } else {
            0
        },
        Shape::Binary { left: Some(left), operator: Some(op), right: Some(right), .. } => {
            let x = python_value(*left, vars);
            let y = python_value(*right, vars);
            if op == "+"@ {
                x + y
            } else if op == "-"@ {
                x - y
            } else if op == "*"@ {
                x * y
            } else {
                0
            }
        },
        Shape::Unary { argument: Some(argument), operator: Some(op), .. } => {
            let x = python_value(*argument, vars);
            if op == "-"@ {
                -x
            } else {
                x
            }
        },
        _ => 0,
    }
}

/// The name stands somewhere in the expression.
pub open spec fn mentions(s: Shape, name: Seq<char>) -> bool
    decreases s,
{
    match s {
        Shape::Identifier { text: Ok(n) } => n == name,
        Shape::Parenthesized { children, .. } => children.len() == 1 && mentions(children[0], name),
        Shape::Binary { left: Some(left), right: Some(right), .. } => mentions(*left, name)
            || mentions(*right, name),
        Shape::Unary { argument: Some(argument), .. } => mentions(*argument, name),
        _ => false,
    }
}

/// The name and the right side of a statement that is an assignment.
pub open spec fn assignment_in(s: Shape) -> Option<(Seq<char>, Shape)> {
    let inner = match s {
        Shape::ExpressionStatement { children, .. } => if children.len() == 1 {
            children[0]
        } else {
            s
        },
        _ => s,
    };
    match inner {
        Shape::Assignment { left: Some(left), right: Some(right), .. } => match *left {
            Shape::Identifier { text: Ok(name) } => Some((name, *right)),
            _ => None,
        },
        _ => None,
    }
}

/// The expression that a statement evaluates: the right side of an
/// assignment, or a bare expression.
pub open spec fn expression_in(s: Shape) -> Shape {
    match assignment_in(s) {
        Some((_, right)) => right,
        None => match s {
            Shape::ExpressionStatement { children, .. } => children[0],
            _ => s,
        },
    }
}

/// The statement assigns to the name.
pub open spec fn assigns_to(s: Shape, name: Seq<char>) -> bool {
    assignment_in(s) matches Some((n, _)) && n == name
}

/// The name is assigned or read in one of the statements.
pub open spec fn occurs_in(ss: Seq<Shape>, name: Seq<char>) -> bool {
    exists|k: int|
        0 <= k < ss.len() && (assigns_to(#[trigger] ss[k], name) || mentions(
            expression_in(ss[k]),
            name,
        ))
}

/// The variables of a running program.
pub ghost struct Store {
    /// The names that were assigned, with their values.
    pub bound: Map<Seq<char>, int>,
    /// The value of the last bare expression.
    pub last: Option<int>,
    /// The value that was assigned last.
    pub assigned: Option<int>,
}

/// What the names stand for.
pub open spec fn variables(store: Store, inputs: spec_fn(Seq<char>) -> int) -> spec_fn(
    Seq<char>,
) -> int {
    |name: Seq<char>|
        if store.bound.contains_key(name) {
            store.bound[name]
        } else {
            inputs(name)
        }
}

/// The store after a statement.
pub open spec fn run_statement(
    s: Shape,
    store: Store,
    inputs: spec_fn(Seq<char>) -> int,
) -> Store {
    let x = python_value(expression_in(s), variables(store, inputs));
    match assignment_in(s) {
        Some((name, _)) => Store {
            bound: store.bound.insert(name, x),
            last: store.last,
            assigned: Some(x),
        },
        None => Store { bound: store.bound, last: Some(x), assigned: store.assigned },
    }
}

/// The store after a list of statements.
pub open spec fn run_statements(ss: Seq<Shape>, inputs: spec_fn(Seq<char>) -> int) -> Store
    decreases ss.len(),
{
    if ss.len() == 0 {
        Store { bound: Map::empty(), last: None, assigned: None }
    } else {
        run_statement(ss.last(), run_statements(ss.drop_last(), inputs), inputs)
    }
}

/// The value lies in the graph, if there is one.
pub open spec fn known(p: Progress, v: Option<Value>) -> bool {
    v matches Some(v) ==> v.0 < p.defs.len()
}

/// The graph is valid, the bound values lie in it, and its parameters are the
/// inputs, each under a name of its own that stays bound.
pub open spec fn sound(p: Progress) -> bool {
    &&& valid(p.defs)
    &&& forall|n: Seq<char>| #[trigger] p.env.contains_key(n) ==> p.env[n].0 < p.defs.len()
    &&& known(p, p.assigned)
    &&& p.inputs.len() == param_count(p.defs)
    &&& p.inputs.no_duplicates()
    &&& forall|k: int| 0 <= k < p.inputs.len() ==> p.env.contains_key(#[trigger] p.inputs[k])
}

/// What was defined, bound or declared before is still there.
pub open spec fn grows(p: Progress, q: Progress) -> bool {
    &&& p.defs.len() <= q.defs.len()
    &&& q.defs.take(p.defs.len() as int) == p.defs
    &&& p.inputs.len() <= q.inputs.len()
    &&& q.inputs.take(p.inputs.len() as int) == p.inputs
    &&& forall|n: Seq<char>| #[trigger] p.env.contains_key(n) ==> q.env.contains_key(n)
}

/// Lowering an expression never shortens the graph.
proof fn lemma_expression_length(s: Shape, p: Progress)
    requires
        lower_shape(s, p) is Ok,
    ensures
        p.defs.len() <= lower_shape(s, p)->Ok_0.1.defs.len(),
    decreases s,
{
    match s {
        Shape::Parenthesized { children, .. } => {
            lemma_expression_length(children[0], p);
        },
        Shape::Binary { left: Some(left), operator: Some(_), right: Some(right), .. } => {
            lemma_expression_length(*left, p);
            lemma_expression_length(*right, lower_shape(*left, p)->Ok_0.1);
        },
        Shape::Unary { argument: Some(argument), operator: Some(_), .. } => {
            lemma_expression_length(*argument, p);
        },
        _ => {},
    }
}

/// One more operation on values of the graph.
proof fn lemma_define(p: Progress, op: Op)
    requires
        sound(p),
        p.defs.len() < u32::MAX,
        forall|w: Value| operands_of(op).contains(w) ==> w.0 < p.defs.len(),
    ensures
        sound(p.define(op)),
        grows(p, p.define(op)),
{
    let q = p.define(op);
    assert forall|w: Value| #[trigger] reads(Some(op), w) implies w.0 < p.defs.len() by {}
    lemma_append_valid(p.defs, Some(op));
    lemma_ordinal_push(p.defs, Some(op));
    assert(q.defs.take(p.defs.len() as int) =~= p.defs);
    assert(q.inputs.take(p.inputs.len() as int) =~= p.inputs);
}

/// One more input under a name that is not bound.
proof fn lemma_declare(p: Progress, name: Seq<char>)
    requires
        sound(p),
        p.defs.len() < u32::MAX,
        !p.env.contains_key(name),
    ensures
        sound(p.declare(name)),
        grows(p, p.declare(name)),
{
    let q = p.declare(name);
    assert forall|w: Value| #[trigger] reads(None::<Op>, w) implies w.0 < p.defs.len() by {}
    lemma_append_valid(p.defs, None);
    lemma_ordinal_push(p.defs, None);
    assert(q.defs.take(p.defs.len() as int) =~= p.defs);
    assert(q.inputs.take(p.inputs.len() as int) =~= p.inputs);
    assert forall|k: int| 0 <= k < q.inputs.len() implies q.env.contains_key(
        #[trigger] q.inputs[k],
    ) by {
        if k < p.inputs.len() {
            assert(q.inputs[k] == p.inputs[k]);
        }
    }
    assert forall|i: int, j: int|
        0 <= i < q.inputs.len() && 0 <= j < q.inputs.len() && i != j implies q.inputs[i]
        != q.inputs[j] by {
        if i < p.inputs.len() {
            assert(q.inputs[i] == p.inputs[i]);
        }
        if j < p.inputs.len() {
            assert(q.inputs[j] == p.inputs[j]);
        }
    }
}

/// Growth adds up.
proof fn lemma_grows(p: Progress, q: Progress, r: Progress)
    requires
        grows(p, q),
        grows(q, r),
    ensures
        grows(p, r),
{
    assert(r.defs.take(p.defs.len() as int) =~= q.defs.take(p.defs.len() as int));
    assert(r.inputs.take(p.inputs.len() as int) =~= q.inputs.take(p.inputs.len() as int));
}

/// Lowering an expression keeps the progress sound, and its value lies in the
/// graph.
proof fn lemma_expression_sound(s: Shape, p: Progress)
    requires
        sound(p),
        lower_shape(s, p) is Ok,
        lower_shape(s, p)->Ok_0.1.defs.len() <= u32::MAX,
    ensures
        sound(lower_shape(s, p)->Ok_0.1),
        grows(p, lower_shape(s, p)->Ok_0.1),
        lower_shape(s, p)->Ok_0.0.0 < lower_shape(s, p)->Ok_0.1.defs.len(),
        lower_shape(s, p)->Ok_0.1.assigned == p.assigned,
    decreases s,
{
    assert(p.defs.take(p.defs.len() as int) =~= p.defs);
    assert(p.inputs.take(p.inputs.len() as int) =~= p.inputs);
    assert(grows(p, p));
    match s {
        Shape::Integer { text: Ok(t) } => {
            lemma_define(p, Op::Const(literal_of(without(t, '_'))->Fits_0));
        },
        Shape::Identifier { text: Ok(name) } => {
            if !p.env.contains_key(name) {
                lemma_declare(p, name);
            }
        },
        Shape::Parenthesized { children, .. } => {
            lemma_expression_sound(children[0], p);
        },
        Shape::Binary { left: Some(left), operator: Some(op), right: Some(right), .. } => {
            let (l, p1) = lower_shape(*left, p)->Ok_0;
            lemma_expression_length(*right, p1);
            lemma_expression_sound(*left, p);
            let (r, p2) = lower_shape(*right, p1)->Ok_0;
            lemma_expression_sound(*right, p1);
            lemma_grows(p, p1, p2);
            if op == "+"@ {
                lemma_define(p2, Op::Add(l, r));
                lemma_grows(p, p2, p2.define(Op::Add(l, r)));
            } else if op == "-"@ {
                let p3 = p2.define(Op::Neg(r));
                lemma_define(p2, Op::Neg(r));
                lemma_define(p3, Op::Add(l, p2.next()));
                lemma_grows(p, p2, p3);
                lemma_grows(p, p3, p3.define(Op::Add(l, p2.next())));
            } else {
                lemma_define(p2, Op::Mul(l, r));
                lemma_grows(p, p2, p2.define(Op::Mul(l, r)));
            }
        },
        Shape::Unary { argument: Some(argument), operator: Some(op), .. } => {
            let (a, p1) = lower_shape(*argument, p)->Ok_0;
            lemma_expression_sound(*argument, p);
            if op == "-"@ {
                lemma_define(p1, Op::Neg(a));
                lemma_grows(p, p1, p1.define(Op::Neg(a)));
            }
        },
        _ => {},
    }
}

/// Every parameter stands for the input of its name.
pub open spec fn assigns(
    p: Progress,
    inputs: spec_fn(Seq<char>) -> int,
    env: spec_fn(u32) -> int,
) -> bool {
    forall|i: u32|
        i < p.defs.len() && p.defs[i as int] is None ==> #[trigger] env(i) == inputs(
            p.inputs[param_ordinal(p.defs, i as int) as int],
        )
}

/// What holds of all parameters holds of those that were there before.
proof fn lemma_assigns_earlier(
    p: Progress,
    q: Progress,
    inputs: spec_fn(Seq<char>) -> int,
    env: spec_fn(u32) -> int,
)
    requires
        sound(p),
        grows(p, q),
        assigns(q, inputs, env),
    ensures
        assigns(p, inputs, env),
{
    assert forall|i: u32| i < p.defs.len() && p.defs[i as int] is None implies #[trigger] env(i)
        == inputs(p.inputs[param_ordinal(p.defs, i as int) as int]) by {
        assert(q.defs[i as int] == q.defs.take(p.defs.len() as int)[i as int]);
        assert(q.defs.take(i as int) =~= p.defs.take(i as int));
        lemma_ordinal_bound(p.defs, i as int);
        let k = param_ordinal(p.defs, i as int) as int;
        assert(q.inputs[k] == q.inputs.take(p.inputs.len() as int)[k]);
    }
}

/// Every bound name means in the graph what it stands for in the program.
pub open spec fn agrees(
    p: Progress,
    store: Store,
    inputs: spec_fn(Seq<char>) -> int,
    env: spec_fn(u32) -> int,
) -> bool {
    &&& forall|n: Seq<char>| #[trigger]
        p.env.contains_key(n) ==> meaning(p.defs, p.env[n], env) == variables(store, inputs)(n)
    &&& forall|n: Seq<char>| #[trigger] store.bound.contains_key(n) ==> p.env.contains_key(n)
}

/// What is defined later does not change what a value means.
proof fn lemma_longer_graph(
    defs: Seq<Option<Op>>,
    more: Seq<Option<Op>>,
    v: Value,
    env: spec_fn(u32) -> int,
)
    requires
        v.0 < defs.len() <= more.len(),
        more.take(defs.len() as int) == defs,
    ensures
        meaning(more, v, env) == meaning(defs, v, env),
    decreases more.len(),
{
    if more.len() == defs.len() {
        assert(more.take(defs.len() as int) =~= more);
    } else {
        let rest = more.drop_last();
        assert(rest.push(more.last()) =~= more);
        assert(rest.take(defs.len() as int) =~= more.take(defs.len() as int));
        lemma_append_meaning(rest, more.last(), v, env);
        lemma_longer_graph(defs, rest, v, env);
    }
}

/// One more definition leaves the names as they are.
proof fn lemma_extended(
    p: Progress,
    d: Option<Op>,
    store: Store,
    inputs: spec_fn(Seq<char>) -> int,
    env: spec_fn(u32) -> int,
)
    requires
        sound(p),
        agrees(p, store, inputs, env),
    ensures
        forall|n: Seq<char>| #[trigger]
            p.env.contains_key(n) ==> meaning(p.defs.push(d), p.env[n], env) == variables(
                store,
                inputs,
            )(n),
{
    assert forall|n: Seq<char>| #[trigger] p.env.contains_key(n) implies meaning(
        p.defs.push(d),
        p.env[n],
        env,
    ) == variables(store, inputs)(n) by {
        lemma_append_meaning(p.defs, d, p.env[n], env);
    }
}

/// The value of a lowered expression means what the expression does.
proof fn lemma_expression_value(
    s: Shape,
    p: Progress,
    store: Store,
    inputs: spec_fn(Seq<char>) -> int,
    env: spec_fn(u32) -> int,
)
    requires
        sound(p),
        agrees(p, store, inputs, env),
        lower_shape(s, p) is Ok,
        lower_shape(s, p)->Ok_0.1.defs.len() <= u32::MAX,
        assigns(lower_shape(s, p)->Ok_0.1, inputs, env),
    ensures
        agrees(lower_shape(s, p)->Ok_0.1, store, inputs, env),
        meaning(lower_shape(s, p)->Ok_0.1.defs, lower_shape(s, p)->Ok_0.0, env) == python_value(
            s,
            variables(store, inputs),
        ),
    decreases s,
{
    lemma_expression_sound(s, p);
    let q = lower_shape(s, p)->Ok_0.1;
    match s {
        Shape::Integer { text: Ok(t) } => {
            let op = Op::Const(literal_of(without(t, '_'))->Fits_0);
            lemma_extended(p, Some(op), store, inputs, env);
        },
        Shape::Identifier { text: Ok(name) } => {
            if !p.env.contains_key(name) {
                lemma_extended(p, None, store, inputs, env);
                lemma_ordinal_push(p.defs, None);
                assert(p.defs.take(p.defs.len() as int) =~= p.defs);
                let i = p.next().0;
                assert(param_ordinal(q.defs, i as int) == param_ordinal(p.defs, i as int));
                assert(q.inputs[param_ordinal(q.defs, i as int) as int] == name);
                assert(env(i) == inputs(name));
                assert(!store.bound.contains_key(name));
            }
        },
        Shape::Parenthesized { children, .. } => {
            lemma_expression_value(children[0], p, store, inputs, env);
        },
        Shape::Binary { left: Some(left), operator: Some(op), right: Some(right), .. } => {
            let (l, p1) = lower_shape(*left, p)->Ok_0;
            let (r, p2) = lower_shape(*right, p1)->Ok_0;
            lemma_expression_length(*right, p1);
            lemma_expression_sound(*left, p);
            lemma_expression_sound(*right, p1);
            assert(p2.inputs.take(p2.inputs.len() as int) =~= p2.inputs);
            assert(q.defs.take(p2.defs.len() as int) =~= p2.defs);
            assert(grows(p2, q));
            lemma_assigns_earlier(p2, q, inputs, env);
            lemma_assigns_earlier(p1, p2, inputs, env);
            lemma_expression_value(*left, p, store, inputs, env);
            lemma_expression_value(*right, p1, store, inputs, env);
            lemma_longer_graph(p1.defs, p2.defs, l, env);
            if op == "+"@ {
                lemma_extended(p2, Some(Op::Add(l, r)), store, inputs, env);
                lemma_append_meaning(p2.defs, Some(Op::Add(l, r)), l, env);
                lemma_append_meaning(p2.defs, Some(Op::Add(l, r)), r, env);
            } else if op == "-"@ {
                let p3 = p2.define(Op::Neg(r));
                let sum = Some(Op::Add(l, p2.next()));
                lemma_define(p2, Op::Neg(r));
                lemma_extended(p2, Some(Op::Neg(r)), store, inputs, env);
                lemma_append_meaning(p2.defs, Some(Op::Neg(r)), l, env);
                lemma_append_meaning(p2.defs, Some(Op::Neg(r)), r, env);
                lemma_extended(p3, sum, store, inputs, env);
                lemma_append_meaning(p3.defs, sum, l, env);
                lemma_append_meaning(p3.defs, sum, p2.next(), env);
            } else {
                lemma_extended(p2, Some(Op::Mul(l, r)), store, inputs, env);
                lemma_append_meaning(p2.defs, Some(Op::Mul(l, r)), l, env);
                lemma_append_meaning(p2.defs, Some(Op::Mul(l, r)), r, env);
            }
        },
        Shape::Unary { argument: Some(argument), operator: Some(op), .. } => {
            let (a, p1) = lower_shape(*argument, p)->Ok_0;
            lemma_expression_sound(*argument, p);
            assert(p1.inputs.take(p1.inputs.len() as int) =~= p1.inputs);
            assert(q.defs.take(p1.defs.len() as int) =~= p1.defs);
            assert(grows(p1, q));
            lemma_assigns_earlier(p1, q, inputs, env);
            lemma_expression_value(*argument, p, store, inputs, env);
            if op == "-"@ {
                lemma_extended(p1, Some(Op::Neg(a)), store, inputs, env);
                lemma_append_meaning(p1.defs, Some(Op::Neg(a)), a, env);
            }
        },
        _ => {},
    }
}

/// A statement that is lowered is an assignment or a bare expression.
proof fn lemma_statement(s: Shape, p: Progress, last: Option<Value>)
    requires
        lower_statement(s, p, last) is Ok,
    ensures
        lower_shape(expression_in(s), p) is Ok,
        ({
            let (v, p1) = lower_shape(expression_in(s), p)->Ok_0;
            lower_statement(s, p, last)->Ok_0 == match assignment_in(s) {
                Some((name, _)) => (p1.bind(name, v), last),
                None => (p1, Some(v)),
            }
        }),
{
}

/// Binding a name to a value of the graph.
proof fn lemma_bind(p: Progress, name: Seq<char>, v: Value)
    requires
        sound(p),
        v.0 < p.defs.len(),
    ensures
        sound(p.bind(name, v)),
        grows(p, p.bind(name, v)),
{
    let q = p.bind(name, v);
    assert(q.defs.take(p.defs.len() as int) =~= p.defs);
    assert(q.inputs.take(p.inputs.len() as int) =~= p.inputs);
}

/// Lowering a statement keeps the progress sound.
proof fn lemma_statement_sound(s: Shape, p: Progress, last: Option<Value>)
    requires
        sound(p),
        known(p, last),
        lower_statement(s, p, last) is Ok,
        lower_statement(s, p, last)->Ok_0.0.defs.len() <= u32::MAX,
    ensures
        sound(lower_statement(s, p, last)->Ok_0.0),
        grows(p, lower_statement(s, p, last)->Ok_0.0),
        known(lower_statement(s, p, last)->Ok_0.0, lower_statement(s, p, last)->Ok_0.1),
{
    lemma_statement(s, p, last);
    let (v, p1) = lower_shape(expression_in(s), p)->Ok_0;
    lemma_expression_sound(expression_in(s), p);
    if let Some((name, _)) = assignment_in(s) {
        lemma_bind(p1, name, v);
        lemma_grows(p, p1, p1.bind(name, v));
    }
}

/// The value means in the graph the given number; there is one exactly if
/// there is the other.
pub open spec fn same_value(
    p: Progress,
    v: Option<Value>,
    x: Option<int>,
    env: spec_fn(u32) -> int,
) -> bool {
    match (v, x) {
        (Some(v), Some(x)) => meaning(p.defs, v, env) == x,
        (None, None) => true,
        _ => false,
    }
}

/// A statement means in the graph what it does in the program.
proof fn lemma_statement_value(
    s: Shape,
    p: Progress,
    last: Option<Value>,
    store: Store,
    inputs: spec_fn(Seq<char>) -> int,
    env: spec_fn(u32) -> int,
)
    requires
        sound(p),
        agrees(p, store, inputs, env),
        known(p, last),
        same_value(p, last, store.last, env),
        same_value(p, p.assigned, store.assigned, env),
        lower_statement(s, p, last) is Ok,
        lower_statement(s, p, last)->Ok_0.0.defs.len() <= u32::MAX,
        assigns(lower_statement(s, p, last)->Ok_0.0, inputs, env),
    ensures
        ({
            let (q, now_last) = lower_statement(s, p, last)->Ok_0;
            let after = run_statement(s, store, inputs);
            &&& agrees(q, after, inputs, env)
            &&& same_value(q, now_last, after.last, env)
            &&& same_value(q, q.assigned, after.assigned, env)
        }),
{
    let (q, now_last) = lower_statement(s, p, last)->Ok_0;
    let after = run_statement(s, store, inputs);
    lemma_statement(s, p, last);
    lemma_statement_sound(s, p, last);
    let (v, p1) = lower_shape(expression_in(s), p)->Ok_0;
    lemma_expression_sound(expression_in(s), p);
    assert(p1.inputs == q.inputs && p1.defs == q.defs);
    assert(assigns(p1, inputs, env));
    lemma_expression_value(expression_in(s), p, store, inputs, env);
    if last is Some {
        lemma_longer_graph(p.defs, q.defs, last->Some_0, env);
    }
    if p.assigned is Some {
        lemma_longer_graph(p.defs, q.defs, p.assigned->Some_0, env);
    }
    assert forall|n: Seq<char>| #[trigger] q.env.contains_key(n) implies meaning(
        q.defs,
        q.env[n],
        env,
    ) == variables(after, inputs)(n) by {
        if !assigns_to(s, n) {
            assert(p1.env.contains_key(n));
            assert(variables(after, inputs)(n) == variables(store, inputs)(n));
        }
    }
}

/// Lowered graphs are valid: every operand is defined before its use, every
/// bound name and the last bare expression are values of the graph, and the
/// parameters are the inputs, one for each name that is read before it is
/// assigned. This holds as long as a register can name every value.
pub proof fn law_lowered_graphs_are_valid(ss: Seq<Shape>)
    requires
        lower_statements(ss) is Ok,
        lower_statements(ss)->Ok_0.0.defs.len() <= u32::MAX,
    ensures
        sound(lower_statements(ss)->Ok_0.0),
        known(lower_statements(ss)->Ok_0.0, lower_statements(ss)->Ok_0.1),
    decreases ss.len(),
{
    if ss.len() > 0 {
        let (p, last) = lower_statements(ss.drop_last())->Ok_0;
        lemma_statement(ss.last(), p, last);
        lemma_expression_length(expression_in(ss.last()), p);
        law_lowered_graphs_are_valid(ss.drop_last());
        lemma_statement_sound(ss.last(), p, last);
    }
}

/// A name that is read twice is one value: the second occurrence of an input
/// adds nothing to the graph.
pub proof fn law_names_are_shared(name: Seq<char>, p: Progress)
    ensures
        ({
            let s = Shape::Identifier { text: Ok(name) };
            &&& lower_shape(s, p) is Ok
            &&& lower_shape(s, lower_shape(s, p)->Ok_0.1) == lower_shape(s, p)
        }),
{
}

/// An assignment reads its right side under the names as they were, and then
/// moves the one name to the value of the right side.
pub proof fn law_assignments_move_one_name(name: Seq<char>, right: Shape, p: Progress)
    requires
        assignable(right),
    ensures
        lower_assignment(
            3,
            false,
            Some(Box::new(Shape::Identifier { text: Ok(name) })),
            Some(Box::new(right)),
            p,
        ) == match lower_shape(right, p) {
            Ok((v, p1)) => Ok::<Progress, Seq<char>>(p1.bind(name, v)),
            Err(m) => Err(m),
        },
{
}

/// The right side is no assignment itself.
pub open spec fn assignable(right: Shape) -> bool {
    kind(right) != "assignment"@ && kind(right) != "augmented_assignment"@
}

/// A statement never takes anything away: rebinding a name leaves its earlier
/// value in the graph, and the inputs stay what they are.
pub proof fn law_statements_only_add(ss: Seq<Shape>)
    requires
        ss.len() > 0,
        lower_statements(ss) is Ok,
        lower_statements(ss)->Ok_0.0.defs.len() <= u32::MAX,
    ensures
        lower_statements(ss.drop_last()) is Ok,
        lower_statements(ss.drop_last())->Ok_0.0.defs.len() <= u32::MAX,
        grows(lower_statements(ss.drop_last())->Ok_0.0, lower_statements(ss)->Ok_0.0),
{
    let (p, last) = lower_statements(ss.drop_last())->Ok_0;
    lemma_statement(ss.last(), p, last);
    lemma_expression_length(expression_in(ss.last()), p);
    law_lowered_graphs_are_valid(ss.drop_last());
    lemma_statement_sound(ss.last(), p, last);
}

/// Lowering preserves meaning: if every parameter stands for the input of its
/// name, then at the end every bound name means in the graph what it stands
/// for in the program, and so do the last bare expression and the value that
/// was assigned last.
pub proof fn law_frontend_preserves_meaning(
    ss: Seq<Shape>,
    inputs: spec_fn(Seq<char>) -> int,
    env: spec_fn(u32) -> int,
)
    requires
        lower_statements(ss) is Ok,
        lower_statements(ss)->Ok_0.0.defs.len() <= u32::MAX,
        assigns(lower_statements(ss)->Ok_0.0, inputs, env),
    ensures
        ({
            let (p, last) = lower_statements(ss)->Ok_0;
            let store = run_statements(ss, inputs);
            &&& agrees(p, store, inputs, env)
            &&& same_value(p, last, store.last, env)
            &&& same_value(p, p.assigned, store.assigned, env)
        }),
    decreases ss.len(),
{
    if ss.len() > 0 {
        let (p, last) = lower_statements(ss.drop_last())->Ok_0;
        let q = lower_statements(ss)->Ok_0.0;
        law_statements_only_add(ss);
        law_lowered_graphs_are_valid(ss.drop_last());
        lemma_assigns_earlier(p, q, inputs, env);
        law_frontend_preserves_meaning(ss.drop_last(), inputs, env);
        lemma_statement_value(
            ss.last(),
            p,
            last,
            run_statements(ss.drop_last(), inputs),
            inputs,
            env,
        );
    }
}

/// The names that an expression adds are those that stand in it; the others
/// keep their values.
proof fn lemma_expression_names(s: Shape, p: Progress, n: Seq<char>)
    requires
        lower_shape(s, p) is Ok,
    ensures
        ({
            let q = lower_shape(s, p)->Ok_0.1;
            &&& q.env.contains_key(n) <==> p.env.contains_key(n) || mentions(s, n)
            &&& p.env.contains_key(n) ==> q.env[n] == p.env[n]
        }),
    decreases s,
{
    match s {
        Shape::Parenthesized { children, .. } => {
            lemma_expression_names(children[0], p, n);
        },
        Shape::Binary { left: Some(left), operator: Some(_), right: Some(right), .. } => {
            lemma_expression_names(*left, p, n);
            lemma_expression_names(*right, lower_shape(*left, p)->Ok_0.1, n);
        },
        Shape::Unary { argument: Some(argument), operator: Some(_), .. } => {
            lemma_expression_names(*argument, p, n);
        },
        _ => {},
    }
}

/// A name has a value at the end exactly if it is assigned or read somewhere.
pub proof fn law_names_with_a_value_occur(ss: Seq<Shape>, n: Seq<char>)
    requires
        lower_statements(ss) is Ok,
    ensures
        lower_statements(ss)->Ok_0.0.env.contains_key(n) <==> occurs_in(ss, n),
    decreases ss.len(),
{
    if ss.len() > 0 {
        let rest = ss.drop_last();
        let (p, last) = lower_statements(rest)->Ok_0;
        law_names_with_a_value_occur(rest, n);
        lemma_statement(ss.last(), p, last);
        lemma_expression_names(expression_in(ss.last()), p, n);
        assert(ss[ss.len() - 1] == ss.last());
        if occurs_in(rest, n) {
            let k = choose|k: int|
                0 <= k < rest.len() && (assigns_to(#[trigger] rest[k], n) || mentions(
                    expression_in(rest[k]),
                    n,
                ));
            assert(ss[k] == rest[k]);
        }
        if occurs_in(ss, n) {
            let k = choose|k: int|
                0 <= k < ss.len() && (assigns_to(#[trigger] ss[k], n) || mentions(
                    expression_in(ss[k]),
                    n,
                ));
            if k < rest.len() {
                assert(rest[k] == ss[k]);
            }
        }
    }
}

/// The last assignment decides: at the end a name has the value of the right
/// side of the last statement that assigns to it.
pub proof fn law_last_assignment_decides(ss: Seq<Shape>, k: int, n: Seq<char>)
    requires
        lower_statements(ss) is Ok,
        0 <= k < ss.len(),
        assigns_to(ss[k], n),
        forall|j: int| k < j < ss.len() ==> !assigns_to(#[trigger] ss[j], n),
    ensures
        lower_statements(ss.take(k)) is Ok,
        lower_shape(expression_in(ss[k]), lower_statements(ss.take(k))->Ok_0.0) is Ok,
        lower_statements(ss)->Ok_0.0.env.contains_key(n),
        lower_statements(ss)->Ok_0.0.env[n] == lower_shape(
            expression_in(ss[k]),
            lower_statements(ss.take(k))->Ok_0.0,
        )->Ok_0.0,
    decreases ss.len(),
{
    let rest = ss.drop_last();
    let (p, last) = lower_statements(rest)->Ok_0;
    lemma_statement(ss.last(), p, last);
    if k == ss.len() - 1 {
        assert(ss.take(k) =~= rest);
    } else {
        assert(rest.take(k) =~= ss.take(k));
        assert(forall|j: int| 0 <= j < rest.len() ==> rest[j] == ss[j]);
        law_last_assignment_decides(rest, k, n);
        lemma_expression_names(expression_in(ss.last()), p, n);
        assert(!assigns_to(ss[ss.len() - 1], n));
    }
}

/// The name stands for an input: its value is the parameter of that name.
pub open spec fn stands_for_input(p: Progress, n: Seq<char>) -> bool {
    let v = p.env[n];
    &&& p.env.contains_key(n)
    &&& v.0 < p.defs.len()
    &&& p.defs[v.0 as int] is None
    &&& p.inputs[param_ordinal(p.defs, v.0 as int) as int] == n
}

/// A name that stands for an input goes on doing so.
proof fn lemma_input_stays(p: Progress, q: Progress, n: Seq<char>)
    requires
        sound(p),
        stands_for_input(p, n),
        grows(p, q),
        q.env[n] == p.env[n],
    ensures
        stands_for_input(q, n),
{
    let i = p.env[n].0 as int;
    assert(q.defs[i] == q.defs.take(p.defs.len() as int)[i]);
    assert(q.defs.take(i) =~= p.defs.take(i));
    lemma_ordinal_bound(p.defs, i);
    let k = param_ordinal(p.defs, i) as int;
    assert(q.inputs[k] == q.inputs.take(p.inputs.len() as int)[k]);
}

/// A name that an expression adds stands for an input.
proof fn lemma_expression_inputs(s: Shape, p: Progress, n: Seq<char>)
    requires
        sound(p),
        lower_shape(s, p) is Ok,
        lower_shape(s, p)->Ok_0.1.defs.len() <= u32::MAX,
        !p.env.contains_key(n),
        lower_shape(s, p)->Ok_0.1.env.contains_key(n),
    ensures
        stands_for_input(lower_shape(s, p)->Ok_0.1, n),
    decreases s,
{
    lemma_expression_sound(s, p);
    let q = lower_shape(s, p)->Ok_0.1;
    match s {
        Shape::Identifier { text: Ok(name) } => {
            lemma_ordinal_push(p.defs, None);
            assert(p.defs.take(p.defs.len() as int) =~= p.defs);
            let i = p.next().0;
            assert(param_ordinal(q.defs, i as int) == param_ordinal(p.defs, i as int));
        },
        Shape::Parenthesized { children, .. } => {
            lemma_expression_inputs(children[0], p, n);
        },
        Shape::Binary { left: Some(left), operator: Some(_), right: Some(right), .. } => {
            let p1 = lower_shape(*left, p)->Ok_0.1;
            let p2 = lower_shape(*right, p1)->Ok_0.1;
            lemma_expression_length(*right, p1);
            lemma_expression_sound(*left, p);
            lemma_expression_sound(*right, p1);
            lemma_expression_names(*right, p1, n);
            if p1.env.contains_key(n) {
                lemma_expression_inputs(*left, p, n);
                lemma_input_stays(p1, p2, n);
            } else {
                lemma_expression_inputs(*right, p1, n);
            }
            assert(p2.inputs.take(p2.inputs.len() as int) =~= p2.inputs);
            assert(q.defs.take(p2.defs.len() as int) =~= p2.defs);
            lemma_input_stays(p2, q, n);
        },
        Shape::Unary { argument: Some(argument), operator: Some(_), .. } => {
            let p1 = lower_shape(*argument, p)->Ok_0.1;
            lemma_expression_sound(*argument, p);
            lemma_expression_inputs(*argument, p, n);
            assert(p1.inputs.take(p1.inputs.len() as int) =~= p1.inputs);
            assert(q.defs.take(p1.defs.len() as int) =~= p1.defs);
            lemma_input_stays(p1, q, n);
        },
        _ => {},
    }
}

/// A name that is read and never assigned is an input: its value is the
/// parameter of its name.
pub proof fn law_unassigned_names_are_inputs(ss: Seq<Shape>, n: Seq<char>)
    requires
        lower_statements(ss) is Ok,
        lower_statements(ss)->Ok_0.0.defs.len() <= u32::MAX,
        occurs_in(ss, n),
        forall|j: int| 0 <= j < ss.len() ==> !assigns_to(#[trigger] ss[j], n),
    ensures
        stands_for_input(lower_statements(ss)->Ok_0.0, n),
    decreases ss.len(),
{
    let rest = ss.drop_last();
    let (p, last) = lower_statements(rest)->Ok_0;
    let q = lower_statements(ss)->Ok_0.0;
    law_statements_only_add(ss);
    law_lowered_graphs_are_valid(rest);
    law_names_with_a_value_occur(rest, n);
    law_names_with_a_value_occur(ss, n);
    lemma_statement(ss.last(), p, last);
    let e = expression_in(ss.last());
    let p1 = lower_shape(e, p)->Ok_0.1;
    lemma_expression_names(e, p, n);
    assert(!assigns_to(ss[ss.len() - 1], n));
    assert(forall|j: int| 0 <= j < rest.len() ==> rest[j] == ss[j]);
    if p.env.contains_key(n) {
        law_unassigned_names_are_inputs(rest, n);
        lemma_input_stays(p, q, n);
    } else {
        lemma_expression_sound(e, p);
        lemma_expression_inputs(e, p, n);
        assert(q.inputs.take(p1.inputs.len() as int) =~= p1.inputs);
        assert(q.defs.take(p1.defs.len() as int) =~= p1.defs);
        lemma_input_stays(p1, q, n);
    }
}

/// Different names that stand for inputs are different parameters.
pub proof fn law_inputs_are_distinct(p: Progress, m: Seq<char>, n: Seq<char>)
    requires
        stands_for_input(p, m),
        stands_for_input(p, n),
        p.env[m] == p.env[n],
    ensures
        m == n,
{
}

/// Where nothing is assigned and no bare expression stands, there is nothing.
pub proof fn lemma_no_output(ss: Seq<Shape>)
    requires
        lower_statements(ss) is Ok,
        lower_statements(ss)->Ok_0.0.assigned is None,
        lower_statements(ss)->Ok_0.1 is None,
    ensures
        ss.len() == 0,
        lower_statements(ss)->Ok_0.0 == Progress::start(),
{
    if ss.len() > 0 {
        let (p, last) = lower_statements(ss.drop_last())->Ok_0;
        lemma_statement(ss.last(), p, last);
    }
}

/// An operation between two operands as the parser gives it.
pub open spec fn operation(left: Shape, op: Seq<char>, right: Shape) -> Shape {
    Shape::Binary {
        parts: 3,
        left: Some(Box::new(left)),
        operator: Some(op),
        right: Some(Box::new(right)),
    }
}

/// A sign in front of an operand as the parser gives it.
pub open spec fn signed(op: Seq<char>, argument: Shape) -> Shape {
    Shape::Unary { parts: 2, argument: Some(Box::new(argument)), operator: Some(op) }
}

/// The operators are different texts.
proof fn lemma_signs()
    ensures
        "+"@ != "-"@,
        "+"@ != "*"@,
        "-"@ != "*"@,
{
    reveal_strlit("+");
    reveal_strlit("-");
    reveal_strlit("*");
    assert("+"@[0] == '+' && "-"@[0] == '-' && "*"@[0] == '*');
}

/// Expressions mean integer arithmetic: sums, differences, products and
/// negation of what their operands mean. Parentheses and a plus sign change
/// nothing.
pub proof fn law_expressions_are_arithmetic(
    left: Shape,
    right: Shape,
    start_byte: nat,
    vars: spec_fn(Seq<char>) -> int,
)
    ensures
        ({
            let x = python_value(left, vars);
            let y = python_value(right, vars);
            &&& python_value(operation(left, "+"@, right), vars) == x + y
            &&& python_value(operation(left, "-"@, right), vars) == x - y
            &&& python_value(operation(left, "*"@, right), vars) == x * y
            &&& python_value(signed("-"@, left), vars) == -x
            &&& python_value(signed("+"@, left), vars) == x
            &&& python_value(
                Shape::Parenthesized { start_byte, parts: 3, children: seq![left] },
                vars,
            ) == x
        }),
{
    lemma_signs();
    assert(seq![left][0] == left);
}

/// A name means what it stands for, and the numeral of a number, with or
/// without separators, that number.
pub proof fn law_leaves_mean_what_they_say(
    name: Seq<char>,
    text: Seq<char>,
    n: nat,
    vars: spec_fn(Seq<char>) -> int,
)
    requires
        without(text, '_') == decimal(n),
    ensures
        python_value(Shape::Identifier { text: Ok(name) }, vars) == vars(name),
        python_value(Shape::Integer { text: Ok(text) }, vars) == n,
{
    law_decimal_literals_read_back(n);
}

/// The numeral of a machine integer, with or without separators, is lowered
/// to the constant of that number, which is the one new definition. A larger
/// number is refused.
pub proof fn law_literals_become_constants(text: Seq<char>, n: nat, p: Progress)
    requires
        without(text, '_') == decimal(n),
    ensures
        ({
            let lowered = lower_shape(Shape::Integer { text: Ok(text) }, p);
            &&& n <= i64::MAX ==> {
                &&& lowered is Ok
                &&& lowered->Ok_0.0 == p.next()
                &&& lowered->Ok_0.1.defs == p.defs.push(Some(Op::Const(n as i64)))
                &&& lowered->Ok_0.1.env == p.env
                &&& lowered->Ok_0.1.inputs == p.inputs
                &&& lowered->Ok_0.1.assigned == p.assigned
            }
            &&& n > i64::MAX ==> lowered == Err::<(Value, Progress), Seq<char>>(
                "integer literal `"@ + text + "` out of i64 range"@,
            )
        }),
{
    law_decimal_literals_read_back(n);
}

/// A name that is bound is lowered to its value, and nothing is defined. Any
/// other name declares one input and is bound to it.
pub proof fn law_names_are_looked_up(name: Seq<char>, p: Progress)
    ensures
        ({
            let lowered = lower_shape(Shape::Identifier { text: Ok(name) }, p);
            &&& p.env.contains_key(name) ==> lowered == Ok::<(Value, Progress), Seq<char>>(
                (p.env[name], p),
            )
            &&& !p.env.contains_key(name) ==> {
                &&& lowered is Ok
                &&& lowered->Ok_0.0 == Value(p.defs.len() as u32)
                &&& lowered->Ok_0.1.defs == p.defs.push(None)
                &&& lowered->Ok_0.1.env == p.env.insert(name, Value(p.defs.len() as u32))
                &&& lowered->Ok_0.1.inputs == p.inputs.push(name)
                &&& lowered->Ok_0.1.assigned == p.assigned
            }
        }),
{
}

/// Operations are lowered in order: the left operand, the right one against
/// what the left one left behind, and then one operation on the two values; a
/// difference is the sum with the negated right operand, and takes two.
/// Nothing but the definitions changes in that last step, and the names and
/// inputs are those that the operands leave.
pub proof fn law_operations_are_lowered_in_order(left: Shape, right: Shape, p: Progress)
    requires
        lower_shape(left, p) is Ok,
        lower_shape(right, lower_shape(left, p)->Ok_0.1) is Ok,
    ensures
        ({
            let (l, p1) = lower_shape(left, p)->Ok_0;
            let (r, p2) = lower_shape(right, p1)->Ok_0;
            let n = Value(p2.defs.len() as u32);
            let after = |defs: Seq<Option<Op>>| Progress { defs, ..p2 };
            &&& lower_shape(operation(left, "+"@, right), p) == Ok::<(Value, Progress), Seq<char>>(
                (n, after(p2.defs.push(Some(Op::Add(l, r))))),
            )
            &&& lower_shape(operation(left, "*"@, right), p) == Ok::<(Value, Progress), Seq<char>>(
                (n, after(p2.defs.push(Some(Op::Mul(l, r))))),
            )
            &&& lower_shape(operation(left, "-"@, right), p) == Ok::<(Value, Progress), Seq<char>>(
                (
                    Value((p2.defs.len() + 1) as u32),
                    after(p2.defs.push(Some(Op::Neg(r))).push(Some(Op::Add(l, n)))),
                ),
            )
        }),
{
    lemma_signs();
}

/// A minus sign negates its operand by one operation; a plus sign and
/// parentheses leave it as it is.
pub proof fn law_signs_are_lowered(argument: Shape, start_byte: nat, p: Progress)
    ensures
        ({
            let plain = lower_shape(argument, p);
            let grouped = Shape::Parenthesized { start_byte, parts: 3, children: seq![argument] };
            &&& lower_shape(grouped, p) == plain
            &&& lower_shape(signed("+"@, argument), p) == plain
            &&& plain matches Ok((a, p1)) ==> lower_shape(signed("-"@, argument), p) == Ok::<
                (Value, Progress),
                Seq<char>,
            >(
                (
                    Value(p1.defs.len() as u32),
                    Progress { defs: p1.defs.push(Some(Op::Neg(a))), ..p1 },
                ),
            )
            &&& plain matches Err(m) ==> lower_shape(signed("-"@, argument), p) == Err::<
                (Value, Progress),
                Seq<char>,
            >(m)
        }),
{
    lemma_signs();
    assert(seq![argument][0] == argument);
}

/// An operand that is refused is refused with its own complaint, the left one
/// first; an operator outside the subset is refused by name.
pub proof fn law_operations_are_refused(left: Shape, op: Seq<char>, right: Shape, p: Progress)
    ensures
        lower_shape(left, p) matches Err(m) ==> lower_shape(operation(left, op, right), p) == Err::<
            (Value, Progress),
            Seq<char>,
        >(m),
        lower_shape(left, p) matches Ok((_, p1)) ==> (lower_shape(right, p1) matches Err(m)
            ==> lower_shape(operation(left, op, right), p) == Err::<(Value, Progress), Seq<char>>(
            m,
        )),
        op != "+"@ && op != "-"@ && op != "*"@ && lower_shape(left, p) is Ok && lower_shape(
            right,
            lower_shape(left, p)->Ok_0.1,
        ) is Ok ==> lower_shape(operation(left, op, right), p) == Err::<
            (Value, Progress),
            Seq<char>,
        >("unsupported binary operator `"@ + op + "` (supported: + - *)"@),
        op != "+"@ && op != "-"@ && lower_shape(left, p) is Ok ==> lower_shape(
            signed(op, left),
            p,
        ) == Err::<(Value, Progress), Seq<char>>(
            "unsupported unary operator `"@ + op + "` (supported: -)"@,
        ),
{
}

/// Constructs outside the subset are refused by name, as expressions and as
/// statements.
pub proof fn law_other_constructs_are_refused(kind: Seq<char>, p: Progress, last: Option<Value>)
    ensures
        lower_shape(Shape::Other { kind }, p) == Err::<(Value, Progress), Seq<char>>(
            "unsupported construct `"@ + kind
                + "` in expression position (supported: integers, names, parentheses, + - *, unary -)"@,
        ),
        lower_statement(Shape::Other { kind }, p, last) == Err::<
            (Progress, Option<Value>),
            Seq<char>,
        >(
            "unsupported construct `"@ + kind
                + "` (supported: assignments, integer arithmetic with + - *, unary minus, parentheses)"@,
        ),
{
}

/// An annotated assignment is refused, whatever its sides are.
pub proof fn law_annotations_are_refused(
    parts: nat,
    left: Option<Box<Shape>>,
    right: Option<Box<Shape>>,
    p: Progress,
)
    ensures
        lower_assignment(parts, true, left, right, p) == Err::<Progress, Seq<char>>(
            "unsupported construct: annotated assignment (supported: plain `name = expr` only)"@,
        ),
{
}

/// A construct with more parts than it needs is never lowered.
pub proof fn law_stray_parts_are_refused(
    parts: nat,
    left: Option<Box<Shape>>,
    op: Option<Seq<char>>,
    right: Option<Box<Shape>>,
    children: Seq<Shape>,
    start_byte: nat,
    p: Progress,
    last: Option<Value>,
)
    ensures
        parts != 3 ==> lower_shape(Shape::Binary { parts, left, operator: op, right }, p) is Err,
        parts != 2 ==> lower_shape(Shape::Unary { parts, argument: left, operator: op }, p) is Err,
        parts != 3 ==> lower_shape(Shape::Parenthesized { start_byte, parts, children }, p) is Err,
        parts != 3 ==> lower_assignment(parts, false, left, right, p) is Err,
        parts != 1 ==> lower_statement(
            Shape::ExpressionStatement { start_byte, parts, children },
            p,
            last,
        ) is Err,
        children.len() != 1 ==> lower_shape(
            Shape::Parenthesized { start_byte, parts, children },
            p,
        ) is Err,
        children.len() != 1 ==> lower_statement(
            Shape::ExpressionStatement { start_byte, parts, children },
            p,
            last,
        ) is Err,
{
}

/// An assignment as the parser gives it.
pub open spec fn assigning(name: Seq<char>, right: Shape, start_byte: nat) -> Shape {
    Shape::ExpressionStatement {
        start_byte,
        parts: 1,
        children: seq![
            Shape::Assignment {
                parts: 3,
                annotated: false,
                left: Some(Box::new(Shape::Identifier { text: Ok(name) })),
                right: Some(Box::new(right)),
            },
        ],
    }
}

/// A bare expression as the parser gives it.
pub open spec fn bare(expression: Shape, start_byte: nat) -> Shape {
    Shape::ExpressionStatement { start_byte, parts: 1, children: seq![expression] }
}

/// An assignment binds its one name to the value of its right side, which is
/// the value that was assigned last; a bare expression is the last one. Both
/// leave everything else as the expression leaves it.
pub proof fn law_statements_are_lowered(
    name: Seq<char>,
    right: Shape,
    start_byte: nat,
    p: Progress,
    last: Option<Value>,
)
    requires
        assignable(right),
    ensures
        match lower_shape(right, p) {
            Ok((v, p1)) => {
                &&& lower_statement(assigning(name, right, start_byte), p, last) == Ok::<
                    (Progress, Option<Value>),
                    Seq<char>,
                >((Progress { env: p1.env.insert(name, v), assigned: Some(v), ..p1 }, last))
                &&& lower_statement(bare(right, start_byte), p, last) == Ok::<
                    (Progress, Option<Value>),
                    Seq<char>,
                >((p1, Some(v)))
            },
            Err(m) => {
                &&& lower_statement(assigning(name, right, start_byte), p, last) == Err::<
                    (Progress, Option<Value>),
                    Seq<char>,
                >(m)
                &&& lower_statement(bare(right, start_byte), p, last) == Err::<
                    (Progress, Option<Value>),
                    Seq<char>,
                >(m)
            },
        },
{
    assert(bare(right, start_byte)->ExpressionStatement_children[0] == right);
    assert(assigning(name, right, start_byte)->ExpressionStatement_children[0] is Assignment);
}

/// The statements of a module are lowered one after the other, each against
/// what those before it left, up to the first that is refused.
pub proof fn law_statements_are_lowered_one_by_one(ss: Seq<Shape>, s: Shape)
    ensures
        lower_statements(Seq::empty()) == Ok::<(Progress, Option<Value>), Seq<char>>(
            (Progress::start(), None),
        ),
        lower_statements(ss) matches Ok((p, last)) ==> lower_statements(ss.push(s))
            == lower_statement(s, p, last),
        lower_statements(ss) matches Err(m) ==> lower_statements(ss.push(s)) == Err::<
            (Progress, Option<Value>),
            Seq<char>,
        >(m),
{
    assert(ss.push(s).drop_last() =~= ss);
    assert(ss.push(s).last() == s);
}

/// A module is lowered to what its statements are lowered to, unless it has a
/// syntax error or is no module.
pub proof fn law_modules_are_their_statements(m: ModuleShape)
    ensures
        !m.has_error && m.kind == "module"@ ==> lower_shape_of_module(m) == lower_statements(
            m.statements,
        ),
        m.has_error ==> lower_shape_of_module(m) == Err::<(Progress, Option<Value>), Seq<char>>(
            "syntax error at byte "@ + decimal(m.start_byte)
                + " (input is outside the supported subset)"@,
        ),
        !m.has_error && m.kind != "module"@ ==> lower_shape_of_module(m) == Err::<
            (Progress, Option<Value>),
            Seq<char>,
        >("unsupported construct: expected a module, found `"@ + m.kind + "`"@),
{
}

/// A running program does what it says: after an assignment the one name
/// stands for the value of the right side under the names as they were, and
/// all others stand for what they stood for. A bare expression changes no
/// name.
pub proof fn law_programs_run_by_assignment(
    name: Seq<char>,
    right: Shape,
    start_byte: nat,
    store: Store,
    inputs: spec_fn(Seq<char>) -> int,
    other: Seq<char>,
)
    requires
        !(right is Assignment),
    ensures
        ({
            let x = python_value(right, variables(store, inputs));
            let assigned = run_statement(assigning(name, right, start_byte), store, inputs);
            let shown = run_statement(bare(right, start_byte), store, inputs);
            &&& variables(assigned, inputs)(name) == x
            &&& other != name ==> variables(assigned, inputs)(other) == variables(store, inputs)(
                other,
            )
            &&& assigned.assigned == Some(x)
            &&& assigned.last == store.last
            &&& variables(shown, inputs)(other) == variables(store, inputs)(other)
            &&& shown.last == Some(x)
            &&& shown.assigned == store.assigned
        }),
{
    let s = assigning(name, right, start_byte);
    let t = bare(right, start_byte);
    assert(s->ExpressionStatement_children[0] is Assignment);
    assert(t->ExpressionStatement_children[0] == right);
    assert(assignment_in(s) == Some((name, right)));
    assert(assignment_in(t) is None);
    assert(expression_in(t) == right);
}

/// Names that were never assigned stand for inputs.
pub proof fn law_programs_start_from_inputs(
    ss: Seq<Shape>,
    s: Shape,
    inputs: spec_fn(Seq<char>) -> int,
    name: Seq<char>,
)
    ensures
        variables(run_statements(Seq::empty(), inputs), inputs)(name) == inputs(name),
        run_statements(Seq::empty(), inputs).last is None,
        run_statements(Seq::empty(), inputs).assigned is None,
        run_statements(ss.push(s), inputs) == run_statement(s, run_statements(ss, inputs), inputs),
{
    assert(ss.push(s).drop_last() =~= ss);
    assert(ss.push(s).last() == s);
}

/// Only a plain name is assigned to, and not by a chain of assignments.
pub proof fn law_other_assignments_are_refused(
    parts: nat,
    left: Shape,
    right: Shape,
    p: Progress,
)
    ensures
        !(left is Identifier) ==> lower_assignment(
            parts,
            false,
            Some(Box::new(left)),
            Some(Box::new(right)),
            p,
        ) == Err::<Progress, Seq<char>>(
            "unsupported assignment target `"@ + kind(left) + "` (only plain names)"@,
        ),
        left is Identifier && (kind(right) == "assignment"@ || kind(right)
            == "augmented_assignment"@) ==> lower_assignment(
            parts,
            false,
            Some(Box::new(left)),
            Some(Box::new(right)),
            p,
        ) == Err::<Progress, Seq<char>>(
            "unsupported construct: chained/augmented assignment (`"@ + kind(right) + "`)"@,
        ),
        lower_assignment(parts, false, None, Some(Box::new(right)), p) == Err::<
            Progress,
            Seq<char>,
        >("malformed assignment: missing `left`"@),
        lower_assignment(parts, false, Some(Box::new(left)), None, p) == Err::<
            Progress,
            Seq<char>,
        >("malformed assignment: missing `right`"@),
{
}

/// An input that was declared earlier stays where it is in the list.
pub proof fn law_inputs_keep_their_order(ss: Seq<Shape>, s: Shape, k: int)
    requires
        lower_statements(ss.push(s)) is Ok,
        lower_statements(ss.push(s))->Ok_0.0.defs.len() <= u32::MAX,
        0 <= k < lower_statements(ss)->Ok_0.0.inputs.len(),
    ensures
        lower_statements(ss) is Ok,
        k < lower_statements(ss.push(s))->Ok_0.0.inputs.len(),
        lower_statements(ss.push(s))->Ok_0.0.inputs[k] == lower_statements(ss)->Ok_0.0.inputs[k],
{
    assert(ss.push(s).drop_last() =~= ss);
    law_statements_only_add(ss.push(s));
    let p = lower_statements(ss)->Ok_0.0;
    let q = lower_statements(ss.push(s))->Ok_0.0;
    assert(q.inputs.take(p.inputs.len() as int)[k] == p.inputs[k]);
}

/// What cannot be decoded, or lacks an operand or its operator, is refused,
/// and the complaint says what it is about.
pub proof fn law_incomplete_expressions_are_refused(
    m: Seq<char>,
    parts: nat,
    some: Shape,
    op: Option<Seq<char>>,
    right: Option<Box<Shape>>,
    p: Progress,
)
    ensures
        lower_shape(Shape::Integer { text: Err(m) }, p) == Err::<(Value, Progress), Seq<char>>(
            "invalid integer literal encoding: "@ + m,
        ),
        lower_shape(Shape::Identifier { text: Err(m) }, p) == Err::<(Value, Progress), Seq<char>>(
            "invalid identifier encoding: "@ + m,
        ),
        lower_shape(Shape::Binary { parts, left: None, operator: op, right }, p) == Err::<
            (Value, Progress),
            Seq<char>,
        >("malformed binary_operator: missing `left`"@),
        lower_shape(
            Shape::Binary { parts, left: Some(Box::new(some)), operator: None, right },
            p,
        ) == Err::<(Value, Progress), Seq<char>>("malformed binary_operator: missing `operator`"@),
        op is Some ==> lower_shape(
            Shape::Binary { parts, left: Some(Box::new(some)), operator: op, right: None },
            p,
        ) == Err::<(Value, Progress), Seq<char>>("malformed binary_operator: missing `right`"@),
        lower_shape(Shape::Unary { parts, argument: None, operator: op }, p) == Err::<
            (Value, Progress),
            Seq<char>,
        >("malformed unary_operator: missing `argument`"@),
        lower_shape(
            Shape::Unary { parts, argument: Some(Box::new(some)), operator: None },
            p,
        ) == Err::<(Value, Progress), Seq<char>>("malformed unary_operator: missing `operator`"@),
{
}

/// The complaint about a wrapper says how many expressions it holds, and
/// where; that about stray parts, how many there are.
pub proof fn law_crowds_are_counted(
    start_byte: nat,
    parts: nat,
    children: Seq<Shape>,
    p: Progress,
    last: Option<Value>,
)
    ensures
        children.len() != 1 ==> lower_shape(
            Shape::Parenthesized { start_byte, parts, children },
            p,
        ) == Err::<(Value, Progress), Seq<char>>(
            "unsupported construct `"@ + "parenthesized_expression"@ + "` with "@ + decimal(
                children.len(),
            ) + " sub-expressions near byte "@ + decimal(start_byte)
                + " (expected exactly one)"@,
        ),
        children.len() != 1 ==> lower_statement(
            Shape::ExpressionStatement { start_byte, parts, children },
            p,
            last,
        ) == Err::<(Progress, Option<Value>), Seq<char>>(
            "unsupported construct `"@ + "expression_statement"@ + "` with "@ + decimal(
                children.len(),
            ) + " sub-expressions near byte "@ + decimal(start_byte)
                + " (expected exactly one)"@,
        ),
        children.len() == 1 && parts != 1 ==> lower_statement(
            Shape::ExpressionStatement { start_byte, parts, children },
            p,
            last,
        ) == Err::<(Progress, Option<Value>), Seq<char>>(
            "unsupported construct `"@ + "expression_statement"@ + "` with "@ + decimal(parts)
                + " parts (expected "@ + decimal(1)
                + ": comments and stray commas are not supported)"@,
        ),
{
}

/// A source is lowered as the module that it parses to; where there is none,
/// the complaint is the parser's.
pub proof fn law_sources_are_lowered_as_modules(source: Seq<char>)
    ensures
        match python_parse(source) {
            Ok(Some(c)) => lower_source(source) == lower_shape_of_module(
                module_of(c, encode_utf8(source)),
            ),
            Ok(None) => lower_source(source) == Err::<(Progress, Option<Value>), Seq<char>>(
                "internal: python parser returned no tree"@,
            ),
            Err(m) => lower_source(source) == Err::<(Progress, Option<Value>), Seq<char>>(
                "failed to load python grammar: "@ + m,
            ),
        },
{
}

/// A lowered program computes what the program does: the value of a name,
/// evaluated on the numbers of the inputs in the order in which they are
/// listed, is the number that the name stands for at the end.
pub proof fn law_lowered_programs_compute(
    source: &str,
    l: Lowered,
    name: &str,
    v: Value,
    params: &[i64],
    r: i64,
    inputs: spec_fn(Seq<char>) -> int,
)
    requires
        call_ensures(lower_module, (source,), Ok(l)),
        call_ensures(Lowered::value_of, (&l, name), Some(v)),
        call_ensures(Ssa::evaluate, (&l.ssa, v, params), Ok(r)),
        l.ssa@.len() <= u32::MAX,
        l.inputs@.len() <= params@.len(),
        forall|k: int|
            0 <= k < l.inputs@.len() ==> inputs((#[trigger] l.inputs@[k])@) == params@[k],
    ensures
        r == variables(
            run_statements(module_parse(source@)->Ok_0->Some_0.statements, inputs),
            inputs,
        )(name@),
{
    let ss = module_parse(source@)->Ok_0->Some_0.statements;
    let p = lower_source(source@)->Ok_0.0;
    let env = arguments_env(p.defs, params@);
    law_lowered_graphs_are_valid(ss);
    assert(texts(l.inputs@) == p.inputs);
    assert forall|i: u32| i < p.defs.len() && p.defs[i as int] is None implies #[trigger] env(i)
        == inputs(p.inputs[param_ordinal(p.defs, i as int) as int]) by {
        lemma_ordinal_bound(p.defs, i as int);
        let k = param_ordinal(p.defs, i as int) as int;
        assert(texts(l.inputs@)[k] == l.inputs@[k]@);
    }
    law_frontend_preserves_meaning(ss, inputs, env);
    law_evaluation_computes_meaning(p.defs, v, params@, r);
}

/// An assignment that stands as a statement of its own is lowered as one that
/// is wrapped.
pub proof fn law_assignments_need_no_wrapper(
    parts: nat,
    annotated: bool,
    left: Option<Box<Shape>>,
    right: Option<Box<Shape>>,
    start_byte: nat,
    p: Progress,
    last: Option<Value>,
)
    ensures
        ({
            let s = Shape::Assignment { parts, annotated, left, right };
            let plain = lower_statement(s, p, last);
            &&& plain == lower_statement(bare(s, start_byte), p, last)
            &&& lower_assignment(parts, annotated, left, right, p) matches Ok(p1) ==> plain == Ok::<
                (Progress, Option<Value>),
                Seq<char>,
            >((p1, last))
            &&& lower_assignment(parts, annotated, left, right, p) matches Err(m) ==> plain == Err::<
                (Progress, Option<Value>),
                Seq<char>,
            >(m)
        }),
{
    let s = Shape::Assignment { parts, annotated, left, right };
    assert(bare(s, start_byte)->ExpressionStatement_children[0] == s);
}

} // verus!
