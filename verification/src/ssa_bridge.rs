//! Lowering of data flow graphs into terms.
//!
//! The operations are spelled `add`, `mul` and `neg`. A parameter becomes the
//! atom `p<N>`, where `N` is its position in the graph; a constant becomes a
//! bare numeral, so that the identities on `0` and `1` apply to it. The text
//! of each value is made once and kept, so a shared value is walked once.
//!
//! Graphs that fail validation are lowered too: an operand that does not
//! exist becomes the inert atom `undef<N>`, and a cycle is cut where it comes
//! back to a value that is still being lowered, with the atom `v<N>cycle`. A
//! term that holds such an atom is broken: it stands for no number, and is
//! proved equal to nothing, not even to itself.

use crate::egraph::{expr_term, parse_expr};
use crate::rules::{integers, lemma_numeral, lemma_operators, numeral};
use crate::ssa::{
    law_operations_read_their_operands, lemma_operands_below, meaning, op_at, reads, valid, Op, Ssa,
    Value,
};
use crate::terms::{
    atom, binary, is_symbol, lemma_binary_text, lemma_plain_terms, lemma_unary_text, lemma_values,
    plain_term, term_text, unary, value, Term,
};
use crate::text::{
    decimal, integer, is_digit, lemma_decimal, lemma_integer_shape, push_decimal, push_integer,
};
use egg::{RecExpr, SymbolLang};
use std::collections::{HashMap, HashSet};
use vstd::prelude::*;

verus! {

/// The atom of the parameter at position `n`.
pub open spec fn param_name(n: u32) -> Seq<char> {
    "p"@ + decimal(n as nat)
}

/// The atom of an operand that does not exist.
pub open spec fn undef_name(n: u32) -> Seq<char> {
    "undef"@ + decimal(n as nat)
}

/// The atom at which a cycle is cut.
pub open spec fn cycle_name(n: u32) -> Seq<char> {
    "v"@ + decimal(n as nat) + "cycle"@
}

/// The atom stands in the place of a value that the graph does not define.
pub open spec fn inert_name(s: Seq<char>) -> bool {
    ||| exists|n: u32| s == #[trigger] undef_name(n)
    ||| exists|n: u32| s == #[trigger] cycle_name(n)
}

/// The term holds an inert atom.
pub open spec fn broken(t: Term) -> bool
    decreases t,
{
    inert_name(t.op) || any_broken(t.args)
}

pub open spec fn any_broken(ts: Seq<Term>) -> bool
    decreases ts,
{
    ts.len() > 0 && (any_broken(ts.drop_last()) || broken(ts.last()))
}

/// How many of the first `n` positions are not in `open`.
pub open spec fn unopened(n: nat, open: Set<u32>) -> nat
    decreases n,
{
    if n == 0 {
        0
    } else {
        unopened((n - 1) as nat, open) + if open.contains((n - 1) as u32) {
            0nat
        } else {
            1nat
        }
    }
}

/// The number of values of the graph that a register can name.
pub open spec fn named(defs: Seq<Option<Op>>) -> nat {
    if defs.len() <= u32::MAX {
        defs.len()
    } else {
        (u32::MAX + 1) as nat
    }
}

/// The term of `v`, and all terms made so far, where `memo` holds the terms
/// that are already made and `open` the values that are still being lowered.
///
/// On a graph without uses before definitions this is [`tree`].
pub open spec fn lowering(
    defs: Seq<Option<Op>>,
    v: Value,
    memo: Map<u32, Term>,
    open: Set<u32>,
) -> (Term, Map<u32, Term>)
    decreases unopened(named(defs), open),
{
    if memo.contains_key(v.0) {
        (memo[v.0], memo)
    } else if open.contains(v.0) {
        (atom(cycle_name(v.0)), memo)
    } else {
        let inner = open.insert(v.0);
        proof {
            if v.0 < defs.len() {
                lemma_open_one(named(defs), open, v.0);
            }
        }
        let (t, made) = match op_at(defs, v) {
            None => (
                atom(
                    if v.0 < defs.len() {
                        param_name(v.0)
                    } else {
                        undef_name(v.0)
                    },
                ),
                memo,
            ),
            Some(Op::Const(c)) => (atom(integer(c as int)), memo),
            Some(Op::Add(a, b)) => {
                let (x, made_x) = lowering(defs, a, memo, inner);
                let (y, made_y) = lowering(defs, b, made_x, inner);
                (binary("add"@, x, y), made_y)
            },
            Some(Op::Mul(a, b)) => {
                let (x, made_x) = lowering(defs, a, memo, inner);
                let (y, made_y) = lowering(defs, b, made_x, inner);
                (binary("mul"@, x, y), made_y)
            },
            Some(Op::Neg(a)) => {
                let (x, made_x) = lowering(defs, a, memo, inner);
                (unary("neg"@, x), made_x)
            },
        };
        (t, made.insert(v.0, t))
    }
}

/// The term of `v`.
pub open spec fn term_of(defs: Seq<Option<Op>>, v: Value) -> Term {
    lowering(defs, v, Map::empty(), Set::empty()).0
}

/// The term of `v` in a graph without uses before definitions: the tree of
/// the operations that `v` is computed by.
pub open spec fn tree(defs: Seq<Option<Op>>, v: Value) -> Term
    decreases v.0,
{
    match op_at(defs, v) {
        None => atom(
            if v.0 < defs.len() {
                param_name(v.0)
            } else {
                undef_name(v.0)
            },
        ),
        Some(Op::Const(c)) => atom(integer(c as int)),
        Some(Op::Add(a, b)) => if a.0 < v.0 && b.0 < v.0 {
            binary("add"@, tree(defs, a), tree(defs, b))
        } else {
            atom(cycle_name(v.0))
        },
        Some(Op::Mul(a, b)) => if a.0 < v.0 && b.0 < v.0 {
            binary("mul"@, tree(defs, a), tree(defs, b))
        } else {
            atom(cycle_name(v.0))
        },
        Some(Op::Neg(a)) => if a.0 < v.0 {
            unary("neg"@, tree(defs, a))
        } else {
            atom(cycle_name(v.0))
        },
    }
}

/// The texts are those of the terms.
spec fn texts_of(texts: Map<u32, String>, terms: Map<u32, Term>) -> bool {
    &&& texts.dom() == terms.dom()
    &&& forall|k: u32| #[trigger]
        texts.contains_key(k) ==> texts[k]@ == term_text(terms[k])
}

/// No term is broken unless the mark is set.
spec fn marked(terms: Map<u32, Term>, mark: bool) -> bool {
    forall|k: u32| #[trigger] terms.contains_key(k) && broken(terms[k]) ==> mark
}

/// Lower `result`, a value of `ssa`, into a term.
pub fn to_rec_expr(ssa: &Ssa, result: Value) -> (res: RecExpr<SymbolLang>)
    ensures
        expr_term(res) == Some(term_of(ssa@, result)),
{
    let (expr, _) = lower_value(ssa, result);
    expr
}

/// Lower `result`, a value of `ssa`, into a term, and say whether the term is
/// broken.
pub(crate) fn lower_value(ssa: &Ssa, result: Value) -> (res: (RecExpr<SymbolLang>, bool))
    ensures
        expr_term(res.0) == Some(term_of(ssa@, result)),
        res.1 == broken(term_of(ssa@, result)),
{
    let mut memo: HashMap<u32, String> = HashMap::new();
    let mut open: HashSet<u32> = HashSet::new();
    let mut mark = false;
    let ghost terms = Map::<u32, Term>::empty();
    proof {
        assert(memo@.dom() =~= terms.dom());
        lemma_lowering_plain(ssa@, result, terms, open@);
    }
    let text = render(ssa, result, &mut memo, &mut open, &mut mark, Ghost(terms));
    match parse_expr(&text) {
        Ok(expr) => (expr, mark),
        Err(_) => vstd::pervasive::unreached(),
    }
}

/// The text of `v`. `memo` keeps the texts that are already made, `open` the
/// values that are still being lowered; `mark` is set where a term is broken.
fn render(
    ssa: &Ssa,
    v: Value,
    memo: &mut HashMap<u32, String>,
    open: &mut HashSet<u32>,
    mark: &mut bool,
    Ghost(terms): Ghost<Map<u32, Term>>,
) -> (res: String)
    requires
        texts_of(old(memo)@, terms),
        marked(terms, *old(mark)),
    ensures
        res@ == term_text(lowering(ssa@, v, terms, old(open)@).0),
        texts_of(final(memo)@, lowering(ssa@, v, terms, old(open)@).1),
        final(open)@ == old(open)@,
        *final(mark) == (*old(mark) || broken(lowering(ssa@, v, terms, old(open)@).0)),
        marked(lowering(ssa@, v, terms, old(open)@).1, *final(mark)),
    decreases unopened(named(ssa@), old(open)@),
{
    broadcast use vstd::std_specs::hash::group_hash_axioms;

    let kept: Option<&String> = memo.get(&v.0);
    if let Some(hit) = kept {
        return hit.clone();
    }
    let mut text = String::new();
    proof {
        lemma_broken_atoms(v.0);
    }
    if !open.insert(v.0) {
        assert(open@ =~= old(open)@);
        *mark = true;
        text.append("v");
        push_decimal(&mut text, v.0 as u128);
        text.append("cycle");
        assert(text@ =~= cycle_name(v.0));
        return text;
    }
    let ghost inner = open@;
    proof {
        if v.0 < ssa@.len() {
            lemma_open_one(named(ssa@), old(open)@, v.0);
        }
    }
    let ghost mut made = terms;
    if ssa.is_param(v) {
        text.append("p");
        push_decimal(&mut text, v.0 as u128);
        assert(text@ =~= param_name(v.0));
    } else {
        match ssa.op_of(v) {
            Some(Op::Const(c)) => {
                proof {
                    lemma_numerals_are_whole(*c as int);
                }
                push_integer(&mut text, *c);
                assert(text@ =~= integer(*c as int));
            },
            Some(Op::Add(a, b)) => {
                let x = render(ssa, *a, memo, open, mark, Ghost(terms));
                proof {
                    made = lowering(ssa@, *a, terms, inner).1;
                }
                let y = render(ssa, *b, memo, open, mark, Ghost(made));
                proof {
                    lemma_broken_terms(
                        "add"@,
                        lowering(ssa@, *a, terms, inner).0,
                        lowering(ssa@, *b, made, inner).0,
                    );
                    lemma_binary_text(
                        "add"@,
                        lowering(ssa@, *a, terms, inner).0,
                        lowering(ssa@, *b, made, inner).0,
                    );
                    made = lowering(ssa@, *b, made, inner).1;
                }
                push_binary(&mut text, "add", &x, &y);
            },
            Some(Op::Mul(a, b)) => {
                let x = render(ssa, *a, memo, open, mark, Ghost(terms));
                proof {
                    made = lowering(ssa@, *a, terms, inner).1;
                }
                let y = render(ssa, *b, memo, open, mark, Ghost(made));
                proof {
                    lemma_broken_terms(
                        "mul"@,
                        lowering(ssa@, *a, terms, inner).0,
                        lowering(ssa@, *b, made, inner).0,
                    );
                    lemma_binary_text(
                        "mul"@,
                        lowering(ssa@, *a, terms, inner).0,
                        lowering(ssa@, *b, made, inner).0,
                    );
                    made = lowering(ssa@, *b, made, inner).1;
                }
                push_binary(&mut text, "mul", &x, &y);
            },
            Some(Op::Neg(a)) => {
                let x = render(ssa, *a, memo, open, mark, Ghost(terms));
                proof {
                    lemma_broken_terms(
                        "neg"@,
                        lowering(ssa@, *a, terms, inner).0,
                        lowering(ssa@, *a, terms, inner).0,
                    );
                    lemma_unary_text("neg"@, lowering(ssa@, *a, terms, inner).0);
                    made = lowering(ssa@, *a, terms, inner).1;
                }
                push_unary(&mut text, "neg", &x);
            },
            None => {
                *mark = true;
                text.append("undef");
                push_decimal(&mut text, v.0 as u128);
                assert(text@ =~= undef_name(v.0));
            },
        }
    }
    open.remove(&v.0);
    assert(open@ =~= old(open)@);
    memo.insert(v.0, text.clone());
    text
}

/// The highest of the first `n` positions that holds an operation.
pub open spec fn highest_op(defs: Seq<Option<Op>>, n: u32) -> Option<Value>
    decreases n,
{
    if n == 0 {
        None
    } else if op_at(defs, Value((n - 1) as u32)) is Some {
        Some(Value((n - 1) as u32))
    } else {
        highest_op(defs, (n - 1) as u32)
    }
}

/// The natural root of a graph that is built in order: its highest defined
/// value. None if the graph defines no operation.
pub fn last_defined(ssa: &Ssa) -> (res: Option<Value>)
    ensures
        res == highest_op(ssa@, ssa@.len() as u32),
{
    let n: u32 = ssa.len() as u32;
    let mut i: u32 = n;
    while i > 0
        invariant
            i <= n,
            n == ssa@.len() as u32,
            highest_op(ssa@, n) == highest_op(ssa@, i),
        decreases i,
    {
        i -= 1;
        if ssa.op_of(Value(i)).is_some() {
            return Some(Value(i));
        }
    }
    None
}

/// The highest defined value is an operation, and what comes after it are
/// parameters only; there is none exactly if there is no operation.
pub proof fn law_highest_op_is_last(defs: Seq<Option<Op>>, n: u32, j: u32)
    requires
        j < n,
    ensures
        match highest_op(defs, n) {
            Some(v) => {
                &&& v.0 < n
                &&& op_at(defs, v) is Some
                &&& v.0 < j ==> op_at(defs, Value(j)) is None
            },
            None => op_at(defs, Value(j)) is None,
        },
    decreases n,
{
    if j < n - 1 {
        law_highest_op_is_last(defs, (n - 1) as u32, j);
    } else if n > 1 {
        law_highest_op_is_last(defs, (n - 1) as u32, 0);
    }
}

/// Append an operation on two operands.
fn push_binary(out: &mut String, op: &str, x: &str, y: &str)
    ensures
        final(out)@ == old(out)@ + (seq!['('] + op@ + seq![' '] + x@ + seq![' '] + y@ + seq![')']),
{
    proof {
        reveal_strlit("(");
        reveal_strlit(" ");
        reveal_strlit(")");
    }
    out.append("(");
    out.append(op);
    out.append(" ");
    out.append(x);
    out.append(" ");
    out.append(y);
    out.append(")");
    assert(out@ =~= old(out)@ + (seq!['('] + op@ + seq![' '] + x@ + seq![' '] + y@ + seq![')']));
}

/// Append an operation on one operand.
fn push_unary(out: &mut String, op: &str, x: &str)
    ensures
        final(out)@ == old(out)@ + (seq!['('] + op@ + seq![' '] + x@ + seq![')']),
{
    proof {
        reveal_strlit("(");
        reveal_strlit(" ");
        reveal_strlit(")");
    }
    out.append("(");
    out.append(op);
    out.append(" ");
    out.append(x);
    out.append(")");
    assert(out@ =~= old(out)@ + (seq!['('] + op@ + seq![' '] + x@ + seq![')']));
}

/// Opening a value leaves one less to open.
pub proof fn lemma_open_one(n: nat, open: Set<u32>, i: u32)
    requires
        i < n <= u32::MAX + 1,
        !open.contains(i),
    ensures
        unopened(n, open.insert(i)) + 1 == unopened(n, open),
    decreases n,
{
    if i == n - 1 {
        lemma_open_beyond((n - 1) as nat, open, i);
    } else {
        lemma_open_one((n - 1) as nat, open, i);
    }
}

/// Opening a value beyond the first `n` does not count among them.
proof fn lemma_open_beyond(n: nat, open: Set<u32>, i: u32)
    requires
        n <= i,
    ensures
        unopened(n, open.insert(i)) == unopened(n, open),
    decreases n,
{
    if n > 0 {
        lemma_open_beyond((n - 1) as nat, open, i);
    }
}

/// The atoms of the lowering are unquoted symbols.
proof fn lemma_names(n: u32, c: i64)
    ensures
        is_symbol(param_name(n)),
        is_symbol(undef_name(n)),
        is_symbol(cycle_name(n)),
        is_symbol(integer(c as int)),
        is_symbol("add"@),
        is_symbol("mul"@),
        is_symbol("neg"@),
{
    reveal_strlit("p");
    reveal_strlit("undef");
    reveal_strlit("v");
    reveal_strlit("cycle");
    reveal_strlit("add");
    reveal_strlit("mul");
    reveal_strlit("neg");
    lemma_decimal(n as nat);
    lemma_integer_shape(c as int);
    let d = decimal(n as nat);
    assert forall|i: int| 0 <= i < d.len() implies is_digit(#[trigger] d[i]) by {}
    assert forall|i: int| 0 <= i < integer(c as int).len() implies crate::terms::symbol_char(
        #[trigger] integer(c as int)[i],
    ) by {}
}

/// Terms made of plain terms are plain.
proof fn lemma_lowering_plain(
    defs: Seq<Option<Op>>,
    v: Value,
    memo: Map<u32, Term>,
    open: Set<u32>,
)
    requires
        forall|k: u32| #[trigger] memo.contains_key(k) ==> plain_term(memo[k]),
    ensures
        plain_term(lowering(defs, v, memo, open).0),
        forall|k: u32| #[trigger]
            lowering(defs, v, memo, open).1.contains_key(k) ==> plain_term(
                lowering(defs, v, memo, open).1[k],
            ),
    decreases unopened(named(defs), open),
{
    lemma_names(v.0, 0);
    lemma_plain_terms(param_name(v.0), atom(param_name(v.0)), atom(param_name(v.0)));
    lemma_plain_terms(undef_name(v.0), atom(param_name(v.0)), atom(param_name(v.0)));
    lemma_plain_terms(cycle_name(v.0), atom(param_name(v.0)), atom(param_name(v.0)));
    if !memo.contains_key(v.0) && !open.contains(v.0) {
        let inner = open.insert(v.0);
        if v.0 < defs.len() {
            lemma_open_one(named(defs), open, v.0);
        }
        match op_at(defs, v) {
            None => {},
            Some(Op::Const(c)) => {
                lemma_names(v.0, c);
                lemma_plain_terms(integer(c as int), atom(param_name(v.0)), atom(param_name(v.0)));
            },
            Some(Op::Add(a, b)) => {
                let (x, made) = lowering(defs, a, memo, inner);
                lemma_lowering_plain(defs, a, memo, inner);
                lemma_lowering_plain(defs, b, made, inner);
                lemma_plain_terms("add"@, x, lowering(defs, b, made, inner).0);
            },
            Some(Op::Mul(a, b)) => {
                let (x, made) = lowering(defs, a, memo, inner);
                lemma_lowering_plain(defs, a, memo, inner);
                lemma_lowering_plain(defs, b, made, inner);
                lemma_plain_terms("mul"@, x, lowering(defs, b, made, inner).0);
            },
            Some(Op::Neg(a)) => {
                lemma_lowering_plain(defs, a, memo, inner);
                lemma_plain_terms("neg"@, lowering(defs, a, memo, inner).0, atom(param_name(v.0)));
            },
        }
    }
}

/// On a graph without uses before definitions the terms that are kept and the
/// values that are open make no difference: every value becomes the tree of
/// the operations that it is computed by.
pub proof fn law_valid_graph_becomes_tree(defs: Seq<Option<Op>>, v: Value)
    requires
        valid(defs),
    ensures
        term_of(defs, v) == tree(defs, v),
{
    lemma_lowering_is_tree(defs, v, Map::empty(), Set::empty());
}

proof fn lemma_lowering_is_tree(
    defs: Seq<Option<Op>>,
    v: Value,
    memo: Map<u32, Term>,
    open: Set<u32>,
)
    requires
        valid(defs),
        forall|k: u32| #[trigger] memo.contains_key(k) ==> memo[k] == tree(defs, Value(k)),
        forall|k: u32| #[trigger] open.contains(k) ==> v.0 < k,
    ensures
        lowering(defs, v, memo, open).0 == tree(defs, v),
        forall|k: u32| #[trigger]
            lowering(defs, v, memo, open).1.contains_key(k) ==> lowering(defs, v, memo, open).1[k]
                == tree(defs, Value(k)),
    decreases v.0,
{
    lemma_operands_below(defs, v);
    if memo.contains_key(v.0) {
        assert(v == Value(v.0));
    } else {
        let inner = open.insert(v.0);
        match op_at(defs, v) {
            Some(Op::Add(a, b)) => {
                let made = lowering(defs, a, memo, inner).1;
                lemma_lowering_is_tree(defs, a, memo, inner);
                lemma_lowering_is_tree(defs, b, made, inner);
            },
            Some(Op::Mul(a, b)) => {
                let made = lowering(defs, a, memo, inner).1;
                lemma_lowering_is_tree(defs, a, memo, inner);
                lemma_lowering_is_tree(defs, b, made, inner);
            },
            Some(Op::Neg(a)) => {
                lemma_lowering_is_tree(defs, a, memo, inner);
            },
            _ => {},
        }
    }
}

/// The assignment of atoms in which the parameter at position `n` stands for
/// `env(n)`.
pub open spec fn atoms(env: spec_fn(u32) -> int) -> spec_fn(Seq<char>) -> int {
    |s: Seq<char>|
        if exists|n: u32| #[trigger] param_name(n) == s {
            env(choose|n: u32| #[trigger] param_name(n) == s)
        } else {
            0
        }
}

/// The lowering preserves meaning: on a valid graph the term of a value, read
/// as integer arithmetic, has the value that the graph computes.
pub proof fn law_lowering_preserves_meaning(
    defs: Seq<Option<Op>>,
    v: Value,
    env: spec_fn(u32) -> int,
)
    requires
        valid(defs),
        v.0 < defs.len(),
    ensures
        value(integers(atoms(env)), term_of(defs, v)) == meaning(defs, v, env),
{
    law_valid_graph_becomes_tree(defs, v);
    lemma_tree_value(defs, v, env);
}

proof fn lemma_tree_value(defs: Seq<Option<Op>>, v: Value, env: spec_fn(u32) -> int)
    requires
        valid(defs),
        v.0 < defs.len(),
    ensures
        value(integers(atoms(env)), tree(defs, v)) == meaning(defs, v, env),
    decreases v.0,
{
    let model = integers(atoms(env));
    lemma_operators();
    lemma_operands_below(defs, v);
    match op_at(defs, v) {
        None => {
            lemma_param_value(v.0, env);
            lemma_values(model, param_name(v.0), tree(defs, v), tree(defs, v));
        },
        Some(Op::Const(c)) => {
            lemma_numeral(c as int);
            lemma_values(model, integer(c as int), tree(defs, v), tree(defs, v));
        },
        Some(Op::Add(a, b)) => {
            lemma_tree_value(defs, a, env);
            lemma_tree_value(defs, b, env);
            lemma_values(model, "add"@, tree(defs, a), tree(defs, b));
        },
        Some(Op::Mul(a, b)) => {
            lemma_tree_value(defs, a, env);
            lemma_tree_value(defs, b, env);
            lemma_values(model, "mul"@, tree(defs, a), tree(defs, b));
        },
        Some(Op::Neg(a)) => {
            lemma_tree_value(defs, a, env);
            lemma_values(model, "neg"@, tree(defs, a), tree(defs, a));
        },
    }
}

/// The atom of a parameter is no numeral, and names that parameter alone.
proof fn lemma_param_value(n: u32, env: spec_fn(u32) -> int)
    ensures
        numeral(param_name(n)) is None,
        atoms(env)(param_name(n)) == env(n),
{
    reveal_strlit("p");
    assert(param_name(n)[0] == 'p');
    assert forall|i: int| #[trigger] integer(i) != param_name(n) by {
        lemma_integer_shape(i);
    }
    let m = choose|m: u32| #[trigger] param_name(m) == param_name(n);
    assert(param_name(m) == param_name(n));
    lemma_decimal(m as nat);
    lemma_decimal(n as nat);
    assert(param_name(m).subrange(1, param_name(m).len() as int) =~= decimal(m as nat));
    assert(param_name(n).subrange(1, param_name(n).len() as int) =~= decimal(n as nat));
}

/// The atoms of parameters, of operands that do not exist and of cut cycles
/// never collide, neither with each other nor with a numeral, and each of
/// them names one position.
pub proof fn law_atoms_never_collide(m: u32, n: u32)
    ensures
        param_name(m) == param_name(n) ==> m == n,
        undef_name(m) == undef_name(n) ==> m == n,
        cycle_name(m) == cycle_name(n) ==> m == n,
        param_name(m) != undef_name(n),
        param_name(m) != cycle_name(n),
        undef_name(m) != cycle_name(n),
        numeral(param_name(m)) is None,
        numeral(undef_name(m)) is None,
        numeral(cycle_name(m)) is None,
{
    reveal_strlit("p");
    reveal_strlit("undef");
    reveal_strlit("v");
    reveal_strlit("cycle");
    lemma_decimal(m as nat);
    lemma_decimal(n as nat);
    let dm = decimal(m as nat);
    let dn = decimal(n as nat);
    assert(param_name(m)[0] == 'p');
    assert(undef_name(m)[0] == 'u' && undef_name(n)[0] == 'u');
    assert(cycle_name(m)[0] == 'v' && cycle_name(n)[0] == 'v');
    assert forall|i: int|
        #[trigger] integer(i) != param_name(m) && integer(i) != undef_name(m) && integer(i)
            != cycle_name(m) by {
        lemma_integer_shape(i);
    }
    assert(param_name(m).subrange(1, param_name(m).len() as int) =~= dm);
    assert(param_name(n).subrange(1, param_name(n).len() as int) =~= dn);
    assert(undef_name(m).subrange(5, undef_name(m).len() as int) =~= dm);
    assert(undef_name(n).subrange(5, undef_name(n).len() as int) =~= dn);
    assert(cycle_name(m).subrange(1, cycle_name(m).len() - 5) =~= dm);
    assert(cycle_name(n).subrange(1, cycle_name(n).len() - 5) =~= dn);
}

/// Which terms are broken.
proof fn lemma_broken(op: Seq<char>, x: Term, y: Term)
    ensures
        broken(atom(op)) == inert_name(op),
        broken(unary(op, x)) == (inert_name(op) || broken(x)),
        broken(binary(op, x, y)) == (inert_name(op) || broken(x) || broken(y)),
{
    let one = seq![x];
    let two = seq![x, y];
    assert(one.drop_last() =~= Seq::<Term>::empty());
    assert(one.last() == x);
    assert(!any_broken(Seq::<Term>::empty()));
    assert(any_broken(one) == broken(x));
    assert(two.drop_last() =~= one);
    assert(two.last() == y);
    assert(any_broken(two) == (broken(x) || broken(y)));
}

/// The atoms of the lowering, and which of them are inert.
proof fn lemma_broken_atoms(n: u32)
    ensures
        !broken(atom(param_name(n))),
        broken(atom(undef_name(n))),
        broken(atom(cycle_name(n))),
{
    let t = atom(param_name(n));
    lemma_broken(param_name(n), t, t);
    lemma_broken(undef_name(n), t, t);
    lemma_broken(cycle_name(n), t, t);
    assert forall|m: u32| param_name(n) != #[trigger] undef_name(m) by {
        law_atoms_never_collide(n, m);
    }
    assert forall|m: u32| param_name(n) != #[trigger] cycle_name(m) by {
        law_atoms_never_collide(n, m);
    }
}

/// A numeral is not inert.
proof fn lemma_numerals_are_whole(i: int)
    ensures
        !broken(atom(integer(i))),
{
    let t = atom(integer(i));
    lemma_broken(integer(i), t, t);
    lemma_integer_shape(i);
    reveal_strlit("undef");
    reveal_strlit("v");
    assert forall|m: u32| integer(i) != #[trigger] undef_name(m) by {
        assert(undef_name(m)[0] == 'u');
    }
    assert forall|m: u32| integer(i) != #[trigger] cycle_name(m) by {
        assert(cycle_name(m)[0] == 'v');
    }
}

/// An operation is broken exactly if an operand is.
proof fn lemma_broken_terms(op: Seq<char>, x: Term, y: Term)
    requires
        op == "add"@ || op == "mul"@ || op == "neg"@,
    ensures
        broken(unary(op, x)) == broken(x),
        broken(binary(op, x, y)) == (broken(x) || broken(y)),
{
    lemma_broken(op, x, y);
    reveal_strlit("undef");
    reveal_strlit("v");
    reveal_strlit("add");
    reveal_strlit("mul");
    reveal_strlit("neg");
    assert forall|m: u32| op != #[trigger] undef_name(m) by {
        assert(undef_name(m)[0] == 'u');
    }
    assert forall|m: u32| op != #[trigger] cycle_name(m) by {
        assert(cycle_name(m)[0] == 'v');
    }
}

/// The values of a valid graph become whole terms.
pub proof fn law_valid_graph_lowers_whole(defs: Seq<Option<Op>>, v: Value)
    requires
        valid(defs),
        v.0 < defs.len(),
    ensures
        !broken(term_of(defs, v)),
{
    law_valid_graph_becomes_tree(defs, v);
    lemma_tree_is_whole(defs, v);
}

proof fn lemma_tree_is_whole(defs: Seq<Option<Op>>, v: Value)
    requires
        valid(defs),
        v.0 < defs.len(),
    ensures
        !broken(tree(defs, v)),
    decreases v.0,
{
    lemma_operands_below(defs, v);
    match op_at(defs, v) {
        None => {
            lemma_broken_atoms(v.0);
        },
        Some(Op::Const(c)) => {
            lemma_numerals_are_whole(c as int);
        },
        Some(Op::Add(a, b)) => {
            lemma_tree_is_whole(defs, a);
            lemma_tree_is_whole(defs, b);
            lemma_broken_terms("add"@, tree(defs, a), tree(defs, b));
        },
        Some(Op::Mul(a, b)) => {
            lemma_tree_is_whole(defs, a);
            lemma_tree_is_whole(defs, b);
            lemma_broken_terms("mul"@, tree(defs, a), tree(defs, b));
        },
        Some(Op::Neg(a)) => {
            lemma_tree_is_whole(defs, a);
            lemma_broken_terms("neg"@, tree(defs, a), tree(defs, a));
        },
    }
}

/// A value that the graph does not have becomes a broken term.
pub proof fn law_unknown_values_are_broken(defs: Seq<Option<Op>>, v: Value)
    requires
        v.0 >= defs.len(),
    ensures
        broken(term_of(defs, v)),
{
    lemma_broken_atoms(v.0);
}

/// What is defined behind a value of a valid graph leaves its term as it is.
pub proof fn law_later_definitions_keep_terms(defs: Seq<Option<Op>>, d: Option<Op>, v: Value)
    requires
        valid(defs),
        valid(defs.push(d)),
        v.0 < defs.len(),
    ensures
        term_of(defs.push(d), v) == term_of(defs, v),
{
    law_valid_graph_becomes_tree(defs, v);
    law_valid_graph_becomes_tree(defs.push(d), v);
    lemma_append_tree(defs, d, v);
}

proof fn lemma_append_tree(defs: Seq<Option<Op>>, d: Option<Op>, v: Value)
    requires
        valid(defs),
        v.0 < defs.len(),
    ensures
        tree(defs.push(d), v) == tree(defs, v),
    decreases v.0,
{
    lemma_operands_below(defs, v);
    match op_at(defs, v) {
        Some(Op::Add(a, b)) => {
            lemma_append_tree(defs, d, a);
            lemma_append_tree(defs, d, b);
        },
        Some(Op::Mul(a, b)) => {
            lemma_append_tree(defs, d, a);
            lemma_append_tree(defs, d, b);
        },
        Some(Op::Neg(a)) => {
            lemma_append_tree(defs, d, a);
        },
        _ => {},
    }
}

/// The term of a value of a valid graph follows the value's definition: an
/// operation on the terms of its operands, in order, the numeral of a
/// constant, or the letter `p` and the position of a parameter.
pub proof fn law_terms_follow_definitions(defs: Seq<Option<Op>>, v: Value)
    requires
        valid(defs),
        v.0 < defs.len(),
    ensures
        match defs[v.0 as int] {
            None => term_of(defs, v) == atom("p"@ + decimal(v.0 as nat)),
            Some(Op::Const(c)) => term_of(defs, v) == atom(integer(c as int)),
            Some(Op::Add(a, b)) => term_of(defs, v) == binary(
                "add"@,
                term_of(defs, a),
                term_of(defs, b),
            ),
            Some(Op::Mul(a, b)) => term_of(defs, v) == binary(
                "mul"@,
                term_of(defs, a),
                term_of(defs, b),
            ),
            Some(Op::Neg(a)) => term_of(defs, v) == unary("neg"@, term_of(defs, a)),
        },
{
    lemma_operands_below(defs, v);
    law_valid_graph_becomes_tree(defs, v);
    match defs[v.0 as int] {
        Some(Op::Add(a, b)) => {
            law_valid_graph_becomes_tree(defs, a);
            law_valid_graph_becomes_tree(defs, b);
        },
        Some(Op::Mul(a, b)) => {
            law_valid_graph_becomes_tree(defs, a);
            law_valid_graph_becomes_tree(defs, b);
        },
        Some(Op::Neg(a)) => {
            law_valid_graph_becomes_tree(defs, a);
        },
        _ => {},
    }
}

/// A value that does not exist becomes the atom of its number, and an
/// operation that reads such a value, or itself, becomes a broken term.
pub proof fn law_missing_operands_break_terms(defs: Seq<Option<Op>>, v: Value, w: Value)
    requires
        v.0 < defs.len(),
        reads(defs[v.0 as int], w),
        w.0 >= defs.len() || w == v,
    ensures
        broken(term_of(defs, v)),
        w.0 >= defs.len() ==> term_of(defs, w) == atom("undef"@ + decimal(w.0 as nat)),
{
    let open = Set::<u32>::empty().insert(v.0);
    let none = Map::<u32, Term>::empty();
    lemma_open_one(named(defs), Set::empty(), v.0);
    match defs[v.0 as int] {
        Some(Op::Add(a, b)) => {
            law_operations_read_their_operands(a, b, 0, w);
            lemma_broken_operand(defs, a, none, open, w);
            let (x, made) = lowering(defs, a, none, open);
            lemma_broken_operand(defs, b, made, open, w);
            lemma_broken_terms("add"@, x, lowering(defs, b, made, open).0);
        },
        Some(Op::Mul(a, b)) => {
            law_operations_read_their_operands(a, b, 0, w);
            lemma_broken_operand(defs, a, none, open, w);
            let (x, made) = lowering(defs, a, none, open);
            lemma_broken_operand(defs, b, made, open, w);
            lemma_broken_terms("mul"@, x, lowering(defs, b, made, open).0);
        },
        Some(Op::Neg(a)) => {
            law_operations_read_their_operands(a, a, 0, w);
            lemma_broken_operand(defs, a, none, open, w);
            let x = lowering(defs, a, none, open).0;
            lemma_broken_terms("neg"@, x, x);
        },
        _ => {},
    }
}

/// A value that is still open, or does not exist, becomes a broken term
/// wherever it is met, as long as no other term is kept for it.
proof fn lemma_broken_operand(
    defs: Seq<Option<Op>>,
    v: Value,
    memo: Map<u32, Term>,
    open: Set<u32>,
    w: Value,
)
    requires
        w.0 >= defs.len() || open.contains(w.0),
        memo.contains_key(w.0) ==> broken(memo[w.0]),
    ensures
        v == w ==> broken(lowering(defs, v, memo, open).0),
        lowering(defs, v, memo, open).1.contains_key(w.0) ==> broken(
            lowering(defs, v, memo, open).1[w.0],
        ),
    decreases unopened(named(defs), open),
{
    lemma_broken_atoms(v.0);
    if !memo.contains_key(v.0) && !open.contains(v.0) {
        let inner = open.insert(v.0);
        if v.0 < defs.len() {
            lemma_open_one(named(defs), open, v.0);
        }
        match op_at(defs, v) {
            Some(Op::Add(a, b)) => {
                lemma_broken_operand(defs, a, memo, inner, w);
                lemma_broken_operand(defs, b, lowering(defs, a, memo, inner).1, inner, w);
            },
            Some(Op::Mul(a, b)) => {
                lemma_broken_operand(defs, a, memo, inner, w);
                lemma_broken_operand(defs, b, lowering(defs, a, memo, inner).1, inner, w);
            },
            Some(Op::Neg(a)) => {
                lemma_broken_operand(defs, a, memo, inner, w);
            },
            _ => {},
        }
    }
}

/// Lowering a value of a valid graph gives a term with the value's meaning,
/// made of the terms of its operands.
pub proof fn law_values_are_lowered(
    ssa: &Ssa,
    v: Value,
    e: RecExpr<SymbolLang>,
    env: spec_fn(u32) -> int,
)
    requires
        call_ensures(to_rec_expr, (ssa, v), e),
        valid(ssa@),
        v.0 < ssa@.len(),
    ensures
        expr_term(e) is Some,
        value(integers(atoms(env)), expr_term(e)->Some_0) == meaning(ssa@, v, env),
        match ssa@[v.0 as int] {
            None => expr_term(e)->Some_0 == atom("p"@ + decimal(v.0 as nat)),
            Some(Op::Const(c)) => expr_term(e)->Some_0 == atom(integer(c as int)),
            Some(Op::Add(a, b)) => expr_term(e)->Some_0 == binary(
                "add"@,
                term_of(ssa@, a),
                term_of(ssa@, b),
            ),
            Some(Op::Mul(a, b)) => expr_term(e)->Some_0 == binary(
                "mul"@,
                term_of(ssa@, a),
                term_of(ssa@, b),
            ),
            Some(Op::Neg(a)) => expr_term(e)->Some_0 == unary("neg"@, term_of(ssa@, a)),
        },
{
    law_lowering_preserves_meaning(ssa@, v, env);
    law_terms_follow_definitions(ssa@, v);
}

/// The last defined value is the operation that only parameters follow; there
/// is none exactly if all values are parameters.
pub proof fn law_the_last_operation_is_found(ssa: &Ssa, res: Option<Value>)
    requires
        call_ensures(last_defined, (ssa,), res),
        ssa@.len() <= u32::MAX,
    ensures
        res matches Some(v) ==> {
            &&& v.0 < ssa@.len()
            &&& ssa@[v.0 as int] is Some
            &&& forall|i: int| v.0 < i < ssa@.len() ==> (#[trigger] ssa@[i]) is None
        },
        res is None ==> forall|i: int| 0 <= i < ssa@.len() ==> (#[trigger] ssa@[i]) is None,
{
    let n = ssa@.len() as u32;
    if ssa@.len() > 0 {
        law_highest_op_is_last(ssa@, n, 0);
    }
    assert forall|i: int|
        0 <= i < ssa@.len() && (res matches Some(v) ==> v.0 < i) implies (#[trigger] ssa@[i])
        is None by {
        law_highest_op_is_last(ssa@, n, i as u32);
    }
}

/// The tree of the operations that `v` is computed by, if `depth` nested
/// operations are enough to write it down. Validity of the graph plays no
/// part: only a cycle has no such tree.
pub open spec fn unfolded(defs: Seq<Option<Op>>, v: Value, depth: nat) -> Option<Term>
    decreases depth,
{
    if depth == 0 {
        None
    } else if v.0 >= defs.len() {
        Some(atom("undef"@ + decimal(v.0 as nat)))
    } else {
        let below = (depth - 1) as nat;
        match defs[v.0 as int] {
            None => Some(atom("p"@ + decimal(v.0 as nat))),
            Some(Op::Const(c)) => Some(atom(integer(c as int))),
            Some(Op::Add(a, b)) => match (unfolded(defs, a, below), unfolded(defs, b, below)) {
                (Some(x), Some(y)) => Some(binary("add"@, x, y)),
                _ => None,
            },
            Some(Op::Mul(a, b)) => match (unfolded(defs, a, below), unfolded(defs, b, below)) {
                (Some(x), Some(y)) => Some(binary("mul"@, x, y)),
                _ => None,
            },
            Some(Op::Neg(a)) => match unfolded(defs, a, below) {
                Some(x) => Some(unary("neg"@, x)),
                None => None,
            },
        }
    }
}

/// More room does not change a tree.
proof fn lemma_deeper(defs: Seq<Option<Op>>, v: Value, depth: nat, more: nat)
    requires
        depth <= more,
        unfolded(defs, v, depth) is Some,
    ensures
        unfolded(defs, v, more) == unfolded(defs, v, depth),
    decreases depth,
{
    let d = (depth - 1) as nat;
    let m = (more - 1) as nat;
    match op_at(defs, v) {
        Some(Op::Add(a, b)) => {
            lemma_deeper(defs, a, d, m);
            lemma_deeper(defs, b, d, m);
        },
        Some(Op::Mul(a, b)) => {
            lemma_deeper(defs, a, d, m);
            lemma_deeper(defs, b, d, m);
        },
        Some(Op::Neg(a)) => {
            lemma_deeper(defs, a, d, m);
        },
        _ => {},
    }
}

/// A value has at most one tree.
proof fn lemma_one_tree(defs: Seq<Option<Op>>, v: Value, depth: nat, other: nat)
    requires
        unfolded(defs, v, depth) is Some,
        unfolded(defs, v, other) is Some,
    ensures
        unfolded(defs, v, depth) == unfolded(defs, v, other),
{
    if depth <= other {
        lemma_deeper(defs, v, depth, other);
    } else {
        lemma_deeper(defs, v, other, depth);
    }
}

/// The least room in which a tree can be written down.
proof fn lemma_least_depth(defs: Seq<Option<Op>>, v: Value, depth: nat) -> (least: nat)
    requires
        unfolded(defs, v, depth) is Some,
    ensures
        0 < least <= depth,
        unfolded(defs, v, least) == unfolded(defs, v, depth),
        unfolded(defs, v, (least - 1) as nat) is None,
    decreases depth,
{
    if unfolded(defs, v, (depth - 1) as nat) is None {
        depth
    } else {
        lemma_one_tree(defs, v, depth, (depth - 1) as nat);
        lemma_least_depth(defs, v, (depth - 1) as nat)
    }
}

/// The terms that are kept are the trees of their values, where there are
/// such trees.
spec fn keeps_trees(defs: Seq<Option<Op>>, memo: Map<u32, Term>) -> bool {
    forall|k: u32, d: nat|
        memo.contains_key(k) && (#[trigger] unfolded(defs, Value(k), d)) is Some ==> unfolded(
            defs,
            Value(k),
            d,
        ) == Some(memo[k])
}

proof fn lemma_lowering_unfolds(
    defs: Seq<Option<Op>>,
    v: Value,
    memo: Map<u32, Term>,
    open: Set<u32>,
    depth: nat,
)
    requires
        0 < depth,
        unfolded(defs, v, depth) is Some,
        unfolded(defs, v, (depth - 1) as nat) is None,
        keeps_trees(defs, memo),
        forall|k: u32| #[trigger] open.contains(k) ==> unfolded(defs, Value(k), depth) is None,
    ensures
        unfolded(defs, v, depth) == Some(lowering(defs, v, memo, open).0),
        keeps_trees(defs, lowering(defs, v, memo, open).1),
    decreases depth, 1nat,
{
    assert(v == Value(v.0));
    if !memo.contains_key(v.0) {
        let inner = open.insert(v.0);
        match op_at(defs, v) {
            Some(Op::Add(a, b)) => {
                lemma_operand_unfolds(defs, v, a, memo, open, depth);
                lemma_operand_unfolds(
                    defs,
                    v,
                    b,
                    lowering(defs, a, memo, inner).1,
                    open,
                    depth,
                );
            },
            Some(Op::Mul(a, b)) => {
                lemma_operand_unfolds(defs, v, a, memo, open, depth);
                lemma_operand_unfolds(
                    defs,
                    v,
                    b,
                    lowering(defs, a, memo, inner).1,
                    open,
                    depth,
                );
            },
            Some(Op::Neg(a)) => {
                lemma_operand_unfolds(defs, v, a, memo, open, depth);
            },
            _ => {},
        }
        let (t, made) = lowering(defs, v, memo, open);
        assert forall|k: u32, d: nat|
            made.contains_key(k) && (#[trigger] unfolded(defs, Value(k), d)) is Some implies unfolded(
            defs,
            Value(k),
            d,
        ) == Some(made[k]) by {
            if k == v.0 {
                lemma_one_tree(defs, v, d, depth);
            }
        }
    }
}

/// The operand of a value with a tree, lowered while the value is open.
proof fn lemma_operand_unfolds(
    defs: Seq<Option<Op>>,
    v: Value,
    a: Value,
    memo: Map<u32, Term>,
    open: Set<u32>,
    depth: nat,
)
    requires
        0 < depth,
        unfolded(defs, v, (depth - 1) as nat) is None,
        unfolded(defs, a, (depth - 1) as nat) is Some,
        keeps_trees(defs, memo),
        forall|k: u32| #[trigger] open.contains(k) ==> unfolded(defs, Value(k), depth) is None,
    ensures
        unfolded(defs, a, (depth - 1) as nat) == Some(
            lowering(defs, a, memo, open.insert(v.0)).0,
        ),
        keeps_trees(defs, lowering(defs, a, memo, open.insert(v.0)).1),
    decreases depth, 0nat,
{
    let inner = open.insert(v.0);
    let least = lemma_least_depth(defs, a, (depth - 1) as nat);
    assert(v == Value(v.0));
    assert forall|k: u32| #[trigger] inner.contains(k) implies unfolded(defs, Value(k), least)
        is None by {
        if unfolded(defs, Value(k), least) is Some {
            lemma_deeper(defs, Value(k), least, (depth - 1) as nat);
            lemma_deeper(defs, Value(k), least, depth);
        }
    }
    lemma_lowering_unfolds(defs, a, memo, inner, least);
}

/// Every value that no cycle leads back to becomes the tree of its
/// operations, whether or not the graph is valid: sharing and the order of
/// definitions make no difference.
pub proof fn law_values_without_cycles_become_trees(defs: Seq<Option<Op>>, v: Value, depth: nat)
    requires
        unfolded(defs, v, depth) is Some,
    ensures
        Some(term_of(defs, v)) == unfolded(defs, v, depth),
{
    let least = lemma_least_depth(defs, v, depth);
    lemma_lowering_unfolds(defs, v, Map::empty(), Set::empty(), least);
}

/// The whole terms that are kept are trees of their values.
spec fn keeps_whole(defs: Seq<Option<Op>>, memo: Map<u32, Term>) -> bool {
    forall|k: u32| #[trigger]
        memo.contains_key(k) && !broken(memo[k]) ==> exists|d: nat|
            #[trigger] unfolded(defs, Value(k), d) == Some(memo[k])
}

proof fn lemma_whole_unfolds(
    defs: Seq<Option<Op>>,
    v: Value,
    memo: Map<u32, Term>,
    open: Set<u32>,
)
    requires
        keeps_whole(defs, memo),
    ensures
        !broken(lowering(defs, v, memo, open).0) ==> exists|d: nat|
            #[trigger] unfolded(defs, v, d) == Some(lowering(defs, v, memo, open).0),
        keeps_whole(defs, lowering(defs, v, memo, open).1),
    decreases unopened(named(defs), open),
{
    assert(v == Value(v.0));
    lemma_broken_atoms(v.0);
    if !memo.contains_key(v.0) && !open.contains(v.0) {
        let inner = open.insert(v.0);
        if v.0 < defs.len() {
            lemma_open_one(named(defs), open, v.0);
        }
        let (t, made) = lowering(defs, v, memo, open);
        match op_at(defs, v) {
            Some(Op::Add(a, b)) => {
                let (x, made_x) = lowering(defs, a, memo, inner);
                lemma_whole_unfolds(defs, a, memo, inner);
                lemma_whole_unfolds(defs, b, made_x, inner);
                let y = lowering(defs, b, made_x, inner).0;
                lemma_broken_terms("add"@, x, y);
                if !broken(t) {
                    lemma_joined(defs, a, x, b, y);
                    let d = choose|d: nat|
                        unfolded(defs, a, d) == Some(x) && unfolded(defs, b, d) == Some(y);
                    assert(unfolded(defs, v, d + 1) == Some(t));
                }
            },
            Some(Op::Mul(a, b)) => {
                let (x, made_x) = lowering(defs, a, memo, inner);
                lemma_whole_unfolds(defs, a, memo, inner);
                lemma_whole_unfolds(defs, b, made_x, inner);
                let y = lowering(defs, b, made_x, inner).0;
                lemma_broken_terms("mul"@, x, y);
                if !broken(t) {
                    lemma_joined(defs, a, x, b, y);
                    let d = choose|d: nat|
                        unfolded(defs, a, d) == Some(x) && unfolded(defs, b, d) == Some(y);
                    assert(unfolded(defs, v, d + 1) == Some(t));
                }
            },
            Some(Op::Neg(a)) => {
                let x = lowering(defs, a, memo, inner).0;
                lemma_whole_unfolds(defs, a, memo, inner);
                lemma_broken_terms("neg"@, x, x);
                if !broken(t) {
                    let d = choose|d: nat| #[trigger] unfolded(defs, a, d) == Some(x);
                    assert(unfolded(defs, v, d + 1) == Some(t));
                }
            },
            _ => {
                assert(unfolded(defs, v, 1) == Some(t));
            },
        }
    }
}

/// Two trees can be written down in the same room.
proof fn lemma_joined(defs: Seq<Option<Op>>, a: Value, x: Term, b: Value, y: Term)
    requires
        exists|d: nat| #[trigger] unfolded(defs, a, d) == Some(x),
        exists|d: nat| #[trigger] unfolded(defs, b, d) == Some(y),
    ensures
        exists|d: nat| unfolded(defs, a, d) == Some(x) && unfolded(defs, b, d) == Some(y),
{
    let d = choose|d: nat| #[trigger] unfolded(defs, a, d) == Some(x);
    let e = choose|e: nat| #[trigger] unfolded(defs, b, e) == Some(y);
    lemma_deeper(defs, a, d, d + e);
    lemma_deeper(defs, b, e, d + e);
    assert(unfolded(defs, a, d + e) == Some(x) && unfolded(defs, b, d + e) == Some(y));
}

/// A value that leads into a cycle becomes a broken term.
pub proof fn law_cycles_break_terms(defs: Seq<Option<Op>>, v: Value)
    requires
        forall|d: nat| (#[trigger] unfolded(defs, v, d)) is None,
    ensures
        broken(term_of(defs, v)),
{
    lemma_whole_unfolds(defs, v, Map::empty(), Set::empty());
}

/// A term is broken exactly if an inert atom stands in it: the mark of a
/// missing value or of a cut cycle.
pub proof fn law_broken_terms_hold_inert_atoms(t: Term)
    ensures
        broken(t) <==> inert_name(t.op) || exists|i: int|
            0 <= i < t.args.len() && broken(#[trigger] t.args[i]),
        inert_name(t.op) <==> (exists|n: u32| t.op == #[trigger] undef_name(n)) || (exists|n: u32|
            t.op == #[trigger] cycle_name(n)),
        forall|n: u32| #[trigger] undef_name(n) == "undef"@ + decimal(n as nat),
        forall|n: u32| #[trigger] cycle_name(n) == "v"@ + decimal(n as nat) + "cycle"@,
{
    lemma_any_broken(t.args);
}

proof fn lemma_any_broken(ts: Seq<Term>)
    ensures
        any_broken(ts) <==> exists|i: int| 0 <= i < ts.len() && broken(#[trigger] ts[i]),
    decreases ts.len(),
{
    if ts.len() > 0 {
        let rest = ts.drop_last();
        lemma_any_broken(rest);
        if any_broken(rest) {
            let i = choose|i: int| 0 <= i < rest.len() && broken(#[trigger] rest[i]);
            assert(ts[i] == rest[i]);
        }
        assert(ts[ts.len() - 1] == ts.last());
        if exists|i: int| 0 <= i < ts.len() && broken(#[trigger] ts[i]) {
            let i = choose|i: int| 0 <= i < ts.len() && broken(#[trigger] ts[i]);
            if i < rest.len() {
                assert(rest[i] == ts[i]);
            }
        }
    }
}

} // verus!
