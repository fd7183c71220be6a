//! The term language of the equivalence checker.
//!
//! A term is an operator applied to terms; operators are opaque symbols and
//! an operator without arguments is an atom. This module says how terms are
//! spelled as s-expressions, what a rewrite rule is, and when an equation
//! between two terms follows from a set of rules.

use vstd::prelude::*;

verus! {

/// An operator applied to arguments.
pub struct Term {
    pub op: Seq<char>,
    pub args: Seq<Term>,
}

/// A rewrite rule: the two sides are terms in which an atom that begins with
/// a question mark is a variable.
pub struct Rule {
    pub name: Seq<char>,
    pub lhs: Term,
    pub rhs: Term,
}

pub open spec fn atom(op: Seq<char>) -> Term {
    Term { op, args: Seq::empty() }
}

pub open spec fn unary(op: Seq<char>, x: Term) -> Term {
    Term { op, args: seq![x] }
}

pub open spec fn binary(op: Seq<char>, x: Term, y: Term) -> Term {
    Term { op, args: seq![x, y] }
}

/// The s-expression of a term: an atom is its symbol, any other term is a
/// parenthesised list of its operator and its arguments.
pub open spec fn term_text(t: Term) -> Seq<char>
    decreases t,
{
    if t.args.len() == 0 {
        t.op
    } else {
        seq!['('] + t.op + args_text(t.args) + seq![')']
    }
}

/// The arguments of a term, each behind a space.
pub open spec fn args_text(args: Seq<Term>) -> Seq<char>
    decreases args,
{
    if args.len() == 0 {
        Seq::empty()
    } else {
        args_text(args.drop_last()) + seq![' '] + term_text(args.last())
    }
}

/// The characters of an unquoted symbol: visible ASCII other than
/// parentheses and the double quote.
pub open spec fn symbol_char(c: char) -> bool {
    '!' <= c <= '~' && c != '(' && c != ')' && c != '"'
}

/// A symbol that needs no quotes.
pub open spec fn is_symbol(s: Seq<char>) -> bool {
    s.len() > 0 && forall|i: int| 0 <= i < s.len() ==> symbol_char(#[trigger] s[i])
}

/// Every operator of the term is a symbol that needs no quotes.
pub open spec fn plain_term(t: Term) -> bool
    decreases t,
{
    is_symbol(t.op) && plain_terms(t.args)
}

pub open spec fn plain_terms(ts: Seq<Term>) -> bool
    decreases ts,
{
    ts.len() == 0 || (plain_terms(ts.drop_last()) && plain_term(ts.last()))
}

/// A symbol that names a variable where it stands in a rule.
pub open spec fn variable_name(s: Seq<char>) -> bool {
    s.len() > 1 && s[0] == '?'
}

/// A term that can be a side of a rule: variables take no arguments.
pub open spec fn pattern_term(t: Term) -> bool
    decreases t,
{
    &&& is_symbol(t.op)
    &&& t.args.len() > 0 ==> !variable_name(t.op)
    &&& pattern_terms(t.args)
}

pub open spec fn pattern_terms(ts: Seq<Term>) -> bool
    decreases ts,
{
    ts.len() == 0 || (pattern_terms(ts.drop_last()) && pattern_term(ts.last()))
}

/// The variable `x` stands somewhere in `t`.
pub open spec fn occurs(x: Seq<char>, t: Term) -> bool
    decreases t,
{
    (t.args.len() == 0 && variable_name(t.op) && t.op == x) || occurs_among(x, t.args)
}

pub open spec fn occurs_among(x: Seq<char>, ts: Seq<Term>) -> bool
    decreases ts,
{
    ts.len() > 0 && (occurs_among(x, ts.drop_last()) || occurs(x, ts.last()))
}

/// The two terms can be the sides of a rule: the left one binds every
/// variable of the right one.
pub open spec fn rule_sides(lhs: Term, rhs: Term) -> bool {
    &&& pattern_term(lhs)
    &&& pattern_term(rhs)
    &&& forall|x: Seq<char>| #[trigger] occurs(x, rhs) ==> occurs(x, lhs)
}

/// The value of a term under an interpretation of the operators.
pub open spec fn value(model: spec_fn(Seq<char>, Seq<int>) -> int, t: Term) -> int
    decreases t,
{
    model(t.op, values(model, t.args))
}

pub open spec fn values(model: spec_fn(Seq<char>, Seq<int>) -> int, ts: Seq<Term>) -> Seq<int>
    decreases ts,
{
    if ts.len() == 0 {
        Seq::empty()
    } else {
        values(model, ts.drop_last()).push(value(model, ts.last()))
    }
}

/// The value of a rule's side, the variables standing for given integers.
pub open spec fn pattern_value(
    model: spec_fn(Seq<char>, Seq<int>) -> int,
    binding: spec_fn(Seq<char>) -> int,
    t: Term,
) -> int
    decreases t,
{
    if t.args.len() == 0 && variable_name(t.op) {
        binding(t.op)
    } else {
        model(t.op, pattern_values(model, binding, t.args))
    }
}

pub open spec fn pattern_values(
    model: spec_fn(Seq<char>, Seq<int>) -> int,
    binding: spec_fn(Seq<char>) -> int,
    ts: Seq<Term>,
) -> Seq<int>
    decreases ts,
{
    if ts.len() == 0 {
        Seq::empty()
    } else {
        pattern_values(model, binding, ts.drop_last()).push(
            pattern_value(model, binding, ts.last()),
        )
    }
}

/// Under the interpretation, both sides of the rule have the same value
/// whatever the variables stand for.
pub open spec fn obeys(model: spec_fn(Seq<char>, Seq<int>) -> int, rule: Rule) -> bool {
    forall|binding: spec_fn(Seq<char>) -> int| #[trigger]
        pattern_value(model, binding, rule.lhs) == pattern_value(model, binding, rule.rhs)
}

/// The interpretation obeys every rule.
pub open spec fn obeys_all(
    model: spec_fn(Seq<char>, Seq<int>) -> int,
    rules: Seq<Rule>,
) -> bool {
    forall|i: int| 0 <= i < rules.len() ==> obeys(model, #[trigger] rules[i])
}

/// Every interpretation that obeys the rules gives both terms the same value.
pub open spec fn follows(rules: Seq<Rule>, a: Term, b: Term) -> bool {
    forall|model: spec_fn(Seq<char>, Seq<int>) -> int| #[trigger]
        obeys_all(model, rules) ==> value(model, a) == value(model, b)
}

/// The spelling of a term with one argument.
pub proof fn lemma_unary_text(op: Seq<char>, x: Term)
    ensures
        term_text(unary(op, x)) == seq!['('] + op + seq![' '] + term_text(x) + seq![')'],
{
    let args = seq![x];
    assert(args.drop_last() =~= Seq::<Term>::empty());
    assert(args_text(args.drop_last()) =~= Seq::<char>::empty());
    assert(args_text(args) =~= seq![' '] + term_text(x));
    assert(term_text(unary(op, x)) =~= seq!['('] + op + seq![' '] + term_text(x) + seq![')']);
}

/// The spelling of a term with two arguments.
pub proof fn lemma_binary_text(op: Seq<char>, x: Term, y: Term)
    ensures
        term_text(binary(op, x, y)) == seq!['('] + op + seq![' '] + term_text(x) + seq![' ']
            + term_text(y) + seq![')'],
{
    let args = seq![x, y];
    assert(args.drop_last() =~= seq![x]);
    assert(seq![x].drop_last() =~= Seq::<Term>::empty());
    assert(args_text(seq![x].drop_last()) =~= Seq::<char>::empty());
    assert(args_text(seq![x]) =~= seq![' '] + term_text(x));
    assert(args_text(args) =~= seq![' '] + term_text(x) + seq![' '] + term_text(y));
    assert(term_text(binary(op, x, y)) =~= seq!['('] + op + seq![' '] + term_text(x) + seq![' ']
        + term_text(y) + seq![')']);
}

/// The value of an atom, and of terms with one and two arguments.
pub proof fn lemma_values(model: spec_fn(Seq<char>, Seq<int>) -> int, op: Seq<char>, x: Term, y: Term)
    ensures
        value(model, atom(op)) == model(op, Seq::empty()),
        value(model, unary(op, x)) == model(op, seq![value(model, x)]),
        value(model, binary(op, x, y)) == model(op, seq![value(model, x), value(model, y)]),
{
    reveal_with_fuel(values, 3);
    assert(seq![x].drop_last() =~= Seq::<Term>::empty());
    assert(seq![x, y].drop_last() =~= seq![x]);
    assert(values(model, seq![x]) =~= seq![value(model, x)]);
    assert(values(model, seq![x, y]) =~= seq![value(model, x), value(model, y)]);
}

/// The value of an atom, and of terms with one and two arguments, in a rule.
pub proof fn lemma_pattern_values(
    model: spec_fn(Seq<char>, Seq<int>) -> int,
    binding: spec_fn(Seq<char>) -> int,
    op: Seq<char>,
    x: Term,
    y: Term,
)
    ensures
        pattern_value(model, binding, atom(op)) == if variable_name(op) {
            binding(op)
        } else {
            model(op, Seq::empty())
        },
        pattern_value(model, binding, unary(op, x)) == model(
            op,
            seq![pattern_value(model, binding, x)],
        ),
        pattern_value(model, binding, binary(op, x, y)) == model(
            op,
            seq![pattern_value(model, binding, x), pattern_value(model, binding, y)],
        ),
{
    reveal_with_fuel(pattern_values, 3);
    assert(seq![x].drop_last() =~= Seq::<Term>::empty());
    assert(seq![x, y].drop_last() =~= seq![x]);
    assert(pattern_values(model, binding, seq![x]) =~= seq![pattern_value(model, binding, x)]);
    assert(pattern_values(model, binding, seq![x, y]) =~= seq![
        pattern_value(model, binding, x),
        pattern_value(model, binding, y),
    ]);
}

/// Terms with one and two arguments are plain if their parts are.
pub proof fn lemma_plain_terms(op: Seq<char>, x: Term, y: Term)
    ensures
        plain_term(atom(op)) == is_symbol(op),
        plain_term(unary(op, x)) == (is_symbol(op) && plain_term(x)),
        plain_term(binary(op, x, y)) == (is_symbol(op) && plain_term(x) && plain_term(y)),
{
    reveal_with_fuel(plain_terms, 3);
    assert(seq![x].drop_last() =~= Seq::<Term>::empty());
    assert(seq![x, y].drop_last() =~= seq![x]);
}

/// What makes terms with one and two arguments usable in a rule, and which
/// variables they hold.
pub proof fn lemma_pattern_terms(op: Seq<char>, x: Term, y: Term)
    ensures
        pattern_term(atom(op)) == is_symbol(op),
        pattern_term(unary(op, x)) == (is_symbol(op) && !variable_name(op) && pattern_term(x)),
        pattern_term(binary(op, x, y)) == (is_symbol(op) && !variable_name(op) && pattern_term(x)
            && pattern_term(y)),
        forall|z: Seq<char>| #[trigger] occurs(z, atom(op)) == (variable_name(op) && op == z),
        forall|z: Seq<char>| #[trigger] occurs(z, unary(op, x)) == occurs(z, x),
        forall|z: Seq<char>| #[trigger]
            occurs(z, binary(op, x, y)) == (occurs(z, x) || occurs(z, y)),
{
    assert(seq![x].drop_last() =~= Seq::<Term>::empty());
    assert(seq![x, y].drop_last() =~= seq![x]);
    assert(pattern_terms(Seq::<Term>::empty()));
    assert(pattern_terms(seq![x]) == pattern_term(x));
    assert(pattern_terms(seq![x, y]) == (pattern_term(x) && pattern_term(y)));
    assert forall|z: Seq<char>| #[trigger] occurs(z, unary(op, x)) == occurs(z, x) by {
        assert(occurs_among(z, seq![x]) == (occurs_among(z, Seq::empty()) || occurs(z, x)));
    }
    assert forall|z: Seq<char>| #[trigger]
        occurs(z, binary(op, x, y)) == (occurs(z, x) || occurs(z, y)) by {
        assert(occurs_among(z, seq![x]) == (occurs_among(z, Seq::empty()) || occurs(z, x)));
        assert(occurs_among(z, seq![x, y]) == (occurs_among(z, seq![x]) || occurs(z, y)));
    }
}

} // verus!
