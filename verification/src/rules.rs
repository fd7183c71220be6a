//! The rewrite systems of the equivalence checker: arithmetic and boolean.
//!
//! Both families share one term language in which operators are opaque
//! symbols, so a mixed term can be checked and a pair of terms from different
//! families simply stays unproven. Commutativity is stated in one direction
//! only, since swapping twice undoes the swap; associativity and the laws of
//! De Morgan are stated in both. The identities `x + 0 = x`, `x * 1 = x` and
//! double negation are directed simplifications.
//!
//! Graphs are lowered to terms with the operators `add`, `mul` and `neg`, to
//! which a rule that spells `+` does not apply. The arithmetic system
//! therefore exists in a second spelling.

use crate::egraph::{all_patterns, make_rewrite, rewrite_rule, rules_of};
use crate::terms::{
    atom, binary, is_symbol, lemma_binary_text, lemma_pattern_terms, lemma_pattern_values,
    lemma_unary_text, lemma_values, obeys, obeys_all, pattern_value, rule_sides, term_text, unary,
    value, variable_name, Rule, Term,
};
use crate::text::{integer, lemma_integer_injective};
use egg::{Rewrite, SymbolLang};
use vstd::prelude::*;

verus! {

/// The variables of the rules.
pub open spec fn var_a() -> Term {
    atom(seq!['?', 'a'])
}

pub open spec fn var_b() -> Term {
    atom(seq!['?', 'b'])
}

pub open spec fn var_c() -> Term {
    atom(seq!['?', 'c'])
}

/// `(op ?a ?b) => (op ?b ?a)`
pub open spec fn commute(name: Seq<char>, op: Seq<char>) -> Rule {
    Rule { name, lhs: binary(op, var_a(), var_b()), rhs: binary(op, var_b(), var_a()) }
}

/// `(op ?a (op ?b ?c)) => (op (op ?a ?b) ?c)`
pub open spec fn associate(name: Seq<char>, op: Seq<char>) -> Rule {
    Rule {
        name,
        lhs: binary(op, var_a(), binary(op, var_b(), var_c())),
        rhs: binary(op, binary(op, var_a(), var_b()), var_c()),
    }
}

/// The same rule read from right to left.
pub open spec fn flip(name: Seq<char>, rule: Rule) -> Rule {
    Rule { name, lhs: rule.rhs, rhs: rule.lhs }
}

/// `(op ?a unit) => ?a`
pub open spec fn right_unit(name: Seq<char>, op: Seq<char>, unit: Seq<char>) -> Rule {
    Rule { name, lhs: binary(op, var_a(), atom(unit)), rhs: var_a() }
}

/// `(not (op ?a ?b)) => (dual (not ?a) (not ?b))`
pub open spec fn de_morgan(name: Seq<char>, op: Seq<char>, dual: Seq<char>) -> Rule {
    Rule {
        name,
        lhs: unary("not"@, binary(op, var_a(), var_b())),
        rhs: binary(dual, unary("not"@, var_a()), unary("not"@, var_b())),
    }
}

/// `(not (not ?a)) => ?a`
pub open spec fn involution(name: Seq<char>) -> Rule {
    Rule { name, lhs: unary("not"@, unary("not"@, var_a())), rhs: var_a() }
}

/// The arithmetic system.
pub open spec fn math_rule_list() -> Seq<Rule> {
    seq![
        commute("commute-add"@, "+"@),
        associate("assoc-add"@, "+"@),
        flip("assoc-add-flip"@, associate("assoc-add"@, "+"@)),
        right_unit("add-zero"@, "+"@, "0"@),
        right_unit("mul-one"@, "*"@, "1"@),
    ]
}

/// The boolean system.
pub open spec fn boolean_rule_list() -> Seq<Rule> {
    seq![
        de_morgan("de-morgan-not-and"@, "and"@, "or"@),
        flip("de-morgan-not-and-rev"@, de_morgan("de-morgan-not-and"@, "and"@, "or"@)),
        de_morgan("de-morgan-not-or"@, "or"@, "and"@),
        flip("de-morgan-not-or-rev"@, de_morgan("de-morgan-not-or"@, "or"@, "and"@)),
        involution("double-negation"@),
    ]
}

/// The arithmetic system in the spelling of lowered graphs.
pub open spec fn ssa_math_rule_list() -> Seq<Rule> {
    seq![
        commute("ssa-commute-add"@, "add"@),
        associate("ssa-assoc-add"@, "add"@),
        flip("ssa-assoc-add-flip"@, associate("ssa-assoc-add"@, "add"@)),
        right_unit("ssa-add-zero"@, "add"@, "0"@),
        right_unit("ssa-mul-one"@, "mul"@, "1"@),
    ]
}

/// The rule with the given sides, which the two texts spell.
fn rule(name: &str, lhs: &str, rhs: &str, Ghost(r): Ghost<Rule>) -> (res: Rewrite<SymbolLang, ()>)
    requires
        name@ == r.name,
        lhs@ == term_text(r.lhs),
        rhs@ == term_text(r.rhs),
        rule_sides(r.lhs, r.rhs),
    ensures
        rewrite_rule(res) == Some(r),
{
    make_rewrite(name, lhs, rhs)
}

/// The arithmetic system: addition commutes and associates, and zero and one
/// are right units of addition and multiplication.
pub fn math_rules() -> (res: Vec<Rewrite<SymbolLang, ()>>)
    ensures
        all_patterns(res@),
        rules_of(res@) == math_rule_list(),
{
    let mut rules: Vec<Rewrite<SymbolLang, ()>> = Vec::new();
    proof {
        law_arithmetic_rules_are_spelled();
    }
    rules.push(
        rule("commute-add", "(+ ?a ?b)", "(+ ?b ?a)", Ghost(commute("commute-add"@, "+"@))),
    );
    rules.push(
        rule("assoc-add", "(+ ?a (+ ?b ?c))", "(+ (+ ?a ?b) ?c)", Ghost(associate("assoc-add"@, "+"@))),
    );
    rules.push(
        rule("assoc-add-flip", "(+ (+ ?a ?b) ?c)", "(+ ?a (+ ?b ?c))", Ghost(flip("assoc-add-flip"@, associate("assoc-add"@, "+"@)))),
    );
    rules.push(
        rule("add-zero", "(+ ?a 0)", "?a", Ghost(right_unit("add-zero"@, "+"@, "0"@))),
    );
    rules.push(
        rule("mul-one", "(* ?a 1)", "?a", Ghost(right_unit("mul-one"@, "*"@, "1"@))),
    );
    assert(rules_of(rules@) =~= math_rule_list());
    rules
}

/// The boolean system: both laws of De Morgan in both directions, and double
/// negation.
pub fn boolean_rules() -> (res: Vec<Rewrite<SymbolLang, ()>>)
    ensures
        all_patterns(res@),
        rules_of(res@) == boolean_rule_list(),
{
    let mut rules: Vec<Rewrite<SymbolLang, ()>> = Vec::new();
    proof {
        law_boolean_rules_are_spelled();
    }
    rules.push(
        rule(
            "de-morgan-not-and",
            "(not (and ?a ?b))",
            "(or (not ?a) (not ?b))",
            Ghost(de_morgan("de-morgan-not-and"@, "and"@, "or"@)),
        ),
    );
    rules.push(
        rule(
            "de-morgan-not-and-rev",
            "(or (not ?a) (not ?b))",
            "(not (and ?a ?b))",
            Ghost(
                flip("de-morgan-not-and-rev"@, de_morgan("de-morgan-not-and"@, "and"@, "or"@)),
            ),
        ),
    );
    rules.push(
        rule(
            "de-morgan-not-or",
            "(not (or ?a ?b))",
            "(and (not ?a) (not ?b))",
            Ghost(de_morgan("de-morgan-not-or"@, "or"@, "and"@)),
        ),
    );
    rules.push(
        rule(
            "de-morgan-not-or-rev",
            "(and (not ?a) (not ?b))",
            "(not (or ?a ?b))",
            Ghost(flip("de-morgan-not-or-rev"@, de_morgan("de-morgan-not-or"@, "or"@, "and"@))),
        ),
    );
    rules.push(
        rule("double-negation", "(not (not ?a))", "?a", Ghost(involution("double-negation"@))),
    );
    assert(rules_of(rules@) =~= boolean_rule_list());
    rules
}

/// The union of [`math_rules`] and [`boolean_rules`].
pub fn all_rules() -> (res: Vec<Rewrite<SymbolLang, ()>>)
    ensures
        all_patterns(res@),
        rules_of(res@) == math_rule_list() + boolean_rule_list(),
{
    let mut rules = math_rules();
    let mut more = boolean_rules();
    let ghost first = rules@;
    let ghost second = more@;
    rules.append(&mut more);
    assert(rules@ == first + second);
    assert(rules_of(rules@) =~= rules_of(first) + rules_of(second));
    rules
}

/// The arithmetic system in the spelling of lowered graphs.
pub fn ssa_math_rules() -> (res: Vec<Rewrite<SymbolLang, ()>>)
    ensures
        all_patterns(res@),
        rules_of(res@) == ssa_math_rule_list(),
{
    let mut rules: Vec<Rewrite<SymbolLang, ()>> = Vec::new();
    proof {
        law_graph_rules_are_spelled();
    }
    rules.push(
        rule("ssa-commute-add", "(add ?a ?b)", "(add ?b ?a)", Ghost(commute("ssa-commute-add"@, "add"@))),
    );
    rules.push(
        rule("ssa-assoc-add", "(add ?a (add ?b ?c))", "(add (add ?a ?b) ?c)", Ghost(associate("ssa-assoc-add"@, "add"@))),
    );
    rules.push(
        rule("ssa-assoc-add-flip", "(add (add ?a ?b) ?c)", "(add ?a (add ?b ?c))", Ghost(flip("ssa-assoc-add-flip"@, associate("ssa-assoc-add"@, "add"@)))),
    );
    rules.push(
        rule("ssa-add-zero", "(add ?a 0)", "?a", Ghost(right_unit("ssa-add-zero"@, "add"@, "0"@))),
    );
    rules.push(
        rule("ssa-mul-one", "(mul ?a 1)", "?a", Ghost(right_unit("ssa-mul-one"@, "mul"@, "1"@))),
    );
    assert(rules_of(rules@) =~= ssa_math_rule_list());
    rules
}

/// The union of [`ssa_math_rules`] and [`boolean_rules`].
pub fn ssa_all_rules() -> (res: Vec<Rewrite<SymbolLang, ()>>)
    ensures
        all_patterns(res@),
        rules_of(res@) == ssa_math_rule_list() + boolean_rule_list(),
{
    let mut rules = ssa_math_rules();
    let mut more = boolean_rules();
    let ghost first = rules@;
    let ghost second = more@;
    rules.append(&mut more);
    assert(rules@ == first + second);
    assert(rules_of(rules@) =~= rules_of(first) + rules_of(second));
    rules
}

/// The rules of the arithmetic system by name and by what they rewrite.
pub proof fn law_arithmetic_rules_are_spelled()
    ensures
        math_rule_list().len() == 5,
        math_rule_list()[0].name == "commute-add"@,
        term_text(math_rule_list()[0].lhs) == "(+ ?a ?b)"@,
        term_text(math_rule_list()[0].rhs) == "(+ ?b ?a)"@,
        rule_sides(math_rule_list()[0].lhs, math_rule_list()[0].rhs),
        math_rule_list()[1].name == "assoc-add"@,
        term_text(math_rule_list()[1].lhs) == "(+ ?a (+ ?b ?c))"@,
        term_text(math_rule_list()[1].rhs) == "(+ (+ ?a ?b) ?c)"@,
        rule_sides(math_rule_list()[1].lhs, math_rule_list()[1].rhs),
        math_rule_list()[2].name == "assoc-add-flip"@,
        term_text(math_rule_list()[2].lhs) == "(+ (+ ?a ?b) ?c)"@,
        term_text(math_rule_list()[2].rhs) == "(+ ?a (+ ?b ?c))"@,
        rule_sides(math_rule_list()[2].lhs, math_rule_list()[2].rhs),
        math_rule_list()[3].name == "add-zero"@,
        term_text(math_rule_list()[3].lhs) == "(+ ?a 0)"@,
        term_text(math_rule_list()[3].rhs) == "?a"@,
        rule_sides(math_rule_list()[3].lhs, math_rule_list()[3].rhs),
        math_rule_list()[4].name == "mul-one"@,
        term_text(math_rule_list()[4].lhs) == "(* ?a 1)"@,
        term_text(math_rule_list()[4].rhs) == "?a"@,
        rule_sides(math_rule_list()[4].lhs, math_rule_list()[4].rhs),
{
    reveal_strlit("+");
    reveal_strlit("*");
    reveal_strlit("0");
    reveal_strlit("1");
    reveal_strlit("(+ ?a ?b)");
    reveal_strlit("(+ ?b ?a)");
    reveal_strlit("(+ ?a (+ ?b ?c))");
    reveal_strlit("(+ (+ ?a ?b) ?c)");
    reveal_strlit("(+ ?a 0)");
    reveal_strlit("?a");
    reveal_strlit("(* ?a 1)");
    lemma_commute("+"@);
    lemma_associate("+"@);
    lemma_right_unit("+"@, "0"@);
    lemma_right_unit("*"@, "1"@);
    assert("(+ ?a ?b)"@ =~= apply2("+"@, seq!['?', 'a'], seq!['?', 'b']));
    assert("(+ ?b ?a)"@ =~= apply2("+"@, seq!['?', 'b'], seq!['?', 'a']));
    assert("(+ ?a (+ ?b ?c))"@ =~= apply2(
        "+"@,
        seq!['?', 'a'],
        apply2("+"@, seq!['?', 'b'], seq!['?', 'c']),
    ));
    assert("(+ (+ ?a ?b) ?c)"@ =~= apply2(
        "+"@,
        apply2("+"@, seq!['?', 'a'], seq!['?', 'b']),
        seq!['?', 'c'],
    ));
    assert("(+ ?a 0)"@ =~= apply2("+"@, seq!['?', 'a'], "0"@));
    assert("(* ?a 1)"@ =~= apply2("*"@, seq!['?', 'a'], "1"@));
    assert("?a"@ =~= seq!['?', 'a']);
}

/// The rules of the boolean system by name and by what they rewrite.
pub proof fn law_boolean_rules_are_spelled()
    ensures
        boolean_rule_list().len() == 5,
        boolean_rule_list()[0].name == "de-morgan-not-and"@,
        term_text(boolean_rule_list()[0].lhs) == "(not (and ?a ?b))"@,
        term_text(boolean_rule_list()[0].rhs) == "(or (not ?a) (not ?b))"@,
        rule_sides(boolean_rule_list()[0].lhs, boolean_rule_list()[0].rhs),
        boolean_rule_list()[1].name == "de-morgan-not-and-rev"@,
        term_text(boolean_rule_list()[1].lhs) == "(or (not ?a) (not ?b))"@,
        term_text(boolean_rule_list()[1].rhs) == "(not (and ?a ?b))"@,
        rule_sides(boolean_rule_list()[1].lhs, boolean_rule_list()[1].rhs),
        boolean_rule_list()[2].name == "de-morgan-not-or"@,
        term_text(boolean_rule_list()[2].lhs) == "(not (or ?a ?b))"@,
        term_text(boolean_rule_list()[2].rhs) == "(and (not ?a) (not ?b))"@,
        rule_sides(boolean_rule_list()[2].lhs, boolean_rule_list()[2].rhs),
        boolean_rule_list()[3].name == "de-morgan-not-or-rev"@,
        term_text(boolean_rule_list()[3].lhs) == "(and (not ?a) (not ?b))"@,
        term_text(boolean_rule_list()[3].rhs) == "(not (or ?a ?b))"@,
        rule_sides(boolean_rule_list()[3].lhs, boolean_rule_list()[3].rhs),
        boolean_rule_list()[4].name == "double-negation"@,
        term_text(boolean_rule_list()[4].lhs) == "(not (not ?a))"@,
        term_text(boolean_rule_list()[4].rhs) == "?a"@,
        rule_sides(boolean_rule_list()[4].lhs, boolean_rule_list()[4].rhs),
{
    reveal_strlit("and");
    reveal_strlit("or");
    reveal_strlit("not");
    reveal_strlit("(not (and ?a ?b))");
    reveal_strlit("(or (not ?a) (not ?b))");
    reveal_strlit("(not (or ?a ?b))");
    reveal_strlit("(and (not ?a) (not ?b))");
    reveal_strlit("(not (not ?a))");
    reveal_strlit("?a");
    lemma_de_morgan("and"@, "or"@);
    lemma_de_morgan("or"@, "and"@);
    lemma_involution();
    assert("(not (and ?a ?b))"@ =~= apply1(
        "not"@,
        apply2("and"@, seq!['?', 'a'], seq!['?', 'b']),
    ));
    assert("(not (or ?a ?b))"@ =~= apply1(
        "not"@,
        apply2("or"@, seq!['?', 'a'], seq!['?', 'b']),
    ));
    assert("(or (not ?a) (not ?b))"@ =~= apply2(
        "or"@,
        apply1("not"@, seq!['?', 'a']),
        apply1("not"@, seq!['?', 'b']),
    ));
    assert("(and (not ?a) (not ?b))"@ =~= apply2(
        "and"@,
        apply1("not"@, seq!['?', 'a']),
        apply1("not"@, seq!['?', 'b']),
    ));
    assert("(not (not ?a))"@ =~= apply1("not"@, apply1("not"@, seq!['?', 'a'])));
    assert("?a"@ =~= seq!['?', 'a']);
}

/// The rules for lowered graphs by name and by what they rewrite.
pub proof fn law_graph_rules_are_spelled()
    ensures
        ssa_math_rule_list().len() == 5,
        ssa_math_rule_list()[0].name == "ssa-commute-add"@,
        term_text(ssa_math_rule_list()[0].lhs) == "(add ?a ?b)"@,
        term_text(ssa_math_rule_list()[0].rhs) == "(add ?b ?a)"@,
        rule_sides(ssa_math_rule_list()[0].lhs, ssa_math_rule_list()[0].rhs),
        ssa_math_rule_list()[1].name == "ssa-assoc-add"@,
        term_text(ssa_math_rule_list()[1].lhs) == "(add ?a (add ?b ?c))"@,
        term_text(ssa_math_rule_list()[1].rhs) == "(add (add ?a ?b) ?c)"@,
        rule_sides(ssa_math_rule_list()[1].lhs, ssa_math_rule_list()[1].rhs),
        ssa_math_rule_list()[2].name == "ssa-assoc-add-flip"@,
        term_text(ssa_math_rule_list()[2].lhs) == "(add (add ?a ?b) ?c)"@,
        term_text(ssa_math_rule_list()[2].rhs) == "(add ?a (add ?b ?c))"@,
        rule_sides(ssa_math_rule_list()[2].lhs, ssa_math_rule_list()[2].rhs),
        ssa_math_rule_list()[3].name == "ssa-add-zero"@,
        term_text(ssa_math_rule_list()[3].lhs) == "(add ?a 0)"@,
        term_text(ssa_math_rule_list()[3].rhs) == "?a"@,
        rule_sides(ssa_math_rule_list()[3].lhs, ssa_math_rule_list()[3].rhs),
        ssa_math_rule_list()[4].name == "ssa-mul-one"@,
        term_text(ssa_math_rule_list()[4].lhs) == "(mul ?a 1)"@,
        term_text(ssa_math_rule_list()[4].rhs) == "?a"@,
        rule_sides(ssa_math_rule_list()[4].lhs, ssa_math_rule_list()[4].rhs),
{
    reveal_strlit("add");
    reveal_strlit("mul");
    reveal_strlit("0");
    reveal_strlit("1");
    reveal_strlit("(add ?a ?b)");
    reveal_strlit("(add ?b ?a)");
    reveal_strlit("(add ?a (add ?b ?c))");
    reveal_strlit("(add (add ?a ?b) ?c)");
    reveal_strlit("(add ?a 0)");
    reveal_strlit("?a");
    reveal_strlit("(mul ?a 1)");
    lemma_commute("add"@);
    lemma_associate("add"@);
    lemma_right_unit("add"@, "0"@);
    lemma_right_unit("mul"@, "1"@);
    assert("(add ?a ?b)"@ =~= apply2("add"@, seq!['?', 'a'], seq!['?', 'b']));
    assert("(add ?b ?a)"@ =~= apply2("add"@, seq!['?', 'b'], seq!['?', 'a']));
    assert("(add ?a (add ?b ?c))"@ =~= apply2(
        "add"@,
        seq!['?', 'a'],
        apply2("add"@, seq!['?', 'b'], seq!['?', 'c']),
    ));
    assert("(add (add ?a ?b) ?c)"@ =~= apply2(
        "add"@,
        apply2("add"@, seq!['?', 'a'], seq!['?', 'b']),
        seq!['?', 'c'],
    ));
    assert("(add ?a 0)"@ =~= apply2("add"@, seq!['?', 'a'], "0"@));
    assert("(mul ?a 1)"@ =~= apply2("mul"@, seq!['?', 'a'], "1"@));
    assert("?a"@ =~= seq!['?', 'a']);
}

/// The spelling of an operator with one argument.
spec fn apply1(op: Seq<char>, x: Seq<char>) -> Seq<char> {
    seq!['('] + op + seq![' '] + x + seq![')']
}

/// The spelling of an operator with two arguments.
spec fn apply2(op: Seq<char>, x: Seq<char>, y: Seq<char>) -> Seq<char> {
    seq!['('] + op + seq![' '] + x + seq![' '] + y + seq![')']
}

/// An operator symbol: it names no variable.
spec fn is_operator(op: Seq<char>) -> bool {
    is_symbol(op) && !variable_name(op)
}

proof fn lemma_commute(op: Seq<char>)
    requires
        is_operator(op),
    ensures
        term_text(binary(op, var_a(), var_b())) == apply2(op, seq!['?', 'a'], seq!['?', 'b']),
        term_text(binary(op, var_b(), var_a())) == apply2(op, seq!['?', 'b'], seq!['?', 'a']),
        rule_sides(binary(op, var_a(), var_b()), binary(op, var_b(), var_a())),
{
    lemma_binary_text(op, var_a(), var_b());
    lemma_binary_text(op, var_b(), var_a());
    lemma_pattern_terms(seq!['?', 'a'], var_a(), var_b());
    lemma_pattern_terms(seq!['?', 'b'], var_a(), var_b());
    lemma_pattern_terms(op, var_a(), var_b());
    lemma_pattern_terms(op, var_b(), var_a());
}

proof fn lemma_associate(op: Seq<char>)
    requires
        is_operator(op),
    ensures
        ({
            let left = binary(op, var_a(), binary(op, var_b(), var_c()));
            let right = binary(op, binary(op, var_a(), var_b()), var_c());
            let a = seq!['?', 'a'];
            let b = seq!['?', 'b'];
            let c = seq!['?', 'c'];
            &&& term_text(left) == apply2(op, a, apply2(op, b, c))
            &&& term_text(right) == apply2(op, apply2(op, a, b), c)
            &&& rule_sides(left, right)
            &&& rule_sides(right, left)
        }),
{
    let ab = binary(op, var_a(), var_b());
    let bc = binary(op, var_b(), var_c());
    lemma_binary_text(op, var_a(), var_b());
    lemma_binary_text(op, var_b(), var_c());
    lemma_binary_text(op, var_a(), bc);
    lemma_binary_text(op, ab, var_c());
    lemma_pattern_terms(seq!['?', 'a'], var_a(), var_b());
    lemma_pattern_terms(seq!['?', 'b'], var_a(), var_b());
    lemma_pattern_terms(seq!['?', 'c'], var_a(), var_b());
    lemma_pattern_terms(op, var_a(), var_b());
    lemma_pattern_terms(op, var_b(), var_c());
    lemma_pattern_terms(op, var_a(), bc);
    lemma_pattern_terms(op, ab, var_c());
}

proof fn lemma_right_unit(op: Seq<char>, unit: Seq<char>)
    requires
        is_operator(op),
        is_operator(unit),
    ensures
        term_text(binary(op, var_a(), atom(unit))) == apply2(op, seq!['?', 'a'], unit),
        term_text(var_a()) == seq!['?', 'a'],
        rule_sides(binary(op, var_a(), atom(unit)), var_a()),
{
    lemma_binary_text(op, var_a(), atom(unit));
    lemma_pattern_terms(seq!['?', 'a'], var_a(), var_b());
    lemma_pattern_terms(unit, var_a(), var_b());
    lemma_pattern_terms(op, var_a(), atom(unit));
}

proof fn lemma_de_morgan(op: Seq<char>, dual: Seq<char>)
    requires
        is_operator(op),
        is_operator(dual),
    ensures
        ({
            let left = unary("not"@, binary(op, var_a(), var_b()));
            let right = binary(dual, unary("not"@, var_a()), unary("not"@, var_b()));
            let a = seq!['?', 'a'];
            let b = seq!['?', 'b'];
            &&& term_text(left) == apply1("not"@, apply2(op, a, b))
            &&& term_text(right) == apply2(dual, apply1("not"@, a), apply1("not"@, b))
            &&& rule_sides(left, right)
            &&& rule_sides(right, left)
        }),
{
    reveal_strlit("not");
    let ab = binary(op, var_a(), var_b());
    let na = unary("not"@, var_a());
    let nb = unary("not"@, var_b());
    lemma_binary_text(op, var_a(), var_b());
    lemma_unary_text("not"@, ab);
    lemma_unary_text("not"@, var_a());
    lemma_unary_text("not"@, var_b());
    lemma_binary_text(dual, na, nb);
    lemma_pattern_terms(seq!['?', 'a'], var_a(), var_b());
    lemma_pattern_terms(seq!['?', 'b'], var_a(), var_b());
    lemma_pattern_terms(op, var_a(), var_b());
    lemma_pattern_terms("not"@, ab, ab);
    lemma_pattern_terms("not"@, var_a(), ab);
    lemma_pattern_terms("not"@, var_b(), ab);
    lemma_pattern_terms(dual, na, nb);
}

proof fn lemma_involution()
    ensures
        term_text(unary("not"@, unary("not"@, var_a()))) == apply1(
            "not"@,
            apply1("not"@, seq!['?', 'a']),
        ),
        term_text(var_a()) == seq!['?', 'a'],
        rule_sides(unary("not"@, unary("not"@, var_a())), var_a()),
{
    reveal_strlit("not");
    let na = unary("not"@, var_a());
    lemma_unary_text("not"@, var_a());
    lemma_unary_text("not"@, na);
    lemma_pattern_terms(seq!['?', 'a'], var_a(), var_b());
    lemma_pattern_terms("not"@, var_a(), var_b());
    lemma_pattern_terms("not"@, na, na);
}

/// The integer whose numeral is `s`, if there is one.
pub open spec fn numeral(s: Seq<char>) -> Option<int> {
    if exists|i: int| #[trigger] integer(i) == s {
        Some(choose|i: int| #[trigger] integer(i) == s)
    } else {
        None
    }
}

/// The ordinary reading of terms: sums, products and negation of integers in
/// both spellings, and connectives on the truth values zero and one, which
/// minimum, maximum and the complement to one extend to all integers. An atom
/// that is no numeral stands for what `env` assigns to it.
pub open spec fn integers(env: spec_fn(Seq<char>) -> int) -> spec_fn(Seq<char>, Seq<int>) -> int {
    |op: Seq<char>, args: Seq<int>|
        if args.len() == 0 {
            match numeral(op) {
                Some(i) => i,
                None => env(op),
            }
        } else if args.len() == 1 && op == "neg"@ {
            -args[0]
        } else if args.len() == 1 && op == "not"@ {
            1 - args[0]
        } else if args.len() == 2 && (op == "+"@ || op == "add"@) {
            args[0] + args[1]
        } else if args.len() == 2 && (op == "*"@ || op == "mul"@) {
            args[0] * args[1]
        } else if args.len() == 2 && op == "and"@ {
            if args[0] <= args[1] {
                args[0]
            } else {
                args[1]
            }
        } else if args.len() == 2 && op == "or"@ {
            if args[0] <= args[1] {
                args[1]
            } else {
                args[0]
            }
        } else {
            0
        }
}

/// A numeral reads as the integer it was made of.
pub proof fn lemma_numeral(i: int)
    ensures
        numeral(integer(i)) == Some(i),
{
    let j = choose|j: int| #[trigger] integer(j) == integer(i);
    assert(integer(j) == integer(i));
    lemma_integer_injective(i, j);
}

/// The operators are different symbols.
pub proof fn lemma_operators()
    ensures
        "+"@.len() == 1 && "+"@[0] == '+',
        "*"@.len() == 1 && "*"@[0] == '*',
        "add"@.len() == 3 && "add"@[1] == 'd',
        "mul"@.len() == 3 && "mul"@[1] == 'u',
        "neg"@.len() == 3 && "neg"@[1] == 'e',
        "and"@.len() == 3 && "and"@[1] == 'n',
        "or"@.len() == 2 && "or"@[1] == 'r',
        "not"@.len() == 3 && "not"@[1] == 'o',
{
    reveal_strlit("+");
    reveal_strlit("*");
    reveal_strlit("add");
    reveal_strlit("mul");
    reveal_strlit("neg");
    reveal_strlit("and");
    reveal_strlit("or");
    reveal_strlit("not");
}

/// Every rule of both systems, in both spellings, is an identity of the
/// integers and of the truth values: the ordinary reading obeys it, whatever
/// the atoms stand for.
pub proof fn law_rules_are_identities(env: spec_fn(Seq<char>) -> int)
    ensures
        obeys_all(integers(env), math_rule_list() + boolean_rule_list()),
        obeys_all(integers(env), ssa_math_rule_list() + boolean_rule_list()),
{
    let math = math_rule_list();
    let ssa = ssa_math_rule_list();
    let boolean = boolean_rule_list();
    assert forall|i: int| 0 <= i < (math + boolean).len() implies obeys(
        integers(env),
        #[trigger] (math + boolean)[i],
    ) by {
        let r = (math + boolean)[i];
        assert forall|binding: spec_fn(Seq<char>) -> int| #[trigger]
            pattern_value(integers(env), binding, r.lhs) == pattern_value(
                integers(env),
                binding,
                r.rhs,
            ) by {
            lemma_arithmetic_identities(env, binding, "+"@, "*"@);
            lemma_boolean_identities(env, binding);
            if i >= math.len() {
                assert(r == boolean[i - math.len()]);
            }
        }
    }
    assert forall|i: int| 0 <= i < (ssa + boolean).len() implies obeys(
        integers(env),
        #[trigger] (ssa + boolean)[i],
    ) by {
        let r = (ssa + boolean)[i];
        assert forall|binding: spec_fn(Seq<char>) -> int| #[trigger]
            pattern_value(integers(env), binding, r.lhs) == pattern_value(
                integers(env),
                binding,
                r.rhs,
            ) by {
            lemma_arithmetic_identities(env, binding, "add"@, "mul"@);
            lemma_boolean_identities(env, binding);
            if i >= ssa.len() {
                assert(r == boolean[i - ssa.len()]);
            }
        }
    }
}

/// Sums commute and associate, and zero and one are units.
proof fn lemma_arithmetic_identities(
    env: spec_fn(Seq<char>) -> int,
    binding: spec_fn(Seq<char>) -> int,
    plus: Seq<char>,
    times: Seq<char>,
)
    requires
        plus == "+"@ || plus == "add"@,
        times == "*"@ || times == "mul"@,
    ensures
        ({
            let side = |t: Term| pattern_value(integers(env), binding, t);
            let a = var_a();
            let b = var_b();
            let c = var_c();
            &&& side(binary(plus, a, b)) == side(binary(plus, b, a))
            &&& side(binary(plus, a, binary(plus, b, c))) == side(
                binary(plus, binary(plus, a, b), c),
            )
            &&& side(binary(plus, a, atom("0"@))) == side(a)
            &&& side(binary(times, a, atom("1"@))) == side(a)
        }),
{
    let model = integers(env);
    let a = var_a();
    let b = var_b();
    let c = var_c();
    lemma_operators();
    reveal_strlit("0");
    reveal_strlit("1");
    assert("0"@ =~= integer(0));
    assert("1"@ =~= integer(1));
    lemma_numeral(0);
    lemma_numeral(1);
    lemma_pattern_values(model, binding, plus, a, b);
    lemma_pattern_values(model, binding, plus, b, a);
    lemma_pattern_values(model, binding, plus, b, c);
    lemma_pattern_values(model, binding, plus, a, binary(plus, b, c));
    lemma_pattern_values(model, binding, plus, binary(plus, a, b), c);
    lemma_pattern_values(model, binding, "0"@, a, b);
    lemma_pattern_values(model, binding, "1"@, a, b);
    lemma_pattern_values(model, binding, plus, a, atom("0"@));
    lemma_pattern_values(model, binding, times, a, atom("1"@));
    let x = pattern_value(model, binding, a);
    assert(seq![x, 1int][1] == 1);
    assert(x * seq![x, 1int][1] == x);
}

/// The complement exchanges minimum and maximum, and undoes itself.
proof fn lemma_boolean_identities(
    env: spec_fn(Seq<char>) -> int,
    binding: spec_fn(Seq<char>) -> int,
)
    ensures
        ({
            let side = |t: Term| pattern_value(integers(env), binding, t);
            let a = var_a();
            let b = var_b();
            let na = unary("not"@, a);
            let nb = unary("not"@, b);
            &&& side(unary("not"@, binary("and"@, a, b))) == side(binary("or"@, na, nb))
            &&& side(unary("not"@, binary("or"@, a, b))) == side(binary("and"@, na, nb))
            &&& side(unary("not"@, na)) == side(a)
        }),
{
    let model = integers(env);
    let a = var_a();
    let b = var_b();
    let na = unary("not"@, a);
    let nb = unary("not"@, b);
    lemma_operators();
    lemma_pattern_values(model, binding, "not"@, a, b);
    lemma_pattern_values(model, binding, "not"@, b, b);
    lemma_pattern_values(model, binding, "not"@, na, b);
    lemma_pattern_values(model, binding, "and"@, a, b);
    lemma_pattern_values(model, binding, "or"@, a, b);
    lemma_pattern_values(model, binding, "and"@, na, nb);
    lemma_pattern_values(model, binding, "or"@, na, nb);
    lemma_pattern_values(model, binding, "not"@, binary("and"@, a, b), b);
    lemma_pattern_values(model, binding, "not"@, binary("or"@, a, b), b);
}

/// The operators of the arithmetic family, in both spellings.
pub open spec fn arithmetic_op(op: Seq<char>) -> bool {
    op == "+"@ || op == "*"@ || op == "add"@ || op == "mul"@
}

/// The operators of the boolean family.
pub open spec fn boolean_op(op: Seq<char>) -> bool {
    op == "and"@ || op == "or"@ || op == "not"@
}

/// The families stay apart: every rule rewrites an operation of one family,
/// and never into an operation of the other.
pub proof fn law_families_stay_apart(rule: Rule)
    requires
        (math_rule_list() + boolean_rule_list()).contains(rule) || (ssa_math_rule_list()
            + boolean_rule_list()).contains(rule),
    ensures
        arithmetic_op(rule.lhs.op) != boolean_op(rule.lhs.op),
        arithmetic_op(rule.lhs.op) ==> !boolean_op(rule.rhs.op),
        boolean_op(rule.lhs.op) ==> !arithmetic_op(rule.rhs.op),
{
    lemma_operators();
    let math = math_rule_list();
    let ssa = ssa_math_rule_list();
    let boolean = boolean_rule_list();
    assert(var_a().op[1] == 'a');
    if (math + boolean).contains(rule) {
        let i = (math + boolean).index_of(rule);
        if i >= math.len() {
            assert(rule == boolean[i - math.len()]);
        }
    } else {
        let i = (ssa + boolean).index_of(rule);
        if i >= ssa.len() {
            assert(rule == boolean[i - ssa.len()]);
        }
    }
}

/// The spelling of an operator in lowered graphs.
pub open spec fn respelled(op: Seq<char>) -> Seq<char> {
    if op == "+"@ {
        "add"@
    } else if op == "*"@ {
        "mul"@
    } else {
        op
    }
}

pub open spec fn respelled_term(t: Term) -> Term
    decreases t,
{
    Term { op: respelled(t.op), args: respelled_terms(t.args) }
}

pub open spec fn respelled_terms(ts: Seq<Term>) -> Seq<Term>
    decreases ts,
{
    if ts.len() == 0 {
        Seq::empty()
    } else {
        respelled_terms(ts.drop_last()).push(respelled_term(ts.last()))
    }
}

/// The arithmetic system for lowered graphs mirrors the other one rule for
/// rule: the same identities under the other spelling, and names with a
/// prefix.
pub proof fn law_spellings_mirror_each_other(i: int)
    requires
        0 <= i < math_rule_list().len(),
    ensures
        ssa_math_rule_list().len() == math_rule_list().len(),
        ssa_math_rule_list()[i] == (Rule {
            name: "ssa-"@ + math_rule_list()[i].name,
            lhs: respelled_term(math_rule_list()[i].lhs),
            rhs: respelled_term(math_rule_list()[i].rhs),
        }),
{
    lemma_operators();
    reveal_strlit("0");
    reveal_strlit("1");
    let a = var_a();
    let b = var_b();
    let c = var_c();
    lemma_respelled("+"@, a, b);
    lemma_respelled("+"@, b, a);
    lemma_respelled("+"@, b, c);
    lemma_respelled("+"@, a, binary("+"@, b, c));
    lemma_respelled("+"@, binary("+"@, a, b), c);
    lemma_respelled("+"@, a, atom("0"@));
    lemma_respelled("*"@, a, atom("1"@));
    lemma_respelled(a.op, a, a);
    lemma_respelled(b.op, a, a);
    lemma_respelled(c.op, a, a);
    lemma_respelled("0"@, a, a);
    lemma_respelled("1"@, a, a);
    lemma_rule_names();
}

proof fn lemma_respelled(op: Seq<char>, x: Term, y: Term)
    ensures
        respelled_term(atom(op)) == atom(respelled(op)),
        respelled_term(binary(op, x, y)) == binary(
            respelled(op),
            respelled_term(x),
            respelled_term(y),
        ),
{
    assert(seq![x].drop_last() =~= Seq::<Term>::empty());
    assert(seq![x, y].drop_last() =~= seq![x]);
    assert(respelled_terms(Seq::<Term>::empty()) =~= Seq::<Term>::empty());
    assert(respelled_terms(seq![x]) =~= seq![respelled_term(x)]);
    assert(respelled_terms(seq![x, y]) =~= seq![respelled_term(x), respelled_term(y)]);
}

/// The names of the rules for lowered graphs are those of the other spelling
/// behind a prefix.
proof fn lemma_rule_names()
    ensures
        "ssa-commute-add"@ == "ssa-"@ + "commute-add"@,
        "ssa-assoc-add"@ == "ssa-"@ + "assoc-add"@,
        "ssa-assoc-add-flip"@ == "ssa-"@ + "assoc-add-flip"@,
        "ssa-add-zero"@ == "ssa-"@ + "add-zero"@,
        "ssa-mul-one"@ == "ssa-"@ + "mul-one"@,
        forall|i: int| 0 <= i < 5 ==> (#[trigger] math_rule_list()[i]).name.len() > 0
            && math_rule_list()[i].name[0] != 's',
        "ssa-"@.len() == 4,
        "ssa-"@[0] == 's',
{
    reveal_strlit("ssa-");
    reveal_strlit("commute-add");
    reveal_strlit("assoc-add");
    reveal_strlit("assoc-add-flip");
    reveal_strlit("add-zero");
    reveal_strlit("mul-one");
    reveal_strlit("ssa-commute-add");
    reveal_strlit("ssa-assoc-add");
    reveal_strlit("ssa-assoc-add-flip");
    reveal_strlit("ssa-add-zero");
    reveal_strlit("ssa-mul-one");
    assert("ssa-commute-add"@ =~= "ssa-"@ + "commute-add"@);
    assert("ssa-assoc-add"@ =~= "ssa-"@ + "assoc-add"@);
    assert("ssa-assoc-add-flip"@ =~= "ssa-"@ + "assoc-add-flip"@);
    assert("ssa-add-zero"@ =~= "ssa-"@ + "add-zero"@);
    assert("ssa-mul-one"@ =~= "ssa-"@ + "mul-one"@);
}

/// The two spellings are disjoint: no rule of one shares its name, or the
/// operator it rewrites, with a rule of the other.
pub proof fn law_spellings_are_disjoint(i: int, j: int)
    requires
        0 <= i < math_rule_list().len(),
        0 <= j < ssa_math_rule_list().len(),
    ensures
        math_rule_list()[i].name != ssa_math_rule_list()[j].name,
        math_rule_list()[i].lhs.op != ssa_math_rule_list()[j].lhs.op,
{
    lemma_operators();
    lemma_rule_names();
    law_spellings_mirror_each_other(j);
    assert(ssa_math_rule_list()[j].name[0] == 's');
}

/// A proposition: connectives applied to atoms that are no numerals.
pub open spec fn proposition(t: Term) -> bool
    decreases t,
{
    if t.args.len() == 0 {
        numeral(t.op) is None
    } else if t.args.len() == 1 {
        t.op == "not"@ && proposition(t.args[0])
    } else {
        &&& t.args.len() == 2
        &&& t.op == "and"@ || t.op == "or"@
        &&& proposition(t.args[0])
        &&& proposition(t.args[1])
    }
}

/// The truth value of a proposition.
pub open spec fn truth(env: spec_fn(Seq<char>) -> bool, t: Term) -> bool
    decreases t,
{
    if t.args.len() == 0 {
        env(t.op)
    } else if t.args.len() == 1 {
        !truth(env, t.args[0])
    } else if t.op == "and"@ {
        truth(env, t.args[0]) && truth(env, t.args[1])
    } else {
        truth(env, t.args[0]) || truth(env, t.args[1])
    }
}

/// The integer that stands for a truth value.
pub open spec fn bit(b: bool) -> int {
    if b {
        1
    } else {
        0
    }
}

/// On propositions the ordinary reading is that of classical logic.
pub proof fn law_propositions_read_classically(env: spec_fn(Seq<char>) -> bool, t: Term)
    requires
        proposition(t),
    ensures
        value(integers(|s: Seq<char>| bit(env(s))), t) == bit(truth(env, t)),
    decreases t,
{
    lemma_operators();
    let model = integers(|s: Seq<char>| bit(env(s)));
    if t.args.len() == 0 {
        assert(t.args =~= Seq::<Term>::empty());
        lemma_values(model, t.op, t, t);
    } else if t.args.len() == 1 {
        law_propositions_read_classically(env, t.args[0]);
        assert(t.args =~= seq![t.args[0]]);
        lemma_values(model, t.op, t.args[0], t);
    } else {
        law_propositions_read_classically(env, t.args[0]);
        law_propositions_read_classically(env, t.args[1]);
        assert(t.args =~= seq![t.args[0], t.args[1]]);
        lemma_values(model, t.op, t.args[0], t.args[1]);
    }
}

/// The lists of rewrites apply the rules of their systems, in order; both
/// unions hold the boolean rules behind the arithmetic ones.
pub proof fn law_rewrites_apply_the_rules(
    math: Vec<Rewrite<SymbolLang, ()>>,
    boolean: Vec<Rewrite<SymbolLang, ()>>,
    ssa: Vec<Rewrite<SymbolLang, ()>>,
    all: Vec<Rewrite<SymbolLang, ()>>,
    ssa_all: Vec<Rewrite<SymbolLang, ()>>,
    i: int,
)
    requires
        call_ensures(math_rules, (), math),
        call_ensures(boolean_rules, (), boolean),
        call_ensures(ssa_math_rules, (), ssa),
        call_ensures(all_rules, (), all),
        call_ensures(ssa_all_rules, (), ssa_all),
        0 <= i < 5,
    ensures
        math@.len() == 5 && rewrite_rule(math@[i]) == Some(math_rule_list()[i]),
        boolean@.len() == 5 && rewrite_rule(boolean@[i]) == Some(boolean_rule_list()[i]),
        ssa@.len() == 5 && rewrite_rule(ssa@[i]) == Some(ssa_math_rule_list()[i]),
        all@.len() == 10,
        rewrite_rule(all@[i]) == Some(math_rule_list()[i]),
        rewrite_rule(all@[i + 5]) == Some(boolean_rule_list()[i]),
        ssa_all@.len() == 10,
        rewrite_rule(ssa_all@[i]) == Some(ssa_math_rule_list()[i]),
        rewrite_rule(ssa_all@[i + 5]) == Some(boolean_rule_list()[i]),
{
    assert(rules_of(math@)[i] == math_rule_list()[i]);
    assert(rules_of(boolean@)[i] == boolean_rule_list()[i]);
    assert(rules_of(ssa@)[i] == ssa_math_rule_list()[i]);
    let more = math_rule_list() + boolean_rule_list();
    let ssa_more = ssa_math_rule_list() + boolean_rule_list();
    assert(rules_of(math@).len() == 5 && rules_of(boolean@).len() == 5);
    assert(rules_of(ssa@).len() == 5 && more.len() == 10 && ssa_more.len() == 10);
    assert(rules_of(all@).len() == 10 && rules_of(ssa_all@).len() == 10);
    assert(rules_of(all@)[i] == more[i] && rules_of(all@)[i + 5] == more[i + 5]);
    assert(rules_of(ssa_all@)[i] == ssa_more[i] && rules_of(ssa_all@)[i + 5] == ssa_more[i + 5]);
}

} // verus!
