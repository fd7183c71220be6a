//! The equality saturation engine `egg`, as far as the library uses it.
//!
//! Every item of this module stands for something of `egg` that is used
//! without proof; what is relied on is stated at each of them.

use crate::limits::{Bounds, RunnerLimits};
use crate::terms::{follows, plain_term, rule_sides, term_text, Rule, Term};
use egg::{BackoffScheduler, Pattern, RecExpr, Rewrite, Runner, SymbolLang};
use vstd::prelude::*;

verus! {

/// `egg`'s node type for terms whose operators are opaque symbols.
#[verifier::external_type_specification]
#[verifier::external_body]
pub struct ExSymbolLang(egg::SymbolLang);

/// `egg`'s representation of one term.
#[verifier::external_type_specification]
#[verifier::external_body]
#[verifier::reject_recursive_types(L)]
pub struct ExRecExpr<L>(egg::RecExpr<L>);

/// `egg`'s representation of one rewrite rule.
#[verifier::external_type_specification]
#[verifier::external_body]
#[verifier::reject_recursive_types(L)]
#[verifier::reject_recursive_types(N)]
pub struct ExRewrite<L, N>(egg::Rewrite<L, N>);

/// The term that an expression represents: its last node applied to the terms
/// of that node's children. None if it has no node, or a node with a child
/// that does not come before it.
pub uninterp spec fn expr_term(e: RecExpr<SymbolLang>) -> Option<Term>;

/// The rule that a rewrite applies, if both of its sides are patterns.
pub uninterp spec fn rewrite_rule(r: Rewrite<SymbolLang, ()>) -> Option<Rule>;

/// What reading an s-expression gives: a term, or the message of an error.
pub uninterp spec fn sexp_term(text: Seq<char>) -> Result<Term, Seq<char>>;

/// The rules of a list of rewrites, all of whose sides are patterns.
pub open spec fn rules_of(rewrites: Seq<Rewrite<SymbolLang, ()>>) -> Seq<Rule> {
    Seq::new(rewrites.len(), |i: int| rewrite_rule(rewrites[i])->Some_0)
}

/// Both sides of every rewrite are patterns.
pub open spec fn all_patterns(rewrites: Seq<Rewrite<SymbolLang, ()>>) -> bool {
    forall|i: int| 0 <= i < rewrites.len() ==> rewrite_rule(#[trigger] rewrites[i]) is Some
}

/// What a saturation run shows of itself and of the two terms it was about.
#[derive(Debug, Clone, PartialEq, Eq)]
pub struct Saturation {
    /// How often an e-class represents both terms at the end of the run.
    pub common_classes: usize,
    /// The number of e-graph nodes at the start of each iteration.
    pub iteration_nodes: Vec<usize>,
    /// The number of nodes in the e-classes at the end of the run.
    pub total_nodes: usize,
}

/// What a run shows, as numbers.
pub struct Outcome {
    pub common_classes: nat,
    pub iteration_nodes: Seq<usize>,
    pub total_nodes: usize,
}

impl View for Saturation {
    type V = Outcome;

    open spec fn view(&self) -> Outcome {
        Outcome {
            common_classes: self.common_classes as nat,
            iteration_nodes: self.iteration_nodes@,
            total_nodes: self.total_nodes,
        }
    }
}

/// A run that starts from `before`, applies these rules within these bounds
/// and looks for `before` and `after` can show this outcome.
///
/// One run may show what another one does not, since the time that a run is
/// given counts; this is the relation of all that a run can come to.
pub uninterp spec fn run_shows(
    before: Term,
    after: Term,
    rules: Seq<Rule>,
    bounds: Bounds,
    outcome: Outcome,
) -> bool;

/// `RecExpr::from_str` reads an s-expression; an error is turned into its
/// message.
///
/// What is read depends on the text alone. The spelling of a term whose
/// operators are unquoted symbols reads as that term.
#[verifier::external_body]
pub(crate) fn parse_expr(text: &str) -> (res: Result<RecExpr<SymbolLang>, String>)
    ensures
        match res {
            Ok(e) => expr_term(e) is Some && sexp_term(text@) == Ok::<Term, Seq<char>>(
                expr_term(e)->Some_0,
            ),
            Err(m) => sexp_term(text@) == Err::<Term, Seq<char>>(m@),
        },
        forall|t: Term|
            plain_term(t) && text@ == #[trigger] term_text(t) ==> res is Ok && expr_term(
                res->Ok_0,
            ) == Some(t),
{
    text.parse::<RecExpr<SymbolLang>>().map_err(|e| e.to_string())
}

/// `Rewrite::new` makes a rewrite of two patterns, which `Pattern::from_str`
/// reads.
///
/// Both succeed where the texts spell the two sides of a rule, and the
/// rewrite then applies that rule under the given name.
#[verifier::external_body]
pub(crate) fn make_rewrite(name: &str, lhs: &str, rhs: &str) -> (res: Rewrite<SymbolLang, ()>)
    requires
        exists|l: Term, r: Term|
            rule_sides(l, r) && lhs@ == #[trigger] term_text(l) && rhs@ == #[trigger] term_text(r),
    ensures
        forall|l: Term, r: Term|
            rule_sides(l, r) && lhs@ == #[trigger] term_text(l) && rhs@ == #[trigger] term_text(r)
                ==> rewrite_rule(res) == Some(Rule { name: name@, lhs: l, rhs: r }),
{
    let searcher: Pattern<SymbolLang> = lhs.parse().unwrap();
    let applier: Pattern<SymbolLang> = rhs.parse().unwrap();
    Rewrite::new(name, searcher, applier).unwrap()
}

/// `Runner::run` saturates an e-graph that holds `before`, within the limits,
/// and `EGraph::equivs` looks both terms up in the result.
///
/// How far a run gets depends on the time it is given, so the outcome is not
/// a function of the arguments; it is one that a run on them can show. Of
/// every outcome these hold. At least one iteration is made, and no more than the limit; one after the first is only
/// begun while the nodes are within theirs. The e-graph holds `before` from
/// the start, so it is never found empty, and `before` is found in one class
/// with itself. Nodes end up in one class only by rewriting and by
/// congruence, so terms found in one class are equal wherever all the rules
/// hold. Which of the equal terms are found within the bounds is not said.
///
/// Other bounds than the mandated ones are left out: the scheduler doubles
/// the patience with a rule at each ban, and panics if that happens as often
/// as a word has bits.
#[verifier::external_body]
pub(crate) fn saturate(
    before: &RecExpr<SymbolLang>,
    after: &RecExpr<SymbolLang>,
    rewrites: &Vec<Rewrite<SymbolLang, ()>>,
    limits: &RunnerLimits,
) -> (res: Saturation)
    requires
        expr_term(*before) is Some,
        expr_term(*after) is Some,
        all_patterns(rewrites@),
        limits.lawful(),
    ensures
        run_shows(
            expr_term(*before)->Some_0,
            expr_term(*after)->Some_0,
            rules_of(rewrites@),
            limits@,
            res@,
        ),
        1 <= res.iteration_nodes@.len() <= limits.iteration_limit,
        forall|i: int|
            0 <= i < res.iteration_nodes@.len() ==> #[trigger] res.iteration_nodes@[i] >= 1,
        forall|i: int|
            1 <= i < res.iteration_nodes@.len() ==> #[trigger] res.iteration_nodes@[i]
                <= limits.node_limit,
        expr_term(*before) == expr_term(*after) ==> res.common_classes >= 1,
        res.common_classes >= 1 ==> follows(
            rules_of(rewrites@),
            expr_term(*before)->Some_0,
            expr_term(*after)->Some_0,
        ),
{
    let scheduler = BackoffScheduler::default()
        .with_initial_match_limit(limits.backoff_match_limit)
        .with_ban_length(limits.backoff_ban_length);
    let runner = Runner::<SymbolLang, ()>::new(())
        .with_iter_limit(limits.iteration_limit as usize)
        .with_node_limit(limits.node_limit as usize)
        .with_time_limit(limits.time_limit)
        .with_scheduler(scheduler)
        .with_expr(before)
        .run(rewrites);
    let common_classes = runner.egraph.equivs(before, after).len();
    let iteration_nodes = runner.iterations.iter().map(|it| it.egraph_nodes).collect();
    Saturation { common_classes, iteration_nodes, total_nodes: runner.egraph.total_number_of_nodes() }
}

} // verus!
