//! The equivalence checker: equality saturation within fixed bounds.
//!
//! Two terms are equivalent if saturation, started from the first one, finds
//! both in one class. Terms are given as s-expressions, or as values of data
//! flow graphs, which are lowered first. Every run is bounded by
//! [`RunnerLimits::law_mandated`], and every outcome goes through
//! [`classify`], so there is one definition of being equivalent.

use crate::egraph::{
    all_patterns, expr_term, parse_expr, rules_of, run_shows, saturate, sexp_term, Outcome,
    Saturation,
};
use crate::limits::{Bounds, RunnerLimits, ITERATION_LIMIT, NODE_LIMIT};
use crate::rules::{
    all_rules, bit, boolean_rule_list, integers, law_propositions_read_classically,
    law_rules_are_identities, math_rule_list, proposition, ssa_all_rules, ssa_math_rule_list,
    truth,
};
use crate::ssa::{
    arguments_env, evaluates_to, law_evaluation_computes_meaning,
    law_meaning_depends_on_parameters, lemma_append_valid, meaning, op_at, valid, Op, Ssa, Value,
};
use crate::ssa_bridge::{
    atoms, broken, highest_op, last_defined, law_highest_op_is_last,
    law_later_definitions_keep_terms, law_lowering_preserves_meaning,
    law_unknown_values_are_broken, law_valid_graph_lowers_whole, lower_value, term_of,
};
use crate::telemetry::{record_of, VerificationRecord};
use crate::terms::{follows, plain_term, term_text, value, Rule, Term};
use egg::{RecExpr, Rewrite, SymbolLang};
use std::time::Instant;
use vstd::prelude::*;

verus! {

/// Outcome of one bounded equivalence check.
#[derive(Debug, Clone, PartialEq, Eq)]
pub enum Verdict {
    /// Both sides share a class after saturation.
    Equivalent {
        /// Rewriting iterations that were made.
        iterations: usize,
        /// Nodes of the e-graph at the last iteration.
        nodes: usize,
    },
    /// Saturation ended with the two sides in different classes, or an input
    /// could not be read.
    Unproven { reason: String },
}

/// The verdict on a finished run.
pub open spec fn verdict_on(run: Outcome, verdict: Verdict) -> bool {
    if run.common_classes > 0 {
        verdict == (Verdict::Equivalent {
            iterations: run.iteration_nodes.len() as usize,
            nodes: if run.iteration_nodes.len() > 0 {
                run.iteration_nodes.last()
            } else {
                run.total_nodes
            },
        })
    } else {
        verdict is Unproven && verdict->reason@ == "saturation exhausted without merge"@
    }
}

/// What holds of every verdict on two terms under the given rules, however
/// far the run got: it is the verdict on a run that started from the first
/// term, under these rules and within the mandated bounds. An equivalence
/// follows from the rules and comes with metrics within the bounds, and a
/// term is never held apart from itself.
pub open spec fn settles(rules: Seq<Rule>, before: Term, after: Term, verdict: Verdict) -> bool {
    &&& exists|run: Outcome| #[trigger]
        run_shows(before, after, rules, Bounds::mandated(), run) && verdict_on(run, verdict)
    &&& match verdict {
        Verdict::Equivalent { iterations, nodes } => {
            &&& follows(rules, before, after)
            &&& 1 <= iterations <= ITERATION_LIMIT
            &&& 1 <= nodes
            &&& iterations >= 2 ==> nodes <= NODE_LIMIT
        },
        Verdict::Unproven { reason } => {
            &&& before != after
            &&& reason@ == "saturation exhausted without merge"@
        },
    }
}

/// What holds of every verdict on two s-expressions.
pub open spec fn settles_texts(before: Seq<char>, after: Seq<char>, verdict: Verdict) -> bool {
    match (sexp_term(before), sexp_term(after)) {
        (Err(m), _) => verdict is Unproven && verdict->reason@ == "bad `before` s-expression: "@
            + m,
        (Ok(_), Err(m)) => verdict is Unproven && verdict->reason@
            == "bad `after` s-expression: "@ + m,
        (Ok(a), Ok(b)) => settles(math_rule_list() + boolean_rule_list(), a, b, verdict),
    }
}

/// What holds of every verdict on two s-expressions that spell plain terms.
pub open spec fn settles_spellings(before: Seq<char>, after: Seq<char>, verdict: Verdict) -> bool {
    forall|a: Term, b: Term|
        plain_term(a) && plain_term(b) && before == #[trigger] term_text(a) && after
            == #[trigger] term_text(b) ==> settles(
            math_rule_list() + boolean_rule_list(),
            a,
            b,
            verdict,
        )
}

/// What holds of every verdict on two values of data flow graphs. Where a
/// value does not lower to a whole term, nothing is equivalent to it.
pub open spec fn settles_values(
    before: Seq<Option<Op>>,
    root_before: Value,
    after: Seq<Option<Op>>,
    root_after: Value,
    verdict: Verdict,
) -> bool {
    if broken(term_of(before, root_before)) || broken(term_of(after, root_after)) {
        verdict is Unproven && verdict->reason@ == "saturation exhausted without merge"@
    } else {
        settles(
            ssa_math_rule_list() + boolean_rule_list(),
            term_of(before, root_before),
            term_of(after, root_after),
            verdict,
        )
    }
}

/// What holds of every verdict on the last operation of a graph and a value
/// of another one.
pub open spec fn settles_graphs(
    before: Seq<Option<Op>>,
    after: Seq<Option<Op>>,
    out: Value,
    verdict: Verdict,
) -> bool {
    match highest_op(before, before.len() as u32) {
        Some(root) => settles_values(before, root, after, out, verdict),
        None => verdict is Unproven && verdict->reason@
            == "`before` defines no operations; nothing to saturate"@,
    }
}

/// The verdict on a finished run: the two terms are equivalent exactly if a
/// class represents both.
pub fn classify(run: &Saturation) -> (res: Verdict)
    ensures
        verdict_on(run@, res),
{
    if run.common_classes > 0 {
        let iterations: usize = run.iteration_nodes.len();
        let nodes: usize = if iterations > 0 {
            run.iteration_nodes[iterations - 1]
        } else {
            run.total_nodes
        };
        Verdict::Equivalent { iterations, nodes }
    } else {
        Verdict::Unproven { reason: text_of("saturation exhausted without merge") }
    }
}

/// A string with the given text.
fn text_of(text: &str) -> (res: String)
    ensures
        res@ == text@,
{
    let mut out = String::new();
    out.append(text);
    assert(out@ =~= text@);
    out
}

/// Equivalence checker within the mandated bounds.
#[derive(Debug)]
pub struct EggEngine {
    limits: RunnerLimits,
}

impl Default for EggEngine {
    fn default() -> (res: Self)
        ensures
            res.bounds().lawful(),
    {
        EggEngine::new()
    }
}

impl Clone for EggEngine {
    fn clone(&self) -> (res: Self)
        ensures
            res.bounds() == self.bounds(),
    {
        proof {
            use_type_invariant(self);
        }
        EggEngine { limits: self.limits }
    }
}

impl EggEngine {
    /// There is no engine with other bounds.
    #[verifier::type_invariant]
    spec fn bounded(self) -> bool {
        self.limits.lawful()
    }

    /// The bounds of every run of this engine.
    pub closed spec fn bounds(self) -> RunnerLimits {
        self.limits
    }

    /// An engine within [`RunnerLimits::law_mandated`].
    pub fn new() -> (res: Self)
        ensures
            res.bounds().lawful(),
    {
        EggEngine { limits: RunnerLimits::law_mandated() }
    }

    /// The bounds of every run.
    pub fn limits(&self) -> (res: &RunnerLimits)
        ensures
            *res == self.bounds(),
            res.lawful(),
    {
        proof {
            use_type_invariant(self);
        }
        &self.limits
    }

    /// Saturate from `before` and look for both terms in the result.
    fn check(
        &self,
        before: &RecExpr<SymbolLang>,
        after: &RecExpr<SymbolLang>,
        rules: &Vec<Rewrite<SymbolLang, ()>>,
    ) -> (res: Verdict)
        requires
            expr_term(*before) is Some,
            expr_term(*after) is Some,
            all_patterns(rules@),
        ensures
            settles(
                rules_of(rules@),
                expr_term(*before)->Some_0,
                expr_term(*after)->Some_0,
                res,
            ),
    {
        proof {
            use_type_invariant(self);
        }
        self.limits.assert_lawful();
        let run = saturate(before, after, rules, &self.limits);
        let verdict = classify(&run);
        assert(run_shows(
            expr_term(*before)->Some_0,
            expr_term(*after)->Some_0,
            rules_of(rules@),
            Bounds::mandated(),
            run@,
        ));
        verdict
    }

    /// Check whether `before` and `after` are equivalent under the arithmetic
    /// and boolean rules.
    pub fn verify(&self, before: &str, after: &str) -> (res: Verdict)
        ensures
            settles_texts(before@, after@, res),
            settles_spellings(before@, after@, res),
    {
        let before_expr = match parse_expr(before) {
            Ok(expr) => expr,
            Err(message) => {
                let mut reason = text_of("bad `before` s-expression: ");
                reason.append(message.as_str());
                return Verdict::Unproven { reason };
            },
        };
        let after_expr = match parse_expr(after) {
            Ok(expr) => expr,
            Err(message) => {
                let mut reason = text_of("bad `after` s-expression: ");
                reason.append(message.as_str());
                return Verdict::Unproven { reason };
            },
        };
        let rules = all_rules();
        self.check(&before_expr, &after_expr, &rules)
    }

    /// [`EggEngine::verify`], and the milliseconds that it took.
    pub fn verify_timed(&self, before: &str, after: &str) -> (res: (Verdict, u128))
        ensures
            settles_texts(before@, after@, res.0),
            settles_spellings(before@, after@, res.0),
    {
        let started = Instant::now();
        let verdict = self.verify(before, after);
        let elapsed_ms: u128 = started.elapsed().as_millis();
        (verdict, elapsed_ms)
    }

    /// [`EggEngine::verify`], measured and distilled into a record.
    pub fn verify_telemetry(&self, job_id: u64, before: &str, after: &str) -> (res:
        VerificationRecord)
        ensures
            exists|verdict: Verdict| #[trigger]
                settles_texts(before@, after@, verdict) && settles_spellings(
                    before@,
                    after@,
                    verdict,
                ) && res@ == record_of(job_id, verdict, res@.elapsed_ms),
    {
        let (verdict, elapsed_ms) = self.verify_timed(before, after);
        VerificationRecord::new(job_id, &verdict, elapsed_ms)
    }

    /// Check whether two values of data flow graphs are equivalent. A value
    /// that depends on something that its graph does not define is
    /// equivalent to nothing.
    pub fn verify_ssa_roots(
        &self,
        before: &Ssa,
        root_before: Value,
        after: &Ssa,
        root_after: Value,
    ) -> (res: Verdict)
        ensures
            settles_values(before@, root_before, after@, root_after, res),
    {
        let (before_expr, before_broken) = lower_value(before, root_before);
        let (after_expr, after_broken) = lower_value(after, root_after);
        if before_broken || after_broken {
            return Verdict::Unproven { reason: text_of("saturation exhausted without merge") };
        }
        let rules = ssa_all_rules();
        self.check(&before_expr, &after_expr, &rules)
    }

    /// Check whether the last operation of `before` is equivalent to the
    /// value `out` of `after`.
    pub fn verify_ssa(&self, before: &Ssa, after: &Ssa, out: Value) -> (res: Verdict)
        ensures
            settles_graphs(before@, after@, out, res),
    {
        match last_defined(before) {
            Some(root_before) => self.verify_ssa_roots(before, root_before, after, out),
            None => Verdict::Unproven {
                reason: text_of("`before` defines no operations; nothing to saturate"),
            },
        }
    }

    /// [`EggEngine::verify_ssa`], measured and distilled into a record.
    pub fn verify_ssa_telemetry(&self, job_id: u64, before: &Ssa, after: &Ssa, out: Value) -> (res:
        VerificationRecord)
        ensures
            exists|verdict: Verdict| #[trigger]
                settles_graphs(before@, after@, out, verdict) && res@ == record_of(
                    job_id,
                    verdict,
                    res@.elapsed_ms,
                ),
    {
        let started = Instant::now();
        let verdict = self.verify_ssa(before, after, out);
        let elapsed_ms: u128 = started.elapsed().as_millis();
        VerificationRecord::new(job_id, &verdict, elapsed_ms)
    }
}

/// Every term is equivalent to itself.
pub proof fn law_terms_equal_themselves(rules: Seq<Rule>, t: Term, verdict: Verdict)
    requires
        settles(rules, t, t, verdict),
    ensures
        verdict is Equivalent,
{
}

/// Equivalent s-expressions are equal as integer arithmetic, whatever their
/// atoms stand for.
pub proof fn law_equivalent_texts_are_equal(
    before: Seq<char>,
    after: Seq<char>,
    verdict: Verdict,
    env: spec_fn(Seq<char>) -> int,
)
    requires
        settles_texts(before, after, verdict),
        verdict is Equivalent,
    ensures
        sexp_term(before) is Ok,
        sexp_term(after) is Ok,
        value(integers(env), sexp_term(before)->Ok_0) == value(
            integers(env),
            sexp_term(after)->Ok_0,
        ),
{
    law_rules_are_identities(env);
}

/// Equivalent propositions have the same truth value under every assignment.
pub proof fn law_equivalent_propositions_agree(
    before: Seq<char>,
    after: Seq<char>,
    verdict: Verdict,
    env: spec_fn(Seq<char>) -> bool,
)
    requires
        settles_texts(before, after, verdict),
        verdict is Equivalent,
        sexp_term(before) matches Ok(a) && proposition(a),
        sexp_term(after) matches Ok(b) && proposition(b),
    ensures
        truth(env, sexp_term(before)->Ok_0) == truth(env, sexp_term(after)->Ok_0),
{
    let assigned = |s: Seq<char>| bit(env(s));
    law_equivalent_texts_are_equal(before, after, verdict, assigned);
    law_propositions_read_classically(env, sexp_term(before)->Ok_0);
    law_propositions_read_classically(env, sexp_term(after)->Ok_0);
}

/// Equivalent values of valid graphs mean the same integer, whatever the
/// parameters stand for; a parameter is known by its position.
pub proof fn law_equivalent_values_mean_the_same(
    before: Seq<Option<Op>>,
    root_before: Value,
    after: Seq<Option<Op>>,
    root_after: Value,
    verdict: Verdict,
    env: spec_fn(u32) -> int,
)
    requires
        valid(before),
        valid(after),
        root_before.0 < before.len(),
        root_after.0 < after.len(),
        settles_values(before, root_before, after, root_after, verdict),
        verdict is Equivalent,
    ensures
        meaning(before, root_before, env) == meaning(after, root_after, env),
{
    law_rules_are_identities(atoms(env));
    law_valid_graph_lowers_whole(before, root_before);
    law_valid_graph_lowers_whole(after, root_after);
    law_lowering_preserves_meaning(before, root_before, env);
    law_lowering_preserves_meaning(after, root_after, env);
}

/// Equivalent values of valid graphs evaluate to the same number on the same
/// arguments, provided that no argument goes to a position that is a
/// parameter of both graphs as different numbers.
pub proof fn law_equivalent_values_evaluate_alike(
    before: Seq<Option<Op>>,
    root_before: Value,
    after: Seq<Option<Op>>,
    root_after: Value,
    verdict: Verdict,
    params: Seq<i64>,
    x: i64,
    y: i64,
)
    requires
        valid(before),
        valid(after),
        root_before.0 < before.len(),
        root_after.0 < after.len(),
        settles_values(before, root_before, after, root_after, verdict),
        verdict is Equivalent,
        forall|i: u32|
            i < before.len() && i < after.len() && before[i as int] is None && after[i as int]
                is None ==> #[trigger] arguments_env(before, params)(i) == arguments_env(
                after,
                params,
            )(i),
        evaluates_to(before, root_before, params, Ok(x)),
        evaluates_to(after, root_after, params, Ok(y)),
    ensures
        x == y,
{
    let env_before = arguments_env(before, params);
    let env_after = arguments_env(after, params);
    let env = |i: u32|
        if i < before.len() && before[i as int] is None {
            env_before(i)
        } else {
            env_after(i)
        };
    law_evaluation_computes_meaning(before, root_before, params, x);
    law_evaluation_computes_meaning(after, root_after, params, y);
    assert forall|i: u32| i < after.len() && after[i as int] is None implies #[trigger] env_after(i)
        == env(i) by {
        assert(env_before(i) == arguments_env(before, params)(i));
    }
    law_meaning_depends_on_parameters(before, root_before, env_before, env);
    law_meaning_depends_on_parameters(after, root_after, env_after, env);
    law_equivalent_values_mean_the_same(before, root_before, after, root_after, verdict, env);
}

/// Equivalent graphs mean the same integer: the last operation of the first
/// one, and the given value of the other.
pub proof fn law_equivalent_graphs_mean_the_same(
    before: Seq<Option<Op>>,
    after: Seq<Option<Op>>,
    out: Value,
    verdict: Verdict,
    env: spec_fn(u32) -> int,
)
    requires
        valid(before),
        valid(after),
        before.len() <= u32::MAX,
        out.0 < after.len(),
        settles_graphs(before, after, out, verdict),
        verdict is Equivalent,
    ensures
        highest_op(before, before.len() as u32) is Some,
        meaning(before, highest_op(before, before.len() as u32)->Some_0, env) == meaning(
            after,
            out,
            env,
        ),
{
    let root = highest_op(before, before.len() as u32)->Some_0;
    law_highest_op_is_last(before, before.len() as u32, 0);
    law_equivalent_values_mean_the_same(before, root, after, out, verdict, env);
}

/// A value of a valid graph is equivalent to itself.
pub proof fn law_values_equal_themselves(defs: Seq<Option<Op>>, v: Value, verdict: Verdict)
    requires
        valid(defs),
        v.0 < defs.len(),
        settles_values(defs, v, defs, v, verdict),
    ensures
        verdict is Equivalent,
{
    law_valid_graph_lowers_whole(defs, v);
}

/// A value that its graph does not have is equivalent to nothing.
pub proof fn law_unknown_values_are_unproven(
    before: Seq<Option<Op>>,
    root_before: Value,
    after: Seq<Option<Op>>,
    root_after: Value,
    verdict: Verdict,
)
    requires
        root_before.0 >= before.len() || root_after.0 >= after.len(),
        settles_values(before, root_before, after, root_after, verdict),
    ensures
        verdict is Unproven,
{
    if root_before.0 >= before.len() {
        law_unknown_values_are_broken(before, root_before);
    } else {
        law_unknown_values_are_broken(after, root_after);
    }
}

/// To check a graph is to check its last operation.
pub proof fn law_graphs_stand_for_their_last_operation(
    before: Seq<Option<Op>>,
    root: Value,
    after: Seq<Option<Op>>,
    out: Value,
    verdict: Verdict,
)
    requires
        highest_op(before, before.len() as u32) == Some(root),
    ensures
        settles_graphs(before, after, out, verdict) == settles_values(
            before,
            root,
            after,
            out,
            verdict,
        ),
{
}

/// Parameters that are declared behind the last operation of a valid graph
/// make no difference.
pub proof fn law_trailing_parameters_change_nothing(
    before: Seq<Option<Op>>,
    after: Seq<Option<Op>>,
    out: Value,
    verdict: Verdict,
)
    requires
        valid(before),
        before.len() < u32::MAX,
    ensures
        settles_graphs(before.push(None), after, out, verdict) == settles_graphs(
            before,
            after,
            out,
            verdict,
        ),
{
    let n = before.len() as u32;
    lemma_append_valid(before, None);
    lemma_append_highest(before, n);
    assert(op_at(before.push(None), Value(n)) is None);
    match highest_op(before, n) {
        Some(root) => {
            law_highest_op_is_last(before, n, 0);
            law_later_definitions_keep_terms(before, None, root);
        },
        None => {},
    }
}

/// One more parameter is no operation.
proof fn lemma_append_highest(defs: Seq<Option<Op>>, n: u32)
    requires
        n <= defs.len(),
    ensures
        highest_op(defs.push(None), n) == highest_op(defs, n),
    decreases n,
{
    if n > 0 {
        assert(defs.push(None)[n - 1] == defs[n - 1]);
        lemma_append_highest(defs, (n - 1) as u32);
    }
}

/// Values of valid graphs with one term are equivalent, also where the graphs
/// and the positions in them are different.
pub proof fn law_equal_terms_are_equivalent(
    before: Seq<Option<Op>>,
    root_before: Value,
    after: Seq<Option<Op>>,
    root_after: Value,
    verdict: Verdict,
)
    requires
        valid(before),
        valid(after),
        root_before.0 < before.len(),
        root_after.0 < after.len(),
        term_of(before, root_before) == term_of(after, root_after),
        settles_values(before, root_before, after, root_after, verdict),
    ensures
        verdict is Equivalent,
{
    law_valid_graph_lowers_whole(before, root_before);
}

/// The verdict is what a run shows: an equivalence exactly if a class
/// represents both terms, with the number of iterations and the nodes at the
/// last one.
pub open spec fn told_by(run: Outcome, verdict: Verdict) -> bool {
    &&& verdict is Equivalent <==> run.common_classes >= 1
    &&& verdict matches Verdict::Equivalent { iterations, nodes } ==> {
        &&& run.iteration_nodes.len() <= usize::MAX ==> iterations == run.iteration_nodes.len()
        &&& run.iteration_nodes.len() >= 1 ==> nodes == run.iteration_nodes[run.iteration_nodes.len()
            - 1]
        &&& run.iteration_nodes.len() == 0 ==> nodes == run.total_nodes
    }
    &&& verdict matches Verdict::Unproven { reason } ==> reason@
        == "saturation exhausted without merge"@
}

/// A finished run alone decides its verdict.
pub proof fn law_runs_decide(run: Outcome, verdict: Verdict)
    requires
        verdict_on(run, verdict),
    ensures
        told_by(run, verdict),
{
}

/// Every verdict on two values of valid graphs is told by a run on their two
/// terms, started from the first one, under the rules for graphs and within
/// the mandated bounds. No pair of values is left out.
pub proof fn law_verdicts_on_values_come_from_runs(
    before: Seq<Option<Op>>,
    root_before: Value,
    after: Seq<Option<Op>>,
    root_after: Value,
    verdict: Verdict,
)
    requires
        valid(before),
        valid(after),
        root_before.0 < before.len(),
        root_after.0 < after.len(),
        settles_values(before, root_before, after, root_after, verdict),
    ensures
        exists|run: Outcome| #[trigger]
            run_shows(
                term_of(before, root_before),
                term_of(after, root_after),
                ssa_math_rule_list() + boolean_rule_list(),
                Bounds::mandated(),
                run,
            ) && told_by(run, verdict),
{
    law_valid_graph_lowers_whole(before, root_before);
    law_valid_graph_lowers_whole(after, root_after);
}

/// Every verdict on two s-expressions that can be read is told by a run on
/// the terms that they spell, started from the first one, under both families
/// of rules and within the mandated bounds.
pub proof fn law_verdicts_on_texts_come_from_runs(
    before: Seq<char>,
    after: Seq<char>,
    verdict: Verdict,
)
    requires
        settles_texts(before, after, verdict),
        sexp_term(before) is Ok,
        sexp_term(after) is Ok,
    ensures
        exists|run: Outcome| #[trigger]
            run_shows(
                sexp_term(before)->Ok_0,
                sexp_term(after)->Ok_0,
                math_rule_list() + boolean_rule_list(),
                Bounds::mandated(),
                run,
            ) && told_by(run, verdict),
{
}

/// The same for plain terms that are given by their spelling.
pub proof fn law_verdicts_on_spellings_come_from_runs(a: Term, b: Term, verdict: Verdict)
    requires
        plain_term(a),
        plain_term(b),
        settles_spellings(term_text(a), term_text(b), verdict),
    ensures
        exists|run: Outcome| #[trigger]
            run_shows(
                a,
                b,
                math_rule_list() + boolean_rule_list(),
                Bounds::mandated(),
                run,
            ) && told_by(run, verdict),
        a == b ==> verdict is Equivalent,
{
}

/// S-expressions that read as one term are equivalent.
pub proof fn law_texts_of_one_term_are_equivalent(
    before: Seq<char>,
    after: Seq<char>,
    verdict: Verdict,
)
    requires
        settles_texts(before, after, verdict),
        sexp_term(before) is Ok,
        sexp_term(after) == sexp_term(before),
    ensures
        verdict is Equivalent,
{
}

/// An s-expression that cannot be read is never equivalent to anything; the
/// verdict names the side, the first one first, and the reason.
pub proof fn law_unreadable_texts_are_unproven(
    before: Seq<char>,
    after: Seq<char>,
    verdict: Verdict,
)
    requires
        settles_texts(before, after, verdict),
        sexp_term(before) is Err || sexp_term(after) is Err,
    ensures
        verdict is Unproven,
        sexp_term(before) matches Err(m) ==> verdict->reason@ == "bad `before` s-expression: "@ + m,
        sexp_term(before) is Ok ==> verdict->reason@ == "bad `after` s-expression: "@ + sexp_term(
            after,
        )->Err_0,
{
}

/// A graph without operations is never equivalent to anything; any other one
/// is checked by its last operation, which only parameters follow.
pub proof fn law_graphs_without_operations_are_unproven(
    before: Seq<Option<Op>>,
    after: Seq<Option<Op>>,
    out: Value,
    verdict: Verdict,
)
    requires
        before.len() <= u32::MAX,
        settles_graphs(before, after, out, verdict),
        forall|i: int| 0 <= i < before.len() ==> (#[trigger] before[i]) is None,
    ensures
        verdict is Unproven,
        verdict->reason@ == "`before` defines no operations; nothing to saturate"@,
{
    match highest_op(before, before.len() as u32) {
        Some(v) => {
            law_highest_op_is_last(before, before.len() as u32, 0);
            assert(before[v.0 as int] is None);
        },
        None => {},
    }
}

/// A graph is checked by the operation that only parameters follow.
pub proof fn law_graphs_are_checked_by_their_last_operation(
    before: Seq<Option<Op>>,
    root: Value,
    after: Seq<Option<Op>>,
    out: Value,
    verdict: Verdict,
)
    requires
        before.len() <= u32::MAX,
        root.0 < before.len(),
        before[root.0 as int] is Some,
        forall|i: int| root.0 < i < before.len() ==> (#[trigger] before[i]) is None,
        settles_graphs(before, after, out, verdict),
    ensures
        settles_values(before, root, after, out, verdict),
{
    law_highest_op_is_last(before, before.len() as u32, root.0);
    let v = highest_op(before, before.len() as u32)->Some_0;
    if v.0 > root.0 {
        assert(before[v.0 as int] is None);
    }
}

/// A check of two values of valid graphs gives what a run on their terms
/// tells. Equal terms are equivalent, and what is equivalent means the same
/// integer, whatever the parameters stand for.
pub proof fn law_checks_of_values(
    engine: &EggEngine,
    before: &Ssa,
    root_before: Value,
    after: &Ssa,
    root_after: Value,
    verdict: Verdict,
    env: spec_fn(u32) -> int,
)
    requires
        call_ensures(
            EggEngine::verify_ssa_roots,
            (engine, before, root_before, after, root_after),
            verdict,
        ),
        valid(before@),
        valid(after@),
        root_before.0 < before@.len(),
        root_after.0 < after@.len(),
    ensures
        exists|run: Outcome| #[trigger]
            run_shows(
                term_of(before@, root_before),
                term_of(after@, root_after),
                ssa_math_rule_list() + boolean_rule_list(),
                Bounds::mandated(),
                run,
            ) && told_by(run, verdict),
        term_of(before@, root_before) == term_of(after@, root_after) ==> verdict is Equivalent,
        verdict is Equivalent ==> meaning(before@, root_before, env) == meaning(
            after@,
            root_after,
            env,
        ),
{
    law_verdicts_on_values_come_from_runs(before@, root_before, after@, root_after, verdict);
    if term_of(before@, root_before) == term_of(after@, root_after) {
        law_equal_terms_are_equivalent(before@, root_before, after@, root_after, verdict);
    }
    if verdict is Equivalent {
        law_equivalent_values_mean_the_same(
            before@,
            root_before,
            after@,
            root_after,
            verdict,
            env,
        );
    }
}

/// A check of a graph is one of the operation that only parameters follow.
pub proof fn law_checks_of_graphs(
    engine: &EggEngine,
    before: &Ssa,
    root: Value,
    after: &Ssa,
    out: Value,
    verdict: Verdict,
    env: spec_fn(u32) -> int,
)
    requires
        call_ensures(EggEngine::verify_ssa, (engine, before, after, out), verdict),
        valid(before@),
        valid(after@),
        before@.len() <= u32::MAX,
        root.0 < before@.len(),
        before@[root.0 as int] is Some,
        forall|i: int| root.0 < i < before@.len() ==> (#[trigger] before@[i]) is None,
        out.0 < after@.len(),
    ensures
        exists|run: Outcome| #[trigger]
            run_shows(
                term_of(before@, root),
                term_of(after@, out),
                ssa_math_rule_list() + boolean_rule_list(),
                Bounds::mandated(),
                run,
            ) && told_by(run, verdict),
        term_of(before@, root) == term_of(after@, out) ==> verdict is Equivalent,
        verdict is Equivalent ==> meaning(before@, root, env) == meaning(after@, out, env),
{
    law_graphs_are_checked_by_their_last_operation(before@, root, after@, out, verdict);
    law_verdicts_on_values_come_from_runs(before@, root, after@, out, verdict);
    if term_of(before@, root) == term_of(after@, out) {
        law_equal_terms_are_equivalent(before@, root, after@, out, verdict);
    }
    if verdict is Equivalent {
        law_equivalent_values_mean_the_same(before@, root, after@, out, verdict, env);
    }
}

/// The verdict fits two terms: a run on them tells it, equal terms are
/// equivalent, and what is equivalent is equal as integer arithmetic.
pub open spec fn fits_terms(
    a: Term,
    b: Term,
    verdict: Verdict,
    env: spec_fn(Seq<char>) -> int,
) -> bool {
    &&& exists|run: Outcome| #[trigger]
        run_shows(a, b, math_rule_list() + boolean_rule_list(), Bounds::mandated(), run) && told_by(
            run,
            verdict,
        )
    &&& a == b ==> verdict is Equivalent
    &&& verdict is Equivalent ==> value(integers(env), a) == value(integers(env), b)
}

proof fn lemma_fits_terms(
    a: Term,
    b: Term,
    before: Seq<char>,
    after: Seq<char>,
    verdict: Verdict,
    env: spec_fn(Seq<char>) -> int,
)
    requires
        plain_term(a),
        plain_term(b),
        before == term_text(a),
        after == term_text(b),
        settles_spellings(before, after, verdict),
    ensures
        fits_terms(a, b, verdict, env),
{
    law_verdicts_on_spellings_come_from_runs(a, b, verdict);
    law_rules_are_identities(env);
}

/// A check of two spelled terms gives a verdict that fits them; so does a
/// timed one, and a record of a check is that of a verdict that fits them.
pub proof fn law_checks_of_spellings(
    engine: &EggEngine,
    before: &str,
    after: &str,
    job_id: u64,
    a: Term,
    b: Term,
    verdict: Verdict,
    timed: (Verdict, u128),
    record: VerificationRecord,
    env: spec_fn(Seq<char>) -> int,
)
    requires
        plain_term(a),
        plain_term(b),
        before@ == term_text(a),
        after@ == term_text(b),
        call_ensures(EggEngine::verify, (engine, before, after), verdict),
        call_ensures(EggEngine::verify_timed, (engine, before, after), timed),
        call_ensures(EggEngine::verify_telemetry, (engine, job_id, before, after), record),
    ensures
        fits_terms(a, b, verdict, env),
        fits_terms(a, b, timed.0, env),
        record@.job_id == job_id,
        a == b ==> record@.verdict_kind is Green,
        record@.verdict_kind is Green ==> value(integers(env), a) == value(integers(env), b) && 1
            <= record@.iterations <= 5000 && 1 <= record@.nodes,
        record@.verdict_kind is Yellow ==> record@.iterations == 0 && record@.nodes == 0,
{
    lemma_fits_terms(a, b, before@, after@, verdict, env);
    lemma_fits_terms(a, b, before@, after@, timed.0, env);
    let told = choose|told: Verdict| #[trigger]
        settles_texts(before@, after@, told) && settles_spellings(before@, after@, told) && record@
            == record_of(job_id, told, record@.elapsed_ms);
    lemma_fits_terms(a, b, before@, after@, told, env);
    assert(settles(math_rule_list() + boolean_rule_list(), a, b, told));
}

/// A check of two texts as they are: one that cannot be read is never
/// equivalent, texts that read as one term are, and whatever is equivalent is
/// equal as integer arithmetic.
pub proof fn law_checks_of_texts(
    engine: &EggEngine,
    before: &str,
    after: &str,
    verdict: Verdict,
    env: spec_fn(Seq<char>) -> int,
)
    requires
        call_ensures(EggEngine::verify, (engine, before, after), verdict),
    ensures
        sexp_term(before@) matches Err(m) ==> verdict is Unproven && verdict->reason@
            == "bad `before` s-expression: "@ + m,
        sexp_term(before@) is Ok ==> (sexp_term(after@) matches Err(m) ==> verdict is Unproven
            && verdict->reason@ == "bad `after` s-expression: "@ + m),
        sexp_term(before@) is Ok && sexp_term(after@) == sexp_term(before@) ==> verdict
            is Equivalent,
        verdict is Equivalent ==> sexp_term(before@) is Ok && sexp_term(after@) is Ok && value(
            integers(env),
            sexp_term(before@)->Ok_0,
        ) == value(integers(env), sexp_term(after@)->Ok_0),
{
    if verdict is Equivalent {
        law_equivalent_texts_are_equal(before@, after@, verdict, env);
    }
}

/// A record of a check of graphs is that of a verdict on them: it is green
/// only if both mean the same integer, and is green if both are one term.
pub proof fn law_records_of_graph_checks(
    engine: &EggEngine,
    job_id: u64,
    before: &Ssa,
    root: Value,
    after: &Ssa,
    out: Value,
    record: VerificationRecord,
    env: spec_fn(u32) -> int,
)
    requires
        call_ensures(
            EggEngine::verify_ssa_telemetry,
            (engine, job_id, before, after, out),
            record,
        ),
        valid(before@),
        valid(after@),
        before@.len() <= u32::MAX,
        root.0 < before@.len(),
        before@[root.0 as int] is Some,
        forall|i: int| root.0 < i < before@.len() ==> (#[trigger] before@[i]) is None,
        out.0 < after@.len(),
    ensures
        record@.job_id == job_id,
        record@.verdict_kind is Green ==> meaning(before@, root, env) == meaning(after@, out, env)
            && 1 <= record@.iterations <= 5000 && 1 <= record@.nodes,
        record@.verdict_kind is Yellow ==> record@.iterations == 0 && record@.nodes == 0,
        term_of(before@, root) == term_of(after@, out) ==> record@.verdict_kind is Green,
{
    let told = choose|told: Verdict| #[trigger]
        settles_graphs(before@, after@, out, told) && record@ == record_of(
            job_id,
            told,
            record@.elapsed_ms,
        );
    law_graphs_are_checked_by_their_last_operation(before@, root, after@, out, told);
    law_valid_graph_lowers_whole(before@, root);
    law_valid_graph_lowers_whole(after@, out);
    if told is Equivalent {
        law_equivalent_values_mean_the_same(before@, root, after@, out, told, env);
    }
}

/// Classifying a run gives what the run tells.
pub proof fn law_classification_follows_the_run(run: &Saturation, verdict: Verdict)
    requires
        call_ensures(classify, (run,), verdict),
    ensures
        verdict is Equivalent <==> run.common_classes >= 1,
        verdict matches Verdict::Equivalent { iterations, nodes } ==> {
            &&& run.iteration_nodes@.len() <= usize::MAX ==> iterations
                == run.iteration_nodes@.len()
            &&& run.iteration_nodes@.len() >= 1 ==> nodes == run.iteration_nodes@.last()
            &&& run.iteration_nodes@.len() == 0 ==> nodes == run.total_nodes
        },
        verdict matches Verdict::Unproven { reason } ==> reason@
            == "saturation exhausted without merge"@,
{
}

/// Every engine runs within the mandated bounds.
pub proof fn law_engines_are_bounded(new: EggEngine, engine: &EggEngine, limits: &RunnerLimits)
    requires
        call_ensures(EggEngine::new, (), new),
        call_ensures(EggEngine::limits, (engine,), limits),
    ensures
        new.bounds().lawful(),
        limits.iteration_limit == 5000,
        limits.node_limit == 1_000_000,
        limits.backoff_match_limit == 5000,
        limits.backoff_ban_length == 3,
        limits.lawful(),
{
}

/// For any graphs, valid or not: where both terms are whole, the verdict is
/// told by a run on them, and equal terms are equivalent; where one is
/// broken, nothing is proved.
pub proof fn law_whole_terms_are_checked(
    engine: &EggEngine,
    before: &Ssa,
    root_before: Value,
    after: &Ssa,
    root_after: Value,
    verdict: Verdict,
)
    requires
        call_ensures(
            EggEngine::verify_ssa_roots,
            (engine, before, root_before, after, root_after),
            verdict,
        ),
    ensures
        ({
            let a = term_of(before@, root_before);
            let b = term_of(after@, root_after);
            &&& broken(a) || broken(b) ==> verdict is Unproven && verdict->reason@
                == "saturation exhausted without merge"@
            &&& !broken(a) && !broken(b) ==> exists|run: Outcome| #[trigger]
                run_shows(
                    a,
                    b,
                    ssa_math_rule_list() + boolean_rule_list(),
                    Bounds::mandated(),
                    run,
                ) && told_by(run, verdict)
            &&& !broken(a) && a == b ==> verdict is Equivalent
        }),
{
}

} // verus!
