//! End-to-end proofs of refactorings: two Python sources go in, a verdict on
//! their equivalence comes out.
//!
//! Both sources are lowered on their own. Since values are only numbered on
//! the way, the caller names the output variable of each side. The output is
//! resolved in steps: the value that is bound to the name at the end; failing
//! that, or if the name is empty, the last bare expression; failing that, the
//! value of the last assignment; and in a graph that was not made by
//! statements, the highest value that is the result of an operation.
//!
//! Inputs are known by their names: an input of one source stands for the
//! same number as the input of that name of the other one. Both graphs are
//! put in canonical form before they meet, so that one name has one place in
//! both.

use crate::canonical::{
    canonical, in_order, joint, joint_names, law_canonical_form_evaluates_alike,
    law_canonical_form_keeps_graphs_valid, law_canonical_form_preserves_meaning, lemma_joint,
    law_same_forms_have_one_term, lemma_joint_absorbs, lemma_rank, params_first, place, rank, ranks,
    ranks_of, same_form, seated,
};
use crate::egraph::{run_shows, Outcome};
use crate::engine::{
    law_equal_terms_are_equivalent, law_equivalent_values_mean_the_same,
    law_values_equal_themselves, law_verdicts_on_values_come_from_runs, settles_values, told_by,
    EggEngine, Verdict,
};
use crate::frontend_python::{
    lower_module, lower_source, lower_statements, Lowered, LoweringError, Progress,
};
use crate::limits::Bounds;
use crate::python_semantics::{
    law_frontend_preserves_meaning, law_lowered_graphs_are_valid, law_names_with_a_value_occur,
    lemma_no_output, occurs_in, run_statements, sound, variables,
};
use crate::python_syntax::{module_parse, Shape};
use crate::rules::{boolean_rule_list, ssa_math_rule_list};
use crate::ssa::{
    evaluates_to, lemma_ordinal_bound, meaning, param_count, param_ordinal, valid, Op, Value,
};
use crate::ssa_bridge::{highest_op, last_defined, term_of};
use crate::terms::Term;
use vstd::prelude::*;
use vstd::std_specs::convert::FromSpecImpl;
use vstd::utf8::*;

verus! {

/// Result of one proof.
///
/// An unproven verdict carries no metrics: iterations and nodes are zero.
#[derive(Debug, Clone, PartialEq, Eq)]
pub struct ProofReport {
    /// The first source, as it was passed in.
    pub before_src: String,
    /// The second source, as it was passed in.
    pub after_src: String,
    /// Number of values in the graph of the first source.
    pub lowered_before_len: usize,
    pub verdict: Verdict,
    /// Rewriting iterations that were made.
    pub iterations: usize,
    /// Nodes of the e-graph at the last iteration.
    pub nodes: usize,
}

/// Why no proof was attempted.
#[derive(Debug, Clone, PartialEq, Eq)]
pub enum ProofError {
    /// A source is outside the supported subset.
    Lowering(LoweringError),
    /// No output value was found on one side.
    MissingOutput {
        /// `before` or `after`.
        side: &'static str,
        detail: String,
    },
}

impl ProofError {
    /// The error as one line of text.
    pub open spec fn line(self) -> Seq<char> {
        match self {
            ProofError::Lowering(e) => e.line(),
            ProofError::MissingOutput { side, detail } => "no output value for `"@ + side@
                + "` source: "@ + detail@,
        }
    }

    /// The error as one line of text.
    pub fn to_string(&self) -> (res: String)
        ensures
            res@ == self.line(),
    {
        match self {
            ProofError::Lowering(e) => e.to_string(),
            ProofError::MissingOutput { side, detail } => {
                let mut out = String::new();
                out.append("no output value for `");
                out.append(side);
                out.append("` source: ");
                out.append(detail.as_str());
                assert(out@ =~= self.line());
                out
            },
        }
    }
}

impl From<LoweringError> for ProofError {
    fn from(e: LoweringError) -> (res: Self) {
        ProofError::Lowering(e)
    }
}

impl FromSpecImpl<LoweringError> for ProofError {
    open spec fn obeys_from_spec() -> bool {
        true
    }

    open spec fn from_spec(e: LoweringError) -> Self {
        ProofError::Lowering(e)
    }
}

/// The output of a lowered source under the given name.
pub open spec fn resolve(
    defs: Seq<Option<Op>>,
    env: Map<Seq<char>, Value>,
    last: Option<Value>,
    assigned: Option<Value>,
    name: Seq<char>,
) -> Option<Value> {
    if name.len() > 0 && env.contains_key(name) {
        Some(env[name])
    } else if last is Some {
        last
    } else if assigned is Some {
        assigned
    } else {
        highest_op(defs, defs.len() as u32)
    }
}

/// The output of a progress under the given name.
pub open spec fn output(p: Progress, last: Option<Value>, name: Seq<char>) -> Option<Value> {
    resolve(p.defs, p.env, last, p.assigned, name)
}

/// The explanation of a missing output.
pub open spec fn missing_detail(name: Seq<char>) -> Seq<char> {
    "variable `"@ + name
        + "` is unbound, no trailing expression statement, and the graph defines no operations"@
}

/// The error says that the output is missing on the given side.
pub open spec fn says_missing(e: ProofError, side: Seq<char>, name: Seq<char>) -> bool {
    match e {
        ProofError::MissingOutput { side: s, detail } => s@ == side && detail@ == missing_detail(
            name,
        ),
        _ => false,
    }
}

/// The report is on the given sources and verdict.
pub open spec fn reports(
    report: ProofReport,
    before_src: Seq<char>,
    after_src: Seq<char>,
    len: nat,
    verdict: Verdict,
) -> bool {
    &&& report.before_src@ == before_src
    &&& report.after_src@ == after_src
    &&& report.lowered_before_len == len
    &&& report.verdict == verdict
    &&& match verdict {
        Verdict::Equivalent { iterations, nodes } => report.iterations == iterations
            && report.nodes == nodes,
        Verdict::Unproven { .. } => report.iterations == 0 && report.nodes == 0,
    }
}

/// The output of a lowered source. `side` says which one it is.
pub fn extract_out(lowered: &Lowered, name: &str, side: &'static str) -> (res: Result<
    Value,
    ProofError,
>)
    ensures
        match resolve(lowered.ssa@, lowered.names(), lowered.last, lowered.assigned, name@) {
            Some(v) => res == Ok::<Value, ProofError>(v),
            None => res matches Err(e) && says_missing(e, side@, name@),
        },
{
    if name.unicode_len() > 0 {
        if let Some(v) = lowered.value_of(name) {
            return Ok(v);
        }
    }
    if let Some(last) = lowered.last {
        return Ok(last);
    }
    if let Some(assigned) = lowered.assigned {
        return Ok(assigned);
    }
    if let Some(last_def) = last_defined(&lowered.ssa) {
        return Ok(last_def);
    }
    let mut detail = String::new();
    detail.append("variable `");
    detail.append(name);
    detail.append(
        "` is unbound, no trailing expression statement, and the graph defines no operations",
    );
    assert(detail@ =~= missing_detail(name@));
    Err(ProofError::MissingOutput { side, detail })
}

/// The report on a finished check.
pub fn report_on(
    before_src: &str,
    after_src: &str,
    lowered_before_len: usize,
    verdict: Verdict,
) -> (res: ProofReport)
    ensures
        reports(res, before_src@, after_src@, lowered_before_len as nat, verdict),
{
    let (iterations, nodes): (usize, usize) = match &verdict {
        Verdict::Equivalent { iterations, nodes } => (*iterations, *nodes),
        Verdict::Unproven { .. } => (0, 0),
    };
    ProofReport {
        before_src: before_src.to_owned(),
        after_src: after_src.to_owned(),
        lowered_before_len,
        verdict,
        iterations,
        nodes,
    }
}

/// What holds of every verdict on two values of lowered sources: it settles
/// them in canonical form, the inputs of both being placed by their names in
/// one list.
pub open spec fn settles_sources(
    before: Progress,
    root_before: Value,
    after: Progress,
    root_after: Value,
    verdict: Verdict,
) -> bool {
    let order = joint(before.inputs, after.inputs);
    let slots_before = ranks(before.inputs, order);
    let slots_after = ranks(after.inputs, order);
    settles_values(
        canonical(before.defs, slots_before, order.len()),
        place(before.defs, slots_before, order.len(), root_before),
        canonical(after.defs, slots_after, order.len()),
        place(after.defs, slots_after, order.len(), root_after),
        verdict,
    )
}

/// What holds of every outcome of a proof: the first error in the order in
/// which the sources are lowered and their outputs resolved; otherwise a
/// report whose verdict settles the two outputs.
pub open spec fn proves(
    before_src: Seq<char>,
    after_src: Seq<char>,
    out_before: Seq<char>,
    out_after: Seq<char>,
    res: Result<ProofReport, ProofError>,
) -> bool {
    match (lower_source(before_src), lower_source(after_src)) {
        (Err(m), _) => res matches Err(ProofError::Lowering(e)) && e.message@ == m,
        (_, Err(m)) => res matches Err(ProofError::Lowering(e)) && e.message@ == m,
        (Ok((before, last_before)), Ok((after, last_after))) => {
            match (
                output(before, last_before, out_before),
                output(after, last_after, out_after),
            ) {
                (None, _) => res matches Err(e) && says_missing(e, "before"@, out_before),
                (Some(_), None) => res matches Err(e) && says_missing(e, "after"@, out_after),
                (Some(b), Some(a)) => res matches Ok(report) && reports(
                    report,
                    before_src,
                    after_src,
                    before.defs.len(),
                    report.verdict,
                ) && settles_sources(before, b, after, a, report.verdict),
            }
        },
    }
}

/// Prove, or fail to prove, that the second source computes the same output
/// as the first. A verdict that is unproven is a result, not an error.
pub fn prove_refactor(
    before_src: &str,
    after_src: &str,
    out_before: &str,
    out_after: &str,
) -> (res: Result<ProofReport, ProofError>)
    requires
        encode_utf8(before_src@).len() <= u32::MAX,
        encode_utf8(after_src@).len() <= u32::MAX,
    ensures
        proves(before_src@, after_src@, out_before@, out_after@, res),
{
    let before = match lower_module(before_src) {
        Ok(lowered) => lowered,
        Err(e) => return Err(ProofError::from(e)),
    };
    let after = match lower_module(after_src) {
        Ok(lowered) => lowered,
        Err(e) => return Err(ProofError::from(e)),
    };
    let root_before = match extract_out(&before, out_before, "before") {
        Ok(v) => v,
        Err(e) => return Err(e),
    };
    let root_after = match extract_out(&after, out_after, "after") {
        Ok(v) => v,
        Err(e) => return Err(e),
    };
    let order = joint_names(&before.inputs, &after.inputs);
    let slots_before = ranks_of(&before.inputs, &order);
    let slots_after = ranks_of(&after.inputs, &order);
    let (graph_before, at_before) = params_first(
        &before.ssa,
        root_before,
        &slots_before,
        order.len(),
    );
    let (graph_after, at_after) = params_first(&after.ssa, root_after, &slots_after, order.len());
    let verdict = EggEngine::new().verify_ssa_roots(
        &graph_before,
        at_before,
        &graph_after,
        at_after,
    );
    Ok(report_on(before_src, after_src, before.ssa.len(), verdict))
}

/// The number that a program computes for its output: what the name stands
/// for at the end if it occurs, otherwise the last bare expression, and
/// failing that what was assigned last.
pub open spec fn program_output(
    statements: Seq<Shape>,
    name: Seq<char>,
    inputs: spec_fn(Seq<char>) -> int,
) -> Option<int> {
    let store = run_statements(statements, inputs);
    if name.len() > 0 && occurs_in(statements, name) {
        Some(variables(store, inputs)(name))
    } else if store.last is Some {
        store.last
    } else {
        store.assigned
    }
}

/// A program has an output, whatever its name, exactly if it has a statement,
/// and the output lies in the graph.
pub proof fn law_programs_have_outputs(statements: Seq<Shape>, name: Seq<char>)
    requires
        lower_statements(statements) is Ok,
        lower_statements(statements)->Ok_0.0.defs.len() <= u32::MAX,
    ensures
        ({
            let (p, last) = lower_statements(statements)->Ok_0;
            &&& output(p, last, name) is Some <==> statements.len() > 0
            &&& output(p, last, name) matches Some(v) ==> v.0 < p.defs.len()
        }),
{
    let (p, last) = lower_statements(statements)->Ok_0;
    law_lowered_graphs_are_valid(statements);
    if last is None && p.assigned is None {
        lemma_no_output(statements);
    } else if statements.len() == 0 {
        assert(lower_statements(statements)->Ok_0.0 == Progress::start());
    }
}

/// The assignment of the parameters in which each stands for the input of its
/// name.
spec fn by_name(p: Progress, inputs: spec_fn(Seq<char>) -> int) -> spec_fn(u32) -> int {
    |i: u32| inputs(p.inputs[param_ordinal(p.defs, i as int) as int])
}

/// The value that the output of a lowered program is resolved to means the
/// number that the program computes.
proof fn lemma_output_value(
    statements: Seq<Shape>,
    name: Seq<char>,
    inputs: spec_fn(Seq<char>) -> int,
)
    requires
        statements.len() > 0,
        lower_statements(statements) is Ok,
        lower_statements(statements)->Ok_0.0.defs.len() <= u32::MAX,
    ensures
        ({
            let (p, last) = lower_statements(statements)->Ok_0;
            program_output(statements, name, inputs) == Some(
                meaning(p.defs, output(p, last, name)->Some_0, by_name(p, inputs)),
            )
        }),
{
    let (p, last) = lower_statements(statements)->Ok_0;
    law_names_with_a_value_occur(statements, name);
    law_frontend_preserves_meaning(statements, inputs, by_name(p, inputs));
    if last is None && p.assigned is None {
        lemma_no_output(statements);
    }
}

/// The graphs of two lowered sources fit side by side: no value in canonical
/// form is beyond the largest register.
pub open spec fn fit(before: Progress, after: Progress) -> bool {
    let count = joint(before.inputs, after.inputs).len();
    &&& before.defs.len() <= u32::MAX
    &&& after.defs.len() <= u32::MAX
    &&& count + before.defs.len() - param_count(before.defs) <= u32::MAX
    &&& count + after.defs.len() - param_count(after.defs) <= u32::MAX
}

/// Every input has its place in a list that holds all names.
proof fn lemma_seated(p: Progress, order: Seq<Seq<char>>)
    requires
        sound(p),
        p.defs.len() <= u32::MAX,
        order.len() + p.defs.len() - param_count(p.defs) <= u32::MAX,
        forall|k: int| 0 <= k < p.inputs.len() ==> order.contains(#[trigger] p.inputs[k]),
    ensures
        seated(p.defs, ranks(p.inputs, order), order.len()),
        forall|k: int|
            0 <= k < p.inputs.len() ==> order[(#[trigger] ranks(p.inputs, order)[k]) as int]
                == p.inputs[k],
{
    lemma_ordinal_bound(p.defs, p.defs.len() as int);
    assert forall|k: int| 0 <= k < p.inputs.len() implies {
        &&& (#[trigger] ranks(p.inputs, order)[k]) < order.len()
        &&& order[ranks(p.inputs, order)[k] as int] == p.inputs[k]
    } by {
        assert(order.contains(p.inputs[k]));
        lemma_rank(order, p.inputs[k]);
        assert(ranks(p.inputs, order)[k] == rank(order, p.inputs[k]) as u32);
    }
    assert forall|k: int| 0 <= k < ranks(p.inputs, order).len() implies #[trigger] ranks(
        p.inputs,
        order,
    )[k] < order.len() by {}
}

/// The output of a lowered program in canonical form means the number that
/// the program computes, the parameter at a place standing for the input of
/// the name at that place.
proof fn lemma_placed_output(
    statements: Seq<Shape>,
    name: Seq<char>,
    order: Seq<Seq<char>>,
    inputs: spec_fn(Seq<char>) -> int,
)
    requires
        statements.len() > 0,
        lower_statements(statements) is Ok,
        ({
            let p = lower_statements(statements)->Ok_0.0;
            &&& p.defs.len() <= u32::MAX
            &&& order.len() + p.defs.len() - param_count(p.defs) <= u32::MAX
            &&& forall|k: int|
                0 <= k < p.inputs.len() ==> order.contains(#[trigger] p.inputs[k])
        }),
    ensures
        ({
            let (p, last) = lower_statements(statements)->Ok_0;
            let slots = ranks(p.inputs, order);
            let graph = canonical(p.defs, slots, order.len());
            let root = place(p.defs, slots, order.len(), output(p, last, name)->Some_0);
            &&& valid(graph)
            &&& root.0 < graph.len()
            &&& program_output(statements, name, inputs) == Some(
                meaning(graph, root, |k: u32| inputs(order[k as int])),
            )
        }),
{
    let (p, last) = lower_statements(statements)->Ok_0;
    let slots = ranks(p.inputs, order);
    let ordered = |k: u32| inputs(order[k as int]);
    let env = by_name(p, inputs);
    let out = output(p, last, name)->Some_0;
    law_lowered_graphs_are_valid(statements);
    law_programs_have_outputs(statements, name);
    lemma_output_value(statements, name, inputs);
    lemma_seated(p, order);
    law_canonical_form_keeps_graphs_valid(p.defs, slots, order.len());
    assert forall|i: u32| i < p.defs.len() && p.defs[i as int] is None implies #[trigger] env(i)
        == ordered(slots[param_ordinal(p.defs, i as int) as int]) by {
        lemma_ordinal_bound(p.defs, i as int);
        let k = param_ordinal(p.defs, i as int) as int;
        assert(order[slots[k] as int] == p.inputs[k]);
    }
    law_canonical_form_preserves_meaning(p.defs, slots, order.len(), out, env, ordered);
}

/// A proved refactoring computes the same output, in unbounded integers,
/// whatever the inputs are: both programs are given the same numbers under
/// the same names.
pub proof fn law_proved_refactors_compute_the_same(
    before: Seq<Shape>,
    after: Seq<Shape>,
    out_before: Seq<char>,
    out_after: Seq<char>,
    verdict: Verdict,
    inputs: spec_fn(Seq<char>) -> int,
)
    requires
        lower_statements(before) is Ok,
        lower_statements(after) is Ok,
        ({
            let (b, last_before) = lower_statements(before)->Ok_0;
            let (a, last_after) = lower_statements(after)->Ok_0;
            &&& fit(b, a)
            &&& output(b, last_before, out_before) is Some
            &&& output(a, last_after, out_after) is Some
            &&& settles_sources(
                b,
                output(b, last_before, out_before)->Some_0,
                a,
                output(a, last_after, out_after)->Some_0,
                verdict,
            )
        }),
        verdict is Equivalent,
    ensures
        program_output(before, out_before, inputs) is Some,
        program_output(before, out_before, inputs) == program_output(after, out_after, inputs),
{
    let (b, last_before) = lower_statements(before)->Ok_0;
    let (a, last_after) = lower_statements(after)->Ok_0;
    let order = joint(b.inputs, a.inputs);
    let ordered = |k: u32| inputs(order[k as int]);
    law_programs_have_outputs(before, out_before);
    law_programs_have_outputs(after, out_after);
    lemma_joint(b.inputs, a.inputs);
    lemma_placed_output(before, out_before, order, inputs);
    lemma_placed_output(after, out_after, order, inputs);
    let slots_before = ranks(b.inputs, order);
    let slots_after = ranks(a.inputs, order);
    law_equivalent_values_mean_the_same(
        canonical(b.defs, slots_before, order.len()),
        place(b.defs, slots_before, order.len(), output(b, last_before, out_before)->Some_0),
        canonical(a.defs, slots_after, order.len()),
        place(a.defs, slots_after, order.len(), output(a, last_after, out_after)->Some_0),
        verdict,
        ordered,
    );
}

/// The statements of a source that parses.
pub open spec fn statements_of(source: Seq<char>) -> Seq<Shape> {
    module_parse(source)->Ok_0->Some_0.statements
}

/// A green report is right: both sources compute the same output, in
/// unbounded integers, whatever the inputs are.
pub proof fn law_green_reports_are_right(
    before_src: Seq<char>,
    after_src: Seq<char>,
    out_before: Seq<char>,
    out_after: Seq<char>,
    res: Result<ProofReport, ProofError>,
    inputs: spec_fn(Seq<char>) -> int,
)
    requires
        proves(before_src, after_src, out_before, out_after, res),
        res matches Ok(report) && report.verdict is Equivalent,
        fit(lower_source(before_src)->Ok_0.0, lower_source(after_src)->Ok_0.0),
    ensures
        program_output(statements_of(before_src), out_before, inputs) is Some,
        program_output(statements_of(before_src), out_before, inputs) == program_output(
            statements_of(after_src),
            out_after,
            inputs,
        ),
{
    law_proved_refactors_compute_the_same(
        statements_of(before_src),
        statements_of(after_src),
        out_before,
        out_after,
        res->Ok_0.verdict,
        inputs,
    );
}

/// A program is always proved equivalent to itself, under the same output.
pub proof fn law_programs_refactor_to_themselves(
    source: Seq<char>,
    out: Seq<char>,
    res: Result<ProofReport, ProofError>,
)
    requires
        proves(source, source, out, out, res),
        res is Ok,
        lower_source(source)->Ok_0.0.defs.len() <= u32::MAX,
    ensures
        res->Ok_0.verdict is Equivalent,
{
    let statements = statements_of(source);
    let (p, last) = lower_source(source)->Ok_0;
    let order = joint(p.inputs, p.inputs);
    law_lowered_graphs_are_valid(statements);
    law_programs_have_outputs(statements, out);
    lemma_joint_absorbs(p.inputs, p.inputs);
    lemma_ordinal_bound(p.defs, p.defs.len() as int);
    lemma_placed_output(statements, out, order, |n: Seq<char>| 0);
    let slots = ranks(p.inputs, order);
    law_values_equal_themselves(
        canonical(p.defs, slots, order.len()),
        place(p.defs, slots, order.len(), output(p, last, out)->Some_0),
        res->Ok_0.verdict,
    );
}

/// Two lists of arguments give the same number to inputs of the same name.
pub open spec fn arguments_match(
    before: Progress,
    params_before: Seq<i64>,
    after: Progress,
    params_after: Seq<i64>,
) -> bool {
    forall|i: u32, j: u32|
        #![trigger before.inputs[i as int], after.inputs[j as int]]
        i < before.inputs.len() && j < after.inputs.len() && before.inputs[i as int]
            == after.inputs[j as int] ==> in_order(params_before)(i) == in_order(params_after)(j)
}

/// The argument of the input with the given name.
spec fn argument_named(p: Progress, params: Seq<i64>, name: Seq<char>) -> Option<int> {
    if exists|i: u32| i < p.inputs.len() && #[trigger] p.inputs[i as int] == name {
        let i = choose|i: u32| i < p.inputs.len() && #[trigger] p.inputs[i as int] == name;
        Some(in_order(params)(i))
    } else {
        None
    }
}

/// The graphs behind a green report compute the same: if both outputs
/// evaluate, on arguments that match by the names of the inputs, they
/// evaluate to the same number.
pub proof fn law_green_graphs_evaluate_alike(
    before_src: Seq<char>,
    after_src: Seq<char>,
    out_before: Seq<char>,
    out_after: Seq<char>,
    res: Result<ProofReport, ProofError>,
    params_before: Seq<i64>,
    params_after: Seq<i64>,
    x: i64,
    y: i64,
)
    requires
        proves(before_src, after_src, out_before, out_after, res),
        res matches Ok(report) && report.verdict is Equivalent,
        ({
            let (b, last_before) = lower_source(before_src)->Ok_0;
            let (a, last_after) = lower_source(after_src)->Ok_0;
            &&& fit(b, a)
            &&& arguments_match(b, params_before, a, params_after)
            &&& evaluates_to(
                b.defs,
                output(b, last_before, out_before)->Some_0,
                params_before,
                Ok(x),
            )
            &&& evaluates_to(
                a.defs,
                output(a, last_after, out_after)->Some_0,
                params_after,
                Ok(y),
            )
        }),
    ensures
        x == y,
{
    let (b, last_before) = lower_source(before_src)->Ok_0;
    let (a, last_after) = lower_source(after_src)->Ok_0;
    let root_before = output(b, last_before, out_before)->Some_0;
    let root_after = output(a, last_after, out_after)->Some_0;
    let order = joint(b.inputs, a.inputs);
    let slots_before = ranks(b.inputs, order);
    let slots_after = ranks(a.inputs, order);
    let ordered = |k: u32|
        match argument_named(b, params_before, order[k as int]) {
            Some(n) => n,
            None => match argument_named(a, params_after, order[k as int]) {
                Some(n) => n,
                None => 0,
            },
        };
    law_programs_have_outputs(statements_of(before_src), out_before);
    law_programs_have_outputs(statements_of(after_src), out_after);
    law_lowered_graphs_are_valid(statements_of(before_src));
    law_lowered_graphs_are_valid(statements_of(after_src));
    lemma_joint(b.inputs, a.inputs);
    lemma_seated(b, order);
    lemma_seated(a, order);
    lemma_ordinal_bound(b.defs, b.defs.len() as int);
    lemma_ordinal_bound(a.defs, a.defs.len() as int);
    assert forall|k: u32| k < slots_before.len() implies ordered(
        #[trigger] slots_before[k as int],
    ) == in_order(params_before)(k) by {
        let name = b.inputs[k as int];
        assert(order[slots_before[k as int] as int] == name);
        let i = choose|i: u32| i < b.inputs.len() && #[trigger] b.inputs[i as int] == name;
        assert(i == k);
    }
    assert forall|k: u32| k < slots_after.len() implies ordered(#[trigger] slots_after[k as int])
        == in_order(params_after)(k) by {
        let name = a.inputs[k as int];
        assert(order[slots_after[k as int] as int] == name);
        if argument_named(b, params_before, name) is Some {
            let i = choose|i: u32| i < b.inputs.len() && #[trigger] b.inputs[i as int] == name;
            assert(in_order(params_before)(i) == in_order(params_after)(k));
        } else {
            let j = choose|j: u32| j < a.inputs.len() && #[trigger] a.inputs[j as int] == name;
            assert(j == k);
        }
    }
    law_canonical_form_keeps_graphs_valid(b.defs, slots_before, order.len());
    law_canonical_form_keeps_graphs_valid(a.defs, slots_after, order.len());
    law_canonical_form_evaluates_alike(
        b.defs,
        slots_before,
        order.len(),
        root_before,
        params_before,
        ordered,
        x,
    );
    law_canonical_form_evaluates_alike(
        a.defs,
        slots_after,
        order.len(),
        root_after,
        params_after,
        ordered,
        y,
    );
    law_equivalent_values_mean_the_same(
        canonical(b.defs, slots_before, order.len()),
        place(b.defs, slots_before, order.len(), root_before),
        canonical(a.defs, slots_after, order.len()),
        place(a.defs, slots_after, order.len(), root_after),
        res->Ok_0.verdict,
        ordered,
    );
}

/// The outcome is a lowering error exactly if a source does not lower. The
/// error of the first source wins, and that of the second one wins over a
/// missing output.
pub proof fn law_lowering_errors_come_first(
    before_src: Seq<char>,
    after_src: Seq<char>,
    out_before: Seq<char>,
    out_after: Seq<char>,
    res: Result<ProofReport, ProofError>,
)
    requires
        proves(before_src, after_src, out_before, out_after, res),
    ensures
        res matches Err(ProofError::Lowering(_)) <==> lower_source(before_src) is Err
            || lower_source(after_src) is Err,
        lower_source(before_src) matches Err(m) ==> (res matches Err(ProofError::Lowering(e))
            && e.message@ == m),
        lower_source(before_src) is Ok ==> (lower_source(after_src) matches Err(m) ==> (
        res matches Err(ProofError::Lowering(e)) && e.message@ == m)),
{
}

/// A report mirrors what went in, the graph of the first source and the
/// verdict.
pub proof fn law_reports_mirror_the_proof(
    before_src: Seq<char>,
    after_src: Seq<char>,
    out_before: Seq<char>,
    out_after: Seq<char>,
    report: ProofReport,
)
    requires
        proves(before_src, after_src, out_before, out_after, Ok(report)),
    ensures
        report.before_src@ == before_src,
        report.after_src@ == after_src,
        lower_source(before_src) is Ok,
        report.lowered_before_len == lower_source(before_src)->Ok_0.0.defs.len(),
        match report.verdict {
            Verdict::Equivalent { iterations, nodes } => report.iterations == iterations
                && report.nodes == nodes,
            Verdict::Unproven { .. } => report.iterations == 0 && report.nodes == 0,
        },
{
}

/// Two values of lowered sources are the same tree of operations over inputs
/// of the same names.
pub open spec fn same_tree(b: Progress, v: Value, a: Progress, w: Value) -> bool
    decreases v.0,
{
    &&& v.0 < b.defs.len()
    &&& w.0 < a.defs.len()
    &&& match (b.defs[v.0 as int], a.defs[w.0 as int]) {
        (None, None) => b.inputs[param_ordinal(b.defs, v.0 as int) as int]
            == a.inputs[param_ordinal(a.defs, w.0 as int) as int],
        (Some(Op::Const(c)), Some(Op::Const(d))) => c == d,
        (Some(Op::Add(x, y)), Some(Op::Add(s, t))) => {
            &&& x.0 < v.0 && y.0 < v.0
            &&& same_tree(b, x, a, s)
            &&& same_tree(b, y, a, t)
        },
        (Some(Op::Mul(x, y)), Some(Op::Mul(s, t))) => {
            &&& x.0 < v.0 && y.0 < v.0
            &&& same_tree(b, x, a, s)
            &&& same_tree(b, y, a, t)
        },
        (Some(Op::Neg(x)), Some(Op::Neg(s))) => {
            &&& x.0 < v.0
            &&& same_tree(b, x, a, s)
        },
        _ => false,
    }
}

/// Equal trees have the same form where the inputs are placed by name.
proof fn lemma_same_tree_form(
    b: Progress,
    v: Value,
    a: Progress,
    w: Value,
    order: Seq<Seq<char>>,
)
    requires
        sound(b),
        sound(a),
        same_tree(b, v, a, w),
    ensures
        same_form(b.defs, ranks(b.inputs, order), v, a.defs, ranks(a.inputs, order), w),
    decreases v.0,
{
    lemma_ordinal_bound(b.defs, v.0 as int);
    lemma_ordinal_bound(a.defs, w.0 as int);
    match (b.defs[v.0 as int], a.defs[w.0 as int]) {
        (Some(Op::Add(x, y)), Some(Op::Add(s, t))) => {
            lemma_same_tree_form(b, x, a, s, order);
            lemma_same_tree_form(b, y, a, t, order);
        },
        (Some(Op::Mul(x, y)), Some(Op::Mul(s, t))) => {
            lemma_same_tree_form(b, x, a, s, order);
            lemma_same_tree_form(b, y, a, t, order);
        },
        (Some(Op::Neg(x)), Some(Op::Neg(s))) => {
            lemma_same_tree_form(b, x, a, s, order);
        },
        _ => {},
    }
}

/// Sources that compute their outputs by the same tree of operations over the
/// same inputs are proved equivalent, whatever else their graphs hold and
/// however often a part of the tree is shared: naming a part or writing it
/// out again makes no difference.
pub proof fn law_same_trees_are_proved(
    before_src: Seq<char>,
    after_src: Seq<char>,
    out_before: Seq<char>,
    out_after: Seq<char>,
    res: Result<ProofReport, ProofError>,
)
    requires
        proves(before_src, after_src, out_before, out_after, res),
        lower_source(before_src) is Ok,
        lower_source(after_src) is Ok,
        ({
            let (b, last_before) = lower_source(before_src)->Ok_0;
            let (a, last_after) = lower_source(after_src)->Ok_0;
            &&& fit(b, a)
            &&& output(b, last_before, out_before) is Some
            &&& output(a, last_after, out_after) is Some
            &&& same_tree(
                b,
                output(b, last_before, out_before)->Some_0,
                a,
                output(a, last_after, out_after)->Some_0,
            )
        }),
    ensures
        res is Ok,
        res->Ok_0.verdict is Equivalent,
{
    let (b, last_before) = lower_source(before_src)->Ok_0;
    let (a, last_after) = lower_source(after_src)->Ok_0;
    let root_before = output(b, last_before, out_before)->Some_0;
    let root_after = output(a, last_after, out_after)->Some_0;
    let order = joint(b.inputs, a.inputs);
    let slots_before = ranks(b.inputs, order);
    let slots_after = ranks(a.inputs, order);
    law_lowered_graphs_are_valid(statements_of(before_src));
    law_lowered_graphs_are_valid(statements_of(after_src));
    lemma_joint(b.inputs, a.inputs);
    lemma_seated(b, order);
    lemma_seated(a, order);
    lemma_same_tree_form(b, root_before, a, root_after, order);
    law_same_forms_have_one_term(
        b.defs,
        slots_before,
        root_before,
        a.defs,
        slots_after,
        root_after,
        order.len(),
    );
    law_canonical_form_keeps_graphs_valid(b.defs, slots_before, order.len());
    law_canonical_form_keeps_graphs_valid(a.defs, slots_after, order.len());
    law_equal_terms_are_equivalent(
        canonical(b.defs, slots_before, order.len()),
        place(b.defs, slots_before, order.len(), root_before),
        canonical(a.defs, slots_after, order.len()),
        place(a.defs, slots_after, order.len(), root_after),
        res->Ok_0.verdict,
    );
}

/// The term of an output, the inputs being placed by their names in a list.
pub open spec fn output_term(
    p: Progress,
    last: Option<Value>,
    name: Seq<char>,
    order: Seq<Seq<char>>,
) -> Term {
    let slots = ranks(p.inputs, order);
    term_of(
        canonical(p.defs, slots, order.len()),
        place(p.defs, slots, order.len(), output(p, last, name)->Some_0),
    )
}

/// The verdict of every report is told by a run on the terms of the two
/// outputs, started from the first one, under the rules for graphs and within
/// the mandated bounds. No pair of sources is left out.
pub proof fn law_reports_come_from_runs(
    before_src: Seq<char>,
    after_src: Seq<char>,
    out_before: Seq<char>,
    out_after: Seq<char>,
    report: ProofReport,
)
    requires
        proves(before_src, after_src, out_before, out_after, Ok(report)),
        fit(lower_source(before_src)->Ok_0.0, lower_source(after_src)->Ok_0.0),
    ensures
        ({
            let (b, last_before) = lower_source(before_src)->Ok_0;
            let (a, last_after) = lower_source(after_src)->Ok_0;
            let order = joint(b.inputs, a.inputs);
            exists|run: Outcome| #[trigger]
                run_shows(
                    output_term(b, last_before, out_before, order),
                    output_term(a, last_after, out_after, order),
                    ssa_math_rule_list() + boolean_rule_list(),
                    Bounds::mandated(),
                    run,
                ) && told_by(run, report.verdict)
        }),
{
    let (b, last_before) = lower_source(before_src)->Ok_0;
    let (a, last_after) = lower_source(after_src)->Ok_0;
    let order = joint(b.inputs, a.inputs);
    let slots_before = ranks(b.inputs, order);
    let slots_after = ranks(a.inputs, order);
    let zero = |n: Seq<char>| 0int;
    law_programs_have_outputs(statements_of(before_src), out_before);
    law_programs_have_outputs(statements_of(after_src), out_after);
    lemma_joint(b.inputs, a.inputs);
    lemma_placed_output(statements_of(before_src), out_before, order, zero);
    lemma_placed_output(statements_of(after_src), out_after, order, zero);
    law_verdicts_on_values_come_from_runs(
        canonical(b.defs, slots_before, order.len()),
        place(b.defs, slots_before, order.len(), output(b, last_before, out_before)->Some_0),
        canonical(a.defs, slots_after, order.len()),
        place(a.defs, slots_after, order.len(), output(a, last_after, out_after)->Some_0),
        report.verdict,
    );
    let first = output_term(b, last_before, out_before, order);
    let second = output_term(a, last_after, out_after, order);
    let rules = ssa_math_rule_list() + boolean_rule_list();
    let run = choose|run: Outcome| #[trigger]
        run_shows(first, second, rules, Bounds::mandated(), run) && told_by(run, report.verdict);
    assert(run_shows(first, second, rules, Bounds::mandated(), run));
}

/// A name that is bound is the output, unless it is empty. For any other name
/// the output is the last bare expression, and where there is none, the value
/// of the last assignment.
pub proof fn law_outputs_are_resolved_in_order(p: Progress, last: Option<Value>, name: Seq<char>)
    ensures
        name.len() >= 1 && p.env.contains_key(name) ==> output(p, last, name) == Some(p.env[name]),
        (name.len() == 0 || !p.env.contains_key(name)) && last is Some ==> output(p, last, name)
            == last,
        (name.len() == 0 || !p.env.contains_key(name)) && last is None && p.assigned is Some
            ==> output(p, last, name) == p.assigned,
        (name.len() == 0 || !p.env.contains_key(name)) && last is None && p.assigned is None
            ==> output(p, last, name) == highest_op(p.defs, p.defs.len() as u32),
{
}

/// An error is one line: the complaint of the frontend behind its name, or
/// the side without an output and what was looked for.
pub proof fn law_errors_are_told_in_one_line(e: LoweringError, side: &'static str, detail: String)
    ensures
        ProofError::Lowering(e).line() == "python frontend: "@ + e.message@,
        (ProofError::MissingOutput { side, detail }).line() == "no output value for `"@ + side@
            + "` source: "@ + detail@,
{
}

/// A proof that was not attempted for want of an output says on which side it
/// is missing, the first one first, and which name was looked for.
pub proof fn law_missing_outputs_are_named(
    before_src: Seq<char>,
    after_src: Seq<char>,
    out_before: Seq<char>,
    out_after: Seq<char>,
    res: Result<ProofReport, ProofError>,
)
    requires
        proves(before_src, after_src, out_before, out_after, res),
        lower_source(before_src) is Ok,
        lower_source(after_src) is Ok,
    ensures
        ({
            let (b, last_before) = lower_source(before_src)->Ok_0;
            let (a, last_after) = lower_source(after_src)->Ok_0;
            let missing = output(b, last_before, out_before) is None;
            let (side, name) = if missing {
                ("before"@, out_before)
            } else {
                ("after"@, out_after)
            };
            &&& res is Err <==> missing || output(a, last_after, out_after) is None
            &&& res matches Err(e) ==> {
                &&& e is MissingOutput
                &&& e->side@ == side
                &&& e->detail@ == "variable `"@ + name
                    + "` is unbound, no trailing expression statement, and the graph defines no operations"@
            }
        }),
{
}

/// What a proof of a refactoring is for. A report mirrors what went in, the
/// graph of the first source and the verdict. If the verdict is an
/// equivalence, both sources compute the same output for all inputs. Outputs
/// that are the same tree of operations over the same inputs are equivalent,
/// and every other verdict comes from a run on the two outputs.
pub proof fn law_refactors_are_proved(
    before_src: &str,
    after_src: &str,
    out_before: &str,
    out_after: &str,
    res: Result<ProofReport, ProofError>,
    inputs: spec_fn(Seq<char>) -> int,
)
    requires
        call_ensures(prove_refactor, (before_src, after_src, out_before, out_after), res),
        lower_source(before_src@) is Ok,
        lower_source(after_src@) is Ok,
        fit(lower_source(before_src@)->Ok_0.0, lower_source(after_src@)->Ok_0.0),
        output(
            lower_source(before_src@)->Ok_0.0,
            lower_source(before_src@)->Ok_0.1,
            out_before@,
        ) is Some,
        output(
            lower_source(after_src@)->Ok_0.0,
            lower_source(after_src@)->Ok_0.1,
            out_after@,
        ) is Some,
    ensures
        ({
            let (b, last_before) = lower_source(before_src@)->Ok_0;
            let (a, last_after) = lower_source(after_src@)->Ok_0;
            let root_before = output(b, last_before, out_before@)->Some_0;
            let root_after = output(a, last_after, out_after@)->Some_0;
            let order = joint(b.inputs, a.inputs);
            &&& res is Ok
            &&& res->Ok_0.before_src@ == before_src@
            &&& res->Ok_0.after_src@ == after_src@
            &&& res->Ok_0.lowered_before_len == b.defs.len()
            &&& res->Ok_0.verdict matches Verdict::Equivalent { iterations, nodes }
                ==> res->Ok_0.iterations == iterations && res->Ok_0.nodes == nodes
            &&& res->Ok_0.verdict is Unproven ==> res->Ok_0.iterations == 0 && res->Ok_0.nodes == 0
            &&& res->Ok_0.verdict is Equivalent ==> program_output(
                statements_of(before_src@),
                out_before@,
                inputs,
            ) == program_output(statements_of(after_src@), out_after@, inputs)
            &&& same_tree(b, root_before, a, root_after) ==> res->Ok_0.verdict is Equivalent
            &&& exists|run: Outcome| #[trigger]
                run_shows(
                    output_term(b, last_before, out_before@, order),
                    output_term(a, last_after, out_after@, order),
                    ssa_math_rule_list() + boolean_rule_list(),
                    Bounds::mandated(),
                    run,
                ) && told_by(run, res->Ok_0.verdict)
        }),
{
    let (b, last_before) = lower_source(before_src@)->Ok_0;
    let (a, last_after) = lower_source(after_src@)->Ok_0;
    let root_before = output(b, last_before, out_before@)->Some_0;
    let root_after = output(a, last_after, out_after@)->Some_0;
    let report = res->Ok_0;
    law_reports_come_from_runs(before_src@, after_src@, out_before@, out_after@, report);
    if report.verdict is Equivalent {
        law_green_reports_are_right(
            before_src@,
            after_src@,
            out_before@,
            out_after@,
            res,
            inputs,
        );
    }
    if same_tree(b, root_before, a, root_after) {
        law_same_trees_are_proved(before_src@, after_src@, out_before@, out_after@, res);
    }
}

/// A proof that fails says why: the first source that does not lower, and
/// where both do, the first side without an output.
pub proof fn law_failed_proofs_say_why(
    before_src: &str,
    after_src: &str,
    out_before: &str,
    out_after: &str,
    res: Result<ProofReport, ProofError>,
)
    requires
        call_ensures(prove_refactor, (before_src, after_src, out_before, out_after), res),
    ensures
        lower_source(before_src@) matches Err(m) ==> (res matches Err(ProofError::Lowering(e))
            && e.message@ == m),
        lower_source(before_src@) is Ok ==> (lower_source(after_src@) matches Err(m) ==> (
        res matches Err(ProofError::Lowering(e)) && e.message@ == m)),
        lower_source(before_src@) is Ok && lower_source(after_src@) is Ok ==> ({
            let (b, last_before) = lower_source(before_src@)->Ok_0;
            let (a, last_after) = lower_source(after_src@)->Ok_0;
            &&& output(b, last_before, out_before@) is None ==> (
            res matches Err(ProofError::MissingOutput { side, .. }) && side@ == "before"@)
            &&& output(b, last_before, out_before@) is Some && output(a, last_after, out_after@)
                is None ==> (res matches Err(ProofError::MissingOutput { side, .. }) && side@
                == "after"@)
        }),
{
}

/// The output of a lowered source is what its name is bound to; failing that,
/// the last bare expression, and failing that, the value of the last
/// assignment. An error names the side.
pub proof fn law_outputs_are_found(
    lowered: &Lowered,
    name: &str,
    side: &'static str,
    res: Result<Value, ProofError>,
)
    requires
        call_ensures(extract_out, (lowered, name, side), res),
    ensures
        ({
            let bound = name@.len() >= 1 && lowered.env@.contains_key(name@);
            &&& bound ==> res == Ok::<Value, ProofError>(lowered.env@[name@])
            &&& !bound ==> (lowered.last matches Some(v) ==> res == Ok::<Value, ProofError>(v))
            &&& !bound && lowered.last is None ==> (lowered.assigned matches Some(v) ==> res == Ok::<
                Value,
                ProofError,
            >(v))
            &&& res matches Err(e) ==> e is MissingOutput && e->side@ == side@
        }),
{
}

} // verus!
