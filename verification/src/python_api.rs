//! What the Python extension hands out: dictionaries and lines of text.
//!
//! A dictionary is a list of keys with plain entries, which the extension
//! turns into objects.

use crate::e2e_proof::{
    fit, law_green_reports_are_right, law_reports_mirror_the_proof, program_output, prove_refactor,
    proves, statements_of, ProofError, ProofReport,
};
use crate::engine::{settles, settles_spellings, settles_texts, EggEngine, Verdict};
use crate::frontend_python::{lower_module, lower_source};
use crate::limits::RunnerLimits;
use crate::rules::{boolean_rule_list, integers, law_rules_are_identities, math_rule_list};
use crate::terms::{plain_term, term_text, value, Term};
use crate::text::{decimal, push_decimal};
use crate::time::duration_nanos;
use vstd::prelude::*;
use vstd::utf8::*;

verus! {

/// A value in a dictionary.
#[derive(Debug, Clone, PartialEq, Eq)]
pub enum Entry {
    Text(String),
    Count(usize),
    Nothing,
}

/// What an [`Entry`] holds.
pub ghost enum EntryContents {
    Text(Seq<char>),
    Count(nat),
    Nothing,
}

impl View for Entry {
    type V = EntryContents;

    open spec fn view(&self) -> EntryContents {
        match self {
            Entry::Text(t) => EntryContents::Text(t@),
            Entry::Count(n) => EntryContents::Count(*n as nat),
            Entry::Nothing => EntryContents::Nothing,
        }
    }
}

/// What a dictionary holds.
pub open spec fn contents(dict: Seq<(&'static str, Entry)>) -> Seq<(Seq<char>, EntryContents)> {
    Seq::new(dict.len(), |i: int| (dict[i].0@, dict[i].1@))
}

/// The dictionary of a verdict.
pub open spec fn verdict_contents(verdict: Verdict) -> Seq<(Seq<char>, EntryContents)> {
    match verdict {
        Verdict::Equivalent { iterations, nodes } => seq![
            ("verdict"@, EntryContents::Text("equivalent"@)),
            ("iterations"@, EntryContents::Count(iterations as nat)),
            ("nodes"@, EntryContents::Count(nodes as nat)),
        ],
        Verdict::Unproven { reason } => seq![
            ("verdict"@, EntryContents::Text("unproven"@)),
            ("reason"@, EntryContents::Text(reason@)),
        ],
    }
}

/// The dictionary of a report: an unproven verdict leaves the metrics empty.
pub open spec fn report_contents(report: ProofReport, lowered_after_len: nat) -> Seq<
    (Seq<char>, EntryContents),
> {
    let (verdict, iterations, nodes) = match report.verdict {
        Verdict::Equivalent { iterations, nodes } => (
            "equivalent"@,
            EntryContents::Count(iterations as nat),
            EntryContents::Count(nodes as nat),
        ),
        Verdict::Unproven { .. } => (
            "unproven"@,
            EntryContents::Nothing,
            EntryContents::Nothing,
        ),
    };
    seq![
        ("verdict"@, EntryContents::Text(verdict)),
        ("iterations"@, iterations),
        ("nodes"@, nodes),
        ("lowered_before_len"@, EntryContents::Count(report.lowered_before_len as nat)),
        ("lowered_after_len"@, EntryContents::Count(lowered_after_len)),
    ]
}

/// The dictionary of a verdict.
pub fn verdict_entries(verdict: &Verdict) -> (res: Vec<(&'static str, Entry)>)
    ensures
        contents(res@) == verdict_contents(*verdict),
{
    let mut dict: Vec<(&'static str, Entry)> = Vec::new();
    match verdict {
        Verdict::Equivalent { iterations, nodes } => {
            dict.push(("verdict", Entry::Text("equivalent".to_owned())));
            dict.push(("iterations", Entry::Count(*iterations)));
            dict.push(("nodes", Entry::Count(*nodes)));
        },
        Verdict::Unproven { reason } => {
            dict.push(("verdict", Entry::Text("unproven".to_owned())));
            dict.push(("reason", Entry::Text(reason.clone())));
        },
    }
    assert(contents(dict@) =~= verdict_contents(*verdict));
    dict
}

/// The dictionary of a report.
pub fn report_entries(report: &ProofReport, lowered_after_len: usize) -> (res: Vec<
    (&'static str, Entry),
>)
    ensures
        contents(res@) == report_contents(*report, lowered_after_len as nat),
{
    let mut dict: Vec<(&'static str, Entry)> = Vec::new();
    match &report.verdict {
        Verdict::Equivalent { iterations, nodes } => {
            dict.push(("verdict", Entry::Text("equivalent".to_owned())));
            dict.push(("iterations", Entry::Count(*iterations)));
            dict.push(("nodes", Entry::Count(*nodes)));
        },
        Verdict::Unproven { .. } => {
            dict.push(("verdict", Entry::Text("unproven".to_owned())));
            dict.push(("iterations", Entry::Nothing));
            dict.push(("nodes", Entry::Nothing));
        },
    }
    dict.push(("lowered_before_len", Entry::Count(report.lowered_before_len)));
    dict.push(("lowered_after_len", Entry::Count(lowered_after_len)));
    assert(contents(dict@) =~= report_contents(*report, lowered_after_len as nat));
    dict
}

/// Check two s-expressions and make the dictionary of the verdict.
pub fn verify_entries(engine: &EggEngine, before: &str, after: &str) -> (res: Vec<
    (&'static str, Entry),
>)
    ensures
        exists|verdict: Verdict| #[trigger]
            settles_texts(before@, after@, verdict) && settles_spellings(before@, after@, verdict)
                && contents(res@) == verdict_contents(verdict),
{
    let verdict = engine.verify(before, after);
    verdict_entries(&verdict)
}

/// Prove a refactoring whose outputs are resolved without names, and make the
/// dictionary of the report; an error is turned into its line of text.
pub fn prove_refactor_entries(before_src: &str, after_src: &str) -> (res: Result<
    Vec<(&'static str, Entry)>,
    String,
>)
    requires
        encode_utf8(before_src@).len() <= u32::MAX,
        encode_utf8(after_src@).len() <= u32::MAX,
    ensures
        match res {
            Ok(dict) => exists|report: ProofReport| #[trigger]
                proves(before_src@, after_src@, ""@, ""@, Ok(report)) && contents(dict@)
                    == report_contents(report, lower_source(after_src@)->Ok_0.0.defs.len()),
            Err(line) => exists|e: ProofError| #[trigger]
                proves(before_src@, after_src@, ""@, ""@, Err(e)) && line@ == e.line(),
        },
{
    let report = match prove_refactor(before_src, after_src, "", "") {
        Ok(report) => report,
        Err(e) => return Err(e.to_string()),
    };
    let lowered_after_len: usize = match lower_module(after_src) {
        Ok(lowered) => lowered.ssa.len(),
        Err(_) => 0,
    };
    Ok(report_entries(&report, lowered_after_len))
}

/// A line that states one bound.
pub open spec fn bound_line(name: Seq<char>, n: nat, unit: Seq<char>, setter: Seq<char>) -> Seq<
    char,
> {
    name + " = "@ + decimal(n) + unit + " ("@ + setter + ")"@
}

/// The lines that state the five bounds.
pub open spec fn limit_lines(limits: RunnerLimits) -> Seq<Seq<char>> {
    seq![
        bound_line(
            "iteration_limit"@,
            limits.iteration_limit as nat,
            Seq::empty(),
            "egg Runner::with_iter_limit"@,
        ),
        bound_line(
            "time_limit"@,
            duration_nanos(limits.time_limit) / 1_000_000_000,
            "s"@,
            "egg Runner::with_time_limit"@,
        ),
        bound_line(
            "node_limit"@,
            limits.node_limit as nat,
            Seq::empty(),
            "egg Runner::with_node_limit"@,
        ),
        bound_line(
            "backoff_match_limit"@,
            limits.backoff_match_limit as nat,
            Seq::empty(),
            "BackoffScheduler::with_initial_match_limit"@,
        ),
        bound_line(
            "backoff_ban_length"@,
            limits.backoff_ban_length as nat,
            Seq::empty(),
            "BackoffScheduler::with_ban_length"@,
        ),
    ]
}

/// A line that states one bound.
fn bound(name: &str, n: u64, unit: &str, setter: &str) -> (res: String)
    ensures
        res@ == bound_line(name@, n as nat, unit@, setter@),
{
    let mut out = String::new();
    out.append(name);
    out.append(" = ");
    push_decimal(&mut out, n as u128);
    out.append(unit);
    out.append(" (");
    out.append(setter);
    out.append(")");
    assert(out@ =~= bound_line(name@, n as nat, unit@, setter@));
    out
}

/// The five bounds, one line each.
pub fn law_limits(limits: &RunnerLimits) -> (res: Vec<String>)
    ensures
        res@.len() == 5,
        forall|i: int| 0 <= i < 5 ==> #[trigger] res@[i]@ == limit_lines(*limits)[i],
{
    proof {
        reveal_strlit("");
        assert(""@ =~= Seq::<char>::empty());
    }
    let mut lines: Vec<String> = Vec::new();
    lines.push(
        bound("iteration_limit", limits.iteration_limit, "", "egg Runner::with_iter_limit"),
    );
    lines.push(
        bound("time_limit", limits.time_limit.as_secs(), "s", "egg Runner::with_time_limit"),
    );
    lines.push(bound("node_limit", limits.node_limit, "", "egg Runner::with_node_limit"));
    lines.push(
        bound(
            "backoff_match_limit",
            limits.backoff_match_limit as u64,
            "",
            "BackoffScheduler::with_initial_match_limit",
        ),
    );
    lines.push(
        bound(
            "backoff_ban_length",
            limits.backoff_ban_length as u64,
            "",
            "BackoffScheduler::with_ban_length",
        ),
    );
    lines
}

/// What a dictionary holds under a key, if anything.
pub open spec fn entry_under(dict: Seq<(Seq<char>, EntryContents)>, key: Seq<char>) -> Option<
    EntryContents,
>
    decreases dict.len(),
{
    if dict.len() == 0 {
        None
    } else if dict[0].0 == key {
        Some(dict[0].1)
    } else {
        entry_under(dict.skip(1), key)
    }
}

/// The `i`-th entry is what stands under its key, if no other one before it
/// has that key.
proof fn lemma_entry(dict: Seq<(Seq<char>, EntryContents)>, i: int)
    requires
        0 <= i < dict.len(),
        forall|j: int| 0 <= j < i ==> (#[trigger] dict[j]).0 != dict[i].0,
    ensures
        entry_under(dict, dict[i].0) == Some(dict[i].1),
    decreases dict.len(),
{
    if i > 0 {
        let rest = dict.skip(1);
        assert(dict[0].0 != dict[i].0);
        assert forall|j: int| 0 <= j < i - 1 implies (#[trigger] rest[j]).0 != rest[i - 1].0 by {
            assert(rest[j] == dict[j + 1]);
        }
        lemma_entry(rest, i - 1);
    }
}

/// The keys are different texts.
proof fn lemma_keys()
    ensures
        "verdict"@.len() == 7,
        "iterations"@.len() == 10,
        "nodes"@.len() == 5,
        "reason"@.len() == 6,
        "lowered_before_len"@.len() == 18,
        "lowered_after_len"@.len() == 17,
{
    reveal_strlit("verdict");
    reveal_strlit("iterations");
    reveal_strlit("nodes");
    reveal_strlit("reason");
    reveal_strlit("lowered_before_len");
    reveal_strlit("lowered_after_len");
}

/// Looked up by key, the dictionary of a report agrees with the report: the
/// verdict by its name, the lengths of both graphs, and the metrics of the
/// report where the verdict is an equivalence; otherwise the metrics are
/// empty. There is nothing under any other key.
pub proof fn law_report_dictionaries_agree_with_reports(
    report: ProofReport,
    lowered_after_len: nat,
    key: Seq<char>,
)
    requires
        report.verdict matches Verdict::Equivalent { iterations, nodes } ==> report.iterations
            == iterations && report.nodes == nodes,
    ensures
        ({
            let dict = report_contents(report, lowered_after_len);
            &&& entry_under(dict, "verdict"@) == Some(
                EntryContents::Text(
                    if report.verdict is Equivalent {
                        "equivalent"@
                    } else {
                        "unproven"@
                    },
                ),
            )
            &&& report.verdict is Equivalent ==> entry_under(dict, "iterations"@) == Some(
                EntryContents::Count(report.iterations as nat),
            )
            &&& report.verdict is Equivalent ==> entry_under(dict, "nodes"@) == Some(
                EntryContents::Count(report.nodes as nat),
            )
            &&& report.verdict is Unproven ==> entry_under(dict, "iterations"@) == Some(
                EntryContents::Nothing,
            )
            &&& report.verdict is Unproven ==> entry_under(dict, "nodes"@) == Some(
                EntryContents::Nothing,
            )
            &&& entry_under(dict, "lowered_before_len"@) == Some(
                EntryContents::Count(report.lowered_before_len as nat),
            )
            &&& entry_under(dict, "lowered_after_len"@) == Some(
                EntryContents::Count(lowered_after_len),
            )
            &&& key != "verdict"@ && key != "iterations"@ && key != "nodes"@ && key
                != "lowered_before_len"@ && key != "lowered_after_len"@ ==> entry_under(dict, key)
                is None
        }),
{
    let dict = report_contents(report, lowered_after_len);
    lemma_keys();
    lemma_entry(dict, 0);
    lemma_entry(dict, 1);
    lemma_entry(dict, 2);
    lemma_entry(dict, 3);
    lemma_entry(dict, 4);
    if entry_under(dict, key) is Some {
        lemma_found(dict, key);
    }
}

/// What stands under a key stands somewhere in the dictionary.
proof fn lemma_found(dict: Seq<(Seq<char>, EntryContents)>, key: Seq<char>)
    requires
        entry_under(dict, key) is Some,
    ensures
        exists|i: int| 0 <= i < dict.len() && (#[trigger] dict[i]).0 == key,
    decreases dict.len(),
{
    if dict[0].0 != key {
        let rest = dict.skip(1);
        lemma_found(rest, key);
        let i = choose|i: int| 0 <= i < rest.len() && (#[trigger] rest[i]).0 == key;
        assert(dict[i + 1] == rest[i]);
    }
}

/// Looked up by key, the dictionary of an equivalence holds its metrics, and
/// any other one the reason for which nothing was proved.
pub proof fn law_verdict_dictionaries_agree_with_verdicts(verdict: Verdict)
    ensures
        ({
            let dict = verdict_contents(verdict);
            match verdict {
                Verdict::Equivalent { iterations, nodes } => {
                    &&& entry_under(dict, "verdict"@) == Some(EntryContents::Text("equivalent"@))
                    &&& entry_under(dict, "iterations"@) == Some(
                        EntryContents::Count(iterations as nat),
                    )
                    &&& entry_under(dict, "nodes"@) == Some(EntryContents::Count(nodes as nat))
                    &&& entry_under(dict, "reason"@) is None
                },
                Verdict::Unproven { reason } => {
                    &&& entry_under(dict, "verdict"@) == Some(EntryContents::Text("unproven"@))
                    &&& entry_under(dict, "reason"@) == Some(EntryContents::Text(reason@))
                    &&& entry_under(dict, "iterations"@) is None
                    &&& entry_under(dict, "nodes"@) is None
                },
            }
        }),
{
    let dict = verdict_contents(verdict);
    lemma_keys();
    lemma_entry(dict, 0);
    lemma_entry(dict, 1);
    match verdict {
        Verdict::Equivalent { .. } => {
            lemma_entry(dict, 2);
            if entry_under(dict, "reason"@) is Some {
                lemma_found(dict, "reason"@);
            }
        },
        Verdict::Unproven { .. } => {
            if entry_under(dict, "iterations"@) is Some {
                lemma_found(dict, "iterations"@);
            }
            if entry_under(dict, "nodes"@) is Some {
                lemma_found(dict, "nodes"@);
            }
        },
    }
}

/// Each of the five bounds has its line, with its name, its number and the
/// setter that it goes to.
pub proof fn law_lines_state_the_bounds(limits: RunnerLimits)
    ensures
        ({
            let lines = limit_lines(limits);
            &&& lines.len() == 5
            &&& lines[0] == "iteration_limit"@ + " = "@ + decimal(limits.iteration_limit as nat)
                + " ("@ + "egg Runner::with_iter_limit"@ + ")"@
            &&& lines[1] == "time_limit"@ + " = "@ + decimal(
                duration_nanos(limits.time_limit) / 1_000_000_000,
            ) + "s"@ + " ("@ + "egg Runner::with_time_limit"@ + ")"@
            &&& lines[2] == "node_limit"@ + " = "@ + decimal(limits.node_limit as nat) + " ("@
                + "egg Runner::with_node_limit"@ + ")"@
            &&& lines[3] == "backoff_match_limit"@ + " = "@ + decimal(
                limits.backoff_match_limit as nat,
            ) + " ("@ + "BackoffScheduler::with_initial_match_limit"@ + ")"@
            &&& lines[4] == "backoff_ban_length"@ + " = "@ + decimal(
                limits.backoff_ban_length as nat,
            ) + " ("@ + "BackoffScheduler::with_ban_length"@ + ")"@
        }),
{
    assert forall|s: Seq<char>| #[trigger] (s + Seq::<char>::empty()) == s by {
        assert(s + Seq::<char>::empty() =~= s);
    }
}

/// What a dictionary holds are its entries, in order, each with its key.
pub proof fn law_contents_are_the_entries(dict: Seq<(&'static str, Entry)>, i: int)
    requires
        0 <= i < dict.len(),
    ensures
        contents(dict).len() == dict.len(),
        contents(dict)[i].0 == dict[i].0@,
        dict[i].1 matches Entry::Text(t) ==> contents(dict)[i].1 == EntryContents::Text(t@),
        dict[i].1 matches Entry::Count(n) ==> contents(dict)[i].1 == EntryContents::Count(n as nat),
        dict[i].1 is Nothing ==> contents(dict)[i].1 is Nothing,
{
}

/// Looked up by key, the dictionary that is made of a report agrees with the
/// report.
pub proof fn law_reports_are_handed_out(
    report: &ProofReport,
    lowered_after_len: usize,
    dict: Vec<(&'static str, Entry)>,
)
    requires
        call_ensures(report_entries, (report, lowered_after_len), dict),
        report.verdict matches Verdict::Equivalent { iterations, nodes } ==> report.iterations
            == iterations && report.nodes == nodes,
    ensures
        entry_under(contents(dict@), "verdict"@) == Some(
            EntryContents::Text(
                if report.verdict is Equivalent {
                    "equivalent"@
                } else {
                    "unproven"@
                },
            ),
        ),
        entry_under(contents(dict@), "iterations"@) == Some(
            if report.verdict is Equivalent {
                EntryContents::Count(report.iterations as nat)
            } else {
                EntryContents::Nothing
            },
        ),
        entry_under(contents(dict@), "nodes"@) == Some(
            if report.verdict is Equivalent {
                EntryContents::Count(report.nodes as nat)
            } else {
                EntryContents::Nothing
            },
        ),
        entry_under(contents(dict@), "lowered_before_len"@) == Some(
            EntryContents::Count(report.lowered_before_len as nat),
        ),
        entry_under(contents(dict@), "lowered_after_len"@) == Some(
            EntryContents::Count(lowered_after_len as nat),
        ),
{
    law_report_dictionaries_agree_with_reports(*report, lowered_after_len as nat, ""@);
}

/// Looked up by key, the dictionary that is made of a verdict agrees with the
/// verdict.
pub proof fn law_verdicts_are_handed_out(verdict: &Verdict, dict: Vec<(&'static str, Entry)>)
    requires
        call_ensures(verdict_entries, (verdict,), dict),
    ensures
        match *verdict {
            Verdict::Equivalent { iterations, nodes } => {
                &&& entry_under(contents(dict@), "verdict"@) == Some(
                    EntryContents::Text("equivalent"@),
                )
                &&& entry_under(contents(dict@), "iterations"@) == Some(
                    EntryContents::Count(iterations as nat),
                )
                &&& entry_under(contents(dict@), "nodes"@) == Some(
                    EntryContents::Count(nodes as nat),
                )
            },
            Verdict::Unproven { reason } => {
                &&& entry_under(contents(dict@), "verdict"@) == Some(
                    EntryContents::Text("unproven"@),
                )
                &&& entry_under(contents(dict@), "reason"@) == Some(EntryContents::Text(reason@))
            },
        },
{
    law_verdict_dictionaries_agree_with_verdicts(*verdict);
}

/// The dictionary of a check of two spelled terms says `equivalent` for equal
/// terms, and only for terms that are equal as integer arithmetic; otherwise
/// it says `unproven`.
pub proof fn law_checks_are_handed_out(
    engine: &EggEngine,
    before: &str,
    after: &str,
    dict: Vec<(&'static str, Entry)>,
    a: Term,
    b: Term,
    env: spec_fn(Seq<char>) -> int,
)
    requires
        call_ensures(verify_entries, (engine, before, after), dict),
        plain_term(a),
        plain_term(b),
        before@ == term_text(a),
        after@ == term_text(b),
    ensures
        ({
            let told = entry_under(contents(dict@), "verdict"@);
            &&& told == Some(EntryContents::Text("equivalent"@)) || told == Some(
                EntryContents::Text("unproven"@),
            )
            &&& a == b ==> told == Some(EntryContents::Text("equivalent"@))
            &&& told == Some(EntryContents::Text("equivalent"@)) ==> value(integers(env), a)
                == value(integers(env), b)
        }),
{
    let verdict = choose|verdict: Verdict| #[trigger]
        settles_texts(before@, after@, verdict) && settles_spellings(before@, after@, verdict)
            && contents(dict@) == verdict_contents(verdict);
    law_verdict_dictionaries_agree_with_verdicts(verdict);
    law_rules_are_identities(env);
    assert(settles(math_rule_list() + boolean_rule_list(), a, b, verdict));
    reveal_strlit("equivalent");
    reveal_strlit("unproven");
    assert("equivalent"@.len() == 10 && "unproven"@.len() == 8);
}

/// The dictionary of a proof says how large both graphs are, and says
/// `equivalent` only if both sources compute the same output for all inputs.
/// Without a dictionary there is one line that says why.
pub proof fn law_refactors_are_handed_out(
    before_src: &str,
    after_src: &str,
    res: Result<Vec<(&'static str, Entry)>, String>,
    inputs: spec_fn(Seq<char>) -> int,
)
    requires
        call_ensures(prove_refactor_entries, (before_src, after_src), res),
    ensures
        res matches Ok(dict) ==> {
            &&& entry_under(contents(dict@), "lowered_before_len"@) == Some(
                EntryContents::Count(lower_source(before_src@)->Ok_0.0.defs.len()),
            )
            &&& entry_under(contents(dict@), "lowered_after_len"@) == Some(
                EntryContents::Count(lower_source(after_src@)->Ok_0.0.defs.len()),
            )
            &&& fit(lower_source(before_src@)->Ok_0.0, lower_source(after_src@)->Ok_0.0)
                && entry_under(contents(dict@), "verdict"@) == Some(
                EntryContents::Text("equivalent"@),
            ) ==> program_output(statements_of(before_src@), ""@, inputs) == program_output(
                statements_of(after_src@),
                ""@,
                inputs,
            )
        },
        lower_source(before_src@) matches Err(m) ==> (res matches Err(line) && line@
            == "python frontend: "@ + m),
        lower_source(before_src@) is Ok ==> (lower_source(after_src@) matches Err(m) ==> (
        res matches Err(line) && line@ == "python frontend: "@ + m)),
{
    if let Ok(dict) = res {
        let report = choose|report: ProofReport| #[trigger]
            proves(before_src@, after_src@, ""@, ""@, Ok(report)) && contents(dict@)
                == report_contents(report, lower_source(after_src@)->Ok_0.0.defs.len());
        law_reports_mirror_the_proof(before_src@, after_src@, ""@, ""@, report);
        law_report_dictionaries_agree_with_reports(
            report,
            lower_source(after_src@)->Ok_0.0.defs.len(),
            ""@,
        );
        reveal_strlit("equivalent");
        reveal_strlit("unproven");
        assert("equivalent"@.len() == 10 && "unproven"@.len() == 8);
        if report.verdict is Equivalent && fit(
            lower_source(before_src@)->Ok_0.0,
            lower_source(after_src@)->Ok_0.0,
        ) {
            law_green_reports_are_right(
                before_src@,
                after_src@,
                ""@,
                ""@,
                Ok(report),
                inputs,
            );
        }
    }
}

/// The lines that are handed out are those of the bounds.
pub proof fn law_bounds_are_handed_out(limits: &RunnerLimits, lines: Vec<String>)
    requires
        call_ensures(law_limits, (limits,), lines),
    ensures
        lines@.len() == 5,
        lines@[0]@ == "iteration_limit"@ + " = "@ + decimal(limits.iteration_limit as nat) + " ("@
            + "egg Runner::with_iter_limit"@ + ")"@,
        lines@[1]@ == "time_limit"@ + " = "@ + decimal(
            duration_nanos(limits.time_limit) / 1_000_000_000,
        ) + "s"@ + " ("@ + "egg Runner::with_time_limit"@ + ")"@,
        lines@[2]@ == "node_limit"@ + " = "@ + decimal(limits.node_limit as nat) + " ("@
            + "egg Runner::with_node_limit"@ + ")"@,
        lines@[3]@ == "backoff_match_limit"@ + " = "@ + decimal(limits.backoff_match_limit as nat)
            + " ("@ + "BackoffScheduler::with_initial_match_limit"@ + ")"@,
        lines@[4]@ == "backoff_ban_length"@ + " = "@ + decimal(limits.backoff_ban_length as nat)
            + " ("@ + "BackoffScheduler::with_ban_length"@ + ")"@,
{
    law_lines_state_the_bounds(*limits);
}

} // verus!
