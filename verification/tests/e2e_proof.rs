//! Proofs of refactorings, from source to verdict.

use ouroboros_dfg::e2e_proof::{extract_out, prove_refactor, report_on, ProofError};
use ouroboros_dfg::engine::Verdict;
use ouroboros_dfg::frontend_python::lower_module;
use ouroboros_dfg::ssa::Value;

#[test]
fn e2e_assoc_paren_regrouping_is_equivalent() {
    let before = "r = (a + b) + c";
    let after = "r = a + (b + c)";
    let report = prove_refactor(before, after, "r", "r").unwrap();

    match report.verdict {
        Verdict::Equivalent { iterations, nodes } => {
            assert!(iterations >= 1, "saturation must have run");
            assert!(nodes > 0, "egraph must hold nodes");
            assert_eq!(report.iterations, iterations);
            assert_eq!(report.nodes, nodes);
        }
        Verdict::Unproven { reason } => {
            panic!("assoc regrouping must prove, got Unproven: {reason}")
        }
    }
    assert_eq!(report.before_src, before);
    assert_eq!(report.after_src, after);
    assert_eq!(report.lowered_before_len, 5);
}

#[test]
fn e2e_commuted_multiplication_is_equivalent() {
    let report = prove_refactor("r = a * b", "r = b * a", "r", "r").unwrap();
    match report.verdict {
        Verdict::Equivalent { iterations, nodes } => {
            assert!(iterations >= 1);
            assert!(nodes > 0);
        }
        Verdict::Unproven { reason } => {
            panic!("mul commutation must prove, got Unproven: {reason}")
        }
    }
    assert_eq!(report.lowered_before_len, 3);
}

#[test]
fn e2e_add_zero_identity_is_equivalent() {
    let report = prove_refactor("r = x + 0", "r = x", "r", "r").unwrap();
    match report.verdict {
        Verdict::Equivalent { iterations, nodes } => {
            assert!(iterations >= 1);
            assert!(nodes > 0);
        }
        Verdict::Unproven { reason } => {
            panic!("x + 0 == x must prove, got Unproven: {reason}")
        }
    }
}

#[test]
fn e2e_mul_vs_add_control_stays_unproven() {
    let report = prove_refactor("r = a * 2", "r = a + 2", "r", "r").unwrap();
    match &report.verdict {
        Verdict::Unproven { reason } => {
            assert_eq!(reason, "saturation exhausted without merge");
        }
        Verdict::Equivalent { .. } => {
            panic!("a*2 is NOT a refactor of a+2; must NOT prove")
        }
    }
    assert_eq!(report.iterations, 0);
    assert_eq!(report.nodes, 0);
    assert_eq!(report.lowered_before_len, 3);
}

#[test]
fn e2e_bare_expression_statements_resolve_via_last() {
    let report = prove_refactor("(a + b) + c", "a + (b + c)", "", "").unwrap();
    assert!(matches!(report.verdict, Verdict::Equivalent { .. }));

    let assigned = prove_refactor("t = a * b", "t = b * a", "", "").unwrap();
    assert!(matches!(assigned.verdict, Verdict::Equivalent { .. }));
}

#[test]
fn e2e_lowering_error_is_reported_not_proven() {
    let err = prove_refactor("r = 1.5 + a", "r = a + 1", "r", "r").unwrap_err();
    match err {
        ProofError::Lowering(e) => {
            assert!(e.message.contains("unsupported"), "got: {}", e.to_string());
        }
        other => panic!("expected Lowering error, got {other:?}"),
    }
}

#[test]
fn e2e_missing_output_names_the_side() {
    let err = prove_refactor("", "r = 1", "", "r").unwrap_err();
    match &err {
        ProofError::MissingOutput { side, detail } => {
            assert_eq!(*side, "before");
            assert!(detail.contains("unbound"), "{detail}");
        }
        other => panic!("expected MissingOutput, got {other:?}"),
    }
    assert!(err.to_string().contains("before"));
}

#[test]
fn e2e_green_verdict_graphs_agree_concretely() {
    let report = prove_refactor("r = (a + b) + c", "r = a + (b + c)", "r", "r").unwrap();
    assert!(matches!(report.verdict, Verdict::Equivalent { .. }));

    let lb = lower_module("r = (a + b) + c").unwrap();
    let la = lower_module("r = a + (b + c)").unwrap();
    let rb = lb.value_of("r").unwrap();
    let ra = la.value_of("r").unwrap();
    assert_eq!(lb.ssa.evaluate(rb, &[2, 3, 4]).unwrap(), 9);
    assert_eq!(la.ssa.evaluate(ra, &[2, 3, 4]).unwrap(), 9);
}

#[test]
fn outputs_are_resolved_in_steps() {
    let l = lower_module("r = a + 1\nr * 2\nt = a").unwrap();
    assert_eq!(extract_out(&l, "r", "before"), Ok(Value(2)));
    assert_eq!(extract_out(&l, "t", "before"), Ok(Value(0)));
    assert_eq!(extract_out(&l, "a", "before"), Ok(Value(0)));
    assert_eq!(extract_out(&l, "nowhere", "before"), Ok(Value(4)));
    assert_eq!(extract_out(&l, "", "before"), Ok(Value(4)));
    let assigned = lower_module("r = 1 + 2\nt = a").unwrap();
    assert_eq!(extract_out(&assigned, "", "after"), Ok(Value(3)));
    assert_eq!(extract_out(&lower_module("t = a").unwrap(), "r", "after"), Ok(Value(0)));
    let mut unassigned = lower_module("r = 1 + 2\nt = a").unwrap();
    unassigned.assigned = None;
    assert_eq!(extract_out(&unassigned, "", "after"), Ok(Value(2)));
    assert_eq!(
        extract_out(&lower_module("").unwrap(), "r", "after"),
        Err(ProofError::MissingOutput {
            side: "after",
            detail: "variable `r` is unbound, no trailing expression statement, and the graph \
                     defines no operations"
                .to_string(),
        })
    );
}

#[test]
fn plain_assignments_need_no_names() {
    let same = prove_refactor("r = x", "r = x", "", "").unwrap();
    assert!(matches!(same.verdict, Verdict::Equivalent { .. }));
    let renamed = prove_refactor("s = 1 + 2\nr = x", "q = x", "", "").unwrap();
    assert!(matches!(renamed.verdict, Verdict::Equivalent { .. }));
    let other = prove_refactor("s = 1 + 2\nr = x", "q = 1 + 2", "", "").unwrap();
    assert!(matches!(other.verdict, Verdict::Unproven { .. }));
}

#[test]
fn errors_come_in_order() {
    let err = prove_refactor("import os", "x = 1.5", "r", "r").unwrap_err();
    assert!(err.to_string().contains("import_statement"), "{}", err.to_string());
    let err = prove_refactor("", "x = 1.5", "r", "r").unwrap_err();
    assert!(err.to_string().starts_with("python frontend: "), "{}", err.to_string());
    let err = prove_refactor("r = 1", "", "r", "q").unwrap_err();
    assert_eq!(
        err.to_string(),
        "no output value for `after` source: variable `q` is unbound, no trailing expression \
         statement, and the graph defines no operations"
    );
}

#[test]
fn reports_mirror_the_verdict() {
    let green = report_on("a", "b", 3, Verdict::Equivalent { iterations: 4, nodes: 17 });
    assert_eq!((green.iterations, green.nodes, green.lowered_before_len), (4, 17, 3));
    assert_eq!((green.before_src.as_str(), green.after_src.as_str()), ("a", "b"));
    let yellow = report_on("a", "b", 3, Verdict::Unproven { reason: "r".to_string() });
    assert_eq!((yellow.iterations, yellow.nodes), (0, 0));
}

#[test]
fn programs_refactor_to_themselves() {
    for src in ["r = a * b - 3", "x = 1\nx = x + y\nx", "a - b", "r = x", "7"] {
        let report = prove_refactor(src, src, "", "").unwrap();
        assert!(matches!(report.verdict, Verdict::Equivalent { .. }), "{src}");
    }
}

/// Inputs are known by their names, wherever they first occur.
#[test]
fn inputs_correspond_by_name() {
    for (before, after) in [
        ("r = a + 1", "r = 1 + a"),
        ("t = 2 * a\nr = t + b", "r = 2 * a + b"),
        ("t = b\nr = a - t", "r = a - b"),
        ("t = 5\nr = a", "r = a"),
        ("r = a + a * b", "r = a + b * a"),
        ("r = b + a", "r = a + b"),
    ] {
        let report = prove_refactor(before, after, "r", "r").unwrap();
        assert!(matches!(report.verdict, Verdict::Equivalent { .. }), "{before}");
    }
    for (before, after) in [
        ("r = a - b", "r = b - a"),
        ("r = a - b", "r = x - y"),
        ("r = a", "r = b"),
        ("r = a * a", "r = a * b"),
    ] {
        let report = prove_refactor(before, after, "r", "r").unwrap();
        assert!(matches!(report.verdict, Verdict::Unproven { .. }), "{before}");
    }
}

/// Products commute, and what their factors are rewritten to makes no
/// difference.
#[test]
fn factors_stand_in_one_order() {
    for (before, after) in [
        ("r = a * (b + c)", "r = (c + b) * a"),
        ("r = (a + 0) * b", "r = b * a"),
        ("r = 1 * a", "r = a"),
        ("r = (a - b) * (a + b)", "r = (a + b) * (a - b)"),
        ("r = a * b * c", "r = c * (b * a)"),
        ("r = -a * 3", "r = 3 * -a"),
        ("r = 1 * (a * b)", "r = b * a * 1"),
    ] {
        let report = prove_refactor(before, after, "r", "r").unwrap();
        assert!(matches!(report.verdict, Verdict::Equivalent { .. }), "{before}");
    }
}

#[test]
fn green_graphs_evaluate_alike() {
    let pairs = [
        ("r = (a + b) + c", "r = a + (b + c)"),
        ("t = 3 * a\nr = t + b", "r = 3 * a + b"),
        ("r = 1 * a * 1 + b", "r = 1 * a + b"),
        ("r = a * (b + 0)", "r = a * b"),
    ];
    for (before, after) in pairs {
        let report = prove_refactor(before, after, "r", "r").unwrap();
        assert!(matches!(report.verdict, Verdict::Equivalent { .. }), "{before}");
        let (lb, la) = (lower_module(before).unwrap(), lower_module(after).unwrap());
        let (rb, ra) = (lb.value_of("r").unwrap(), la.value_of("r").unwrap());
        for args in [[2, 3, 4], [-5, 0, 11]] {
            assert_eq!(lb.ssa.evaluate(rb, &args), la.ssa.evaluate(ra, &args), "{before}");
        }
    }
}

/// Arguments go by name: the graphs list their inputs in different orders.
#[test]
fn green_graphs_evaluate_alike_by_name() {
    let (before, after) = ("r = b * a + c", "r = c + a * b");
    let report = prove_refactor(before, after, "r", "r").unwrap();
    assert!(matches!(report.verdict, Verdict::Equivalent { .. }));
    let (lb, la) = (lower_module(before).unwrap(), lower_module(after).unwrap());
    let (rb, ra) = (lb.value_of("r").unwrap(), la.value_of("r").unwrap());
    for (a, b, c) in [(2, 3, 4), (-5, 0, 11)] {
        assert_eq!(lb.ssa.evaluate(rb, &[b, a, c]), Ok(a * b + c));
        assert_eq!(la.ssa.evaluate(ra, &[c, a, b]), Ok(a * b + c));
    }
}
