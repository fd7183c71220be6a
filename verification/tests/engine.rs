//! Equivalence checks on s-expressions and on data flow graphs.

use ouroboros_dfg::egraph::Saturation;
use ouroboros_dfg::engine::{classify, EggEngine, Verdict};
use ouroboros_dfg::limits::{
    time_limit, RunnerLimits, BACKOFF_BAN_LENGTH, BACKOFF_MATCH_LIMIT, ITERATION_LIMIT, NODE_LIMIT,
};
use ouroboros_dfg::ssa::{Ssa, Value};
use ouroboros_dfg::ssa_bridge::to_rec_expr;
use ouroboros_dfg::telemetry::{TelemetrySink, VerdictKind};

/// The share of green records as a number.
fn ratio(sink: &TelemetrySink) -> Option<f64> {
    sink.green_yellow_ratio().map(|share| share.greens as f64 / share.total as f64)
}

#[test]
fn commuted_addition_is_equivalent() {
    let engine = EggEngine::new();
    match engine.verify("(+ a b)", "(+ b a)") {
        Verdict::Equivalent { iterations, nodes } => {
            assert!(iterations >= 1);
            assert!(nodes > 0);
        }
        Verdict::Unproven { reason } => panic!("expected Equivalent, got Unproven: {reason}"),
    }
}

#[test]
fn multiplication_is_unproven() {
    let engine = EggEngine::new();
    match engine.verify("(+ a b)", "(* a b)") {
        Verdict::Unproven { reason } => {
            assert_eq!(reason, "saturation exhausted without merge");
        }
        Verdict::Equivalent { .. } => panic!("add vs mul must NOT be provable"),
    }
}

#[test]
fn engine_stores_law_mandated_limits() {
    let engine = EggEngine::new();
    assert_eq!(engine.limits(), &RunnerLimits::law_mandated());
    engine.limits().assert_lawful();
    assert_eq!(engine.limits().iteration_limit, ITERATION_LIMIT);
    assert_eq!(engine.limits().time_limit, time_limit());
    assert_eq!(engine.limits().node_limit, NODE_LIMIT);
    assert_eq!(engine.limits().backoff_match_limit, BACKOFF_MATCH_LIMIT);
    assert_eq!(engine.limits().backoff_ban_length, BACKOFF_BAN_LENGTH);
}

#[test]
fn malformed_input_is_unproven_not_panic() {
    let engine = EggEngine::new();
    match engine.verify("(+ a b", "(+ b a)") {
        Verdict::Unproven { reason } => assert!(reason.contains("bad `before`")),
        Verdict::Equivalent { .. } => panic!("malformed input cannot prove equivalence"),
    }
}

#[test]
fn de_morgan_1_proves_equivalent() {
    let engine = EggEngine::new();
    match engine.verify("(not (and p q))", "(or (not p) (not q))") {
        Verdict::Equivalent { iterations, nodes } => {
            assert!(iterations >= 1);
            assert!(nodes > 0);
        }
        Verdict::Unproven { reason } => {
            panic!("De Morgan #1 must verify, got Unproven: {reason}")
        }
    }
}

#[test]
fn de_morgan_2_proves_equivalent() {
    let engine = EggEngine::new();
    match engine.verify("(not (or p q))", "(and (not p) (not q))") {
        Verdict::Equivalent { iterations, nodes } => {
            assert!(iterations >= 1);
            assert!(nodes > 0);
        }
        Verdict::Unproven { reason } => {
            panic!("De Morgan #2 must verify, got Unproven: {reason}")
        }
    }
}

#[test]
fn double_negation_proves_equivalent() {
    let engine = EggEngine::new();
    match engine.verify("(not (not p))", "p") {
        Verdict::Equivalent { iterations, nodes } => {
            assert!(iterations >= 1);
            assert!(nodes > 0);
        }
        Verdict::Unproven { reason } => {
            panic!("double negation must verify, got Unproven: {reason}")
        }
    }
}

#[test]
fn and_vs_or_stays_unproven() {
    let engine = EggEngine::new();
    match engine.verify("(and p q)", "(or p q)") {
        Verdict::Unproven { reason } => {
            assert_eq!(reason, "saturation exhausted without merge");
        }
        Verdict::Equivalent { .. } => panic!("and vs or must NOT be provable"),
    }
}

#[test]
fn algebraic_identities_prove_equivalent() {
    let engine = EggEngine::new();
    for (before, after) in [("(+ a 0)", "a"), ("(* a 1)", "a")] {
        match engine.verify(before, after) {
            Verdict::Equivalent { .. } => {}
            Verdict::Unproven { reason } => {
                panic!("{before} vs {after} must verify, got Unproven: {reason}")
            }
        }
    }
}

#[test]
fn verify_telemetry_green_record_carries_metrics() {
    let engine = EggEngine::new();
    let record = engine.verify_telemetry(42, "(not (and p q))", "(or (not p) (not q))");
    assert_eq!(record.job_id(), 42);
    assert_eq!(
        record.verdict_kind(),
        VerdictKind::Green,
        "verdict_kind must match the verification outcome"
    );
    assert!(record.iterations() > 0, "iterations must be > 0");
    assert!(record.nodes() > 0, "nodes must be > 0");
    assert!(record.elapsed_ms() <= time_limit().as_millis());

    let mut sink = TelemetrySink::new();
    sink.record(record);
    assert_eq!(ratio(&sink), Some(1.0));
}

#[test]
fn verify_telemetry_yellow_record_maps_outcome() {
    let engine = EggEngine::new();
    let record = engine.verify_telemetry(7, "(and p q)", "(or p q)");
    assert_eq!(record.verdict_kind(), VerdictKind::Yellow);
    assert_eq!(record.iterations(), 0);
    assert_eq!(record.nodes(), 0);
    assert!(record.elapsed_ms() <= time_limit().as_millis());

    let mut sink = TelemetrySink::new();
    sink.record(record);
    assert_eq!(ratio(&sink), Some(0.0));
}

#[test]
fn ssa_associativity_proves_equivalent() {
    let mut ga = Ssa::new();
    let (a0, b0, c0) = (ga.new_param(), ga.new_param(), ga.new_param());
    let t0 = ga.add(a0, b0);
    let _out_a = ga.add(t0, c0);
    let mut gb = Ssa::new();
    let (a1, b1, c1) = (gb.new_param(), gb.new_param(), gb.new_param());
    let u = gb.add(b1, c1);
    let out_b = gb.add(a1, u);

    let engine = EggEngine::new();
    match engine.verify_ssa(&ga, &gb, out_b) {
        Verdict::Equivalent { iterations, nodes } => {
            assert!(iterations >= 1);
            assert!(nodes > 0);
        }
        Verdict::Unproven { reason } => {
            panic!("graph associativity must verify, got Unproven: {reason}")
        }
    }
}

#[test]
fn ssa_commutativity_proves_equivalent() {
    let mut ga = Ssa::new();
    let (x, y) = (ga.new_param(), ga.new_param());
    let _out_a = ga.add(x, y);
    let mut gb = Ssa::new();
    let (y2, x2) = (gb.new_param(), gb.new_param());
    let out_b = gb.add(y2, x2);

    let engine = EggEngine::new();
    match engine.verify_ssa(&ga, &gb, out_b) {
        Verdict::Equivalent { .. } => {}
        Verdict::Unproven { reason } => {
            panic!("graph commutativity must verify, got Unproven: {reason}")
        }
    }
}

#[test]
fn ssa_add_zero_identity_proves_equivalent() {
    let mut ga = Ssa::new();
    let a = ga.new_param();
    let zero = ga.constant(0);
    let _out_a = ga.add(a, zero);
    let mut gb = Ssa::new();
    let b = gb.new_param();

    let engine = EggEngine::new();
    match engine.verify_ssa(&ga, &gb, b) {
        Verdict::Equivalent { iterations, nodes } => {
            assert!(iterations >= 1);
            assert!(nodes > 0);
        }
        Verdict::Unproven { reason } => {
            panic!("(a+0) vs a must verify, got Unproven: {reason}")
        }
    }
}

#[test]
fn ssa_genuinely_different_stays_unproven() {
    let mut ga = Ssa::new();
    let (a0, b0) = (ga.new_param(), ga.new_param());
    let _out_a = ga.add(a0, b0);
    let mut gb = Ssa::new();
    let (a1, b1, c1) = (gb.new_param(), gb.new_param(), gb.new_param());
    let s = gb.add(a1, b1);
    let nz = gb.neg(c1);
    let out_b = gb.add(s, nz);

    let engine = EggEngine::new();
    match engine.verify_ssa(&ga, &gb, out_b) {
        Verdict::Unproven { reason } => {
            assert_eq!(reason, "saturation exhausted without merge");
        }
        Verdict::Equivalent { .. } => panic!("extra addend must NOT be provable"),
    }
}

#[test]
fn ssa_param_count_mismatch_converts_without_cross_merge() {
    let mut ga = Ssa::new();
    let x = ga.new_param();
    let out_a = ga.add(x, x);
    let mut gb = Ssa::new();
    let _p = gb.new_param();
    let _q = gb.new_param();
    let r = gb.new_param();

    let engine = EggEngine::new();
    match engine.verify_ssa(&ga, &gb, r) {
        Verdict::Unproven { reason } => {
            assert_eq!(reason, "saturation exhausted without merge");
        }
        Verdict::Equivalent { .. } => panic!("p0 vs p2 must NOT merge across graphs"),
    }
    assert_eq!(to_rec_expr(&ga, x).to_string(), "p0");
    assert_eq!(to_rec_expr(&gb, r).to_string(), "p2");
}

#[test]
fn ssa_identical_graphs_are_equivalent() {
    let mut g = Ssa::new();
    let (a, b) = (g.new_param(), g.new_param());
    let m = g.mul(a, b);
    let out = g.mul(m, b);
    let engine = EggEngine::new();
    match engine.verify_ssa(&g, &g.clone(), out) {
        Verdict::Equivalent { nodes, .. } => assert!(nodes > 0),
        Verdict::Unproven { reason } => {
            panic!("identical graphs must verify, got Unproven: {reason}")
        }
    }
}

#[test]
fn ssa_empty_before_is_unproven_not_panic() {
    let mut ga = Ssa::new();
    let _p = ga.new_param();
    let mut gb = Ssa::new();
    let q = gb.new_param();
    let engine = EggEngine::new();
    match engine.verify_ssa(&ga, &gb, q) {
        Verdict::Unproven { reason } => {
            assert!(reason.contains("defines no operations"));
        }
        Verdict::Equivalent { .. } => panic!("empty before cannot prove anything"),
    }
}

#[test]
fn verify_ssa_roots_matches_inferred_roots() {
    let mut ga = Ssa::new();
    let (a0, b0, c0) = (ga.new_param(), ga.new_param(), ga.new_param());
    let l0 = ga.add(a0, b0);
    let out_a = ga.add(l0, c0);
    let mut gb = Ssa::new();
    let (a1, b1, c1) = (gb.new_param(), gb.new_param(), gb.new_param());
    let r0 = gb.add(b1, c1);
    let out_b = gb.add(a1, r0);

    let engine = EggEngine::new();
    match engine.verify_ssa_roots(&ga, out_a, &gb, out_b) {
        Verdict::Equivalent { .. } => {}
        Verdict::Unproven { reason } => {
            panic!("explicit-root form must verify, got Unproven: {reason}")
        }
    }
}

#[test]
fn verify_ssa_telemetry_records_green_and_yellow() {
    let mut ga = Ssa::new();
    let (a0, b0, c0) = (ga.new_param(), ga.new_param(), ga.new_param());
    let l0 = ga.add(a0, b0);
    let _out_a = ga.add(l0, c0);
    let mut gb = Ssa::new();
    let (a1, b1, c1) = (gb.new_param(), gb.new_param(), gb.new_param());
    let r0 = gb.add(b1, c1);
    let out_b = gb.add(a1, r0);

    let mut gc = Ssa::new();
    let (x, y) = (gc.new_param(), gc.new_param());
    let _out_c = gc.mul(x, y);

    let engine = EggEngine::new();
    let green = engine.verify_ssa_telemetry(1, &ga, &gb, out_b);
    assert_eq!(green.job_id(), 1);
    assert_eq!(green.verdict_kind(), VerdictKind::Green);
    assert!(green.iterations() > 0);
    assert!(green.nodes() > 0);
    assert!(green.elapsed_ms() <= time_limit().as_millis());

    let yellow = engine.verify_ssa_telemetry(2, &ga, &gc, Value(
        (gc.len() - 1) as u32,
    ));
    assert_eq!(yellow.verdict_kind(), VerdictKind::Yellow);
    assert_eq!(yellow.iterations(), 0);
    assert_eq!(yellow.nodes(), 0);

    let mut sink = TelemetrySink::new();
    sink.record(green);
    sink.record(yellow);
    assert_eq!(ratio(&sink), Some(0.5));
}
#[test]
fn unreadable_inputs_are_reported_in_order() {
    let engine = EggEngine::default();
    match engine.verify("(+ a b)", ")") {
        Verdict::Unproven { reason } => {
            assert!(reason.starts_with("bad `after` s-expression: "), "{reason}")
        }
        Verdict::Equivalent { .. } => panic!("unreadable input cannot prove equivalence"),
    }
    match engine.verify("", "") {
        Verdict::Unproven { reason } => {
            assert!(reason.starts_with("bad `before` s-expression: "), "{reason}")
        }
        Verdict::Equivalent { .. } => panic!("unreadable input cannot prove equivalence"),
    }
}

#[test]
fn a_run_with_a_common_class_is_equivalent() {
    let run = Saturation { common_classes: 2, iteration_nodes: vec![3, 9, 14], total_nodes: 20 };
    assert_eq!(classify(&run), Verdict::Equivalent { iterations: 3, nodes: 14 });
    let still = Saturation { common_classes: 1, iteration_nodes: vec![], total_nodes: 20 };
    assert_eq!(classify(&still), Verdict::Equivalent { iterations: 0, nodes: 20 });
}

#[test]
fn a_run_without_a_common_class_is_unproven() {
    let run = Saturation { common_classes: 0, iteration_nodes: vec![3, 9], total_nodes: 20 };
    assert_eq!(
        classify(&run),
        Verdict::Unproven { reason: "saturation exhausted without merge".to_string() }
    );
}

#[test]
fn every_term_equals_itself() {
    let engine = EggEngine::new();
    for t in ["x", "(f x y)", "(and (+ 1 2) (not q))", "(g)"] {
        assert!(matches!(engine.verify(t, t), Verdict::Equivalent { .. }), "{t}");
    }
}

#[test]
fn families_mix_in_one_term() {
    let engine = EggEngine::new();
    let verdict = engine.verify("(not (and (+ a b) (* c 1)))", "(or (not (+ b a)) (not c))");
    assert!(matches!(verdict, Verdict::Equivalent { .. }));
    let crossed = engine.verify("(and p q)", "(+ p q)");
    assert!(matches!(crossed, Verdict::Unproven { .. }));
}

#[test]
fn spellings_do_not_mix() {
    let engine = EggEngine::new();
    assert!(matches!(engine.verify("(add a 0)", "a"), Verdict::Unproven { .. }));
    assert!(matches!(engine.verify("(+ a 0)", "a"), Verdict::Equivalent { .. }));
}

#[test]
fn equivalent_graphs_evaluate_alike() {
    let mut ga = Ssa::new();
    let (a, b) = (ga.new_param(), ga.new_param());
    let one = ga.constant(1);
    let m = ga.mul(b, one);
    let out_a = ga.add(a, m);
    let mut gb = Ssa::new();
    let (c, d) = (gb.new_param(), gb.new_param());
    let out_b = gb.add(d, c);
    let verdict = EggEngine::new().verify_ssa_roots(&ga, out_a, &gb, out_b);
    assert!(matches!(verdict, Verdict::Equivalent { .. }));
    for args in [[2, 3], [-7, 11], [0, 0]] {
        assert_eq!(ga.evaluate(out_a, &args), gb.evaluate(out_b, &args));
    }
}

/// A parameter is known by its position, not by its place among the
/// parameters.
#[test]
fn parameters_of_two_graphs_meet_by_position() {
    let mut ga = Ssa::new();
    let zero = ga.constant(0);
    let x = ga.new_param();
    let out_a = ga.add(x, zero);
    let mut gb = Ssa::new();
    gb.new_param();
    let second = gb.new_param();
    let verdict = EggEngine::new().verify_ssa_roots(&ga, out_a, &gb, second);
    assert!(matches!(verdict, Verdict::Equivalent { .. }));
    assert_eq!(ga.evaluate(out_a, &[5]), Ok(5));
    assert_eq!(gb.evaluate(second, &[1, 5]), Ok(5));
}

#[test]
fn timed_checks_give_the_verdict_and_a_time() {
    let engine = EggEngine::new().clone();
    let (verdict, elapsed_ms) = engine.verify_timed("(+ (+ a b) c)", "(+ a (+ b c))");
    assert!(matches!(verdict, Verdict::Equivalent { .. }));
    assert!(elapsed_ms <= time_limit().as_millis());
}

/// What a graph does not define is equivalent to nothing, not even to itself.
#[test]
fn broken_graphs_are_never_merged() {
    let engine = EggEngine::new();
    let unproven = Verdict::Unproven { reason: "saturation exhausted without merge".to_string() };
    let empty = Ssa::new();
    assert_eq!(engine.verify_ssa_roots(&empty, Value(4), &empty, Value(4)), unproven);

    let mut dangling = Ssa::new();
    let a = dangling.new_param();
    let s = dangling.add(a, Value(99));
    assert_eq!(engine.verify_ssa_roots(&dangling, s, &dangling, s), unproven);
    assert_eq!(engine.verify_ssa(&dangling, &dangling, s), unproven);
    assert_eq!(engine.verify_ssa_roots(&dangling, a, &dangling, s), unproven);
    assert!(matches!(
        engine.verify_ssa_roots(&dangling, a, &dangling, a),
        Verdict::Equivalent { .. }
    ));

    let mut cyclic = Ssa::new();
    let forward = cyclic.add(Value(1), Value(1));
    cyclic.add(forward, forward);
    assert_eq!(engine.verify_ssa_roots(&cyclic, forward, &cyclic, forward), unproven);
}

#[test]
fn trailing_parameters_change_nothing() {
    let mut before = Ssa::new();
    let (a, b) = (before.new_param(), before.new_param());
    before.add(a, b);
    let mut after = Ssa::new();
    let (x, y) = (after.new_param(), after.new_param());
    let out = after.add(y, x);
    assert!(matches!(
        EggEngine::new().verify_ssa(&before, &after, out),
        Verdict::Equivalent { .. }
    ));
    before.new_param();
    before.new_param();
    assert!(matches!(
        EggEngine::new().verify_ssa(&before, &after, out),
        Verdict::Equivalent { .. }
    ));
}
