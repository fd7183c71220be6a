//! What the Python extension hands out.

use ouroboros_dfg::e2e_proof::report_on;
use ouroboros_dfg::engine::{EggEngine, Verdict};
use ouroboros_dfg::python_api::{
    law_limits, prove_refactor_entries, report_entries, verdict_entries, verify_entries, Entry,
};

fn text(s: &str) -> Entry {
    Entry::Text(s.to_string())
}

#[test]
fn verdicts_become_dictionaries() {
    let green = verdict_entries(&Verdict::Equivalent { iterations: 2, nodes: 9 });
    assert_eq!(
        green,
        vec![
            ("verdict", text("equivalent")),
            ("iterations", Entry::Count(2)),
            ("nodes", Entry::Count(9)),
        ]
    );
    let yellow = verdict_entries(&Verdict::Unproven { reason: "why".to_string() });
    assert_eq!(yellow, vec![("verdict", text("unproven")), ("reason", text("why"))]);
}

#[test]
fn reports_become_dictionaries() {
    let yellow = report_on("a", "b", 4, Verdict::Unproven { reason: "why".to_string() });
    assert_eq!(
        report_entries(&yellow, 6),
        vec![
            ("verdict", text("unproven")),
            ("iterations", Entry::Nothing),
            ("nodes", Entry::Nothing),
            ("lowered_before_len", Entry::Count(4)),
            ("lowered_after_len", Entry::Count(6)),
        ]
    );
}

#[test]
fn checks_become_dictionaries() {
    let engine = EggEngine::new();
    let green = verify_entries(&engine, "(+ a b)", "(+ b a)");
    assert_eq!(green[0], ("verdict", text("equivalent")));
    assert_eq!(green.len(), 3);
    let yellow = verify_entries(&engine, "(+ a b)", "(* a b)");
    assert_eq!(yellow[1], ("reason", text("saturation exhausted without merge")));
}

#[test]
fn refactorings_become_dictionaries() {
    let dict = prove_refactor_entries("r = (a + b) + c", "r = a + (b + c)").unwrap();
    assert_eq!(dict[0], ("verdict", text("equivalent")));
    assert!(matches!(dict[1], ("iterations", Entry::Count(n)) if n >= 1));
    assert!(matches!(dict[2], ("nodes", Entry::Count(n)) if n > 0));
    assert_eq!(dict[3], ("lowered_before_len", Entry::Count(5)));
    assert_eq!(dict[4], ("lowered_after_len", Entry::Count(5)));
    let open = prove_refactor_entries("r = a * 2", "r = 1 + a + 2").unwrap();
    assert_eq!(open[0], ("verdict", text("unproven")));
    assert_eq!(open[1], ("iterations", Entry::Nothing));
    assert_eq!(open[4], ("lowered_after_len", Entry::Count(5)));
    let err = prove_refactor_entries("r = 1.5", "r = 1").unwrap_err();
    assert!(err.starts_with("python frontend: unsupported"), "{err}");
}

#[test]
fn bounds_become_lines() {
    assert_eq!(
        law_limits(EggEngine::new().limits()),
        vec![
            "iteration_limit = 5000 (egg Runner::with_iter_limit)",
            "time_limit = 10s (egg Runner::with_time_limit)",
            "node_limit = 1000000 (egg Runner::with_node_limit)",
            "backoff_match_limit = 5000 (BackoffScheduler::with_initial_match_limit)",
            "backoff_ban_length = 3 (BackoffScheduler::with_ban_length)",
        ]
    );
}
