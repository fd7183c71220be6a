//! Bookkeeping of background jobs.

use ouroboros_dfg::engine::{EggEngine, Verdict};
use ouroboros_dfg::jobs::{drain, Completed, JobCounter};
use ouroboros_dfg::telemetry::{TelemetrySink, VerdictKind};

fn finished(job_id: u64, before: &str, after: &str) -> Completed {
    let (verdict, elapsed_ms) = EggEngine::new().verify_timed(before, after);
    Completed { job_id, verdict, elapsed_ms }
}

#[test]
fn draining_records_and_hands_on_in_order() {
    let mut counter = JobCounter::new();
    let mut sink = TelemetrySink::new();
    for _ in 0..3 {
        counter.submitted();
    }
    assert_eq!(counter.outstanding(), 3);
    let done = drain(
        &mut counter,
        &mut sink,
        vec![finished(9, "(+ a b)", "(* a b)"), finished(1, "(+ a b)", "(+ b a)")],
    );
    assert_eq!(counter.outstanding(), 1);
    assert_eq!(done.len(), 2);
    assert_eq!((done[0].0, done[1].0), (9, 1));
    assert!(matches!(done[0].1, Verdict::Unproven { .. }));
    assert!(matches!(done[1].1, Verdict::Equivalent { .. }));
    assert_eq!(sink.len(), 2);
    assert_eq!(sink.records()[0].verdict_kind(), VerdictKind::Yellow);
    assert_eq!(sink.records()[1].job_id(), 1);

    let rest = drain(&mut counter, &mut sink, vec![finished(5, "(+ a b", "x")]);
    assert_eq!(rest.len(), 1);
    assert_eq!(counter.outstanding(), 0);
    let share = sink.green_yellow_ratio().unwrap();
    assert_eq!((share.greens, share.total), (1, 3));
}

#[test]
fn draining_nothing_changes_nothing() {
    let mut counter = JobCounter::default();
    counter.submitted();
    let mut sink = TelemetrySink::new();
    assert!(drain(&mut counter, &mut sink, vec![]).is_empty());
    assert_eq!(counter.outstanding(), 1);
    assert!(sink.is_empty());
}

#[test]
fn submitting_and_draining_cancel_out() {
    let mut counter = JobCounter::new();
    counter.drained();
    assert_eq!(counter.outstanding(), usize::MAX);
    counter.submitted();
    assert_eq!(counter, JobCounter::new());
}
