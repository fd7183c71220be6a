//! Records of finished jobs.

use ouroboros_dfg::engine::Verdict;
use ouroboros_dfg::telemetry::{TelemetrySink, VerdictKind, VerificationRecord};
use serde_json::Value;

fn green(id: u64, iterations: usize, nodes: usize, ms: u128) -> VerificationRecord {
    VerificationRecord::new(id, &Verdict::Equivalent { iterations, nodes }, ms)
}

fn yellow(id: u64, reason: &str, ms: u128) -> VerificationRecord {
    VerificationRecord::new(id, &Verdict::Unproven { reason: reason.to_string() }, ms)
}

/// The share of green records as a number.
fn ratio(sink: &TelemetrySink) -> Option<f64> {
    sink.green_yellow_ratio().map(|share| share.greens as f64 / share.total as f64)
}

#[test]
fn equivalent_maps_to_green_with_metrics() {
    let rec = green(7, 12, 340, 5);
    assert_eq!(rec.verdict_kind(), VerdictKind::Green);
    assert_eq!(rec.job_id(), 7);
    assert_eq!(rec.iterations(), 12);
    assert_eq!(rec.nodes(), 340);
    assert_eq!(rec.elapsed_ms(), 5);
}

#[test]
fn unproven_maps_to_yellow_without_metrics() {
    let rec = yellow(3, "no merge", 42);
    assert_eq!(rec.verdict_kind(), VerdictKind::Yellow);
    assert_eq!(rec.iterations(), 0);
    assert_eq!(rec.nodes(), 0);
    assert_eq!(rec.elapsed_ms(), 42);
}

#[test]
fn two_green_one_yellow_ratio_is_two_thirds() {
    let mut sink = TelemetrySink::new();
    sink.record(green(1, 3, 30, 1));
    sink.record(green(2, 4, 40, 1));
    sink.record(yellow(3, "x", 2));
    let share = ratio(&sink).expect("non-empty");
    assert!((share - 2.0 / 3.0).abs() < 1e-9, "got {share}");
}

#[test]
fn empty_sink_ratio_is_none_and_jsonl_is_empty() {
    let sink = TelemetrySink::new();
    assert!(sink.is_empty());
    assert_eq!(ratio(&sink), None);
    assert_eq!(sink.to_json_lines(), "");
}

#[test]
fn degenerate_ratios_are_zero_and_one() {
    let mut yellows_only = TelemetrySink::new();
    yellows_only.record(yellow(1, "y", 1));
    assert_eq!(ratio(&yellows_only), Some(0.0));

    let mut greens_only = TelemetrySink::new();
    greens_only.record(green(1, 1, 1, 1));
    assert_eq!(ratio(&greens_only), Some(1.0));
}

#[test]
fn json_lines_round_trip_through_mirror_struct() {
    let mut sink = TelemetrySink::new();
    sink.record(green(11, 9, 210, 17));
    sink.record(yellow(12, "stuck", 250));

    let text = sink.to_json_lines();
    let lines: Vec<&str> = text.lines().collect();
    assert_eq!(lines.len(), 2);

    let first: Value = serde_json::from_str(lines[0]).expect("line 1 must parse");
    assert_eq!(first.as_object().unwrap().len(), 5);
    assert_eq!(first["job_id"].as_u64(), Some(11));
    assert_eq!(first["verdict_kind"].as_str(), Some("Green"));
    assert_eq!(first["iterations"].as_u64(), Some(9));
    assert_eq!(first["nodes"].as_u64(), Some(210));
    assert_eq!(first["elapsed_ms"].as_u64(), Some(17));

    let second: Value = serde_json::from_str(lines[1]).expect("line 2 must parse");
    assert_eq!(second["verdict_kind"].as_str(), Some("Yellow"));
    assert_eq!(second["job_id"].as_u64(), Some(12));
    assert_eq!(second["elapsed_ms"].as_u64(), Some(250));
}

#[test]
fn json_lines_are_exact() {
    let mut sink = TelemetrySink::new();
    sink.record(green(0, 5000, 1_000_000, u128::MAX));
    sink.record(yellow(u64::MAX, "\"quoted\"", 0));
    assert_eq!(
        sink.to_json_lines(),
        "{\"job_id\":0,\"verdict_kind\":\"Green\",\"iterations\":5000,\"nodes\":1000000,\
         \"elapsed_ms\":340282366920938463463374607431768211455}\n\
         {\"job_id\":18446744073709551615,\"verdict_kind\":\"Yellow\",\"iterations\":0,\
         \"nodes\":0,\"elapsed_ms\":0}\n"
    );
}

#[test]
fn records_keep_the_order_of_arrival() {
    let mut sink = TelemetrySink::default();
    for id in [9, 4, 7] {
        sink.record(green(id, 1, 1, 1));
    }
    assert_eq!(sink.len(), 3);
    let ids: Vec<u64> = sink.records().iter().map(|r| r.job_id()).collect();
    assert_eq!(ids, vec![9, 4, 7]);
}

#[test]
fn kinds_come_from_verdicts() {
    let proved = Verdict::Equivalent { iterations: 1, nodes: 2 };
    let open = Verdict::Unproven { reason: String::new() };
    assert_eq!(VerdictKind::from(&proved), VerdictKind::Green);
    assert_eq!(VerdictKind::from(&open), VerdictKind::Yellow);
}

#[test]
fn restored_records_keep_their_fields() {
    let kept = VerificationRecord::restore(3, VerdictKind::Yellow, 7, 8, 9);
    assert_eq!(kept.job_id(), 3);
    assert_eq!(kept.verdict_kind(), VerdictKind::Yellow);
    assert_eq!((kept.iterations(), kept.nodes(), kept.elapsed_ms()), (7, 8, 9));
    assert_eq!(VerificationRecord::restore(7, VerdictKind::Green, 12, 340, 5), green(7, 12, 340, 5));
}

/// Records with equal digits in different fields have different lines.
#[test]
fn lines_tell_records_apart() {
    let records = [
        green(1, 11, 1, 1),
        green(11, 1, 1, 1),
        green(1, 1, 11, 1),
        green(1, 1, 1, 11),
        VerificationRecord::restore(1, VerdictKind::Yellow, 11, 1, 1),
    ];
    let mut sink = TelemetrySink::new();
    for record in &records {
        sink.record(record.clone());
    }
    let text = sink.to_json_lines();
    let lines: Vec<&str> = text.lines().collect();
    assert_eq!(lines.len(), sink.len());
    assert!(text.ends_with('\n'));
    for (i, line) in lines.iter().enumerate() {
        for (j, other) in lines.iter().enumerate() {
            assert_eq!(line == other, i == j);
        }
    }
}
