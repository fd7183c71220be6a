//! The bounds of every run.

use ouroboros_dfg::limits::{
    time_limit, RunnerLimits, BACKOFF_BAN_LENGTH, BACKOFF_MATCH_LIMIT, ITERATION_LIMIT, NODE_LIMIT,
    TIME_LIMIT_SECS,
};
use ouroboros_dfg::verifier_config;
use ouroboros_dfg::verifier_config::VerifierConfig;
use std::time::Duration;

#[test]
fn constants_match_architectural_law() {
    assert_eq!(ITERATION_LIMIT, 5000);
    assert_eq!(time_limit(), Duration::from_secs(10));
    assert_eq!(NODE_LIMIT, 1_000_000);
    assert_eq!(BACKOFF_MATCH_LIMIT, 5000);
    assert_eq!(BACKOFF_BAN_LENGTH, 3);
}

#[test]
fn law_mandated_config_matches_constants() {
    let l = RunnerLimits::law_mandated();
    assert_eq!(l.iteration_limit, ITERATION_LIMIT);
    assert_eq!(l.time_limit, time_limit());
    assert_eq!(l.node_limit, NODE_LIMIT);
    assert_eq!(l.backoff_match_limit, BACKOFF_MATCH_LIMIT);
    assert_eq!(l.backoff_ban_length, BACKOFF_BAN_LENGTH);
}

#[test]
fn assert_lawful_accepts_mandated_config() {
    RunnerLimits::law_mandated().assert_lawful();
}

#[test]
fn display_contains_all_bounds() {
    let s = RunnerLimits::law_mandated().to_string();
    for needle in ["5000", "10s", "1000000", "ban=3"] {
        assert!(s.contains(needle), "display missing {needle}: {s}");
    }
    assert_eq!(
        s,
        "RunnerLimits(iterations=5000, time=10s, nodes=1000000, backoff(match=5000, ban=3))"
    );
}

#[test]
fn every_drift_has_its_complaint() {
    assert_eq!(RunnerLimits::default().drift(), None);
    let mut l = RunnerLimits::law_mandated();
    l.backoff_ban_length = 5;
    assert_eq!(l.drift(), Some("backoff ban_length drifted from law"));
    l.backoff_match_limit = 1000;
    assert_eq!(l.drift(), Some("backoff match_limit drifted from law"));
    l.node_limit = 10_000;
    assert_eq!(l.drift(), Some("node limit drifted from law"));
    l.time_limit = Duration::from_millis(10_001);
    assert_eq!(l.drift(), Some("time limit drifted from law"));
    l.iteration_limit = 999_999;
    assert_eq!(l.drift(), Some("iteration limit drifted from law"));
}

#[test]
fn seconds_are_rounded_down_in_the_line() {
    let mut l = RunnerLimits::law_mandated();
    l.time_limit = Duration::from_millis(2_999);
    assert!(l.to_string().contains("time=2s"));
}

#[test]
fn test_default_config_matches_spec() {
    let config = VerifierConfig::default();
    assert_eq!(config.iteration_limit, 5000);
    assert_eq!(config.time_limit, Duration::from_secs(10));
    assert_eq!(config.node_limit, 1_000_000);
    assert_eq!(config.match_limit, 5000);
    assert_eq!(config.ban_length, 3);
}

#[test]
fn test_constants_match_spec() {
    assert_eq!(verifier_config::ITERATION_LIMIT, 5000);
    assert_eq!(verifier_config::TIME_LIMIT_SECS, 10);
    assert_eq!(verifier_config::NODE_LIMIT, 1_000_000);
    assert_eq!(verifier_config::MATCH_LIMIT, 5000);
    assert_eq!(verifier_config::BAN_LENGTH, 3);
}

#[test]
fn both_configurations_agree() {
    let config = VerifierConfig::default();
    let limits = RunnerLimits::law_mandated();
    assert_eq!(config.iteration_limit as u64, limits.iteration_limit);
    assert_eq!(config.time_limit, limits.time_limit);
    assert_eq!(config.node_limit as u64, limits.node_limit);
    assert_eq!(config.match_limit, limits.backoff_match_limit);
    assert_eq!(config.ban_length, limits.backoff_ban_length);
    assert_eq!(TIME_LIMIT_SECS, verifier_config::TIME_LIMIT_SECS);
}
