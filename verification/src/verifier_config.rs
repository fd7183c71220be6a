//! The bounds of the saturation runner as a plain configuration record.
//!
//! The numbers are those of [`crate::limits`].

use crate::time::duration_nanos;
use std::time::Duration;
use vstd::prelude::*;

verus! {

pub const ITERATION_LIMIT: usize = 5000;

pub const TIME_LIMIT_SECS: u64 = 10;

pub const NODE_LIMIT: usize = 1_000_000;

pub const MATCH_LIMIT: usize = 5000;

pub const BAN_LENGTH: usize = 3;

/// Configuration of the saturation runner.
pub struct VerifierConfig {
    pub iteration_limit: usize,
    pub time_limit: Duration,
    pub node_limit: usize,
    pub match_limit: usize,
    pub ban_length: usize,
}

impl VerifierConfig {
    /// The bounds are those of `limits`.
    pub open spec fn agrees_with(self, limits: crate::limits::RunnerLimits) -> bool {
        &&& self.iteration_limit == limits.iteration_limit
        &&& duration_nanos(self.time_limit) == duration_nanos(limits.time_limit)
        &&& self.node_limit == limits.node_limit
        &&& self.match_limit == limits.backoff_match_limit
        &&& self.ban_length == limits.backoff_ban_length
    }
}

impl Default for VerifierConfig {
    fn default() -> (res: Self)
        ensures
            res.iteration_limit == ITERATION_LIMIT,
            duration_nanos(res.time_limit) == TIME_LIMIT_SECS * 1_000_000_000,
            res.node_limit == NODE_LIMIT,
            res.match_limit == MATCH_LIMIT,
            res.ban_length == BAN_LENGTH,
    {
        VerifierConfig {
            iteration_limit: ITERATION_LIMIT,
            time_limit: Duration::from_secs(TIME_LIMIT_SECS),
            node_limit: NODE_LIMIT,
            match_limit: MATCH_LIMIT,
            ban_length: BAN_LENGTH,
        }
    }
}

/// The default configuration is the lawful one.
pub proof fn law_configurations_agree(
    config: VerifierConfig,
    limits: crate::limits::RunnerLimits,
)
    requires
        config.iteration_limit == ITERATION_LIMIT,
        duration_nanos(config.time_limit) == TIME_LIMIT_SECS * 1_000_000_000,
        config.node_limit == NODE_LIMIT,
        config.match_limit == MATCH_LIMIT,
        config.ban_length == BAN_LENGTH,
        limits.lawful(),
    ensures
        config.agrees_with(limits),
{
}

} // verus!
