//! The resource envelope of every saturation run.
//!
//! Equality saturation can exhaust memory or never settle, so each run is
//! bounded by the constants below: rewriting iterations, wall-clock time,
//! nodes of the e-graph, and the back-off of rules that match too often.
//! There is one lawful configuration, [`RunnerLimits::law_mandated`].

use crate::text::{decimal, push_decimal};
use crate::time::duration_nanos;
use std::time::Duration;
use vstd::prelude::*;

verus! {

/// Maximum number of rewriting iterations.
pub const ITERATION_LIMIT: u64 = 5000;

/// Maximum wall-clock time of one run, in seconds.
pub const TIME_LIMIT_SECS: u64 = 10;

/// Maximum number of e-graph nodes.
pub const NODE_LIMIT: u64 = 1_000_000;

/// Matches of a rule before the rule is banned.
pub const BACKOFF_MATCH_LIMIT: usize = 5000;

/// Iterations for which a banned rule stays banned.
pub const BACKOFF_BAN_LENGTH: usize = 3;

/// Maximum wall-clock time of one run.
pub fn time_limit() -> (res: Duration)
    ensures
        duration_nanos(res) == TIME_LIMIT_SECS * 1_000_000_000,
{
    Duration::from_secs(TIME_LIMIT_SECS)
}

/// The complete resource envelope of a run.
#[derive(Debug, Clone, Copy, PartialEq, Eq)]
pub struct RunnerLimits {
    pub iteration_limit: u64,
    pub time_limit: Duration,
    pub node_limit: u64,
    pub backoff_match_limit: usize,
    pub backoff_ban_length: usize,
}

/// The bounds as numbers.
pub struct Bounds {
    pub iteration_limit: nat,
    pub time_limit_nanos: nat,
    pub node_limit: nat,
    pub backoff_match_limit: nat,
    pub backoff_ban_length: nat,
}

impl Bounds {
    /// The mandated bounds.
    pub open spec fn mandated() -> Self {
        Bounds {
            iteration_limit: ITERATION_LIMIT as nat,
            time_limit_nanos: (TIME_LIMIT_SECS * 1_000_000_000) as nat,
            node_limit: NODE_LIMIT as nat,
            backoff_match_limit: BACKOFF_MATCH_LIMIT as nat,
            backoff_ban_length: BACKOFF_BAN_LENGTH as nat,
        }
    }
}

impl View for RunnerLimits {
    type V = Bounds;

    open spec fn view(&self) -> Bounds {
        Bounds {
            iteration_limit: self.iteration_limit as nat,
            time_limit_nanos: duration_nanos(self.time_limit),
            node_limit: self.node_limit as nat,
            backoff_match_limit: self.backoff_match_limit as nat,
            backoff_ban_length: self.backoff_ban_length as nat,
        }
    }
}

impl Default for RunnerLimits {
    fn default() -> (res: Self)
        ensures
            res.lawful(),
    {
        RunnerLimits::law_mandated()
    }
}

impl RunnerLimits {
    /// Every bound is the mandated one.
    pub open spec fn lawful(self) -> bool {
        self@ == Bounds::mandated()
    }

    /// The single lawful configuration.
    pub fn law_mandated() -> (res: Self)
        ensures
            res.lawful(),
    {
        RunnerLimits {
            iteration_limit: ITERATION_LIMIT,
            time_limit: time_limit(),
            node_limit: NODE_LIMIT,
            backoff_match_limit: BACKOFF_MATCH_LIMIT,
            backoff_ban_length: BACKOFF_BAN_LENGTH,
        }
    }

    /// The complaint about the first bound that drifted from the mandated one.
    pub open spec fn first_drift(self) -> Option<Seq<char>> {
        if self.iteration_limit != ITERATION_LIMIT {
            Some("iteration limit drifted from law"@)
        } else if duration_nanos(self.time_limit) != TIME_LIMIT_SECS * 1_000_000_000 {
            Some("time limit drifted from law"@)
        } else if self.node_limit != NODE_LIMIT {
            Some("node limit drifted from law"@)
        } else if self.backoff_match_limit != BACKOFF_MATCH_LIMIT {
            Some("backoff match_limit drifted from law"@)
        } else if self.backoff_ban_length != BACKOFF_BAN_LENGTH {
            Some("backoff ban_length drifted from law"@)
        } else {
            None
        }
    }

    /// The complaint about the first bound that drifted from the mandated
    /// one; none if the configuration is lawful.
    pub fn drift(&self) -> (res: Option<&'static str>)
        ensures
            match res {
                Some(complaint) => self.first_drift() == Some(complaint@),
                None => self.first_drift() is None,
            },
            res is None <==> self.lawful(),
    {
        if self.iteration_limit != ITERATION_LIMIT {
            Some("iteration limit drifted from law")
        } else if !(self.time_limit == time_limit()) {
            Some("time limit drifted from law")
        } else if self.node_limit != NODE_LIMIT {
            Some("node limit drifted from law")
        } else if self.backoff_match_limit != BACKOFF_MATCH_LIMIT {
            Some("backoff match_limit drifted from law")
        } else if self.backoff_ban_length != BACKOFF_BAN_LENGTH {
            Some("backoff ban_length drifted from law")
        } else {
            None
        }
    }

    /// A run-time guard in front of every run: panics if a bound drifted,
    /// which verified callers rule out.
    pub fn assert_lawful(&self)
        requires
            self.lawful(),
    {
        vstd::pervasive::runtime_assert(self.drift().is_none());
    }

    /// The bounds as one line of text.
    pub open spec fn line(self) -> Seq<char> {
        "RunnerLimits(iterations="@ + decimal(self.iteration_limit as nat) + ", time="@ + decimal(
            duration_nanos(self.time_limit) / 1_000_000_000,
        ) + "s, nodes="@ + decimal(self.node_limit as nat) + ", backoff(match="@ + decimal(
            self.backoff_match_limit as nat,
        ) + ", ban="@ + decimal(self.backoff_ban_length as nat) + "))"@
    }

    /// The bounds as one line of text.
    pub fn to_string(&self) -> (res: String)
        ensures
            res@ == self.line(),
    {
        let mut out = String::new();
        out.append("RunnerLimits(iterations=");
        push_decimal(&mut out, self.iteration_limit as u128);
        out.append(", time=");
        push_decimal(&mut out, self.time_limit.as_secs() as u128);
        out.append("s, nodes=");
        push_decimal(&mut out, self.node_limit as u128);
        out.append(", backoff(match=");
        push_decimal(&mut out, self.backoff_match_limit as u128);
        out.append(", ban=");
        push_decimal(&mut out, self.backoff_ban_length as u128);
        out.append("))");
        assert(out@ =~= self.line());
        out
    }
}

/// The mandated bounds are 5000 iterations, ten seconds, a million nodes, and
/// a ban of three iterations after 5000 matches.
pub proof fn law_mandated_bounds(limits: RunnerLimits)
    ensures
        limits.lawful() <==> {
            &&& limits.iteration_limit == 5000
            &&& duration_nanos(limits.time_limit) == 10_000_000_000
            &&& limits.node_limit == 1_000_000
            &&& limits.backoff_match_limit == 5000
            &&& limits.backoff_ban_length == 3
        },
{
}

/// A complaint is about the first bound that is not the mandated one; there
/// is none exactly if all bounds are.
pub proof fn law_complaints_name_the_first_drift(limits: RunnerLimits)
    ensures
        limits.first_drift() is None <==> limits.lawful(),
        limits.iteration_limit != 5000 ==> limits.first_drift() == Some(
            "iteration limit drifted from law"@,
        ),
        limits.iteration_limit == 5000 && duration_nanos(limits.time_limit) != 10_000_000_000
            ==> limits.first_drift() == Some("time limit drifted from law"@),
        limits.iteration_limit == 5000 && duration_nanos(limits.time_limit) == 10_000_000_000
            && limits.node_limit != 1_000_000 ==> limits.first_drift() == Some(
            "node limit drifted from law"@,
        ),
        limits.iteration_limit == 5000 && duration_nanos(limits.time_limit) == 10_000_000_000
            && limits.node_limit == 1_000_000 && limits.backoff_match_limit != 5000
            ==> limits.first_drift() == Some("backoff match_limit drifted from law"@),
        limits.iteration_limit == 5000 && duration_nanos(limits.time_limit) == 10_000_000_000
            && limits.node_limit == 1_000_000 && limits.backoff_match_limit == 5000
            && limits.backoff_ban_length != 3 ==> limits.first_drift() == Some(
            "backoff ban_length drifted from law"@,
        ),
{
}

/// The line of a configuration holds its five bounds, each behind its name.
pub proof fn law_lines_hold_the_bounds(limits: RunnerLimits)
    ensures
        limits.line() == "RunnerLimits(iterations="@ + decimal(limits.iteration_limit as nat)
            + ", time="@ + decimal(duration_nanos(limits.time_limit) / 1_000_000_000)
            + "s, nodes="@ + decimal(limits.node_limit as nat) + ", backoff(match="@ + decimal(
            limits.backoff_match_limit as nat,
        ) + ", ban="@ + decimal(limits.backoff_ban_length as nat) + "))"@,
{
}

/// The one configuration has the mandated bounds, and is the only one without
/// a complaint.
pub proof fn law_the_mandated_configuration(
    mandated: RunnerLimits,
    limits: &RunnerLimits,
    complaint: Option<&'static str>,
)
    requires
        call_ensures(RunnerLimits::law_mandated, (), mandated),
        call_ensures(RunnerLimits::drift, (limits,), complaint),
    ensures
        mandated.iteration_limit == 5000,
        duration_nanos(mandated.time_limit) == 10_000_000_000,
        mandated.node_limit == 1_000_000,
        mandated.backoff_match_limit == 5000,
        mandated.backoff_ban_length == 3,
        complaint is None <==> {
            &&& limits.iteration_limit == 5000
            &&& duration_nanos(limits.time_limit) == 10_000_000_000
            &&& limits.node_limit == 1_000_000
            &&& limits.backoff_match_limit == 5000
            &&& limits.backoff_ban_length == 3
        },
        complaint matches Some(c) ==> limits.first_drift() == Some(c@),
{
}

} // verus!
