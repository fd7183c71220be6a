//! The bookkeeping of checks that run in the background.
//!
//! Jobs are submitted, run elsewhere, and are drained once they are done.
//! What is counted and recorded on the way is decided here.

use crate::engine::Verdict;
use crate::telemetry::{record_of, TelemetrySink, VerificationRecord};
use vstd::prelude::*;

verus! {

/// A finished job: its number, its verdict and the milliseconds it took.
#[derive(Debug, Clone, PartialEq, Eq)]
pub struct Completed {
    pub job_id: u64,
    pub verdict: Verdict,
    pub elapsed_ms: u128,
}

/// Number of jobs that were submitted and not yet drained.
#[derive(Debug, Clone, Copy, PartialEq, Eq, Structural)]
pub struct JobCounter {
    outstanding: usize,
}

impl View for JobCounter {
    type V = usize;

    closed spec fn view(&self) -> usize {
        self.outstanding
    }
}

impl Default for JobCounter {
    fn default() -> (res: Self)
        ensures
            res@ == 0,
    {
        JobCounter { outstanding: 0 }
    }
}

impl JobCounter {
    /// No job is outstanding.
    pub fn new() -> (res: Self)
        ensures
            res@ == 0,
    {
        JobCounter { outstanding: 0 }
    }

    /// A job was submitted.
    pub fn submitted(&mut self)
        ensures
            final(self)@ == old(self)@.wrapping_add(1),
    {
        self.outstanding = self.outstanding.wrapping_add(1);
    }

    /// A job was drained.
    pub fn drained(&mut self)
        ensures
            final(self)@ == old(self)@.wrapping_sub(1),
    {
        self.outstanding = self.outstanding.wrapping_sub(1);
    }

    /// Number of jobs that were submitted and not yet drained.
    pub fn outstanding(&self) -> (res: usize)
        ensures
            res == self@,
    {
        self.outstanding
    }
}

/// Take over the finished jobs: each is counted as drained, recorded, and
/// handed on with its verdict, in the order in which they finished.
pub fn drain(
    counter: &mut JobCounter,
    sink: &mut TelemetrySink,
    completed: Vec<Completed>,
) -> (res: Vec<(u64, Verdict)>)
    ensures
        res@ == Seq::new(
            completed@.len(),
            |i: int| (completed@[i].job_id, completed@[i].verdict),
        ),
        final(counter)@ == old(counter)@.wrapping_sub(completed@.len() as usize),
        final(sink)@.len() == old(sink)@.len() + completed@.len(),
        final(sink)@.take(old(sink)@.len() as int) == old(sink)@,
        forall|i: int|
            0 <= i < completed@.len() ==> (#[trigger] final(sink)@[old(sink)@.len() + i])@
                == record_of(
                completed@[i].job_id,
                completed@[i].verdict,
                completed@[i].elapsed_ms,
            ),
{
    let ghost jobs = completed@;
    assert(jobs.len() == completed.len());
    let ghost start = sink@;
    let ghost count = counter@;
    let mut done: Vec<(u64, Verdict)> = Vec::new();
    for job in it: completed
        invariant
            it.seq() == jobs,
            jobs.len() <= usize::MAX,
            done@ == Seq::new(it.index() as nat, |i: int| (jobs[i].job_id, jobs[i].verdict)),
            counter@ == count.wrapping_sub(it.index() as usize),
            sink@.len() == start.len() + it.index(),
            sink@.take(start.len() as int) == start,
            forall|i: int|
                0 <= i < it.index() ==> (#[trigger] sink@[start.len() + i])@ == record_of(
                    jobs[i].job_id,
                    jobs[i].verdict,
                    jobs[i].elapsed_ms,
                ),
    {
        counter.drained();
        sink.record(VerificationRecord::new(job.job_id, &job.verdict, job.elapsed_ms));
        done.push((job.job_id, job.verdict));
        assert(sink@.take(start.len() as int) =~= start);
    }
    assert(sink@.take(start.len() as int) =~= start);
    done
}

/// Submitting jobs one by one adds up, and draining as many as were submitted
/// leaves as many outstanding as before.
pub proof fn law_draining_undoes_submitting(outstanding: usize, n: usize)
    ensures
        outstanding.wrapping_add(0) == outstanding,
        n < usize::MAX ==> outstanding.wrapping_add(n).wrapping_add(1) == outstanding.wrapping_add(
            (n + 1) as usize,
        ),
        outstanding.wrapping_add(n).wrapping_sub(n) == outstanding,
{
}

/// Calls of the counter count: a submission adds one, a drain takes one away,
/// and a new counter stands at zero. Only at the ends of the machine's range
/// do they wrap.
pub proof fn law_the_counter_counts(c: &mut JobCounter, d: &mut JobCounter, new: JobCounter)
    requires
        call_ensures(JobCounter::submitted, (c,), ()),
        call_ensures(JobCounter::drained, (d,), ()),
        call_ensures(JobCounter::new, (), new),
    ensures
        old(c)@ < usize::MAX ==> final(c)@ == old(c)@ + 1,
        old(c)@ == usize::MAX ==> final(c)@ == 0,
        old(d)@ > 0 ==> final(d)@ == old(d)@ - 1,
        old(d)@ == 0 ==> final(d)@ == usize::MAX,
        *old(d) == *final(c) ==> final(d)@ == old(c)@,
        new@ == 0,
{
}

/// Asking the counter gives the number at which it stands.
pub proof fn law_the_counter_tells_its_number(c: &JobCounter, n: usize)
    requires
        call_ensures(JobCounter::outstanding, (c,), n),
    ensures
        n == c@,
{
}

/// A drain hands on every finished job with its own verdict, in order, takes
/// as many off the counter, and leaves one record for each behind those that
/// were there: with the job's number and time, green exactly for an
/// equivalence, and with the metrics of that equivalence.
pub proof fn law_drains_account_for_every_job(
    counter: &mut JobCounter,
    sink: &mut TelemetrySink,
    completed: Vec<Completed>,
    res: Vec<(u64, Verdict)>,
    i: int,
)
    requires
        call_ensures(drain, (counter, sink, completed), res),
        0 <= i < completed@.len(),
    ensures
        res@.len() == completed@.len(),
        res@[i].0 == completed@[i].job_id,
        res@[i].1 == completed@[i].verdict,
        old(counter)@ >= completed@.len() ==> final(counter)@ == old(counter)@ - completed@.len(),
        final(sink)@.len() == old(sink)@.len() + completed@.len(),
        forall|j: int| 0 <= j < old(sink)@.len() ==> final(sink)@[j] == #[trigger] old(sink)@[j],
        ({
            let r = final(sink)@[old(sink)@.len() + i]@;
            &&& r.job_id == completed@[i].job_id
            &&& r.elapsed_ms == completed@[i].elapsed_ms
            &&& r.verdict_kind is Green <==> completed@[i].verdict is Equivalent
            &&& completed@[i].verdict matches Verdict::Equivalent { iterations, nodes }
                ==> r.iterations == iterations && r.nodes == nodes
            &&& completed@[i].verdict is Unproven ==> r.iterations == 0 && r.nodes == 0
        }),
{
    assert(completed@.len() == completed.len());
    let start = old(sink)@.len() as int;
    assert forall|j: int| 0 <= j < start implies final(sink)@[j] == #[trigger] old(sink)@[j] by {
        assert(final(sink)@.take(start)[j] == final(sink)@[j]);
    }
}

} // verus!
