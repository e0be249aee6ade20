//! The recurring-job runner: named maintenance jobs that fire once their
//! interval has elapsed since their last run.

use vstd::prelude::*;
use crate::text::{chars_of, same_chars};

verus! {

/// How long finished tasks are kept before the cleanup job deletes them.
pub const RETENTION_SECONDS: u64 = 86400;

/// The named jobs the runner knows.
#[derive(PartialEq, Eq, Structural, Clone, Copy, Debug)]
pub enum RecurringJob {
    /// Deletes finished tasks past the retention window.
    CleanTasks,
    /// Lists recent items of every registered channel.
    ChannelRefresh,
}

/// The stored name of each job.
pub open spec fn job_name(j: RecurringJob) -> Seq<char> {
    match j {
        RecurringJob::CleanTasks => seq![
            'D', 'B', '-', 'C', 'L', 'E', 'A', 'N', '-', 'T', 'A', 'S', 'K', 'S',
        ],
        RecurringJob::ChannelRefresh => seq![
            'B', 'G', '-', 'C', 'H', 'A', 'N', 'N', 'E', 'L', '-', 'F', 'E', 'T', 'C', 'H',
        ],
    }
}

impl RecurringJob {
    /// The job stored under `name`, if any.
    pub fn from_name(name: &str) -> (r: Option<RecurringJob>)
        ensures
            match r {
                Some(j) => job_name(j) == name@,
                None => forall|j: RecurringJob| job_name(j) != name@,
            },
    {
        let c = chars_of(name);
        let clean = vec!['D', 'B', '-', 'C', 'L', 'E', 'A', 'N', '-', 'T', 'A', 'S', 'K', 'S'];
        let refresh = vec![
            'B', 'G', '-', 'C', 'H', 'A', 'N', 'N', 'E', 'L', '-', 'F', 'E', 'T', 'C', 'H',
        ];
        assert(clean@ =~= job_name(RecurringJob::CleanTasks));
        assert(refresh@ =~= job_name(RecurringJob::ChannelRefresh));
        if same_chars(&c, &clean) {
            Some(RecurringJob::CleanTasks)
        } else if same_chars(&c, &refresh) {
            Some(RecurringJob::ChannelRefresh)
        } else {
            assert forall|j: RecurringJob| job_name(j) != name@ by {
                match j {
                    RecurringJob::CleanTasks => {},
                    RecurringJob::ChannelRefresh => {},
                }
            }
            None
        }
    }
}

/// A recurring job as stored: its name, when it last ran, and the least
/// number of seconds between two runs.
pub struct PersistentJob {
    pub id: isize,
    pub name: String,
    pub last_exec: u64,
    pub interval: u64,
}

/// Whether `j` is due at `now`: at least its interval has elapsed since its
/// last run. A clock that reads earlier than the last run makes no job due.
pub open spec fn is_due(j: PersistentJob, now: u64) -> bool {
    j.last_exec <= now && now - j.last_exec >= j.interval
}

/// A job after a run that started at `now`.
pub open spec fn fired(j: PersistentJob, now: u64) -> PersistentJob {
    PersistentJob { last_exec: now, ..j }
}

impl PersistentJob {
    /// Whether this job is due at `now`.
    pub fn due(&self, now: u64) -> (r: bool)
        ensures
            r == is_due(*self, now),
    {
        self.last_exec <= now && now - self.last_exec >= self.interval
    }
}

/// Stamps every job that is due at `now` with `now` as its last run, before
/// its body runs, and returns their positions, in order. The stamp stands
/// whatever the body then does, so a failing job waits out its interval.
pub fn fire_due(jobs: &mut Vec<PersistentJob>, now: u64) -> (r: Vec<usize>)
    ensures
        final(jobs)@.len() == old(jobs)@.len(),
        forall|k: int|
            0 <= k < old(jobs)@.len() ==> #[trigger] final(jobs)@[k] == if is_due(old(jobs)@[k], now) {
                fired(old(jobs)@[k], now)
            } else {
                old(jobs)@[k]
            },
        forall|k: int| 0 <= k < old(jobs)@.len() ==> (r@.contains(k as usize) <==> is_due(#[trigger] old(jobs)@[k], now)),
        forall|a: int, b: int| 0 <= a < b < r@.len() ==> r@[a] < r@[b],
{
    let ghost before = jobs@;
    let mut r: Vec<usize> = Vec::new();
    let mut i: usize = 0;
    while i < jobs.len()
        invariant
            i <= jobs@.len() == before.len(),
            before == old(jobs)@,
            forall|k: int|
                0 <= k < i ==> #[trigger] jobs@[k] == if is_due(before[k], now) {
                    fired(before[k], now)
                } else {
                    before[k]
                },
            forall|k: int| i <= k < before.len() ==> #[trigger] jobs@[k] == before[k],
            forall|k: int| 0 <= k < before.len() ==> (r@.contains(k as usize) <==> (k < i && is_due(#[trigger] before[k], now))),
            forall|a: int| 0 <= a < r@.len() ==> r@[a] < i,
            forall|a: int, b: int| 0 <= a < b < r@.len() ==> r@[a] < r@[b],
        decreases before.len() - i,
    {
        if jobs[i].due(now) {
            jobs[i].last_exec = now;
            let ghost rb = r@;
            r.push(i);
            assert forall|k: int| 0 <= k < before.len() implies (r@.contains(k as usize) <==> (k < i + 1 && is_due(#[trigger] before[k], now))) by {
                if k == i {
                    assert(r@[rb.len() as int] == i);
                } else {
                    if rb.contains(k as usize) {
                        let x = choose|x: int| 0 <= x < rb.len() && rb[x] == k as usize;
                        assert(r@[x] == k as usize);
                    }
                    if r@.contains(k as usize) {
                        let x = choose|x: int| 0 <= x < r@.len() && r@[x] == k as usize;
                        if x < rb.len() {
                            assert(rb[x] == k as usize);
                        }
                    }
                }
            }
        }
        i = i + 1;
    }
    r
}

/// Runs never come closer than the interval: once a job has been stamped
/// at `t1`, it is due at `t2` only when `t2` is at least `t1` plus its
/// interval, whatever the clock read in between and however its runs ended.
pub proof fn lemma_runs_respect_interval(j: PersistentJob, t1: u64, t2: u64)
    ensures
        is_due(fired(j, t1), t2) ==> t2 >= t1 + j.interval,
        t2 < t1 ==> !is_due(fired(j, t1), t2),
{
}

} // verus!
