//! The job tables: how jobs are queued, claimed, ended, retried and archived.

use crate::jobs;
use crate::jobs::{
    cancel_row, close_row, complete_row, fail_row, row_is_live, row_is_unfinished, EmbedJob, IndexJob,
    JobModel, JobRow,
};
use crate::text;
use crate::text::same_text;
use vstd::prelude::*;

verus! {

/// A table of jobs, in the order of their ids.
pub struct JobQueue<J: JobRow> {
    pub jobs: Vec<J>,
    /// The id of the next job.
    pub next_id: i64,
}

/// What a list of rows holds.
pub open spec fn models_of<J: JobRow>(rows: Seq<J>) -> Seq<JobModel> {
    Seq::new(rows.len(), |i: int| rows[i].model())
}

/// Ids grow from row to row and stay below the next one.
pub open spec fn in_order(s: Seq<JobModel>, next_id: i64) -> bool {
    &&& forall|i: int, j: int| 0 <= i < j < s.len() ==> (#[trigger] s[i]).id < (#[trigger] s[j]).id
    &&& forall|i: int| 0 <= i < s.len() ==> (#[trigger] s[i]).id < next_id
}

/// The table after a change of the job with the given id.
pub open spec fn changed(s: Seq<JobModel>, id: i64, change: spec_fn(JobModel) -> JobModel) -> Seq<
    JobModel,
> {
    Seq::new(
        s.len(),
        |i: int|
            if s[i].id == id {
                change(s[i])
            } else {
                s[i]
            },
    )
}

/// The job with the given id, looking from position `i` on.
pub open spec fn job_from(s: Seq<JobModel>, id: i64, i: int) -> Option<JobModel>
    decreases s.len() - i,
{
    if i < 0 || i >= s.len() {
        None
    } else if s[i].id == id {
        Some(s[i])
    } else {
        job_from(s, id, i + 1)
    }
}

/// The job with the given id.
pub open spec fn job_with(s: Seq<JobModel>, id: i64) -> Option<JobModel> {
    job_from(s, id, 0)
}

/// The newest of the first `n` jobs that stands for work on the scope that is
/// still to be done.
pub open spec fn newest_live(s: Seq<JobModel>, n: int, scope: Seq<char>) -> Option<i64>
    decreases n,
{
    if n <= 0 {
        None
    } else if s[n - 1].scope == scope && jobs::is_live(s[n - 1]) {
        Some(s[n - 1].id)
    } else {
        newest_live(s, n - 1, scope)
    }
}

/// The position of the first pending job, from `i` on.
pub open spec fn first_pending(s: Seq<JobModel>, i: int) -> Option<int>
    decreases s.len() - i,
{
    if i < 0 || i >= s.len() {
        None
    } else if s[i].status == "pending"@ {
        Some(i)
    } else {
        first_pending(s, i + 1)
    }
}

/// A choice of jobs.
#[derive(Clone, Copy, Debug, PartialEq, Eq, Structural)]
pub enum JobFilter {
    Pending,
    Failed,
    /// Pending or running.
    Unfinished,
    /// Neither pending nor running.
    Finished,
    /// Pending, running or failed.
    Open,
    /// Neither pending nor running nor failed.
    Ended,
    /// Running, and started before the given time.
    RunningSince(i64),
    /// Succeeded or cancelled, and resolved by the given time.
    Archivable(i64),
}

/// The job is among those chosen.
pub open spec fn is_chosen(m: JobModel, choice: JobFilter) -> bool {
    match choice {
        JobFilter::Pending => m.status == "pending"@,
        JobFilter::Failed => m.status == "failed"@,
        JobFilter::Unfinished => jobs::is_unfinished(m),
        JobFilter::Finished => !jobs::is_unfinished(m),
        JobFilter::Open => jobs::is_unfinished(m) || m.status == "failed"@,
        JobFilter::Ended => !jobs::is_unfinished(m) && m.status != "failed"@,
        JobFilter::RunningSince(before) => m.status == "running"@ && (m.started_at matches Some(t)
            && t < before),
        JobFilter::Archivable(by) => (m.status == "succeeded"@ || m.status == "cancelled"@) && (
        m.resolved_at matches Some(t) && t <= by),
    }
}

/// The chosen jobs, in the order of the table.
pub open spec fn chosen(s: Seq<JobModel>, choice: JobFilter) -> Seq<JobModel> {
    s.filter(|m: JobModel| is_chosen(m, choice))
}

/// The ids of the chosen jobs, in the order of the table.
pub open spec fn chosen_ids(s: Seq<JobModel>, choice: JobFilter) -> Seq<i64> {
    let c = chosen(s, choice);
    Seq::new(c.len(), |i: int| c[i].id)
}

/// At most the first `n` items.
pub open spec fn at_most<A>(s: Seq<A>, n: int) -> Seq<A> {
    if 0 <= n < s.len() {
        s.take(n)
    } else {
        s
    }
}

/// Every job of one choice, oldest first, then at most `recent` of another,
/// newest first.
pub open spec fn with_recent(
    s: Seq<JobModel>,
    active: JobFilter,
    others: JobFilter,
    recent: int,
) -> Seq<JobModel> {
    chosen(s, active) + at_most(chosen(s, others).reverse(), recent)
}

/// The job is a later one for the scope that was not lost to a failure.
pub open spec fn succeeds_job(m: JobModel, scope: Seq<char>, id: i64) -> bool {
    &&& m.scope == scope
    &&& m.id > id
    &&& jobs::is_unfinished(m) || m.status == "succeeded"@ || m.status == "cancelled"@ || m.status
        == "closed"@
}

/// Some job is a later one for the scope.
pub open spec fn has_successor(s: Seq<JobModel>, scope: Seq<char>, id: i64) -> bool {
    exists|i: int| 0 <= i < s.len() && succeeds_job(#[trigger] s[i], scope, id)
}

/// The job that the given one retries.
pub open spec fn parent_of(s: Seq<JobModel>, id: i64) -> Option<i64> {
    match job_with(s, id) {
        Some(m) => m.retry_of,
        None => None,
    }
}

/// How many jobs the chain of retries holds that ends with the given job,
/// following at most `steps` links.
pub open spec fn chain_len(s: Seq<JobModel>, id: i64, steps: nat) -> nat
    decreases steps,
{
    if steps == 0 {
        1
    } else {
        match parent_of(s, id) {
            Some(p) => 1 + chain_len(s, p, (steps - 1) as nat),
            None => 1,
        }
    }
}

/// The most links of a chain that are followed.
pub const MAX_CHAIN_STEPS: usize = 1024;

/// Tells whether a job is among those chosen.
fn row_is_chosen<J: JobRow>(job: &J, choice: JobFilter) -> (r: bool)
    ensures
        r == is_chosen(job.model(), choice),
{
    match choice {
        JobFilter::Pending => same_text(job.status(), "pending"),
        JobFilter::Failed => same_text(job.status(), "failed"),
        JobFilter::Unfinished => row_is_unfinished(job),
        JobFilter::Finished => !row_is_unfinished(job),
        JobFilter::Open => same_text(job.status(), "pending") || same_text(job.status(), "running")
            || same_text(job.status(), "failed"),
        JobFilter::Ended => !same_text(job.status(), "pending") && !same_text(
            job.status(),
            "running",
        ) && !same_text(job.status(), "failed"),
        JobFilter::RunningSince(before) => same_text(job.status(), "running") && (
        match job.started_at() {
            Some(t) => t < before,
            None => false,
        }),
        JobFilter::Archivable(by) => (same_text(job.status(), "succeeded") || same_text(
            job.status(),
            "cancelled",
        )) && (match job.resolved_at() {
            Some(t) => t <= by,
            None => false,
        }),
    }
}

impl<J: JobRow> JobQueue<J> {
    /// What the table holds.
    pub open spec fn model(self) -> Seq<JobModel> {
        models_of(self.jobs@)
    }

    /// The ids are in order.
    pub open spec fn well_formed(self) -> bool {
        in_order(self.model(), self.next_id)
    }

    /// An empty table.
    pub fn new() -> (r: Self)
        ensures
            r.model() == Seq::<JobModel>::empty(),
            r.next_id == 1,
            r.well_formed(),
    {
        let r = JobQueue { jobs: Vec::new(), next_id: 1 };
        assert(r.model() =~= Seq::<JobModel>::empty());
        r
    }

    /// The position of the job with the given id.
    fn position(&self, id: i64) -> (r: Option<usize>)
        requires
            self.well_formed(),
        ensures
            match r {
                Some(i) => i < self.jobs@.len() && self.model()[i as int].id == id && job_with(
                    self.model(),
                    id,
                ) == Some(self.model()[i as int]),
                None => job_with(self.model(), id) is None && forall|i: int|
                    0 <= i < self.model().len() ==> (#[trigger] self.model()[i]).id != id,
            },
    {
        let ghost s = self.model();
        let mut i: usize = 0;
        while i < self.jobs.len()
            invariant
                i <= self.jobs@.len(),
                s == self.model(),
                job_from(s, id, 0) == job_from(s, id, i as int),
                forall|k: int| 0 <= k < i ==> (#[trigger] s[k]).id != id,
            decreases self.jobs@.len() - i,
        {
            if self.jobs[i].id() == id {
                return Some(i);
            }
            assert(s[i as int].id != id);
            i += 1;
        }
        None
    }

    /// The jobs that are chosen, in the order of the table.
    fn select(&self, choice: JobFilter) -> (r: Vec<J>)
        ensures
            models_of(r@) == chosen(self.model(), choice),
    {
        let ghost s = self.model();
        let ghost keep = |m: JobModel| is_chosen(m, choice);
        let mut out: Vec<J> = Vec::new();
        let mut i: usize = 0;
        proof {
            reveal(Seq::filter);
            assert(models_of(out@) =~= s.take(0).filter(keep));
        }
        while i < self.jobs.len()
            invariant
                i <= self.jobs@.len(),
                s == self.model(),
                keep == (|m: JobModel| is_chosen(m, choice)),
                models_of(out@) == s.take(i as int).filter(keep),
            decreases self.jobs@.len() - i,
        {
            let job = &self.jobs[i];
            proof {
                reveal(Seq::filter);
                assert(s.take(i + 1).drop_last() =~= s.take(i as int));
                assert(s.take(i + 1).last() == job.model());
            }
            if row_is_chosen(job, choice) {
                let ghost before = out@;
                out.push(job.copied());
                assert(models_of(out@) =~= models_of(before).push(job.model()));
            }
            i += 1;
        }
        assert(s.take(i as int) =~= s);
        out
    }

    /// Ends a job: without an error it succeeded, with one it failed. A job that
    /// has come to an end stays as it is.
    pub fn complete(&mut self, id: i64, now: i64, error: Option<&str>)
        requires
            old(self).well_formed(),
        ensures
            final(self).well_formed(),
            final(self).next_id == old(self).next_id,
            final(self).model() == changed(
                old(self).model(),
                id,
                |m: JobModel| jobs::completed(m, now, text::opt_str(error)),
            ),
    {
        let ghost s = self.model();
        let ghost change = |m: JobModel| jobs::completed(m, now, text::opt_str(error));
        match self.position(id) {
            Some(i) => {
                complete_row(&mut self.jobs[i], now, error);
                proof {
                    lemma_changed_at(s, self.next_id, id, i as int, change);
                    assert(self.model() =~= s.update(i as int, change(s[i as int])));
                }
            },
            None => {
                assert(changed(s, id, change) =~= s);
            },
        }
    }

    /// Fails a job.
    pub fn fail(&mut self, id: i64, now: i64, reason: &str)
        requires
            old(self).well_formed(),
        ensures
            final(self).well_formed(),
            final(self).next_id == old(self).next_id,
            final(self).model() == changed(
                old(self).model(),
                id,
                |m: JobModel| jobs::failed(m, now, reason@),
            ),
    {
        let ghost s = self.model();
        let ghost change = |m: JobModel| jobs::failed(m, now, reason@);
        match self.position(id) {
            Some(i) => {
                fail_row(&mut self.jobs[i], now, reason);
                proof {
                    lemma_changed_at(s, self.next_id, id, i as int, change);
                    assert(self.model() =~= s.update(i as int, change(s[i as int])));
                }
            },
            None => {
                assert(changed(s, id, change) =~= s);
            },
        }
    }

    /// Cancels a job.
    pub fn cancel(&mut self, id: i64, now: i64)
        requires
            old(self).well_formed(),
        ensures
            final(self).well_formed(),
            final(self).next_id == old(self).next_id,
            final(self).model() == changed(
                old(self).model(),
                id,
                |m: JobModel| jobs::cancelled(m, now),
            ),
    {
        let ghost s = self.model();
        let ghost change = |m: JobModel| jobs::cancelled(m, now);
        match self.position(id) {
            Some(i) => {
                cancel_row(&mut self.jobs[i], now);
                proof {
                    lemma_changed_at(s, self.next_id, id, i as int, change);
                    assert(self.model() =~= s.update(i as int, change(s[i as int])));
                }
            },
            None => {
                assert(changed(s, id, change) =~= s);
            },
        }
    }

    /// Closes a job, with a resolved status or keeping the one it has.
    pub fn close(&mut self, id: i64, resolved: Option<&str>)
        requires
            old(self).well_formed(),
        ensures
            final(self).well_formed(),
            final(self).next_id == old(self).next_id,
            final(self).model() == changed(
                old(self).model(),
                id,
                |m: JobModel| jobs::closed(m, text::opt_str(resolved)),
            ),
    {
        let ghost s = self.model();
        let ghost change = |m: JobModel| jobs::closed(m, text::opt_str(resolved));
        match self.position(id) {
            Some(i) => {
                close_row(&mut self.jobs[i], resolved);
                proof {
                    lemma_changed_at(s, self.next_id, id, i as int, change);
                    assert(self.model() =~= s.update(i as int, change(s[i as int])));
                }
            },
            None => {
                assert(changed(s, id, change) =~= s);
            },
        }
    }

    /// Notes how far a job has come.
    pub fn update_progress(&mut self, id: i64, done: i64, total: i64)
        requires
            old(self).well_formed(),
        ensures
            final(self).well_formed(),
            final(self).next_id == old(self).next_id,
            final(self).model() == changed(
                old(self).model(),
                id,
                |m: JobModel| (JobModel { progress: done, total: total, ..m }),
            ),
    {
        let ghost s = self.model();
        let ghost change = |m: JobModel| (JobModel { progress: done, total: total, ..m });
        match self.position(id) {
            Some(i) => {
                self.jobs[i].set_progress(done, total);
                proof {
                    lemma_changed_at(s, self.next_id, id, i as int, change);
                    assert(self.model() =~= s.update(i as int, change(s[i as int])));
                }
            },
            None => {
                assert(changed(s, id, change) =~= s);
            },
        }
    }

    /// Tells whether a running job should stop: it is no longer running. An
    /// unknown job gives no reason to stop.
    pub fn should_stop(&self, id: i64) -> (r: bool)
        requires
            self.well_formed(),
        ensures
            r == (job_with(self.model(), id) matches Some(m) && m.status != "running"@),
    {
        match self.position(id) {
            Some(i) => !same_text(self.jobs[i].status(), "running"),
            None => false,
        }
    }

    /// The newest job for the scope that stands for work still to be done.
    fn find_live(&self, scope: &str) -> (r: Option<i64>)
        ensures
            r == newest_live(self.model(), self.model().len() as int, scope@),
    {
        let ghost s = self.model();
        let mut n: usize = self.jobs.len();
        while n > 0
            invariant
                n <= self.jobs@.len(),
                s == self.model(),
                newest_live(s, s.len() as int, scope@) == newest_live(s, n as int, scope@),
            decreases n,
        {
            let job = &self.jobs[n - 1];
            assert(s[n - 1] == job.model());
            if same_text(job.scope(), scope) && row_is_live(job) {
                return Some(job.id());
            }
            n -= 1;
        }
        None
    }

    /// Claims the oldest pending job, which is then running; gives its position.
    fn claim(&mut self, now: i64) -> (r: Option<usize>)
        requires
            old(self).well_formed(),
        ensures
            final(self).well_formed(),
            final(self).next_id == old(self).next_id,
            match r {
                Some(i) => {
                    &&& first_pending(old(self).model(), 0) == Some(i as int)
                    &&& i < old(self).model().len()
                    &&& i < final(self).jobs@.len()
                    &&& final(self).model() == old(self).model().update(
                        i as int,
                        jobs::claimed(old(self).model()[i as int], now),
                    )
                },
                None => {
                    &&& first_pending(old(self).model(), 0) is None
                    &&& final(self).model() == old(self).model()
                },
            },
    {
        let ghost s = self.model();
        let mut i: usize = 0;
        while i < self.jobs.len()
            invariant
                i <= self.jobs@.len(),
                s == self.model(),
                *self == *old(self),
                old(self).well_formed(),
                first_pending(s, 0) == first_pending(s, i as int),
            decreases self.jobs@.len() - i,
        {
            assert(s[i as int] == self.jobs@[i as int].model());
            if same_text(self.jobs[i].status(), "pending") {
                self.jobs[i].set_status("running");
                self.jobs[i].set_started(now);
                assert(self.model() =~= s.update(i as int, jobs::claimed(s[i as int], now)));
                return Some(i);
            }
            i += 1;
        }
        None
    }

    /// Adds a job with the next id.
    fn push(&mut self, job: J)
        requires
            old(self).well_formed(),
            old(self).next_id < i64::MAX,
            job.model().id == old(self).next_id,
        ensures
            final(self).well_formed(),
            final(self).next_id == old(self).next_id + 1,
            final(self).model() == old(self).model().push(job.model()),
    {
        let ghost s = self.model();
        self.jobs.push(job);
        self.next_id = self.next_id + 1;
        assert(self.model() =~= s.push(job.model()));
    }

    /// The failed jobs, oldest first.
    pub fn list_failed_open(&self) -> (r: Vec<J>)
        ensures
            models_of(r@) == chosen(self.model(), JobFilter::Failed),
    {
        self.select(JobFilter::Failed)
    }

    /// At most `limit` pending jobs, oldest first; a negative limit is none.
    pub fn list_pending(&self, limit: i64) -> (r: Vec<J>)
        ensures
            models_of(r@) == at_most(chosen(self.model(), JobFilter::Pending), limit as int),
    {
        let mut out = self.select(JobFilter::Pending);
        if limit >= 0 && (out.len() as u128) > limit as u128 {
            let ghost before = out@;
            out.truncate(limit as usize);
            assert(models_of(out@) =~= models_of(before).take(limit as int));
        }
        out
    }

    /// The running jobs that were started before the given time.
    pub fn list_running_started_before(&self, before: i64) -> (r: Vec<J>)
        ensures
            models_of(r@) == chosen(self.model(), JobFilter::RunningSince(before)),
    {
        self.select(JobFilter::RunningSince(before))
    }

    /// The ids of the jobs that ended well, or were cancelled, at least
    /// `older_than_secs` ago.
    pub fn list_archivable(&self, now: i64, older_than_secs: i64) -> (r: Vec<i64>)
        requires
            i64::MIN <= now - older_than_secs <= i64::MAX,
        ensures
            r@ == chosen_ids(
                self.model(),
                JobFilter::Archivable((now - older_than_secs) as i64),
            ),
    {
        let rows = self.select(JobFilter::Archivable(now - older_than_secs));
        let mut ids: Vec<i64> = Vec::new();
        let mut i: usize = 0;
        while i < rows.len()
            invariant
                i <= rows@.len(),
                ids@.len() == i,
                forall|k: int| 0 <= k < i ==> #[trigger] ids@[k] == models_of(rows@)[k].id,
            decreases rows@.len() - i,
        {
            ids.push(rows[i].id());
            i += 1;
        }
        assert(ids@ =~= chosen_ids(
            self.model(),
            JobFilter::Archivable((now - older_than_secs) as i64),
        ));
        ids
    }

    /// Every job of one choice, oldest first, then at most `recent` of another,
    /// newest first.
    fn list_with_recent(&self, active: JobFilter, others: JobFilter, recent: usize) -> (r: Vec<J>)
        ensures
            models_of(r@) == with_recent(self.model(), active, others, recent as int),
    {
        let mut out = self.select(active);
        let ended = self.select(others);
        let ghost open = models_of(out@);
        let ghost rest = models_of(ended@).reverse();
        let total: usize = ended.len();
        let n: usize = if total > recent {
            recent
        } else {
            total
        };
        let mut i: usize = 0;
        assert(open + rest.take(0) =~= open);
        while i < n
            invariant
                i <= n <= total,
                total == ended@.len(),
                rest == models_of(ended@).reverse(),
                models_of(out@) == open + rest.take(i as int),
            decreases n - i,
        {
            let ghost before = out@;
            out.push(ended[total - 1 - i].copied());
            assert(models_of(out@) =~= models_of(before).push(rest[i as int]));
            assert(open + rest.take(i + 1) =~= (open + rest.take(i as int)).push(rest[i as int]));
            i += 1;
        }
        assert(rest.take(n as int) =~= at_most(rest, recent as int));
        out
    }

    /// The newest job.
    pub fn latest(&self) -> (r: Option<J>)
        ensures
            match r {
                Some(j) => self.model().len() > 0 && j.model() == self.model().last(),
                None => self.model().len() == 0,
            },
    {
        if self.jobs.len() == 0 {
            None
        } else {
            Some(self.jobs[self.jobs.len() - 1].copied())
        }
    }

    /// Tells whether there is a later job for the scope that was not lost to a
    /// failure.
    pub fn has_successor(&self, scope: &str, excluded_id: i64) -> (r: bool)
        ensures
            r == has_successor(self.model(), scope@, excluded_id),
    {
        let ghost s = self.model();
        let mut i: usize = 0;
        while i < self.jobs.len()
            invariant
                i <= self.jobs@.len(),
                s == self.model(),
                forall|k: int| 0 <= k < i ==> !succeeds_job(#[trigger] s[k], scope@, excluded_id),
            decreases self.jobs@.len() - i,
        {
            let job = &self.jobs[i];
            assert(s[i as int] == job.model());
            if same_text(job.scope(), scope) && job.id() > excluded_id && (same_text(
                job.status(),
                "pending",
            ) || same_text(job.status(), "running") || same_text(job.status(), "succeeded")
                || same_text(job.status(), "cancelled") || same_text(job.status(), "closed")) {
                assert(succeeds_job(s[i as int], scope@, excluded_id));
                return true;
            }
            i += 1;
        }
        false
    }

    /// How many jobs the chain of retries holds that ends with the given job.
    pub fn retry_chain_len(&self, id: i64) -> (r: usize)
        requires
            self.well_formed(),
        ensures
            r == chain_len(self.model(), id, MAX_CHAIN_STEPS as nat),
            1 <= r <= MAX_CHAIN_STEPS + 1,
    {
        let ghost s = self.model();
        let mut len: usize = 1;
        let mut current: i64 = id;
        let mut steps: usize = MAX_CHAIN_STEPS;
        while steps > 0
            invariant
                self.well_formed(),
                s == self.model(),
                steps <= MAX_CHAIN_STEPS,
                len == 1 + (MAX_CHAIN_STEPS - steps),
                chain_len(s, id, MAX_CHAIN_STEPS as nat) == len - 1 + chain_len(
                    s,
                    current,
                    steps as nat,
                ),
            decreases steps,
        {
            let parent: Option<i64> = match self.position(current) {
                Some(i) => self.jobs[i].retry_of(),
                None => None,
            };
            assert(parent == parent_of(s, current));
            match parent {
                Some(p) => {
                    len += 1;
                    current = p;
                    steps -= 1;
                },
                None => {
                    return len;
                },
            }
        }
        len
    }
}

/// A change of one job is a change at its position, and keeps the order.
pub proof fn lemma_changed_at(
    s: Seq<JobModel>,
    next_id: i64,
    id: i64,
    i: int,
    change: spec_fn(JobModel) -> JobModel,
)
    requires
        in_order(s, next_id),
        0 <= i < s.len(),
        s[i].id == id,
        change(s[i]).id == id,
    ensures
        changed(s, id, change) == s.update(i, change(s[i])),
        in_order(s.update(i, change(s[i])), next_id),
{
    assert forall|k: int| 0 <= k < s.len() && k != i implies (#[trigger] s[k]).id != id by {
        if k < i {
            assert(s[k].id < s[i].id);
        } else {
            assert(s[i].id < s[k].id);
        }
    }
    assert(changed(s, id, change) =~= s.update(i, change(s[i])));
}

// --- Housekeeping ---

/// Every job for which `choice` holds, changed.
pub open spec fn changed_where(
    s: Seq<JobModel>,
    choice: JobFilter,
    change: spec_fn(JobModel) -> JobModel,
) -> Seq<JobModel> {
    Seq::new(
        s.len(),
        |i: int|
            if is_chosen(s[i], choice) {
                change(s[i])
            } else {
                s[i]
            },
    )
}

/// A table with the same ids is in the same order.
proof fn lemma_same_ids_in_order(s: Seq<JobModel>, t: Seq<JobModel>, next_id: i64)
    requires
        in_order(s, next_id),
        t.len() == s.len(),
        forall|i: int| 0 <= i < s.len() ==> (#[trigger] t[i]).id == s[i].id,
    ensures
        in_order(t, next_id),
{
    assert forall|a: int, b: int| 0 <= a < b < t.len() implies (#[trigger] t[a]).id < (
    #[trigger] t[b]).id by {
        assert(s[a].id < s[b].id);
    }
    assert forall|a: int| 0 <= a < t.len() implies (#[trigger] t[a]).id < next_id by {
        assert(s[a].id < next_id);
    }
}

/// One row more of a filtered table.
proof fn lemma_chosen_step(s: Seq<JobModel>, i: int, choice: JobFilter)
    requires
        0 <= i < s.len(),
    ensures
        chosen(s.take(i + 1), choice).len() == chosen(s.take(i), choice).len() + if is_chosen(
            s[i],
            choice,
        ) {
            1nat
        } else {
            0
        },
{
    reveal(Seq::filter);
    assert(s.take(i + 1).drop_last() =~= s.take(i));
    assert(s.take(i + 1).last() == s[i]);
}

impl<J: JobRow> JobQueue<J> {
    /// Fails every job that has been running since before `cutoff`, and counts
    /// them.
    pub fn expire_running(&mut self, now: i64, cutoff: i64) -> (count: usize)
        requires
            old(self).well_formed(),
        ensures
            final(self).well_formed(),
            final(self).next_id == old(self).next_id,
            final(self).model() == changed_where(
                old(self).model(),
                JobFilter::RunningSince(cutoff),
                |m: JobModel| jobs::failed(m, now, "timeout"@),
            ),
            count == chosen(old(self).model(), JobFilter::RunningSince(cutoff)).len(),
    {
        let choice = JobFilter::RunningSince(cutoff);
        let ghost s = self.model();
        let ghost change = |m: JobModel| jobs::failed(m, now, "timeout"@);
        let ghost goal = changed_where(s, choice, change);
        let total: usize = self.jobs.len();
        let mut count: usize = 0;
        let mut i: usize = 0;
        proof {
            reveal(Seq::filter);
            assert(chosen(s.take(0), choice).len() == 0);
        }
        while i < total
            invariant
                i <= total == self.jobs@.len(),
                s.len() == total,
                choice == JobFilter::RunningSince(cutoff),
                change == (|m: JobModel| jobs::failed(m, now, "timeout"@)),
                goal == changed_where(s, choice, change),
                self.next_id == old(self).next_id,
                count == chosen(s.take(i as int), choice).len(),
                count <= i,
                forall|k: int| 0 <= k < i ==> #[trigger] self.model()[k] == goal[k],
                forall|k: int| i <= k < total ==> #[trigger] self.model()[k] == s[k],
            decreases total - i,
        {
            proof {
                lemma_chosen_step(s, i as int, choice);
                assert(self.model()[i as int] == s[i as int]);
            }
            if row_is_chosen(&self.jobs[i], choice) {
                let ghost before = self.model();
                fail_row(&mut self.jobs[i], now, "timeout");
                assert(self.model() =~= before.update(i as int, change(s[i as int])));
                count += 1;
            }
            i += 1;
        }
        proof {
            assert(s.take(i as int) =~= s);
            assert(self.model() =~= goal);
            lemma_same_ids_in_order(s, goal, self.next_id);
        }
        count
    }

    /// Closes every job that ended well, or was cancelled, at least
    /// `older_than_secs` ago. Their resolved status stays.
    pub fn archive(&mut self, now: i64, older_than_secs: i64)
        requires
            old(self).well_formed(),
            i64::MIN <= now - older_than_secs <= i64::MAX,
        ensures
            final(self).well_formed(),
            final(self).next_id == old(self).next_id,
            final(self).model() == changed_where(
                old(self).model(),
                JobFilter::Archivable((now - older_than_secs) as i64),
                |m: JobModel| jobs::closed(m, None),
            ),
    {
        let choice = JobFilter::Archivable(now - older_than_secs);
        let ghost s = self.model();
        let ghost change = |m: JobModel| jobs::closed(m, None);
        let ghost goal = changed_where(s, choice, change);
        let total: usize = self.jobs.len();
        let mut i: usize = 0;
        while i < total
            invariant
                i <= total == self.jobs@.len(),
                s.len() == total,
                change == (|m: JobModel| jobs::closed(m, None)),
                goal == changed_where(s, choice, change),
                self.next_id == old(self).next_id,
                forall|k: int| 0 <= k < i ==> #[trigger] self.model()[k] == goal[k],
                forall|k: int| i <= k < total ==> #[trigger] self.model()[k] == s[k],
            decreases total - i,
        {
            assert(self.model()[i as int] == s[i as int]);
            if row_is_chosen(&self.jobs[i], choice) {
                let ghost before = self.model();
                close_row(&mut self.jobs[i], None);
                assert(self.model() =~= before.update(i as int, change(s[i as int])));
            }
            i += 1;
        }
        proof {
            assert(self.model() =~= goal);
            lemma_same_ids_in_order(s, goal, self.next_id);
        }
    }
}

// --- Reconciliation ---

/// The table and its next id after one failed job was dealt with: closed as
/// superseded where a later job exists, as given up where its chain is long
/// enough, and else retried.
pub open spec fn reconciled_one(
    s: Seq<JobModel>,
    next_id: i64,
    job: JobModel,
    max_chain: nat,
    trigger: Seq<char>,
) -> (Seq<JobModel>, i64) {
    if has_successor(s, job.scope, job.id) {
        (changed(s, job.id, |m: JobModel| jobs::closed(m, Some("superseded"@))), next_id)
    } else if chain_len(s, job.id, MAX_CHAIN_STEPS as nat) >= max_chain {
        (changed(s, job.id, |m: JobModel| jobs::closed(m, Some("gave_up"@))), next_id)
    } else {
        (
            changed(
                s.push(jobs::retried(job, next_id, trigger)),
                job.id,
                |m: JobModel| jobs::closed(m, Some("retried"@)),
            ),
            (next_id + 1) as i64,
        )
    }
}

/// The table and its next id after the failed ones among the first `n` jobs
/// were dealt with, oldest first.
pub open spec fn reconciled(
    s: Seq<JobModel>,
    next_id: i64,
    n: int,
    max_chain: nat,
    trigger: Seq<char>,
) -> (Seq<JobModel>, i64)
    decreases n,
{
    if n <= 0 {
        (s, next_id)
    } else {
        let (t, next) = reconciled(s, next_id, n - 1, max_chain, trigger);
        if s[n - 1].status == "failed"@ {
            reconciled_one(t, next, s[n - 1], max_chain, trigger)
        } else {
            (t, next)
        }
    }
}

/// Dealing with the failed jobs closes each of them, keeps the order of ids,
/// and does not touch a job before its turn.
pub proof fn law_reconciling_closes_failed_jobs(
    s: Seq<JobModel>,
    next_id: i64,
    n: int,
    max_chain: nat,
    trigger: Seq<char>,
)
    requires
        in_order(s, next_id),
        0 <= n <= s.len(),
        next_id + s.len() <= i64::MAX,
    ensures
        ({
            let (t, next) = reconciled(s, next_id, n, max_chain, trigger);
            &&& in_order(t, next)
            &&& s.len() <= t.len()
            &&& next_id <= next <= next_id + n
            &&& forall|k: int| 0 <= k < s.len() ==> (#[trigger] t[k]).id == s[k].id
            &&& forall|k: int| n <= k < s.len() ==> #[trigger] t[k] == s[k]
            &&& forall|k: int|
                0 <= k < n && (#[trigger] s[k]).status == "failed"@ ==> t[k].status == "closed"@
        }),
    decreases n,
{
    if n > 0 {
        law_reconciling_closes_failed_jobs(s, next_id, n - 1, max_chain, trigger);
        let (t, next) = reconciled(s, next_id, n - 1, max_chain, trigger);
        let job = s[n - 1];
        if job.status == "failed"@ {
            reveal_strlit("failed");
            reveal_strlit("closed");
            assert("failed"@[0] != "closed"@[0]);
            assert(t[n - 1] == job);
            let pushed = t.push(jobs::retried(job, next, trigger));
            let superseded = |m: JobModel| jobs::closed(m, Some("superseded"@));
            let gave_up = |m: JobModel| jobs::closed(m, Some("gave_up"@));
            let again = |m: JobModel| jobs::closed(m, Some("retried"@));
            lemma_changed_at(t, next, job.id, n - 1, superseded);
            lemma_changed_at(t, next, job.id, n - 1, gave_up);
            if next < i64::MAX {
                assert(in_order(pushed, (next + 1) as i64));
                lemma_changed_at(pushed, (next + 1) as i64, job.id, n - 1, again);
            }
        }
    }
}

impl<J: JobRow> JobQueue<J> {
    /// Adds a retry of the job at the given position.
    fn push_retry(&mut self, i: usize)
        requires
            old(self).well_formed(),
            old(self).next_id < i64::MAX,
            i < old(self).model().len(),
        ensures
            final(self).well_formed(),
            final(self).next_id == old(self).next_id + 1,
            final(self).model() == old(self).model().push(
                jobs::retried(
                    old(self).model()[i as int],
                    old(self).next_id,
                    J::retry_trigger(),
                ),
            ),
    {
        let id: i64 = self.next_id;
        let retry = self.jobs[i].retried_as(id);
        self.push(retry);
    }

    /// Deals with every failed job, oldest first: one that a later job for its
    /// scope replaces is closed as superseded; one whose chain of retries has
    /// `max_chain` jobs is closed as given up; any other is retried by a new
    /// job and closed.
    pub fn reconcile_failed(&mut self, max_chain: usize)
        requires
            old(self).well_formed(),
            old(self).next_id + old(self).model().len() <= i64::MAX,
        ensures
            final(self).well_formed(),
            (final(self).model(), final(self).next_id) == reconciled(
                old(self).model(),
                old(self).next_id,
                old(self).model().len() as int,
                max_chain as nat,
                J::retry_trigger(),
            ),
    {
        let ghost s = self.model();
        let ghost first = self.next_id;
        let ghost trigger = J::retry_trigger();
        let total: usize = self.jobs.len();
        let mut i: usize = 0;
        while i < total
            invariant
                i <= total == s.len(),
                in_order(s, first),
                first + s.len() <= i64::MAX,
                trigger == J::retry_trigger(),
                self.well_formed(),
                (self.model(), self.next_id) == reconciled(
                    s,
                    first,
                    i as int,
                    max_chain as nat,
                    trigger,
                ),
            decreases total - i,
        {
            proof {
                law_reconciling_closes_failed_jobs(s, first, i as int, max_chain as nat, trigger);
                assert(self.model()[i as int] == s[i as int]);
            }
            if same_text(self.jobs[i].status(), "failed") {
                let id: i64 = self.jobs[i].id();
                if self.has_successor(self.jobs[i].scope(), id) {
                    self.close(id, Some("superseded"));
                } else if self.retry_chain_len(id) >= max_chain {
                    self.close(id, Some("gave_up"));
                } else {
                    self.push_retry(i);
                    self.close(id, Some("retried"));
                }
            }
            i += 1;
        }
    }
}

// --- Indexing jobs ---

/// A new indexing job.
pub open spec fn new_index_job(
    id: i64,
    scope: Seq<char>,
    kind: Seq<char>,
    triggered_by: Seq<char>,
    retry_of: Option<i64>,
) -> JobModel {
    JobModel {
        id,
        scope,
        kind,
        triggered_by,
        worker_id: None,
        progress: 0,
        total: 0,
        status: "pending"@,
        started_at: None,
        finished_at: None,
        error: None,
        resolved_status: None,
        prev_status: None,
        resolved_at: None,
        retry_of,
    }
}

impl JobQueue<IndexJob> {
    /// Adds a pending job.
    fn push_index_job(
        &mut self,
        scope: &str,
        kind: &str,
        triggered_by: &str,
        retry_of: Option<i64>,
    ) -> (id: i64)
        requires
            old(self).well_formed(),
            old(self).next_id < i64::MAX,
        ensures
            final(self).well_formed(),
            id == old(self).next_id,
            final(self).next_id == id + 1,
            final(self).model() == old(self).model().push(
                new_index_job(id, scope@, kind@, triggered_by@, retry_of),
            ),
    {
        let id: i64 = self.next_id;
        self.push(
            IndexJob {
                id,
                scope: scope.to_owned(),
                kind: kind.to_owned(),
                status: "pending".to_owned(),
                triggered_by: triggered_by.to_owned(),
                started_at: None,
                finished_at: None,
                progress: 0,
                total: 0,
                error: None,
                resolved_status: None,
                prev_status: None,
                resolved_at: None,
                retry_of,
            },
        );
        id
    }

    /// Queues a job for the scope. Where one already stands for that work (it
    /// is pending, running, or failed and not dealt with), its id is returned
    /// and nothing is queued; the flag tells whether the job is new.
    pub fn create_index_job(&mut self, scope: &str, kind: &str, triggered_by: &str) -> (r: (
        i64,
        bool,
    ))
        requires
            old(self).well_formed(),
            old(self).next_id < i64::MAX,
        ensures
            final(self).well_formed(),
            match newest_live(old(self).model(), old(self).model().len() as int, scope@) {
                Some(id) => {
                    &&& r == (id, false)
                    &&& final(self).model() == old(self).model()
                    &&& final(self).next_id == old(self).next_id
                },
                None => {
                    &&& r == (old(self).next_id, true)
                    &&& final(self).next_id == old(self).next_id + 1
                    &&& final(self).model() == old(self).model().push(
                        new_index_job(r.0, scope@, kind@, triggered_by@, None),
                    )
                },
            },
    {
        match self.find_live(scope) {
            Some(id) => (id, false),
            None => (self.push_index_job(scope, kind, triggered_by, None), true),
        }
    }

    /// Queues a retry of a job, whatever else is queued.
    pub fn create_retry_index_job(&mut self, scope: &str, kind: &str, retry_of: i64) -> (id: i64)
        requires
            old(self).well_formed(),
            old(self).next_id < i64::MAX,
        ensures
            final(self).well_formed(),
            id == old(self).next_id,
            final(self).next_id == id + 1,
            final(self).model() == old(self).model().push(
                new_index_job(id, scope@, kind@, "reconciler"@, Some(retry_of)),
            ),
    {
        self.push_index_job(scope, kind, "reconciler", Some(retry_of))
    }

    /// Every job that is pending, running or failed, oldest first, then at most
    /// `recent` of the others, newest first.
    pub fn list_index_jobs(&self, recent: usize) -> (r: Vec<IndexJob>)
        ensures
            models_of(r@) == with_recent(
                self.model(),
                JobFilter::Open,
                JobFilter::Ended,
                recent as int,
            ),
    {
        self.list_with_recent(JobFilter::Open, JobFilter::Ended, recent)
    }

    /// Claims the oldest pending job, which is then running.
    pub fn claim_next_index_job(&mut self, now: i64) -> (r: Option<IndexJob>)
        requires
            old(self).well_formed(),
        ensures
            final(self).well_formed(),
            final(self).next_id == old(self).next_id,
            match first_pending(old(self).model(), 0) {
                Some(i) => {
                    let claimed = jobs::claimed(old(self).model()[i], now);
                    &&& 0 <= i < old(self).model().len()
                    &&& final(self).model() == old(self).model().update(i, claimed)
                    &&& r matches Some(j) && j.model() == claimed
                },
                None => r is None && final(self).model() == old(self).model(),
            },
    {
        match self.claim(now) {
            Some(i) => {
                assert(self.jobs@[i as int].model() == self.model()[i as int]);
                Some(self.jobs[i].copied())
            },
            None => None,
        }
    }
}

// --- Embedding jobs ---

/// A new embedding job.
pub open spec fn new_embed_job(
    id: i64,
    scope: Seq<char>,
    started_at: Option<i64>,
    retry_of: Option<i64>,
) -> JobModel {
    JobModel { started_at, ..new_index_job(id, scope, Seq::empty(), Seq::empty(), retry_of) }
}

impl JobQueue<EmbedJob> {
    /// Adds a pending job.
    fn push_embed_job(&mut self, scope: &str, started_at: Option<i64>, retry_of: Option<i64>) -> (id:
        i64)
        requires
            old(self).well_formed(),
            old(self).next_id < i64::MAX,
        ensures
            final(self).well_formed(),
            id == old(self).next_id,
            final(self).next_id == id + 1,
            final(self).model() == old(self).model().push(
                new_embed_job(id, scope@, started_at, retry_of),
            ),
    {
        let id: i64 = self.next_id;
        self.push(
            EmbedJob {
                id,
                scope: scope.to_owned(),
                status: "pending".to_owned(),
                total_pages: 0,
                done_pages: 0,
                started_at,
                finished_at: None,
                error: None,
                worker_id: None,
                resolved_status: None,
                prev_status: None,
                resolved_at: None,
                retry_of,
            },
        );
        id
    }

    /// Queues a job for the scope, unless one already stands for that work.
    pub fn create_embed_job(&mut self, scope: &str, now: i64) -> (r: (i64, bool))
        requires
            old(self).well_formed(),
            old(self).next_id < i64::MAX,
        ensures
            final(self).well_formed(),
            match newest_live(old(self).model(), old(self).model().len() as int, scope@) {
                Some(id) => {
                    &&& r == (id, false)
                    &&& final(self).model() == old(self).model()
                    &&& final(self).next_id == old(self).next_id
                },
                None => {
                    &&& r == (old(self).next_id, true)
                    &&& final(self).next_id == old(self).next_id + 1
                    &&& final(self).model() == old(self).model().push(
                        new_embed_job(r.0, scope@, Some(now), None),
                    )
                },
            },
    {
        match self.find_live(scope) {
            Some(id) => (id, false),
            None => (self.push_embed_job(scope, Some(now), None), true),
        }
    }

    /// Queues a retry of a job, whatever else is queued.
    pub fn create_retry_embed_job(&mut self, scope: &str, retry_of: i64) -> (id: i64)
        requires
            old(self).well_formed(),
            old(self).next_id < i64::MAX,
        ensures
            final(self).well_formed(),
            id == old(self).next_id,
            final(self).next_id == id + 1,
            final(self).model() == old(self).model().push(
                new_embed_job(id, scope@, None, Some(retry_of)),
            ),
    {
        self.push_embed_job(scope, None, Some(retry_of))
    }

    /// Claims the oldest pending job for a worker; the job is then running.
    pub fn claim_next_job(&mut self, worker_id: &str, now: i64) -> (r: Option<EmbedJob>)
        requires
            old(self).well_formed(),
        ensures
            final(self).well_formed(),
            final(self).next_id == old(self).next_id,
            match first_pending(old(self).model(), 0) {
                Some(i) => {
                    let claimed = JobModel {
                        worker_id: Some(worker_id@),
                        ..jobs::claimed(old(self).model()[i], now)
                    };
                    &&& 0 <= i < old(self).model().len()
                    &&& final(self).model() == old(self).model().update(i, claimed)
                    &&& r matches Some(j) && j.model() == claimed
                },
                None => r is None && final(self).model() == old(self).model(),
            },
    {
        match self.claim(now) {
            Some(i) => {
                let ghost before = self.model();
                let mut job = self.jobs[i].copied();
                job.worker_id = Some(worker_id.to_owned());
                let claimed = job.copied();
                assert(before[i as int] == self.jobs@[i as int].model());
                self.jobs[i] = job;
                assert(self.model() =~= before.update(i as int, job.model()));
                Some(claimed)
            },
            None => None,
        }
    }

    /// Every job that is pending or running, oldest first, then at most `recent`
    /// of the others, newest first.
    pub fn list_jobs(&self, recent: usize) -> (r: Vec<EmbedJob>)
        ensures
            models_of(r@) == with_recent(
                self.model(),
                JobFilter::Unfinished,
                JobFilter::Finished,
                recent as int,
            ),
    {
        self.list_with_recent(JobFilter::Unfinished, JobFilter::Finished, recent)
    }

    /// Puts the running jobs that a restarted worker left behind, with those
    /// that name no worker, back to pending, and counts them.
    pub fn recover_worker_jobs(&mut self, worker_id: &str) -> (count: usize)
        requires
            old(self).well_formed(),
        ensures
            final(self).well_formed(),
            final(self).next_id == old(self).next_id,
            final(self).model() == recovered(old(self).model(), worker_id@),
            count == left_behind(old(self).model(), old(self).model().len() as int, worker_id@),
    {
        let ghost s = self.model();
        let ghost goal = recovered(s, worker_id@);
        let total: usize = self.jobs.len();
        let mut count: usize = 0;
        let mut i: usize = 0;
        while i < total
            invariant
                i <= total == self.jobs@.len(),
                s.len() == total,
                goal == recovered(s, worker_id@),
                self.next_id == old(self).next_id,
                count == left_behind(s, i as int, worker_id@),
                count <= i,
                forall|k: int| 0 <= k < i ==> #[trigger] self.model()[k] == goal[k],
                forall|k: int| i <= k < total ==> #[trigger] self.model()[k] == s[k],
            decreases total - i,
        {
            assert(self.model()[i as int] == s[i as int]);
            let mine = match self.jobs[i].worker_id() {
                Some(w) => same_text(w, worker_id),
                None => true,
            };
            if same_text(self.jobs[i].status(), "running") && mine {
                let ghost before = self.model();
                self.jobs[i].set_status("pending");
                assert(self.model() =~= before.update(i as int, goal[i as int]));
                count += 1;
            }
            i += 1;
        }
        proof {
            assert(self.model() =~= goal);
            lemma_same_ids_in_order(s, goal, self.next_id);
        }
        count
    }

    /// Puts the jobs that have been running for more than `stale_secs` back to
    /// pending, and counts them.
    pub fn expire_stale_jobs(&mut self, now: i64, stale_secs: i64) -> (count: usize)
        requires
            old(self).well_formed(),
            i64::MIN <= now - stale_secs <= i64::MAX,
        ensures
            final(self).well_formed(),
            final(self).next_id == old(self).next_id,
            final(self).model() == changed_where(
                old(self).model(),
                JobFilter::RunningSince((now - stale_secs) as i64),
                |m: JobModel| jobs::requeued(m),
            ),
            count == chosen(
                old(self).model(),
                JobFilter::RunningSince((now - stale_secs) as i64),
            ).len(),
    {
        let choice = JobFilter::RunningSince(now - stale_secs);
        let ghost s = self.model();
        let ghost change = |m: JobModel| jobs::requeued(m);
        let ghost goal = changed_where(s, choice, change);
        let total: usize = self.jobs.len();
        let mut count: usize = 0;
        let mut i: usize = 0;
        proof {
            reveal(Seq::filter);
            assert(chosen(s.take(0), choice).len() == 0);
        }
        while i < total
            invariant
                i <= total == self.jobs@.len(),
                s.len() == total,
                change == (|m: JobModel| jobs::requeued(m)),
                goal == changed_where(s, choice, change),
                self.next_id == old(self).next_id,
                count == chosen(s.take(i as int), choice).len(),
                count <= i,
                forall|k: int| 0 <= k < i ==> #[trigger] self.model()[k] == goal[k],
                forall|k: int| i <= k < total ==> #[trigger] self.model()[k] == s[k],
            decreases total - i,
        {
            proof {
                lemma_chosen_step(s, i as int, choice);
                assert(self.model()[i as int] == s[i as int]);
            }
            if row_is_chosen(&self.jobs[i], choice) {
                let ghost before = self.model();
                self.jobs[i].set_status("pending");
                assert(self.model() =~= before.update(i as int, change(s[i as int])));
                count += 1;
            }
            i += 1;
        }
        proof {
            assert(s.take(i as int) =~= s);
            assert(self.model() =~= goal);
            lemma_same_ids_in_order(s, goal, self.next_id);
        }
        count
    }
}

/// The job is running for the worker, or for none that is named.
pub open spec fn is_left_behind(m: JobModel, worker: Seq<char>) -> bool {
    m.status == "running"@ && (m.worker_id is None || m.worker_id == Some(worker))
}

/// The table after the jobs that a worker left behind were put back to pending.
pub open spec fn recovered(s: Seq<JobModel>, worker: Seq<char>) -> Seq<JobModel> {
    Seq::new(
        s.len(),
        |i: int|
            if is_left_behind(s[i], worker) {
                jobs::requeued(s[i])
            } else {
                s[i]
            },
    )
}

/// How many of the first `n` jobs a worker left behind.
pub open spec fn left_behind(s: Seq<JobModel>, n: int, worker: Seq<char>) -> nat
    decreases n,
{
    if n <= 0 {
        0
    } else {
        left_behind(s, n - 1, worker) + if is_left_behind(s[n - 1], worker) {
            1nat
        } else {
            0
        }
    }
}

} // verus!
