//! Background jobs and their life cycle.
//!
//! A job is `pending`, then `running`, then `succeeded`, `failed` or
//! `cancelled`, and in the end `closed`. A running job whose worker is gone goes
//! back to `pending`. A job that failed stays open, with no resolved status,
//! until the reconciler has superseded it, retried it or given it up.

use crate::text;
use crate::text::same_text;
use vstd::prelude::*;

verus! {

/// An embedding job.
#[derive(Clone, Debug)]
pub struct EmbedJob {
    pub id: i64,
    pub scope: String,
    pub status: String,
    pub total_pages: i64,
    pub done_pages: i64,
    pub started_at: Option<i64>,
    pub finished_at: Option<i64>,
    pub error: Option<String>,
    pub worker_id: Option<String>,
    pub resolved_status: Option<String>,
    pub prev_status: Option<String>,
    pub resolved_at: Option<i64>,
    pub retry_of: Option<i64>,
}

/// An indexing job.
#[derive(Clone, Debug)]
pub struct IndexJob {
    pub id: i64,
    pub scope: String,
    pub kind: String,
    pub status: String,
    pub triggered_by: String,
    pub started_at: Option<i64>,
    pub finished_at: Option<i64>,
    pub progress: i64,
    pub total: i64,
    pub error: Option<String>,
    pub resolved_status: Option<String>,
    pub prev_status: Option<String>,
    pub resolved_at: Option<i64>,
    pub retry_of: Option<i64>,
}

/// How much has been embedded.
#[derive(Clone, Debug)]
pub struct EmbedStats {
    pub total_pages: i64,
    pub total_chunks: i64,
    pub latest_job: Option<EmbedJob>,
}

/// A job of either table, in the model. Indexing jobs have no worker, embedding
/// jobs neither kind nor trigger.
#[verifier::ext_equal]
pub struct JobModel {
    pub id: i64,
    pub scope: Seq<char>,
    pub kind: Seq<char>,
    pub triggered_by: Seq<char>,
    pub worker_id: Option<Seq<char>>,
    pub progress: i64,
    pub total: i64,
    pub status: Seq<char>,
    pub started_at: Option<i64>,
    pub finished_at: Option<i64>,
    pub error: Option<Seq<char>>,
    pub resolved_status: Option<Seq<char>>,
    pub prev_status: Option<Seq<char>>,
    pub resolved_at: Option<i64>,
    pub retry_of: Option<i64>,
}

/// A row of a job table.
pub trait JobRow: Sized {
    /// The job in the model.
    spec fn model(&self) -> JobModel;

    fn id(&self) -> (r: i64)
        ensures
            r == self.model().id,
    ;

    fn scope(&self) -> (r: &str)
        ensures
            r@ == self.model().scope,
    ;

    fn kind(&self) -> (r: &str)
        ensures
            r@ == self.model().kind,
    ;

    fn status(&self) -> (r: &str)
        ensures
            r@ == self.model().status,
    ;

    fn worker_id(&self) -> (r: Option<&str>)
        ensures
            match r {
                Some(w) => self.model().worker_id == Some(w@),
                None => self.model().worker_id is None,
            },
    ;

    fn has_resolved_status(&self) -> (r: bool)
        ensures
            r == (self.model().resolved_status is Some),
    ;

    fn started_at(&self) -> (r: Option<i64>)
        ensures
            r == self.model().started_at,
    ;

    fn resolved_at(&self) -> (r: Option<i64>)
        ensures
            r == self.model().resolved_at,
    ;

    fn retry_of(&self) -> (r: Option<i64>)
        ensures
            r == self.model().retry_of,
    ;

    fn set_status(&mut self, status: &str)
        ensures
            final(self).model() == (JobModel { status: status@, ..old(self).model() }),
    ;

    fn set_prev_status(&mut self)
        ensures
            final(self).model() == (JobModel {
                prev_status: Some(old(self).model().status),
                ..old(self).model()
            }),
    ;

    fn set_started(&mut self, at: i64)
        ensures
            final(self).model() == (JobModel { started_at: Some(at), ..old(self).model() }),
    ;

    fn set_finished(&mut self, at: i64)
        ensures
            final(self).model() == (JobModel { finished_at: Some(at), ..old(self).model() }),
    ;

    fn set_error(&mut self, error: Option<&str>)
        ensures
            final(self).model() == (JobModel {
                error: match error {
                    Some(e) => Some(e@),
                    None => None,
                },
                ..old(self).model()
            }),
    ;

    fn set_resolved_status(&mut self, status: &str)
        ensures
            final(self).model() == (JobModel {
                resolved_status: Some(status@),
                ..old(self).model()
            }),
    ;

    fn set_resolved_at(&mut self, at: i64)
        ensures
            final(self).model() == (JobModel { resolved_at: Some(at), ..old(self).model() }),
    ;

    fn set_progress(&mut self, done: i64, total: i64)
        ensures
            final(self).model() == (JobModel { progress: done, total: total, ..old(self).model() }),
    ;

    /// A copy of the row.
    fn copied(&self) -> (r: Self)
        ensures
            r.model() == self.model(),
    ;

    /// What a retry of such a job states as its trigger.
    spec fn retry_trigger() -> Seq<char>;

    /// A pending job that retries this one.
    fn retried_as(&self, id: i64) -> (r: Self)
        ensures
            r.model() == retried(self.model(), id, Self::retry_trigger()),
    ;
}

/// The pending job that retries another one.
pub open spec fn retried(m: JobModel, id: i64, trigger: Seq<char>) -> JobModel {
    JobModel {
        id,
        scope: m.scope,
        kind: m.kind,
        triggered_by: trigger,
        worker_id: None,
        progress: 0,
        total: 0,
        status: "pending"@,
        started_at: None,
        finished_at: None,
        error: None,
        resolved_status: None,
        prev_status: None,
        resolved_at: None,
        retry_of: Some(m.id),
    }
}

/// A copy of an optional string.
fn copy_opt(s: &Option<String>) -> (r: Option<String>)
    ensures
        text::opt_text(r) == text::opt_text(*s),
{
    match s {
        Some(v) => Some(v.clone()),
        None => None,
    }
}

impl JobRow for EmbedJob {
    open spec fn model(&self) -> JobModel {
        JobModel {
            id: self.id,
            scope: self.scope@,
            kind: Seq::empty(),
            triggered_by: Seq::empty(),
            worker_id: text::opt_text(self.worker_id),
            progress: self.done_pages,
            total: self.total_pages,
            status: self.status@,
            started_at: self.started_at,
            finished_at: self.finished_at,
            error: text::opt_text(self.error),
            resolved_status: text::opt_text(self.resolved_status),
            prev_status: text::opt_text(self.prev_status),
            resolved_at: self.resolved_at,
            retry_of: self.retry_of,
        }
    }

    fn id(&self) -> i64 {
        self.id
    }

    fn scope(&self) -> &str {
        self.scope.as_str()
    }

    fn kind(&self) -> &str {
        proof {
            reveal_strlit("");
            assert(""@ =~= Seq::<char>::empty());
        }
        ""
    }

    fn status(&self) -> &str {
        self.status.as_str()
    }

    fn worker_id(&self) -> Option<&str> {
        match &self.worker_id {
            Some(w) => Some(w.as_str()),
            None => None,
        }
    }

    fn has_resolved_status(&self) -> bool {
        self.resolved_status.is_some()
    }

    fn started_at(&self) -> Option<i64> {
        self.started_at
    }

    fn resolved_at(&self) -> Option<i64> {
        self.resolved_at
    }

    fn retry_of(&self) -> Option<i64> {
        self.retry_of
    }

    fn set_status(&mut self, status: &str) {
        self.status = status.to_owned();
    }

    fn set_prev_status(&mut self) {
        self.prev_status = Some(self.status.clone());
    }

    fn set_finished(&mut self, at: i64) {
        self.finished_at = Some(at);
    }

    fn set_error(&mut self, error: Option<&str>) {
        self.error = match error {
            Some(e) => Some(e.to_owned()),
            None => None,
        };
    }

    fn set_resolved_status(&mut self, status: &str) {
        self.resolved_status = Some(status.to_owned());
    }

    fn set_resolved_at(&mut self, at: i64) {
        self.resolved_at = Some(at);
    }

    fn set_progress(&mut self, done: i64, total: i64) {
        self.done_pages = done;
        self.total_pages = total;
    }

    fn set_started(&mut self, at: i64) {
        self.started_at = Some(at);
    }

    fn copied(&self) -> Self {
        EmbedJob {
            id: self.id,
            scope: self.scope.clone(),
            status: self.status.clone(),
            total_pages: self.total_pages,
            done_pages: self.done_pages,
            started_at: self.started_at,
            finished_at: self.finished_at,
            error: copy_opt(&self.error),
            worker_id: copy_opt(&self.worker_id),
            resolved_status: copy_opt(&self.resolved_status),
            prev_status: copy_opt(&self.prev_status),
            resolved_at: self.resolved_at,
            retry_of: self.retry_of,
        }
    }

    open spec fn retry_trigger() -> Seq<char> {
        Seq::empty()
    }

    fn retried_as(&self, id: i64) -> Self {
        EmbedJob {
            id,
            scope: self.scope.clone(),
            status: "pending".to_owned(),
            total_pages: 0,
            done_pages: 0,
            started_at: None,
            finished_at: None,
            error: None,
            worker_id: None,
            resolved_status: None,
            prev_status: None,
            resolved_at: None,
            retry_of: Some(self.id),
        }
    }
}

impl JobRow for IndexJob {
    open spec fn model(&self) -> JobModel {
        JobModel {
            id: self.id,
            scope: self.scope@,
            kind: self.kind@,
            triggered_by: self.triggered_by@,
            worker_id: None,
            progress: self.progress,
            total: self.total,
            status: self.status@,
            started_at: self.started_at,
            finished_at: self.finished_at,
            error: text::opt_text(self.error),
            resolved_status: text::opt_text(self.resolved_status),
            prev_status: text::opt_text(self.prev_status),
            resolved_at: self.resolved_at,
            retry_of: self.retry_of,
        }
    }

    fn id(&self) -> i64 {
        self.id
    }

    fn scope(&self) -> &str {
        self.scope.as_str()
    }

    fn kind(&self) -> &str {
        self.kind.as_str()
    }

    fn status(&self) -> &str {
        self.status.as_str()
    }

    fn worker_id(&self) -> Option<&str> {
        None
    }

    fn has_resolved_status(&self) -> bool {
        self.resolved_status.is_some()
    }

    fn started_at(&self) -> Option<i64> {
        self.started_at
    }

    fn resolved_at(&self) -> Option<i64> {
        self.resolved_at
    }

    fn retry_of(&self) -> Option<i64> {
        self.retry_of
    }

    fn set_status(&mut self, status: &str) {
        self.status = status.to_owned();
    }

    fn set_prev_status(&mut self) {
        self.prev_status = Some(self.status.clone());
    }

    fn set_finished(&mut self, at: i64) {
        self.finished_at = Some(at);
    }

    fn set_error(&mut self, error: Option<&str>) {
        self.error = match error {
            Some(e) => Some(e.to_owned()),
            None => None,
        };
    }

    fn set_resolved_status(&mut self, status: &str) {
        self.resolved_status = Some(status.to_owned());
    }

    fn set_resolved_at(&mut self, at: i64) {
        self.resolved_at = Some(at);
    }

    fn set_progress(&mut self, done: i64, total: i64) {
        self.progress = done;
        self.total = total;
    }

    fn set_started(&mut self, at: i64) {
        self.started_at = Some(at);
    }

    fn copied(&self) -> Self {
        IndexJob {
            id: self.id,
            scope: self.scope.clone(),
            kind: self.kind.clone(),
            status: self.status.clone(),
            triggered_by: self.triggered_by.clone(),
            started_at: self.started_at,
            finished_at: self.finished_at,
            progress: self.progress,
            total: self.total,
            error: copy_opt(&self.error),
            resolved_status: copy_opt(&self.resolved_status),
            prev_status: copy_opt(&self.prev_status),
            resolved_at: self.resolved_at,
            retry_of: self.retry_of,
        }
    }

    open spec fn retry_trigger() -> Seq<char> {
        "reconciler"@
    }

    fn retried_as(&self, id: i64) -> Self {
        IndexJob {
            id,
            scope: self.scope.clone(),
            kind: self.kind.clone(),
            status: "pending".to_owned(),
            triggered_by: "reconciler".to_owned(),
            started_at: None,
            finished_at: None,
            progress: 0,
            total: 0,
            error: None,
            resolved_status: None,
            prev_status: None,
            resolved_at: None,
            retry_of: Some(self.id),
        }
    }
}

// --- Transitions ---

/// The job has not come to an end.
pub open spec fn is_unfinished(m: JobModel) -> bool {
    m.status == "pending"@ || m.status == "running"@
}

/// The job failed and the reconciler has not dealt with it.
pub open spec fn is_failed_open(m: JobModel) -> bool {
    m.status == "failed"@ && m.resolved_status is None
}

/// The job stands for work that is still to be done.
pub open spec fn is_live(m: JobModel) -> bool {
    is_unfinished(m) || is_failed_open(m)
}

/// The job after it failed. Only a job that has not come to an end can fail;
/// its resolved status stays open.
pub open spec fn failed(m: JobModel, now: i64, reason: Seq<char>) -> JobModel {
    if is_unfinished(m) {
        JobModel { status: "failed"@, finished_at: Some(now), error: Some(reason), ..m }
    } else {
        m
    }
}

/// The job after it was done, with or without an error. A job that has come to
/// an end is left as it is, so a cancellation is never overwritten.
pub open spec fn completed(m: JobModel, now: i64, error: Option<Seq<char>>) -> JobModel {
    match error {
        Some(reason) => failed(m, now, reason),
        None => if is_unfinished(m) {
            JobModel {
                status: "succeeded"@,
                finished_at: Some(now),
                resolved_status: Some("succeeded"@),
                resolved_at: Some(now),
                error: None,
                ..m
            }
        } else {
            m
        },
    }
}

/// The job after it was cancelled.
pub open spec fn cancelled(m: JobModel, now: i64) -> JobModel {
    if is_unfinished(m) {
        JobModel {
            status: "cancelled"@,
            resolved_status: Some("cancelled"@),
            resolved_at: Some(now),
            finished_at: Some(now),
            ..m
        }
    } else {
        m
    }
}

/// The job after it was closed: its status moves to the previous one, and a
/// resolved status that is given replaces the one it has.
pub open spec fn closed(m: JobModel, resolved: Option<Seq<char>>) -> JobModel {
    if m.status == "closed"@ {
        m
    } else {
        JobModel {
            prev_status: Some(m.status),
            status: "closed"@,
            resolved_status: match resolved {
                Some(r) => Some(r),
                None => m.resolved_status,
            },
            ..m
        }
    }
}

/// The job after it was claimed.
pub open spec fn claimed(m: JobModel, now: i64) -> JobModel {
    JobModel { status: "running"@, started_at: Some(now), ..m }
}

/// The job after it was taken back from its worker: it waits to be claimed
/// again.
pub open spec fn requeued(m: JobModel) -> JobModel {
    JobModel { status: "pending"@, ..m }
}

/// Tells whether a job has not come to an end.
pub(crate) fn row_is_unfinished<J: JobRow>(job: &J) -> (r: bool)
    ensures
        r == is_unfinished(job.model()),
{
    same_text(job.status(), "pending") || same_text(job.status(), "running")
}

/// Tells whether a job stands for work that is still to be done.
pub(crate) fn row_is_live<J: JobRow>(job: &J) -> (r: bool)
    ensures
        r == is_live(job.model()),
{
    row_is_unfinished(job) || (same_text(job.status(), "failed") && !job.has_resolved_status())
}

/// Fails a job.
pub(crate) fn fail_row<J: JobRow>(job: &mut J, now: i64, reason: &str)
    ensures
        final(job).model() == failed(old(job).model(), now, reason@),
{
    if row_is_unfinished(job) {
        job.set_status("failed");
        job.set_finished(now);
        job.set_error(Some(reason));
    }
}

/// Completes a job.
pub(crate) fn complete_row<J: JobRow>(job: &mut J, now: i64, error: Option<&str>)
    ensures
        final(job).model() == completed(
            old(job).model(),
            now,
            match error {
                Some(e) => Some(e@),
                None => None,
            },
        ),
{
    match error {
        Some(reason) => fail_row(job, now, reason),
        None => {
            if row_is_unfinished(job) {
                job.set_status("succeeded");
                job.set_finished(now);
                job.set_resolved_status("succeeded");
                job.set_resolved_at(now);
                job.set_error(None);
            }
        },
    }
}

/// Cancels a job.
pub(crate) fn cancel_row<J: JobRow>(job: &mut J, now: i64)
    ensures
        final(job).model() == cancelled(old(job).model(), now),
{
    if row_is_unfinished(job) {
        job.set_status("cancelled");
        job.set_resolved_status("cancelled");
        job.set_resolved_at(now);
        job.set_finished(now);
    }
}

/// Closes a job.
pub(crate) fn close_row<J: JobRow>(job: &mut J, resolved: Option<&str>)
    ensures
        final(job).model() == closed(
            old(job).model(),
            match resolved {
                Some(r) => Some(r@),
                None => None,
            },
        ),
{
    if !same_text(job.status(), "closed") {
        job.set_prev_status();
        job.set_status("closed");
        if let Some(r) = resolved {
            job.set_resolved_status(r);
        }
    }
}

} // verus!
