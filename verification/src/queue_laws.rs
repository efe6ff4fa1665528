//! What holds of the job tables, told by the rows themselves.

use crate::jobs;
use crate::jobs::JobModel;
use crate::queue;
use crate::queue::JobFilter;
use crate::rows;
use crate::worker;
use vstd::prelude::*;

verus! {

// --- One job ---

/// Two jobs are the same but for how far they have come.
pub open spec fn same_work(a: JobModel, b: JobModel) -> bool {
    &&& a.id == b.id
    &&& a.scope == b.scope
    &&& a.kind == b.kind
    &&& a.triggered_by == b.triggered_by
    &&& a.worker_id == b.worker_id
    &&& a.progress == b.progress
    &&& a.total == b.total
    &&& a.retry_of == b.retry_of
}

/// A job is live while it is pending or running, and after a failure until its
/// outcome is resolved.
pub proof fn law_live_jobs(m: JobModel)
    ensures
        jobs::is_unfinished(m) <==> m.status == "pending"@ || m.status == "running"@,
        jobs::is_live(m) <==> m.status == "pending"@ || m.status == "running"@ || (m.status
            == "failed"@ && m.resolved_status is None),
{
}

/// What each change does to a job that it applies to.
pub proof fn law_changes_of_a_job(
    m: JobModel,
    now: i64,
    reason: Seq<char>,
    resolved: Option<Seq<char>>,
)
    ensures
        ({
            let f = jobs::failed(m, now, reason);
            let d = jobs::completed(m, now, None);
            let e = jobs::completed(m, now, Some(reason));
            let c = jobs::cancelled(m, now);
            let open = m.status == "pending"@ || m.status == "running"@;
            &&& same_work(f, m) && same_work(d, m) && same_work(c, m)
            &&& e == f
            &&& f.started_at == m.started_at && d.started_at == m.started_at && c.started_at
                == m.started_at
            &&& open ==> f.status == "failed"@ && f.finished_at == Some(now) && f.error == Some(
                reason,
            ) && f.resolved_status == m.resolved_status && f.resolved_at == m.resolved_at
            &&& open ==> d.status == "succeeded"@ && d.finished_at == Some(now) && d.error is None
                && d.resolved_status == Some("succeeded"@) && d.resolved_at == Some(now)
            &&& open ==> c.status == "cancelled"@ && c.finished_at == Some(now)
                && c.resolved_status == Some("cancelled"@) && c.resolved_at == Some(now) && c.error
                == m.error
            &&& !open ==> f == m && d == m && c == m
        }),
        ({
            let k = jobs::closed(m, resolved);
            &&& same_work(k, m)
            &&& k.status == "closed"@
            &&& m.status != "closed"@ ==> k.prev_status == Some(m.status) && k.resolved_status
                == if resolved is Some {
                resolved
            } else {
                m.resolved_status
            }
            &&& m.status == "closed"@ ==> k == m
            &&& k.error == m.error && k.finished_at == m.finished_at && k.resolved_at
                == m.resolved_at && k.started_at == m.started_at
        }),
        ({
            let c = jobs::claimed(m, now);
            &&& same_work(c, m)
            &&& c.status == "running"@ && c.started_at == Some(now)
            &&& c.error == m.error && c.finished_at == m.finished_at && c.resolved_status
                == m.resolved_status && c.prev_status == m.prev_status && c.resolved_at
                == m.resolved_at
        }),
{
}

/// A retry is a new pending job for the same work, which names the job it retries
/// and has come nowhere yet.
pub proof fn law_retry_is_fresh(m: JobModel, id: i64, trigger: Seq<char>)
    ensures
        ({
            let r = jobs::retried(m, id, trigger);
            &&& r.id == id && r.retry_of == Some(m.id) && r.scope == m.scope && r.kind == m.kind
                && r.triggered_by == trigger && r.status == "pending"@
            &&& r.worker_id is None && r.progress == 0 && r.total == 0 && r.started_at is None
                && r.finished_at is None && r.error is None && r.resolved_status is None
                && r.prev_status is None && r.resolved_at is None
        }),
{
}

/// A new job is pending and has come nowhere yet.
pub proof fn law_new_job_is_pending(
    id: i64,
    scope: Seq<char>,
    kind: Seq<char>,
    trigger: Seq<char>,
    started_at: Option<i64>,
    retry_of: Option<i64>,
)
    ensures
        ({
            let r = queue::new_index_job(id, scope, kind, trigger, retry_of);
            &&& r.id == id && r.retry_of == retry_of && r.scope == scope && r.kind == kind
                && r.triggered_by == trigger && r.status == "pending"@
            &&& r.worker_id is None && r.progress == 0 && r.total == 0 && r.started_at is None
                && r.finished_at is None && r.error is None && r.resolved_status is None
                && r.prev_status is None && r.resolved_at is None
        }),
        ({
            let r = queue::new_embed_job(id, scope, started_at, retry_of);
            &&& r.id == id && r.retry_of == retry_of && r.scope == scope && r.status == "pending"@
                && r.started_at == started_at
            &&& r.worker_id is None && r.progress == 0 && r.total == 0 && r.finished_at is None
                && r.error is None && r.resolved_status is None && r.resolved_at is None
        }),
{
}

// --- Finding jobs ---

/// In a table in order, every job is found by its id, and an id that no job has
/// finds none.
pub proof fn law_job_is_found_by_id(s: Seq<JobModel>, next_id: i64, id: i64)
    requires
        queue::in_order(s, next_id),
    ensures
        forall|i: int|
            0 <= i < s.len() && (#[trigger] s[i]).id == id ==> queue::job_with(s, id) == Some(s[i]),
        (forall|i: int| 0 <= i < s.len() ==> (#[trigger] s[i]).id != id) ==> queue::job_with(
            s,
            id,
        ) is None,
{
    let value = |m: JobModel|
        if m.id == id {
            Some(m)
        } else {
            None
        };
    rows::lemma_first(s, value, |k: int| queue::job_from(s, id, k));
    assert forall|i: int| 0 <= i < s.len() && (#[trigger] s[i]).id == id implies queue::job_with(
        s,
        id,
    ) == Some(s[i]) by {
        assert(value(s[i]) is Some);
        let k = choose|k: int|
            0 <= k < s.len() && value(#[trigger] s[k]) == queue::job_with(s, id) && forall|j: int|
                0 <= j < k ==> value(#[trigger] s[j]) is None;
        if k < i {
            assert(s[k].id < s[i].id);
        } else if i < k {
            assert(value(s[i]) is None);
        }
    }
}

/// The job stands for the scope: it is pending or running, or failed and not
/// resolved.
pub open spec fn stands_for(m: JobModel, scope: Seq<char>) -> bool {
    m.scope == scope && (m.status == "pending"@ || m.status == "running"@ || (m.status == "failed"@
        && m.resolved_status is None))
}

/// The job that is found for a scope is the last one in the table that stands for
/// it, and none is found only where none stands for it.
pub proof fn law_newest_job_stands_for_scope(s: Seq<JobModel>, scope: Seq<char>)
    ensures
        forall|i: int|
            0 <= i < s.len() && stands_for(#[trigger] s[i], scope) && (forall|j: int|
                i < j < s.len() ==> !stands_for(#[trigger] s[j], scope)) ==> queue::newest_live(
                s,
                s.len() as int,
                scope,
            ) == Some(s[i].id),
        (forall|i: int| 0 <= i < s.len() ==> !stands_for(#[trigger] s[i], scope))
            ==> queue::newest_live(s, s.len() as int, scope) is None,
{
    assert forall|i: int|
        0 <= i < s.len() && stands_for(#[trigger] s[i], scope) && (forall|j: int|
            i < j < s.len() ==> !stands_for(#[trigger] s[j], scope)) implies queue::newest_live(
        s,
        s.len() as int,
        scope,
    ) == Some(s[i].id) by {
        lemma_newest(s, s.len() as int, scope, i);
    }
    if forall|i: int| 0 <= i < s.len() ==> !stands_for(#[trigger] s[i], scope) {
        lemma_none_newest(s, s.len() as int, scope);
    }
}

proof fn lemma_newest(s: Seq<JobModel>, n: int, scope: Seq<char>, i: int)
    requires
        0 <= i < n <= s.len(),
        stands_for(s[i], scope),
        forall|j: int| i < j < s.len() ==> !stands_for(#[trigger] s[j], scope),
    ensures
        queue::newest_live(s, n, scope) == Some(s[i].id),
    decreases n,
{
    if i < n - 1 {
        assert(!stands_for(s[n - 1], scope));
        lemma_newest(s, n - 1, scope, i);
    }
}

proof fn lemma_none_newest(s: Seq<JobModel>, n: int, scope: Seq<char>)
    requires
        0 <= n <= s.len(),
        forall|j: int| 0 <= j < s.len() ==> !stands_for(#[trigger] s[j], scope),
    ensures
        queue::newest_live(s, n, scope) is None,
    decreases n,
{
    if n > 0 {
        assert(!stands_for(s[n - 1], scope));
        lemma_none_newest(s, n - 1, scope);
    }
}

/// The job is one of a choice.
pub open spec fn is_of(m: JobModel, choice: JobFilter) -> bool {
    match choice {
        JobFilter::Pending => m.status == "pending"@,
        JobFilter::Failed => m.status == "failed"@,
        JobFilter::Unfinished => m.status == "pending"@ || m.status == "running"@,
        JobFilter::Finished => m.status != "pending"@ && m.status != "running"@,
        JobFilter::Open => m.status == "pending"@ || m.status == "running"@ || m.status
            == "failed"@,
        JobFilter::Ended => m.status != "pending"@ && m.status != "running"@ && m.status
            != "failed"@,
        JobFilter::RunningSince(before) => m.status == "running"@ && m.started_at is Some
            && m.started_at->0 < before,
        JobFilter::Archivable(by) => (m.status == "succeeded"@ || m.status == "cancelled"@)
            && m.resolved_at is Some && m.resolved_at->0 <= by,
    }
}

/// A list of chosen jobs has every job of the choice, in the order of the table,
/// and no other.
pub proof fn law_chosen_jobs(s: Seq<JobModel>, choice: JobFilter)
    ensures
        rows::is_selection(
            s,
            |m: JobModel|
                if is_of(m, choice) {
                    Some(m)
                } else {
                    None
                },
            queue::chosen(s, choice),
        ),
        queue::chosen_ids(s, choice).len() == queue::chosen(s, choice).len(),
        forall|i: int|
            0 <= i < queue::chosen(s, choice).len() ==> queue::chosen_ids(s, choice)[i] == (
            #[trigger] queue::chosen(s, choice)[i]).id,
{
    let fits = |m: JobModel| queue::is_chosen(m, choice);
    rows::lemma_filtered(s, fits);
    rows::lemma_same_selection(
        s,
        |m: JobModel|
            if fits(m) {
                Some(m)
            } else {
                None
            },
        |m: JobModel|
            if is_of(m, choice) {
                Some(m)
            } else {
                None
            },
        queue::chosen(s, choice),
    );
}

/// A listing has first every job of the one choice, and then the newest of the
/// other, newest first and no more than the limit.
pub proof fn law_listing(s: Seq<JobModel>, active: JobFilter, others: JobFilter, recent: int)
    requires
        0 <= recent,
    ensures
        ({
            let first = queue::chosen(s, active);
            let rest = queue::chosen(s, others);
            let all = queue::with_recent(s, active, others, recent);
            let shown = if rest.len() < recent {
                rest.len() as int
            } else {
                recent
            };
            &&& all.len() == first.len() + shown
            &&& forall|i: int| 0 <= i < first.len() ==> #[trigger] all[i] == first[i]
            &&& forall|i: int|
                0 <= i < shown ==> all[first.len() + i] == #[trigger] rest[rest.len() - 1 - i]
        }),
{
    let first = queue::chosen(s, active);
    let rest = queue::chosen(s, others);
    let all = queue::with_recent(s, active, others, recent);
    let shown = if rest.len() < recent {
        rest.len() as int
    } else {
        recent
    };
    assert forall|i: int| 0 <= i < shown implies all[first.len() + i] == #[trigger] rest[rest.len()
        - 1 - i] by {
        assert(rest.reverse()[i] == rest[rest.len() - 1 - i]);
    }
}

/// A change by id touches the jobs with that id and no others, and the table keeps
/// its length and order; a change of a choice touches the jobs of the choice.
pub proof fn law_changes_touch_what_they_name(
    s: Seq<JobModel>,
    id: i64,
    choice: JobFilter,
    change: spec_fn(JobModel) -> JobModel,
    i: int,
)
    requires
        0 <= i < s.len(),
    ensures
        queue::changed(s, id, change).len() == s.len(),
        s[i].id == id ==> queue::changed(s, id, change)[i] == change(s[i]),
        s[i].id != id ==> queue::changed(s, id, change)[i] == s[i],
        queue::changed_where(s, choice, change).len() == s.len(),
        is_of(s[i], choice) ==> queue::changed_where(s, choice, change)[i] == change(s[i]),
        !is_of(s[i], choice) ==> queue::changed_where(s, choice, change)[i] == s[i],
{
}

/// A job has a successor exactly if a later job for its scope is pending, running,
/// succeeded, cancelled or closed.
pub proof fn law_successors(s: Seq<JobModel>, scope: Seq<char>, id: i64)
    ensures
        queue::has_successor(s, scope, id) <==> exists|i: int|
            0 <= i < s.len() && (#[trigger] s[i]).scope == scope && s[i].id > id && (s[i].status
                == "pending"@ || s[i].status == "running"@ || s[i].status == "succeeded"@
                || s[i].status == "cancelled"@ || s[i].status == "closed"@),
{
    if queue::has_successor(s, scope, id) {
        let i = choose|i: int| 0 <= i < s.len() && queue::succeeds_job(#[trigger] s[i], scope, id);
        assert(s[i].scope == scope);
    }
    if exists|i: int|
        0 <= i < s.len() && (#[trigger] s[i]).scope == scope && s[i].id > id && (s[i].status
            == "pending"@ || s[i].status == "running"@ || s[i].status == "succeeded"@ || s[i].status
            == "cancelled"@ || s[i].status == "closed"@) {
        let i = choose|i: int|
            0 <= i < s.len() && (#[trigger] s[i]).scope == scope && s[i].id > id && (s[i].status
                == "pending"@ || s[i].status == "running"@ || s[i].status == "succeeded"@
                || s[i].status == "cancelled"@ || s[i].status == "closed"@);
        assert(queue::succeeds_job(s[i], scope, id));
    }
}

/// A job that retries none is a chain of one, and a job that retries another has a
/// chain that is one longer than that of the other, as long as links are followed.
pub proof fn law_chain_counts_retries(s: Seq<JobModel>, next_id: i64, i: int, steps: nat)
    requires
        queue::in_order(s, next_id),
        0 <= i < s.len(),
    ensures
        s[i].retry_of is None ==> queue::chain_len(s, s[i].id, steps) == 1,
        s[i].retry_of matches Some(p) ==> queue::chain_len(s, s[i].id, steps + 1) == 1
            + queue::chain_len(s, p, steps),
        queue::chain_len(s, s[i].id, steps) >= 1,
        queue::MAX_CHAIN_STEPS == 1024,
{
    law_job_is_found_by_id(s, next_id, s[i].id);
}

// --- Reconciling ---

/// The job was given up, or replaced: closed with one of the three outcomes, from
/// a failure.
pub open spec fn is_dealt_with(before: JobModel, after: JobModel) -> bool {
    &&& after.status == "closed"@
    &&& after.prev_status == Some("failed"@)
    &&& after.resolved_status == Some("superseded"@) || after.resolved_status == Some("gave_up"@)
        || after.resolved_status == Some("retried"@)
    &&& same_work(after, before)
    &&& after.error == before.error
}

/// Dealing with one failed job: where it has a successor it is closed as
/// superseded; else where its chain is as long as allowed it is closed as given
/// up; else a retry of it is added and it is closed as retried. No other job
/// changes.
pub proof fn law_one_failure_is_dealt_with(
    s: Seq<JobModel>,
    next_id: i64,
    k: int,
    max_chain: nat,
    trigger: Seq<char>,
)
    requires
        queue::in_order(s, next_id),
        next_id < i64::MAX,
        0 <= k < s.len(),
        s[k].status == "failed"@,
    ensures
        ({
            let (t, next) = queue::reconciled_one(s, next_id, s[k], max_chain, trigger);
            let replaced = queue::has_successor(s, s[k].scope, s[k].id);
            let worn_out = queue::chain_len(s, s[k].id, 1024) >= max_chain;
            let again = !replaced && !worn_out;
            &&& t.len() == s.len() + if again {
                1int
            } else {
                0
            }
            &&& next == next_id + if again {
                1int
            } else {
                0
            }
            &&& is_dealt_with(s[k], t[k])
            &&& t[k].resolved_status == Some("superseded"@) <==> replaced
            &&& t[k].resolved_status == Some("gave_up"@) <==> !replaced && worn_out
            &&& t[k].resolved_status == Some("retried"@) <==> again
            &&& forall|j: int| 0 <= j < s.len() && j != k ==> #[trigger] t[j] == s[j]
            &&& again ==> t.last().status == "pending"@ && t.last().scope == s[k].scope
                && t.last().retry_of == Some(s[k].id) && t.last().id == next_id
        }),
{
    reveal_strlit("failed");
    reveal_strlit("closed");
    reveal_strlit("superseded");
    reveal_strlit("gave_up");
    reveal_strlit("retried");
    assert("failed"@[0] != "closed"@[0]);
    assert("superseded"@.len() == 10 && "gave_up"@.len() == 7 && "retried"@.len() == 7);
    assert("gave_up"@[0] != "retried"@[0]);
    let job = s[k];
    let superseded = |m: JobModel| jobs::closed(m, Some("superseded"@));
    let gave_up = |m: JobModel| jobs::closed(m, Some("gave_up"@));
    let retried = |m: JobModel| jobs::closed(m, Some("retried"@));
    let pushed = s.push(jobs::retried(job, next_id, trigger));
    queue::lemma_changed_at(s, next_id, job.id, k, superseded);
    queue::lemma_changed_at(s, next_id, job.id, k, gave_up);
    assert(queue::in_order(pushed, (next_id + 1) as i64));
    queue::lemma_changed_at(pushed, (next_id + 1) as i64, job.id, k, retried);
}

/// Dealing with all failed jobs leaves every other job as it is, closes each failed
/// one, and adds only pending retries behind them.
pub proof fn law_only_failures_are_dealt_with(
    s: Seq<JobModel>,
    next_id: i64,
    n: int,
    max_chain: nat,
    trigger: Seq<char>,
)
    requires
        queue::in_order(s, next_id),
        0 <= n <= s.len(),
        next_id + s.len() <= i64::MAX,
    ensures
        ({
            let (t, next) = queue::reconciled(s, next_id, n, max_chain, trigger);
            &&& s.len() <= t.len()
            &&& next - next_id == t.len() - s.len()
            &&& forall|k: int|
                0 <= k < s.len() && ((#[trigger] s[k]).status != "failed"@ || k >= n) ==> t[k]
                    == s[k]
            &&& forall|k: int|
                0 <= k < n && (#[trigger] s[k]).status == "failed"@ ==> is_dealt_with(s[k], t[k])
            &&& forall|k: int|
                s.len() <= k < t.len() ==> (#[trigger] t[k]).status == "pending"@
                    && t[k].retry_of is Some && t[k].id == next_id + (k - s.len())
        }),
    decreases n,
{
    if n > 0 {
        law_only_failures_are_dealt_with(s, next_id, n - 1, max_chain, trigger);
        queue::law_reconciling_closes_failed_jobs(s, next_id, n - 1, max_chain, trigger);
        let (t, next) = queue::reconciled(s, next_id, n - 1, max_chain, trigger);
        if s[n - 1].status == "failed"@ {
            assert(t[n - 1] == s[n - 1]);
            law_one_failure_is_dealt_with(t, next, n - 1, max_chain, trigger);
            let (u, after) = queue::reconciled(s, next_id, n, max_chain, trigger);
            assert forall|k: int|
                0 <= k < n && (#[trigger] s[k]).status == "failed"@ implies is_dealt_with(
                s[k],
                u[k],
            ) by {
                if k < n - 1 {
                    assert(u[k] == t[k]);
                }
            }
            assert forall|k: int|
                0 <= k < s.len() && ((#[trigger] s[k]).status != "failed"@ || k >= n) implies u[k]
                == s[k] by {
                assert(u[k] == t[k]);
            }
        }
    }
}

// --- Workers ---

/// Recovering a worker's jobs puts those back to pending that run for it, or for
/// no worker that is named, leaves all others as they are, and counts them.
pub proof fn law_recovered_jobs(s: Seq<JobModel>, worker: Seq<char>, i: int)
    requires
        0 <= i < s.len(),
    ensures
        ({
            let t = queue::recovered(s, worker);
            let mine = s[i].status == "running"@ && (s[i].worker_id is None || s[i].worker_id
                == Some(worker));
            &&& t.len() == s.len()
            &&& mine ==> t[i].status == "pending"@ && same_work(t[i], s[i]) && t[i].error
                == s[i].error
            &&& !mine ==> t[i] == s[i]
        }),
        queue::left_behind(s, s.len() as int, worker) == s.filter(
            |m: JobModel|
                m.status == "running"@ && (m.worker_id is None || m.worker_id == Some(worker)),
        ).len(),
{
    lemma_left_behind(s, s.len() as int, worker);
    assert(s.take(s.len() as int) =~= s);
}

proof fn lemma_left_behind(s: Seq<JobModel>, n: int, worker: Seq<char>)
    requires
        0 <= n <= s.len(),
    ensures
        queue::left_behind(s, n, worker) == s.take(n).filter(
            |m: JobModel|
                m.status == "running"@ && (m.worker_id is None || m.worker_id == Some(worker)),
        ).len(),
    decreases n,
{
    reveal(Seq::filter);
    if n > 0 {
        lemma_left_behind(s, n - 1, worker);
        assert(s.take(n).drop_last() =~= s.take(n - 1));
        assert(s.take(n).last() == s[n - 1]);
    }
}

// --- Housekeeping ---

/// Tidying fails a job that has run since before the timeout, closes a job that
/// succeeded or was cancelled by the grace, and leaves every other job as it is.
pub proof fn law_jobs_are_tidied(
    s: Seq<JobModel>,
    now: i64,
    timeout_secs: i64,
    close_grace_secs: i64,
    i: int,
)
    requires
        0 <= i < s.len(),
        i64::MIN <= now - timeout_secs <= i64::MAX,
        i64::MIN <= now - close_grace_secs <= i64::MAX,
    ensures
        ({
            let t = worker::tidied(s, now, timeout_secs, close_grace_secs);
            let m = s[i];
            let overdue = m.status == "running"@ && (m.started_at matches Some(at) && at < now
                - timeout_secs);
            let over = (m.status == "succeeded"@ || m.status == "cancelled"@) && (
            m.resolved_at matches Some(at) && at <= now - close_grace_secs);
            &&& t.len() == s.len()
            &&& overdue ==> same_work(t[i], m) && t[i].status == "failed"@ && t[i].error == Some(
                "timeout"@,
            ) && t[i].finished_at == Some(now)
            &&& over ==> same_work(t[i], m) && t[i].status == "closed"@ && t[i].prev_status == Some(
                m.status,
            ) && t[i].resolved_status == m.resolved_status
            &&& !overdue && !over ==> t[i] == m
        }),
{
    reveal_strlit("running");
    reveal_strlit("succeeded");
    reveal_strlit("cancelled");
    reveal_strlit("failed");
    reveal_strlit("closed");
    reveal_strlit("pending");
    assert("running"@[0] == 'r' && "succeeded"@[0] == 's' && "cancelled"@[0] == 'c' && "failed"@[0]
        == 'f' && "pending"@[0] == 'p');
    assert("cancelled"@.len() != "closed"@.len() && "closed"@[0] == 'c');
}

/// Failed jobs are dealt with in housekeeping exactly where the time between two
/// reconciliations has passed.
pub proof fn law_housekeeping(
    s: Seq<JobModel>,
    next_id: i64,
    now: i64,
    settings: worker::LifecycleSettings,
    elapsed_secs: u64,
    trigger: Seq<char>,
)
    ensures
        ({
            let tidy = worker::tidied(s, now, settings.timeout_secs, settings.close_grace_secs);
            let r = worker::housekept(s, next_id, now, settings, elapsed_secs, trigger);
            &&& elapsed_secs < settings.reconcile_secs ==> r == (tidy, next_id)
            &&& elapsed_secs >= settings.reconcile_secs ==> r == queue::reconciled(
                tidy,
                next_id,
                tidy.len() as int,
                settings.max_chain as nat,
                trigger,
            )
        }),
{
}

} // verus!
