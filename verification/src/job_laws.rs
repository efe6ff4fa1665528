//! What holds of jobs and job tables through all their changes.

use crate::jobs;
use crate::jobs::JobModel;
use crate::queue;
use crate::queue::JobFilter;
use vstd::prelude::*;

verus! {

proof fn lemma_statuses()
    ensures
        "pending"@ != "running"@,
        "pending"@ != "succeeded"@,
        "pending"@ != "failed"@,
        "pending"@ != "cancelled"@,
        "pending"@ != "closed"@,
        "running"@ != "succeeded"@,
        "running"@ != "failed"@,
        "running"@ != "cancelled"@,
        "running"@ != "closed"@,
        "succeeded"@ != "failed"@,
        "succeeded"@ != "cancelled"@,
        "succeeded"@ != "closed"@,
        "failed"@ != "cancelled"@,
        "failed"@ != "closed"@,
        "cancelled"@ != "closed"@,
{
    reveal_strlit("pending");
    reveal_strlit("running");
    reveal_strlit("succeeded");
    reveal_strlit("failed");
    reveal_strlit("cancelled");
    reveal_strlit("closed");
    assert("pending"@[0] == 'p');
    assert("running"@[0] == 'r');
    assert("succeeded"@[0] == 's');
    assert("failed"@[0] == 'f');
    assert("cancelled"@[1] == 'a');
    assert("closed"@[1] == 'l');
    assert("cancelled"@[0] == 'c');
    assert("closed"@[0] == 'c');
}

// --- One job ---

/// A job that has come to an end is not changed by completing, failing or
/// cancelling it again: a cancellation in particular is never overwritten.
pub proof fn law_end_is_final(m: JobModel, now: i64, error: Option<Seq<char>>, reason: Seq<char>)
    requires
        !jobs::is_unfinished(m),
    ensures
        jobs::completed(m, now, error) == m,
        jobs::failed(m, now, reason) == m,
        jobs::cancelled(m, now) == m,
{
}

/// Completing, failing and cancelling bring every unfinished job to its end.
pub proof fn law_unfinished_job_ends(m: JobModel, now: i64, error: Option<Seq<char>>, reason: Seq<char>)
    requires
        jobs::is_unfinished(m),
    ensures
        jobs::completed(m, now, error).status == if error is None {
            "succeeded"@
        } else {
            "failed"@
        },
        jobs::failed(m, now, reason).status == "failed"@,
        jobs::cancelled(m, now).status == "cancelled"@,
        !jobs::is_unfinished(jobs::completed(m, now, error)),
        !jobs::is_unfinished(jobs::failed(m, now, reason)),
        !jobs::is_unfinished(jobs::cancelled(m, now)),
{
    lemma_statuses();
}

/// A job that fails stays open for the reconciler: it still stands for its
/// work.
pub proof fn law_failure_stays_open(m: JobModel, now: i64, reason: Seq<char>)
    requires
        jobs::is_unfinished(m),
        m.resolved_status is None,
    ensures
        jobs::is_failed_open(jobs::failed(m, now, reason)),
        jobs::is_live(jobs::failed(m, now, reason)),
{
}

/// Closing twice is the same as closing once, and closing without a resolved
/// status keeps the one that the job has.
pub proof fn law_closing(m: JobModel, first: Option<Seq<char>>, second: Option<Seq<char>>)
    ensures
        jobs::closed(jobs::closed(m, first), second) == jobs::closed(m, first),
        jobs::closed(m, None).resolved_status == m.resolved_status,
        jobs::closed(m, first).status == "closed"@,
        m.status != "closed"@ ==> jobs::closed(m, first).prev_status == Some(m.status),
{
}

/// The job is in one of the known states, and its resolved status fits: it has
/// none while it is open, and its own status once it ended well or was
/// cancelled.
pub open spec fn is_sound(m: JobModel) -> bool {
    ||| jobs::is_unfinished(m) && m.resolved_status is None
    ||| m.status == "failed"@ && m.resolved_status is None
    ||| m.status == "succeeded"@ && m.resolved_status == Some("succeeded"@) && m.resolved_at is Some
    ||| m.status == "cancelled"@ && m.resolved_status == Some("cancelled"@) && m.resolved_at is Some
    ||| m.status == "closed"@ && m.prev_status is Some
}

/// Every change keeps a job sound.
pub proof fn law_changes_keep_jobs_sound(
    m: JobModel,
    now: i64,
    error: Option<Seq<char>>,
    reason: Seq<char>,
    resolved: Option<Seq<char>>,
)
    requires
        is_sound(m),
    ensures
        is_sound(jobs::completed(m, now, error)),
        is_sound(jobs::failed(m, now, reason)),
        is_sound(jobs::cancelled(m, now)),
        is_sound(jobs::closed(m, resolved)),
        m.status == "pending"@ ==> is_sound(jobs::claimed(m, now)),
{
    lemma_statuses();
}

/// No change makes a job live that was not, and none moves it to another
/// scope.
pub proof fn law_changes_raise_no_job(
    m: JobModel,
    now: i64,
    error: Option<Seq<char>>,
    reason: Seq<char>,
    resolved: Option<Seq<char>>,
)
    requires
        is_sound(m),
    ensures
        jobs::is_live(jobs::completed(m, now, error)) ==> jobs::is_live(m),
        jobs::is_live(jobs::failed(m, now, reason)) ==> jobs::is_live(m),
        jobs::is_live(jobs::cancelled(m, now)) ==> jobs::is_live(m),
        !jobs::is_live(jobs::closed(m, resolved)),
        jobs::completed(m, now, error).scope == m.scope,
        jobs::failed(m, now, reason).scope == m.scope,
        jobs::cancelled(m, now).scope == m.scope,
        jobs::closed(m, resolved).scope == m.scope,
{
    lemma_statuses();
}

// --- Tables ---

/// Every job of the table is sound.
pub open spec fn all_sound(s: Seq<JobModel>) -> bool {
    forall|i: int| 0 <= i < s.len() ==> is_sound(#[trigger] s[i])
}

/// At most one job stands for the work on any scope.
pub open spec fn one_live_per_scope(s: Seq<JobModel>) -> bool {
    forall|i: int, j: int|
        0 <= i < j < s.len() && jobs::is_live(#[trigger] s[i]) && jobs::is_live(#[trigger] s[j])
            ==> s[i].scope != s[j].scope
}

proof fn lemma_newest_live(s: Seq<JobModel>, n: int, scope: Seq<char>)
    requires
        0 <= n <= s.len(),
    ensures
        match queue::newest_live(s, n, scope) {
            Some(id) => exists|i: int|
                0 <= i < n && (#[trigger] s[i]).id == id && s[i].scope == scope && jobs::is_live(
                    s[i],
                ),
            None => forall|i: int|
                0 <= i < n && jobs::is_live(#[trigger] s[i]) ==> s[i].scope != scope,
        },
    decreases n,
{
    if n > 0 {
        if !(s[n - 1].scope == scope && jobs::is_live(s[n - 1])) {
            lemma_newest_live(s, n - 1, scope);
        }
    }
}

/// Queueing keeps one live job at most for a scope: a second request is answered with
/// the job that already stands for it, and only a scope without one gets a new
/// job.
pub proof fn law_queueing_keeps_one_live(s: Seq<JobModel>, scope: Seq<char>, job: JobModel)
    requires
        one_live_per_scope(s),
        queue::newest_live(s, s.len() as int, scope) is None,
        job.scope == scope,
    ensures
        one_live_per_scope(s.push(job)),
{
    lemma_newest_live(s, s.len() as int, scope);
    let t = s.push(job);
    assert forall|i: int, j: int|
        0 <= i < j < t.len() && jobs::is_live(#[trigger] t[i]) && jobs::is_live(
            #[trigger] t[j],
        ) implies t[i].scope != t[j].scope by {
        assert(t[i] == s[i]);
        if j < s.len() {
            assert(t[j] == s[j]);
        }
    }
}

/// A job that is found stands for the scope.
pub proof fn law_found_job_is_live(s: Seq<JobModel>, scope: Seq<char>, id: i64)
    requires
        queue::newest_live(s, s.len() as int, scope) == Some(id),
    ensures
        exists|i: int|
            0 <= i < s.len() && (#[trigger] s[i]).id == id && s[i].scope == scope
                && jobs::is_live(s[i]),
{
    lemma_newest_live(s, s.len() as int, scope);
}

/// A change that raises no job keeps at most one live job per scope.
proof fn lemma_change_keeps_one_live(s: Seq<JobModel>, t: Seq<JobModel>)
    requires
        one_live_per_scope(s),
        t.len() == s.len(),
        forall|i: int|
            0 <= i < s.len() ==> (#[trigger] t[i]).scope == s[i].scope && (jobs::is_live(t[i])
                ==> jobs::is_live(s[i])),
    ensures
        one_live_per_scope(t),
{
    assert forall|i: int, j: int|
        0 <= i < j < t.len() && jobs::is_live(#[trigger] t[i]) && jobs::is_live(
            #[trigger] t[j],
        ) implies t[i].scope != t[j].scope by {
        assert(jobs::is_live(s[i]) && jobs::is_live(s[j]));
    }
}

/// Ending, cancelling, closing and claiming jobs keep the table sound, and keep
/// at most one live job per scope.
pub proof fn law_changes_keep_tables(
    s: Seq<JobModel>,
    id: i64,
    now: i64,
    error: Option<Seq<char>>,
    resolved: Option<Seq<char>>,
    i: int,
)
    requires
        all_sound(s),
        one_live_per_scope(s),
    ensures
        ({
            let done = queue::changed(s, id, |m: JobModel| jobs::completed(m, now, error));
            let stopped = queue::changed(s, id, |m: JobModel| jobs::cancelled(m, now));
            let shut = queue::changed(s, id, |m: JobModel| jobs::closed(m, resolved));
            let taken = s.update(i, jobs::claimed(s[i], now));
            &&& all_sound(done) && one_live_per_scope(done)
            &&& all_sound(stopped) && one_live_per_scope(stopped)
            &&& all_sound(shut) && one_live_per_scope(shut)
            &&& queue::first_pending(s, 0) == Some(i) && 0 <= i < s.len() ==> all_sound(taken)
                && one_live_per_scope(taken)
        }),
{
    let done = queue::changed(s, id, |m: JobModel| jobs::completed(m, now, error));
    let stopped = queue::changed(s, id, |m: JobModel| jobs::cancelled(m, now));
    let shut = queue::changed(s, id, |m: JobModel| jobs::closed(m, resolved));
    let empty = Seq::<char>::empty();
    assert forall|k: int| 0 <= k < s.len() implies is_sound(#[trigger] done[k]) && is_sound(
        stopped[k],
    ) && is_sound(shut[k]) && done[k].scope == s[k].scope && stopped[k].scope == s[k].scope
        && shut[k].scope == s[k].scope && (jobs::is_live(done[k]) ==> jobs::is_live(s[k])) && (
    jobs::is_live(stopped[k]) ==> jobs::is_live(s[k])) && (jobs::is_live(shut[k]) ==> jobs::is_live(
        s[k],
    )) by {
        assert(is_sound(s[k]));
        law_changes_keep_jobs_sound(s[k], now, error, empty, resolved);
        law_changes_raise_no_job(s[k], now, error, empty, resolved);
    }
    assert forall|k: int| 0 <= k < s.len() implies is_sound(#[trigger] stopped[k]) && is_sound(
        shut[k],
    ) by {
        assert(is_sound(done[k]) && is_sound(stopped[k]));
    }
    assert forall|k: int| 0 <= k < s.len() implies is_sound(#[trigger] shut[k]) by {
        assert(is_sound(stopped[k]));
    }
    assert forall|k: int| 0 <= k < s.len() implies (#[trigger] stopped[k]).scope == s[k].scope && (
    jobs::is_live(stopped[k]) ==> jobs::is_live(s[k])) by {
        assert(is_sound(done[k]));
    }
    assert forall|k: int| 0 <= k < s.len() implies (#[trigger] shut[k]).scope == s[k].scope && (
    jobs::is_live(shut[k]) ==> jobs::is_live(s[k])) by {
        assert(is_sound(done[k]));
    }
    lemma_change_keeps_one_live(s, done);
    lemma_change_keeps_one_live(s, stopped);
    lemma_change_keeps_one_live(s, shut);
    if queue::first_pending(s, 0) == Some(i) && 0 <= i < s.len() {
        lemma_first_pending(s, 0);
        let taken = s.update(i, jobs::claimed(s[i], now));
        assert(is_sound(s[i]));
        law_changes_keep_jobs_sound(s[i], now, error, empty, resolved);
        lemma_change_keeps_one_live(s, taken);
    }
}

/// A running job that is put back to pending can be claimed again; it stays
/// sound, and stands for the same work.
pub proof fn law_requeued_job_waits(m: JobModel)
    requires
        is_sound(m),
        m.status == "running"@,
    ensures
        jobs::requeued(m).status == "pending"@,
        is_sound(jobs::requeued(m)),
        jobs::is_live(jobs::requeued(m)),
        jobs::requeued(m).id == m.id,
        jobs::requeued(m).scope == m.scope,
{
    lemma_statuses();
}

/// Putting the jobs of a lost worker, or those that ran too long, back to
/// pending keeps the table sound and keeps at most one live job per scope. No
/// job of that worker runs any more, and none that was started before the
/// cutoff.
pub proof fn law_requeueing_keeps_tables(s: Seq<JobModel>, worker: Seq<char>, cutoff: i64)
    requires
        all_sound(s),
        one_live_per_scope(s),
    ensures
        ({
            let back = queue::recovered(s, worker);
            let stale = JobFilter::RunningSince(cutoff);
            let fresh = queue::changed_where(s, stale, |m: JobModel| jobs::requeued(m));
            &&& all_sound(back) && one_live_per_scope(back)
            &&& all_sound(fresh) && one_live_per_scope(fresh)
            &&& forall|i: int|
                0 <= i < back.len() ==> !queue::is_left_behind(#[trigger] back[i], worker)
            &&& forall|i: int|
                0 <= i < fresh.len() ==> !queue::is_chosen(#[trigger] fresh[i], stale)
        }),
{
    lemma_statuses();
    let back = queue::recovered(s, worker);
    let stale = JobFilter::RunningSince(cutoff);
    let fresh = queue::changed_where(s, stale, |m: JobModel| jobs::requeued(m));
    assert forall|i: int| 0 <= i < s.len() implies is_sound(#[trigger] back[i]) && back[i].scope
        == s[i].scope && (jobs::is_live(back[i]) ==> jobs::is_live(s[i]))
        && !queue::is_left_behind(back[i], worker) by {
        assert(is_sound(s[i]));
    }
    assert forall|i: int| 0 <= i < s.len() implies is_sound(#[trigger] fresh[i]) && fresh[i].scope
        == s[i].scope && (jobs::is_live(fresh[i]) ==> jobs::is_live(s[i])) && !queue::is_chosen(
        fresh[i],
        stale,
    ) by {
        assert(is_sound(s[i]));
    }
    lemma_change_keeps_one_live(s, back);
    lemma_change_keeps_one_live(s, fresh);
}

proof fn lemma_first_pending(s: Seq<JobModel>, i: int)
    requires
        0 <= i,
    ensures
        queue::first_pending(s, i) matches Some(k) ==> i <= k < s.len() && s[k].status
            == "pending"@ && forall|j: int|
            i <= j < k ==> (#[trigger] s[j]).status != "pending"@,
        queue::first_pending(s, i) is None ==> forall|j: int|
            i <= j < s.len() ==> (#[trigger] s[j]).status != "pending"@,
    decreases s.len() - i,
{
    if i < s.len() && s[i].status != "pending"@ {
        lemma_first_pending(s, i + 1);
    }
}

/// The job that is claimed is the oldest pending one, and nothing is claimed
/// only where nothing is pending.
pub proof fn law_oldest_pending_is_claimed(s: Seq<JobModel>, next_id: i64)
    requires
        queue::in_order(s, next_id),
    ensures
        match queue::first_pending(s, 0) {
            Some(k) => 0 <= k < s.len() && s[k].status == "pending"@ && forall|j: int|
                0 <= j < s.len() && (#[trigger] s[j]).status == "pending"@ ==> s[k].id <= s[j].id,
            None => forall|j: int| 0 <= j < s.len() ==> (#[trigger] s[j]).status != "pending"@,
        },
{
    lemma_first_pending(s, 0);
    if let Some(k) = queue::first_pending(s, 0) {
        assert forall|j: int|
            0 <= j < s.len() && (#[trigger] s[j]).status == "pending"@ implies s[k].id <= s[j].id by {
            if j > k {
                assert(s[k].id < s[j].id);
            }
        }
    }
}

/// A retry has a chain that is one longer than that of the job it retries.
pub proof fn law_retry_lengthens_chain(
    s: Seq<JobModel>,
    next_id: i64,
    job: JobModel,
    trigger: Seq<char>,
    steps: nat,
)
    requires
        queue::in_order(s, next_id),
        forall|i: int| 0 <= i < s.len() && (#[trigger] s[i]).retry_of is Some ==> s[i].retry_of->0
            < s[i].id,
        queue::job_with(s, job.id) is Some,
        job.id < next_id,
    ensures
        queue::chain_len(s.push(jobs::retried(job, next_id, trigger)), next_id, steps + 1) == 1
            + queue::chain_len(s, job.id, steps),
{
    let t = s.push(jobs::retried(job, next_id, trigger));
    lemma_job_in_pushed(s, next_id, t.last(), next_id, 0);
    lemma_chain_in_pushed(s, next_id, t.last(), job.id, steps);
}

proof fn lemma_job_in_pushed(s: Seq<JobModel>, next_id: i64, job: JobModel, id: i64, i: int)
    requires
        queue::in_order(s, next_id),
        job.id == next_id,
        0 <= i <= s.len(),
    ensures
        id != next_id ==> queue::job_from(s.push(job), id, i) == queue::job_from(s, id, i),
        id == next_id ==> queue::job_from(s.push(job), id, i) == Some(job),
    decreases s.len() - i,
{
    let t = s.push(job);
    if i < s.len() {
        assert(t[i] == s[i]);
        assert(s[i].id < next_id);
        lemma_job_in_pushed(s, next_id, job, id, i + 1);
    } else {
        assert(t[i] == job);
        assert(queue::job_from(t, id, i + 1) is None);
    }
}

proof fn lemma_found(s: Seq<JobModel>, id: i64, i: int)
    requires
        0 <= i,
    ensures
        queue::job_from(s, id, i) matches Some(m) ==> exists|k: int|
            i <= k < s.len() && #[trigger] s[k] == m && m.id == id,
    decreases s.len() - i,
{
    if i < s.len() && s[i].id != id {
        lemma_found(s, id, i + 1);
    }
}

proof fn lemma_chain_in_pushed(s: Seq<JobModel>, next_id: i64, job: JobModel, id: i64, steps: nat)
    requires
        queue::in_order(s, next_id),
        forall|i: int| 0 <= i < s.len() && (#[trigger] s[i]).retry_of is Some ==> s[i].retry_of->0
            < s[i].id,
        job.id == next_id,
        id < next_id,
    ensures
        queue::chain_len(s.push(job), id, steps) == queue::chain_len(s, id, steps),
    decreases steps,
{
    if steps > 0 {
        lemma_job_in_pushed(s, next_id, job, id, 0);
        lemma_found(s, id, 0);
        if let Some(m) = queue::job_with(s, id) {
            let k = choose|k: int| 0 <= k < s.len() && #[trigger] s[k] == m && m.id == id;
            if let Some(p) = m.retry_of {
                assert(s[k].retry_of->0 < s[k].id);
                lemma_chain_in_pushed(s, next_id, job, p, (steps - 1) as nat);
            }
        }
    }
}

/// Dealing with the failed jobs keeps the table sound, and keeps at most one
/// live job per scope: a retry takes the place of the job that it retries.
pub proof fn law_reconciling_keeps_tables(
    s: Seq<JobModel>,
    next_id: i64,
    n: int,
    max_chain: nat,
    trigger: Seq<char>,
)
    requires
        queue::in_order(s, next_id),
        0 <= n <= s.len(),
        next_id + s.len() <= i64::MAX,
        all_sound(s),
        one_live_per_scope(s),
    ensures
        all_sound(queue::reconciled(s, next_id, n, max_chain, trigger).0),
        one_live_per_scope(queue::reconciled(s, next_id, n, max_chain, trigger).0),
    decreases n,
{
    if n > 0 {
        law_reconciling_keeps_tables(s, next_id, n - 1, max_chain, trigger);
        queue::law_reconciling_closes_failed_jobs(s, next_id, n - 1, max_chain, trigger);
        let (t, next) = queue::reconciled(s, next_id, n - 1, max_chain, trigger);
        let job = s[n - 1];
        if job.status == "failed"@ {
            assert(t[n - 1] == job);
            if queue::has_successor(t, job.scope, job.id) {
                law_changes_keep_tables(t, job.id, 0, None, Some("superseded"@), 0);
            } else if queue::chain_len(t, job.id, queue::MAX_CHAIN_STEPS as nat) >= max_chain {
                law_changes_keep_tables(t, job.id, 0, None, Some("gave_up"@), 0);
            } else {
                lemma_retry_keeps_table(t, next, n - 1, trigger);
            }
        }
    }
}

proof fn lemma_retry_keeps_table(t: Seq<JobModel>, next: i64, i: int, trigger: Seq<char>)
    requires
        queue::in_order(t, next),
        next < i64::MAX,
        0 <= i < t.len(),
        t[i].status == "failed"@,
        all_sound(t),
        one_live_per_scope(t),
    ensures
        ({
            let after = queue::changed(
                t.push(jobs::retried(t[i], next, trigger)),
                t[i].id,
                |m: JobModel| jobs::closed(m, Some("retried"@)),
            );
            all_sound(after) && one_live_per_scope(after)
        }),
{
    lemma_statuses();
    let job = t[i];
    let again = |m: JobModel| jobs::closed(m, Some("retried"@));
    let pushed = t.push(jobs::retried(job, next, trigger));
    assert(queue::in_order(pushed, (next + 1) as i64));
    queue::lemma_changed_at(pushed, (next + 1) as i64, job.id, i, again);
    let after = pushed.update(i, again(job));
    assert(is_sound(job));
    assert(jobs::is_live(job));
    law_changes_keep_jobs_sound(job, 0, None, Seq::empty(), Some("retried"@));
    assert forall|k: int| 0 <= k < after.len() implies is_sound(#[trigger] after[k]) by {
        if k < t.len() && k != i {
            assert(is_sound(t[k]));
        }
    }
    assert forall|a: int, b: int|
        0 <= a < b < after.len() && jobs::is_live(#[trigger] after[a]) && jobs::is_live(
            #[trigger] after[b],
        ) implies after[a].scope != after[b].scope by {
        assert(a != i && b != i);
        assert(after[a] == t[a]);
        if b < t.len() {
            assert(after[b] == t[b]);
        } else if a < i {
            assert(t[a].scope != t[i].scope);
        } else {
            assert(t[i].scope != t[a].scope);
        }
    }
}

} // verus!
