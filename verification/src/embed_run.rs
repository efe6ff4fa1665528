//! The course of an embedding job: page after page until all are done, it is
//! stopped or too many pages fail in a row; and how the job then ends.

use crate::job_laws;
use crate::jobs;
use crate::jobs::{EmbedJob, JobModel};
use crate::pipeline;
use crate::queue;
use crate::queue::JobQueue;
use crate::text;
use crate::text::{chars_of, decimal_int_string, decimal_string, join_chars, string_of};
use vstd::prelude::*;
use vstd::string::StringExecFns;

verus! {

/// How many failed pages make a job fail, without a setting.
pub const DEFAULT_FAILURE_THRESHOLD: usize = 10;

/// How many failures in a row end a job early, without a setting.
pub const DEFAULT_CONSECUTIVE_ABORT: usize = 10;

/// What came of an embedding job.
#[derive(Debug)]
pub struct PipelineResult {
    pub succeeded: usize,
    /// The pages that failed, each with its error.
    pub failed_pages: Vec<(i64, String)>,
    /// The job ended before all pages were tried.
    pub aborted: bool,
}

// --- The run ---

/// The state of a run.
#[verifier::ext_equal]
pub struct RunModel {
    /// How many pages were tried.
    pub done: int,
    pub succeeded: int,
    pub failed: Seq<(i64, Seq<char>)>,
    /// How many pages failed since the last that succeeded.
    pub consecutive: int,
    pub aborted: bool,
}

/// A run that has not begun.
pub open spec fn run_start() -> RunModel {
    RunModel { done: 0, succeeded: 0, failed: Seq::empty(), consecutive: 0, aborted: false }
}

/// There is a page to try.
pub open spec fn run_goes_on(m: RunModel, pages: Seq<i64>) -> bool {
    !m.aborted && m.done < pages.len()
}

/// The run after the next page was embedded.
pub open spec fn run_embedded(m: RunModel) -> RunModel {
    RunModel { done: m.done + 1, succeeded: m.succeeded + 1, consecutive: 0, ..m }
}

/// The run after the next page failed. With `limit` failures in a row it is
/// given up.
pub open spec fn run_failed(m: RunModel, pages: Seq<i64>, limit: int, error: Seq<char>) -> RunModel {
    RunModel {
        done: m.done + 1,
        failed: m.failed.push((pages[m.done], error)),
        consecutive: m.consecutive + 1,
        aborted: m.consecutive + 1 >= limit,
        ..m
    }
}

/// The run after it was stopped.
pub open spec fn run_stopped(m: RunModel) -> RunModel {
    RunModel { aborted: true, ..m }
}

/// A job's pages, one after the other.
pub struct PipelineRun {
    pub page_ids: Vec<i64>,
    pub done: usize,
    pub succeeded: usize,
    pub failed_pages: Vec<(i64, String)>,
    pub consecutive_failures: usize,
    pub consecutive_abort: usize,
    pub aborted: bool,
}

impl PipelineRun {
    /// The state of the run.
    pub open spec fn model(self) -> RunModel {
        RunModel {
            done: self.done as int,
            succeeded: self.succeeded as int,
            failed: pipeline::labelled(self.failed_pages@),
            consecutive: self.consecutive_failures as int,
            aborted: self.aborted,
        }
    }

    /// Each page that was tried either succeeded or failed.
    pub open spec fn well_formed(self) -> bool {
        &&& self.done <= self.page_ids@.len()
        &&& self.succeeded + self.failed_pages@.len() == self.done
        &&& self.consecutive_failures <= self.failed_pages@.len()
    }

    /// Begins a run over the pages that is given up after `consecutive_abort`
    /// failures in a row.
    pub fn begin(page_ids: Vec<i64>, consecutive_abort: usize) -> (r: Self)
        ensures
            r.well_formed(),
            r.model() == run_start(),
            r.page_ids == page_ids,
            r.consecutive_abort == consecutive_abort,
    {
        let r = PipelineRun {
            page_ids,
            done: 0,
            succeeded: 0,
            failed_pages: Vec::new(),
            consecutive_failures: 0,
            consecutive_abort,
            aborted: false,
        };
        assert(r.model().failed =~= Seq::<(i64, Seq<char>)>::empty());
        r
    }

    /// The next page to try, if any. With a request to stop the run ends here,
    /// unless it was over already.
    pub fn next_page(&mut self, stop: bool) -> (r: Option<i64>)
        requires
            old(self).well_formed(),
        ensures
            final(self).well_formed(),
            final(self).page_ids == old(self).page_ids,
            final(self).consecutive_abort == old(self).consecutive_abort,
            if !run_goes_on(old(self).model(), old(self).page_ids@) {
                r is None && final(self).model() == old(self).model()
            } else if stop {
                r is None && final(self).model() == run_stopped(old(self).model())
            } else {
                r == Some(old(self).page_ids@[old(self).done as int]) && final(self).model()
                    == old(self).model()
            },
    {
        if self.aborted || self.done >= self.page_ids.len() {
            None
        } else if stop {
            self.aborted = true;
            None
        } else {
            Some(self.page_ids[self.done])
        }
    }

    /// Records that the next page was embedded.
    pub fn page_embedded(&mut self)
        requires
            old(self).well_formed(),
            run_goes_on(old(self).model(), old(self).page_ids@),
        ensures
            final(self).well_formed(),
            final(self).page_ids == old(self).page_ids,
            final(self).consecutive_abort == old(self).consecutive_abort,
            final(self).model() == run_embedded(old(self).model()),
    {
        let total: usize = self.page_ids.len();
        assert(self.done < total);
        self.done = self.done + 1;
        self.succeeded = self.succeeded + 1;
        self.consecutive_failures = 0;
    }

    /// Records that the next page failed.
    pub fn page_failed(&mut self, error: String)
        requires
            old(self).well_formed(),
            run_goes_on(old(self).model(), old(self).page_ids@),
        ensures
            final(self).well_formed(),
            final(self).page_ids == old(self).page_ids,
            final(self).consecutive_abort == old(self).consecutive_abort,
            final(self).model() == run_failed(
                old(self).model(),
                old(self).page_ids@,
                old(self).consecutive_abort as int,
                error@,
            ),
    {
        let total: usize = self.page_ids.len();
        assert(self.done < total);
        let page: i64 = self.page_ids[self.done];
        self.failed_pages.push((page, error));
        self.done = self.done + 1;
        self.consecutive_failures = self.consecutive_failures + 1;
        if self.consecutive_failures >= self.consecutive_abort {
            self.aborted = true;
        }
        assert(self.model().failed =~= old(self).model().failed.push((page, error@)));
    }

    /// What came of the run.
    pub fn finish(self) -> (r: PipelineResult)
        ensures
            r.succeeded == self.model().succeeded,
            pipeline::labelled(r.failed_pages@) == self.model().failed,
            r.aborted == self.model().aborted,
    {
        PipelineResult {
            succeeded: self.succeeded,
            failed_pages: self.failed_pages,
            aborted: self.aborted,
        }
    }
}

/// The run after pages had these outcomes, an error for each that failed.
/// Outcomes that come after its end change nothing.
pub open spec fn run_after(pages: Seq<i64>, limit: int, outcomes: Seq<Option<Seq<char>>>) -> RunModel
    decreases outcomes.len(),
{
    if outcomes.len() == 0 {
        run_start()
    } else {
        let before = run_after(pages, limit, outcomes.drop_last());
        if !run_goes_on(before, pages) {
            before
        } else {
            match outcomes.last() {
                None => run_embedded(before),
                Some(error) => run_failed(before, pages, limit, error),
            }
        }
    }
}

/// Every page that is tried counts once, as a success or as a failure, and the
/// failures are listed in the order of the pages. A run that is not given up
/// tries every page.
pub proof fn law_run_counts_every_page(
    pages: Seq<i64>,
    limit: int,
    outcomes: Seq<Option<Seq<char>>>,
)
    ensures
        ({
            let m = run_after(pages, limit, outcomes);
            &&& 0 <= m.done <= pages.len()
            &&& m.done <= outcomes.len()
            &&& m.succeeded + m.failed.len() == m.done
            &&& m.failed == failures(pages, outcomes, m.done)
            &&& !m.aborted && outcomes.len() >= pages.len() ==> m.done == pages.len()
            &&& !m.aborted && outcomes.len() < pages.len() ==> m.done == outcomes.len()
        }),
    decreases outcomes.len(),
{
    if outcomes.len() > 0 {
        let before = run_after(pages, limit, outcomes.drop_last());
        law_run_counts_every_page(pages, limit, outcomes.drop_last());
        lemma_failures_of_prefix(pages, outcomes.drop_last(), outcomes.last(), before.done);
        assert(outcomes.drop_last().push(outcomes.last()) =~= outcomes);
        if run_goes_on(before, pages) {
            assert(before.done == outcomes.len() - 1);
        }
    }
}

/// The failures among the outcomes of the first `n` pages.
pub open spec fn failures(pages: Seq<i64>, outcomes: Seq<Option<Seq<char>>>, n: int) -> Seq<
    (i64, Seq<char>),
>
    decreases n,
{
    if n <= 0 {
        Seq::empty()
    } else {
        let before = failures(pages, outcomes, n - 1);
        match outcomes[n - 1] {
            None => before,
            Some(error) => before.push((pages[n - 1], error)),
        }
    }
}

proof fn lemma_failures_of_prefix(
    pages: Seq<i64>,
    outcomes: Seq<Option<Seq<char>>>,
    next: Option<Seq<char>>,
    n: int,
)
    requires
        n <= outcomes.len(),
    ensures
        failures(pages, outcomes.push(next), n) == failures(pages, outcomes, n),
    decreases n,
{
    if n > 0 {
        lemma_failures_of_prefix(pages, outcomes, next, n - 1);
    }
}

/// How many of the first `n` outcomes failed since the last that succeeded.
pub open spec fn trailing_failures(outcomes: Seq<Option<Seq<char>>>, n: int) -> int
    decreases n,
{
    if n <= 0 || outcomes[n - 1] is None {
        0
    } else {
        trailing_failures(outcomes, n - 1) + 1
    }
}

proof fn lemma_trailing_of_prefix(
    outcomes: Seq<Option<Seq<char>>>,
    next: Option<Seq<char>>,
    n: int,
)
    requires
        n <= outcomes.len(),
    ensures
        trailing_failures(outcomes.push(next), n) == trailing_failures(outcomes, n),
    decreases n,
{
    if n > 0 {
        lemma_trailing_of_prefix(outcomes, next, n - 1);
    }
}

/// A run is given up exactly when the last pages that were tried failed, as many
/// of them in a row as the limit says (and one at least).
pub proof fn law_run_is_given_up(pages: Seq<i64>, limit: int, outcomes: Seq<Option<Seq<char>>>)
    ensures
        ({
            let m = run_after(pages, limit, outcomes);
            &&& m.consecutive == trailing_failures(outcomes, m.done)
            &&& m.aborted <==> m.consecutive > 0 && m.consecutive >= limit
        }),
    decreases outcomes.len(),
{
    if outcomes.len() > 0 {
        let before = run_after(pages, limit, outcomes.drop_last());
        law_run_is_given_up(pages, limit, outcomes.drop_last());
        law_run_counts_every_page(pages, limit, outcomes.drop_last());
        lemma_trailing_of_prefix(outcomes.drop_last(), outcomes.last(), before.done);
        assert(outcomes.drop_last().push(outcomes.last()) =~= outcomes);
        lemma_trailing_is_natural(outcomes, before.done);
        if run_goes_on(before, pages) {
            assert(before.done == outcomes.len() - 1);
        }
    }
}

proof fn lemma_trailing_is_natural(outcomes: Seq<Option<Seq<char>>>, n: int)
    ensures
        trailing_failures(outcomes, n) >= 0,
    decreases n,
{
    if n > 0 {
        lemma_trailing_is_natural(outcomes, n - 1);
    }
}

// --- The end of the job ---

/// The job fails: too many pages failed, or it ended early.
pub open spec fn is_job_failure(failed: int, aborted: bool, threshold: int) -> bool {
    failed >= threshold || aborted
}

/// One failed page with its error.
pub open spec fn failure_line(failed: (i64, Seq<char>)) -> Seq<char> {
    "page "@ + text::decimal_int(failed.0 as int) + ": "@ + failed.1
}

/// The failed pages that an error shows: the first three.
pub open spec fn sample(failed: Seq<(i64, Seq<char>)>) -> Seq<Seq<char>> {
    Seq::new(
        if failed.len() < 3 {
            failed.len()
        } else {
            3
        },
        |i: int| failure_line(failed[i]),
    )
}

/// The error of a job that failed for its pages.
pub open spec fn job_error(failed: Seq<(i64, Seq<char>)>, aborted: bool) -> Seq<char> {
    text::decimal(failed.len()) + " pages failed (aborted="@ + (if aborted {
        "true"@
    } else {
        "false"@
    }) + "). Sample errors: "@ + text::join_with(sample(failed), "; "@)
}

/// Writes the error of a job that failed for its pages.
pub fn show_job_error(failed: &Vec<(i64, String)>, aborted: bool) -> (r: String)
    ensures
        r@ == job_error(pipeline::labelled(failed@), aborted),
{
    let total: usize = failed.len();
    let shown: usize = if total < 3 {
        total
    } else {
        3
    };
    let mut lines: Vec<Vec<char>> = Vec::new();
    let mut i: usize = 0;
    while i < shown
        invariant
            i <= shown,
            shown <= failed@.len(),
            lines@.len() == i,
            forall|j: int|
                0 <= j < i ==> (#[trigger] lines@[j])@ == failure_line(
                    pipeline::labelled(failed@)[j],
                ),
        decreases shown - i,
    {
        let mut line = String::new();
        line.append("page ");
        line.append(decimal_int_string(failed[i].0).as_str());
        line.append(": ");
        line.append(failed[i].1.as_str());
        assert(line@ =~= failure_line(pipeline::labelled(failed@)[i as int]));
        lines.push(chars_of(line.as_str()));
        i += 1;
    }
    assert(text::texts(lines@) =~= sample(pipeline::labelled(failed@)));
    let separator = chars_of("; ");
    let samples = join_chars(lines.as_slice(), separator.as_slice());
    let mut e = decimal_string(total as u64);
    e.append(" pages failed (aborted=");
    if aborted {
        e.append("true");
    } else {
        e.append("false");
    }
    e.append("). Sample errors: ");
    e.append(string_of(samples.as_slice()).as_str());
    assert(e@ =~= job_error(pipeline::labelled(failed@), aborted));
    e
}

/// The jobs and the next id after a job for the scope was asked for.
pub open spec fn queued(s: Seq<JobModel>, next_id: i64, scope: Seq<char>, now: i64) -> (
    Seq<JobModel>,
    i64,
) {
    match queue::newest_live(s, s.len() as int, scope) {
        Some(_) => (s, next_id),
        None => (
            s.push(queue::new_embed_job(next_id, scope, Some(now), None)),
            (next_id + 1) as i64,
        ),
    }
}

/// The scope of a job for one page.
pub open spec fn page_scope(page_id: i64) -> Seq<char> {
    "page:"@ + text::decimal_int(page_id as int)
}

/// Writes the scope of a job for one page.
fn show_page_scope(page_id: i64) -> (r: String)
    ensures
        r@ == page_scope(page_id),
{
    let mut scope = String::new();
    scope.append("page:");
    scope.append(decimal_int_string(page_id).as_str());
    assert(scope@ =~= page_scope(page_id));
    scope
}

/// The jobs and the next id after a job was asked for each of the first `n`
/// failed pages.
pub open spec fn queued_retries(
    s: Seq<JobModel>,
    next_id: i64,
    failed: Seq<(i64, Seq<char>)>,
    n: int,
    now: i64,
) -> (Seq<JobModel>, i64)
    decreases n,
{
    if n <= 0 {
        (s, next_id)
    } else {
        let before = queued_retries(s, next_id, failed, n - 1, now);
        queued(before.0, before.1, page_scope(failed[n - 1].0), now)
    }
}

/// The jobs and the next id after a run of a job is over. A job that fails is
/// not queued again; the failed pages of one that succeeds get jobs of their
/// own.
pub open spec fn settled(
    s: Seq<JobModel>,
    next_id: i64,
    job_id: i64,
    result: Result<PipelineResult, String>,
    threshold: int,
    now: i64,
) -> (Seq<JobModel>, i64) {
    match result {
        Err(error) => (
            queue::changed(s, job_id, |m: JobModel| jobs::completed(m, now, Some(error@))),
            next_id,
        ),
        Ok(pr) => {
            let failed = pipeline::labelled(pr.failed_pages@);
            if is_job_failure(failed.len() as int, pr.aborted, threshold) {
                (
                    queue::changed(
                        s,
                        job_id,
                        |m: JobModel| jobs::completed(m, now, Some(job_error(failed, pr.aborted))),
                    ),
                    next_id,
                )
            } else {
                queued_retries(
                    queue::changed(s, job_id, |m: JobModel| jobs::completed(m, now, None)),
                    next_id,
                    failed,
                    failed.len() as int,
                    now,
                )
            }
        },
    }
}

/// The similarity of pages is to be computed anew: the job succeeded, and
/// embedded some page or had none to fail.
pub open spec fn needs_similarity(result: Result<PipelineResult, String>, threshold: int) -> bool {
    match result {
        Err(_) => false,
        Ok(pr) => !is_job_failure(pr.failed_pages@.len() as int, pr.aborted, threshold) && (
        pr.failed_pages@.len() == 0 || pr.succeeded > 0),
    }
}

/// Queues a job for each failed page.
fn queue_retries(jobs: &mut JobQueue<EmbedJob>, failed: &Vec<(i64, String)>, now: i64)
    requires
        old(jobs).well_formed(),
        old(jobs).next_id + failed@.len() <= i64::MAX,
    ensures
        final(jobs).well_formed(),
        (final(jobs).model(), final(jobs).next_id) == queued_retries(
            old(jobs).model(),
            old(jobs).next_id,
            pipeline::labelled(failed@),
            failed@.len() as int,
            now,
        ),
{
    let ghost start = *jobs;
    let total: usize = failed.len();
    let mut i: usize = 0;
    while i < total
        invariant
            i <= total,
            total == failed@.len(),
            start.next_id + failed@.len() <= i64::MAX,
            jobs.well_formed(),
            jobs.next_id <= start.next_id + i,
            (jobs.model(), jobs.next_id) == queued_retries(
                start.model(),
                start.next_id,
                pipeline::labelled(failed@),
                i as int,
                now,
            ),
        decreases total - i,
    {
        let scope = show_page_scope(failed[i].0);
        let _ = jobs.create_embed_job(scope.as_str(), now);
        i += 1;
    }
}

/// Ends a job after its run. The result tells whether the similarity of pages is
/// to be computed anew.
pub fn settle_job(
    jobs: &mut JobQueue<EmbedJob>,
    job_id: i64,
    result: &Result<PipelineResult, String>,
    failure_threshold: usize,
    now: i64,
) -> (recompute: bool)
    requires
        old(jobs).well_formed(),
        *result matches Ok(pr) ==> old(jobs).next_id + pr.failed_pages@.len() <= i64::MAX,
    ensures
        final(jobs).well_formed(),
        (final(jobs).model(), final(jobs).next_id) == settled(
            old(jobs).model(),
            old(jobs).next_id,
            job_id,
            *result,
            failure_threshold as int,
            now,
        ),
        recompute == needs_similarity(*result, failure_threshold as int),
{
    match result {
        Err(error) => {
            jobs.complete(job_id, now, Some(error.as_str()));
            false
        },
        Ok(pr) => {
            let failed: usize = pr.failed_pages.len();
            if failed >= failure_threshold || pr.aborted {
                let message = show_job_error(&pr.failed_pages, pr.aborted);
                jobs.complete(job_id, now, Some(message.as_str()));
                false
            } else {
                jobs.complete(job_id, now, None);
                queue_retries(jobs, &pr.failed_pages, now);
                failed == 0 || pr.succeeded > 0
            }
        },
    }
}

/// There is a job that stands for work on the scope.
pub open spec fn has_live(s: Seq<JobModel>, scope: Seq<char>) -> bool {
    exists|i: int| 0 <= i < s.len() && (#[trigger] s[i]).scope == scope && jobs::is_live(s[i])
}

proof fn lemma_queued_is_live(s: Seq<JobModel>, next_id: i64, scope: Seq<char>, now: i64)
    ensures
        has_live(queued(s, next_id, scope, now).0, scope),
{
    match queue::newest_live(s, s.len() as int, scope) {
        Some(id) => {
            job_laws::law_found_job_is_live(s, scope, id);
        },
        None => {
            let job = queue::new_embed_job(next_id, scope, Some(now), None);
            assert(s.push(job)[s.len() as int] == job);
            assert(jobs::is_live(job));
        },
    }
}

proof fn lemma_queueing_keeps_live(
    s: Seq<JobModel>,
    next_id: i64,
    scope: Seq<char>,
    now: i64,
    other: Seq<char>,
)
    requires
        has_live(s, other),
    ensures
        has_live(queued(s, next_id, scope, now).0, other),
{
    let i = choose|i: int|
        0 <= i < s.len() && (#[trigger] s[i]).scope == other && jobs::is_live(s[i]);
    let t = queued(s, next_id, scope, now).0;
    assert(t[i] == s[i]);
}

/// No failed page is forgotten: once the retries are queued, there is a job for
/// each failed page.
pub proof fn law_failed_pages_are_queued(
    s: Seq<JobModel>,
    next_id: i64,
    failed: Seq<(i64, Seq<char>)>,
    n: int,
    now: i64,
    k: int,
)
    requires
        0 <= k < n <= failed.len(),
    ensures
        has_live(queued_retries(s, next_id, failed, n, now).0, page_scope(failed[k].0)),
    decreases n,
{
    let before = queued_retries(s, next_id, failed, n - 1, now);
    if k < n - 1 {
        law_failed_pages_are_queued(s, next_id, failed, n - 1, now, k);
        lemma_queueing_keeps_live(
            before.0,
            before.1,
            page_scope(failed[n - 1].0),
            now,
            page_scope(failed[k].0),
        );
    } else {
        lemma_queued_is_live(before.0, before.1, page_scope(failed[k].0), now);
    }
}

/// A retry is for the page that failed: its scope covers that page alone.
pub proof fn law_retry_covers_the_page(page_id: i64)
    ensures
        pipeline::scope_of(page_scope(page_id)) == pipeline::EmbedScope::Page(page_id),
{
    reveal_strlit("page:");
    reveal_strlit("book:");
    reveal_strlit("acl_reconcile");
    let scope = page_scope(page_id);
    assert(scope[0] == 'p');
    assert("acl_reconcile"@[0] == 'a');
    assert("book:"@[0] == 'b');
    assert(scope.take(5)[0] == 'p');
    assert(scope.take(5) =~= "page:"@);
    assert(scope.skip(5) =~= text::decimal_int(page_id as int));
    text::law_decimal_round_trip(page_id);
}

} // verus!
