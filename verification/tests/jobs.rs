use bsmcp::jobs::{EmbedJob, IndexJob};
use bsmcp::queue::JobQueue;

const NOW: i64 = 1_000;

fn embed_queue() -> JobQueue<EmbedJob> {
    JobQueue::new()
}

fn index_queue() -> JobQueue<IndexJob> {
    JobQueue::new()
}

#[test]
fn embed_retry_chain_walks_to_root() {
    let mut db = embed_queue();
    let (root, _) = db.create_embed_job("page:42", NOW);
    db.fail(root, NOW, "boom");
    let r1 = db.create_retry_embed_job("page:42", root);
    db.fail(r1, NOW, "boom2");
    let r2 = db.create_retry_embed_job("page:42", r1);
    assert_eq!(db.retry_chain_len(root), 1);
    assert_eq!(db.retry_chain_len(r1), 2);
    assert_eq!(db.retry_chain_len(r2), 3);
}

#[test]
fn embed_failed_with_successor_is_supersedable() {
    let mut db = embed_queue();
    let (j1, _) = db.create_embed_job("page:7", NOW);
    db.fail(j1, NOW, "boom");
    db.close(j1, Some("retried"));
    let (j2, is_new) = db.create_embed_job("page:7", NOW);
    assert!(is_new);
    assert!(j2 > j1);
    assert!(db.has_successor("page:7", j1));
    assert!(!db.has_successor("page:7", j2));
}

#[test]
fn embed_dedup_widens_to_failed_open() {
    let mut db = embed_queue();
    let (j1, is_new1) = db.create_embed_job("page:9", NOW);
    assert!(is_new1);
    db.fail(j1, NOW, "boom");
    let (j_dup, is_new2) = db.create_embed_job("page:9", NOW);
    assert!(!is_new2);
    assert_eq!(j_dup, j1);
    db.close(j1, Some("retried"));
    let (j_new, is_new3) = db.create_embed_job("page:9", NOW);
    assert!(is_new3);
    assert!(j_new > j1);
}

#[test]
fn embed_close_preserves_or_overwrites_resolved_status() {
    let mut db = embed_queue();
    let (j, _) = db.create_embed_job("page:1", NOW);
    db.complete(j, NOW, None);
    db.close(j, None);
    let job = db.list_jobs(5).into_iter().find(|j2| j2.id == j).unwrap();
    assert_eq!(job.status, "closed");
    assert_eq!(job.resolved_status.as_deref(), Some("succeeded"));
    assert_eq!(job.prev_status.as_deref(), Some("succeeded"));
}

#[test]
fn embed_archiver_finds_old_succeeded_jobs() {
    let mut db = embed_queue();
    let (j, _) = db.create_embed_job("page:5", NOW);
    db.complete(j, NOW, None);
    let archivable = db.list_archivable(NOW, 0);
    assert!(archivable.contains(&j), "expected {j} in {:?}", archivable);
    assert!(db.list_archivable(NOW, 1).is_empty());
}

#[test]
fn index_retry_chain_walks_to_root() {
    let mut db = index_queue();
    let (root, _) = db.create_index_job("page:42", "both", "test");
    db.fail(root, NOW, "boom");
    let r1 = db.create_retry_index_job("page:42", "both", root);
    db.fail(r1, NOW, "boom2");
    let r2 = db.create_retry_index_job("page:42", "both", r1);
    assert_eq!(db.retry_chain_len(root), 1);
    assert_eq!(db.retry_chain_len(r1), 2);
    assert_eq!(db.retry_chain_len(r2), 3);
}

#[test]
fn index_dedup_widens_to_failed_open() {
    let mut db = index_queue();
    let (j1, is_new1) = db.create_index_job("page:9", "both", "test");
    assert!(is_new1);
    db.fail(j1, NOW, "boom");
    let (j_dup, is_new2) = db.create_index_job("page:9", "both", "test");
    assert!(!is_new2);
    assert_eq!(j_dup, j1);
}

#[test]
fn index_should_stop_returns_true_for_cancelled() {
    let mut db = index_queue();
    let (j, _) = db.create_index_job("all", "both", "test");
    assert!(db.should_stop(j));
    let claimed = db.claim_next_index_job(NOW).unwrap();
    assert_eq!(claimed.id, j);
    assert!(!db.should_stop(j));
    db.cancel(j, NOW);
    assert!(db.should_stop(j));
}

#[test]
fn complete_job_does_not_overwrite_cancelled() {
    let mut db = embed_queue();
    let (job_id, _) = db.create_embed_job("page:1", NOW);
    let claimed = db.claim_next_job("worker-x", NOW).unwrap();
    assert_eq!(claimed.id, job_id);
    db.cancel(job_id, NOW);
    db.complete(job_id, NOW, None);
    let job = db.list_jobs(5).into_iter().find(|j| j.id == job_id).expect("job should still exist");
    assert_eq!(job.status, "cancelled");
    assert_eq!(job.resolved_status.as_deref(), Some("cancelled"));
}

#[test]
fn complete_job_failure_does_not_overwrite_cancelled() {
    let mut db = embed_queue();
    let (job_id, _) = db.create_embed_job("page:2", NOW);
    db.claim_next_job("worker-x", NOW).unwrap();
    db.cancel(job_id, NOW);
    db.complete(job_id, NOW, Some("boom"));
    let job = db.list_jobs(5).into_iter().find(|j| j.id == job_id).expect("job should still exist");
    assert_eq!(job.status, "cancelled");
    assert_eq!(job.resolved_status.as_deref(), Some("cancelled"));
}

#[test]
fn complete_index_job_does_not_overwrite_cancelled() {
    let mut db = index_queue();
    let (job_id, _) = db.create_index_job("page:3", "both", "test");
    let claimed = db.claim_next_index_job(NOW).unwrap();
    assert_eq!(claimed.id, job_id);
    db.cancel(job_id, NOW);
    db.complete(job_id, NOW, None);
    let job = db.list_index_jobs(5).into_iter().find(|j| j.id == job_id).expect("job should still exist");
    assert_eq!(job.status, "cancelled");
    assert_eq!(job.resolved_status.as_deref(), Some("cancelled"));
}

#[test]
fn complete_index_job_failure_does_not_overwrite_cancelled() {
    let mut db = index_queue();
    let (job_id, _) = db.create_index_job("page:4", "both", "test");
    db.claim_next_index_job(NOW).unwrap();
    db.cancel(job_id, NOW);
    db.complete(job_id, NOW, Some("boom"));
    let job = db.list_index_jobs(5).into_iter().find(|j| j.id == job_id).expect("job should still exist");
    assert_eq!(job.status, "cancelled");
    assert_eq!(job.resolved_status.as_deref(), Some("cancelled"));
}

#[test]
fn the_oldest_pending_job_is_claimed() {
    let mut db = embed_queue();
    let (a, _) = db.create_embed_job("page:1", NOW);
    let (b, _) = db.create_embed_job("page:2", NOW);
    assert_eq!(db.claim_next_job("w", NOW + 1).unwrap().id, a);
    let second = db.claim_next_job("w", NOW + 2).unwrap();
    assert_eq!(second.id, b);
    assert_eq!(second.worker_id.as_deref(), Some("w"));
    assert_eq!(second.status, "running");
    assert!(db.claim_next_job("w", NOW + 3).is_none());
}

#[test]
fn a_workers_jobs_are_recovered() {
    let mut db = embed_queue();
    let (a, _) = db.create_embed_job("page:1", NOW);
    db.claim_next_job("w", NOW);
    assert_eq!(db.recover_worker_jobs("other"), 0);
    assert!(db.claim_next_job("w", NOW + 1).is_none());
    assert_eq!(db.recover_worker_jobs("w"), 1);
    let waiting = db.list_pending(10);
    assert_eq!((waiting[0].id, waiting[0].error.as_deref()), (a, None));
    assert_eq!(db.claim_next_job("w", NOW + 2).unwrap().id, a);
}

#[test]
fn stale_jobs_go_back_to_pending() {
    let mut db = embed_queue();
    let (a, _) = db.create_embed_job("page:1", NOW);
    let (b, _) = db.create_embed_job("page:2", NOW);
    db.claim_next_job("w", NOW);
    db.claim_next_job("w", NOW + 50);
    assert_eq!(db.expire_stale_jobs(NOW + 60, 60), 0);
    assert_eq!(db.expire_stale_jobs(NOW + 100, 60), 1);
    assert_eq!(db.list_failed_open().len(), 0);
    let waiting = db.list_pending(10);
    assert_eq!(waiting.len(), 1);
    assert_eq!(waiting[0].id, a);
    assert_eq!(waiting[0].error, None);
    assert!(!db.should_stop(b));
    assert_eq!(db.claim_next_job("v", NOW + 101).unwrap().id, a);
}

#[test]
fn failed_embedding_jobs_are_listed_up_to_the_limit() {
    let mut db = embed_queue();
    let (a, _) = db.create_embed_job("page:1", NOW);
    let (b, _) = db.create_embed_job("page:2", NOW);
    let (c, _) = db.create_embed_job("page:3", NOW);
    db.fail(a, NOW, "boom");
    db.fail(b, NOW, "boom");
    let listed: Vec<i64> = db.list_jobs(1).iter().map(|j| j.id).collect();
    assert_eq!(listed, vec![c, b]);
    assert_eq!(db.list_jobs(0).len(), 1);
    let mut index = index_queue();
    let (d, _) = index.create_index_job("page:1", "both", "test");
    index.fail(d, NOW, "boom");
    assert_eq!(index.list_index_jobs(0).len(), 1);
}

#[test]
fn progress_is_kept() {
    let mut db = index_queue();
    let (j, _) = db.create_index_job("all", "both", "test");
    db.update_progress(j, 3, 9);
    let job = db.latest().unwrap();
    assert_eq!((job.progress, job.total), (3, 9));
    assert_eq!(db.list_running_started_before(NOW).len(), 0);
    assert_eq!(db.list_failed_open().len(), 0);
}
