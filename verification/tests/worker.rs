use bsmcp::index::{BookKind, ChapterKind, PageKind, ShelfKind};
use bsmcp::jobs::IndexJob;
use bsmcp::json::Json;
use bsmcp::queue::JobQueue;
use bsmcp::worker::{
    book_row, cascade_missing_parent, chapter_page_ids, chapter_parent, chapter_row,
    enqueue_initial_walk, finish_job, housekeep, identity_of_page, list_book_items,
    manifest_page_id, missing_parent, page_parents, page_rows, parse_scope_id, plan_job,
    shelf_books, shelf_holds, shelf_row, unshelved_books, BookItem, DeltaWalk, IndexTask,
    LifecycleSettings, PageParents,
};

const NOW: i64 = 10_000;

fn queue_of_jobs() -> JobQueue<IndexJob> {
    JobQueue::new()
}

fn value(members: Vec<(&str, Json)>) -> Json {
    Json::Object(members.into_iter().map(|(k, v)| (k.to_string(), v)).collect())
}

fn word(s: &str) -> Json {
    Json::Text(s.to_string())
}

#[test]
fn reconcile_supersedes_when_successor_exists() {
    let mut db = queue_of_jobs();
    let (j1, _) = db.create_index_job("page:1", "both", "test");
    db.fail(j1, NOW, "boom");
    let _j2 = db.create_retry_index_job("page:1", "both", j1);
    db.reconcile_failed(5);
    let after = db.list_failed_open();
    assert!(after.iter().all(|j| j.id != j1), "j1 should no longer be failed-open");
    let listed = db.list_index_jobs(20);
    let original = listed.iter().find(|j| j.id == j1).unwrap();
    assert_eq!(original.resolved_status.as_deref(), Some("superseded"));
}

#[test]
fn reconcile_retries_when_no_successor_and_chain_short() {
    let mut db = queue_of_jobs();
    let (j1, _) = db.create_index_job("page:9", "both", "test");
    db.fail(j1, NOW, "boom");
    db.reconcile_failed(5);
    let listed = db.list_index_jobs(20);
    let original = listed.iter().find(|j| j.id == j1).unwrap();
    assert_eq!(original.status, "closed");
    assert_eq!(original.resolved_status.as_deref(), Some("retried"));
    let retry = listed.iter().find(|j| j.retry_of == Some(j1)).expect("retry exists");
    assert_eq!(retry.status, "pending");
    assert_eq!(retry.scope, "page:9");
}

#[test]
fn reconcile_gives_up_when_chain_at_max() {
    let mut db = queue_of_jobs();
    let (j1, _) = db.create_index_job("page:7", "both", "test");
    db.fail(j1, NOW, "1");
    let j2 = db.create_retry_index_job("page:7", "both", j1);
    db.close(j1, Some("retried"));
    db.fail(j2, NOW, "2");
    db.reconcile_failed(2);
    let listed = db.list_index_jobs(20);
    let j2_after = listed.iter().find(|j| j.id == j2).unwrap();
    assert_eq!(j2_after.status, "closed");
    assert_eq!(j2_after.resolved_status.as_deref(), Some("gave_up"));
}

#[test]
fn cascade_missing_parent_coalesces_concurrent_children() {
    let mut db = queue_of_jobs();
    let r1 = cascade_missing_parent(
        &mut db,
        "book:2113",
        "cascade_from_page:2116",
        "page 2116 parent book 2113",
    );
    let r2 = cascade_missing_parent(
        &mut db,
        "book:2113",
        "cascade_from_page:2117",
        "page 2117 parent book 2113",
    );
    let e1 = r1.expect_err("first child must fail-retryable");
    let e2 = r2.expect_err("second child must fail-retryable");
    assert!(e1.contains("book:2113"), "err mentions cascade scope: {e1}");
    assert!(e2.contains("book:2113"), "err mentions cascade scope: {e2}");
    let pending = db.list_pending(50);
    let book_jobs: Vec<_> = pending.iter().filter(|j| j.scope == "book:2113").collect();
    assert_eq!(book_jobs.len(), 1);
    let cascade = book_jobs[0];
    assert_eq!(cascade.triggered_by, "cascade_from_page:2116");
    assert_eq!(cascade.kind, "both");
    assert_eq!(cascade.status, "pending");
}

#[test]
fn cascade_coalesces_against_failed_open_parent_job() {
    let mut db = queue_of_jobs();
    cascade_missing_parent(
        &mut db,
        "book:9000",
        "cascade_from_page:1",
        "page 1 parent book 9000",
    )
    .unwrap_err();
    let parent_id = db
        .list_pending(50)
        .iter()
        .find(|j| j.scope == "book:9000")
        .map(|j| j.id)
        .expect("first cascade enqueued");
    db.fail(parent_id, NOW, "transient");
    cascade_missing_parent(
        &mut db,
        "book:9000",
        "cascade_from_page:2",
        "page 2 parent book 9000",
    )
    .unwrap_err();
    let all_jobs = db.list_index_jobs(50);
    let book_jobs: Vec<_> = all_jobs.iter().filter(|j| j.scope == "book:9000").collect();
    assert_eq!(book_jobs.len(), 1);
}

#[test]
fn parse_scope_id_round_trip() {
    assert_eq!(parse_scope_id("page:42", "page:").unwrap(), 42);
    assert_eq!(parse_scope_id("chapter:7", "chapter:").unwrap(), 7);
    assert_eq!(parse_scope_id("book:2113", "book:").unwrap(), 2113);
    assert_eq!(parse_scope_id("shelf:927", "shelf:").unwrap(), 927);
    assert!(parse_scope_id("page:nope", "page:").is_err());
    assert!(parse_scope_id("all", "page:").is_err());
}

#[test]
fn a_bad_scope_is_explained() {
    assert_eq!(
        parse_scope_id("page:nope", "page:").unwrap_err(),
        "invalid scope id in page:nope: invalid digit found in string"
    );
    assert_eq!(parse_scope_id("all", "page:").unwrap_err(), "invalid scope: all");
}

#[test]
fn jobs_are_planned_by_scope() {
    assert_eq!(plan_job("all"), Ok(IndexTask::All));
    assert_eq!(plan_job("delta"), Ok(IndexTask::Delta));
    assert_eq!(plan_job("page:5"), Ok(IndexTask::Page(5)));
    assert_eq!(plan_job("chapter:6"), Ok(IndexTask::Chapter(6)));
    assert_eq!(plan_job("book:7"), Ok(IndexTask::Book(7)));
    assert_eq!(plan_job("shelf:8"), Ok(IndexTask::Shelf(8)));
    assert_eq!(plan_job("moon"), Err("unknown scope: moon".to_string()));
}

#[test]
fn rows_are_made_from_answers() {
    let shelf = value(vec![("name", word("Hive")), ("slug", word("hive"))]);
    let row = shelf_row(3, &shelf, NOW);
    assert_eq!((row.shelf_id, row.name.as_str(), row.deleted), (3, "Hive", false));
    let book = value(vec![("name", word("Pia Identity")), ("slug", word("pia"))]);
    let row = book_row(4, &book, Some(3), ShelfKind::Hive, Some("ouid"), NOW);
    assert_eq!(row.book_kind, BookKind::Identity);
    assert_eq!(row.identity_ouid.as_deref(), Some("ouid"));
    let row = book_row(4, &book, Some(3), ShelfKind::Unclassified, Some("ouid"), NOW);
    assert_eq!(row.identity_ouid, None);
    let chapter = value(vec![("name", word("Journal Archive - 2025"))]);
    let row = chapter_row(5, &chapter, 4, BookKind::Identity, None, NOW);
    assert_eq!((row.chapter_kind, row.archive_year), (ChapterKind::JournalArchive, Some(2025)));
}

#[test]
fn a_page_is_cached_without_its_frontmatter() {
    let page = value(vec![
        ("id", Json::Int(9)),
        ("name", word("2025-12-31")),
        ("slug", word("x")),
        ("updated_at", word("2026-01-01T00:00:00Z")),
        ("markdown", word("---\nfoo: bar\n---\n\nbody\n")),
    ]);
    let parents = PageParents {
        book_id: 4,
        chapter_id: Some(5),
        book_kind: BookKind::Identity,
        chapter_kind: Some(ChapterKind::JournalArchive),
        chapter_archive_year: Some(2025),
        identity_ouid: Some("o"),
    };
    let (row, cache) = page_rows(&page, &parents, NOW).unwrap();
    assert_eq!((row.page_kind, row.archive_year), (PageKind::JournalEntry, Some(2025)));
    assert_eq!(row.page_key.as_deref(), Some("2025-12-31"));
    assert_eq!(cache.markdown.as_deref(), Some("body\n"));
    assert_eq!(cache.page_updated_at, row.page_updated_at);
    assert_eq!(page_rows(&value(vec![]), &parents, NOW).unwrap_err(), "page has no id");
}

#[test]
fn contents_are_listed() {
    let book = value(vec![(
        "contents",
        Json::List(vec![
            value(vec![("type", word("chapter")), ("id", Json::Int(1))]),
            value(vec![("type", word("page")), ("id", Json::Int(2)), ("name", word("Identity"))]),
            value(vec![("type", word("chapter"))]),
        ]),
    )]);
    let items = list_book_items(&book);
    assert_eq!(items, vec![BookItem::Chapter(1), BookItem::Page(2)]);
    assert_eq!(manifest_page_id(&book), Some(2));
    let shelf = value(vec![("books", Json::List(vec![value(vec![("id", Json::Int(7))])]))]);
    assert_eq!(shelf_books(&shelf), vec![7]);
    assert!(shelf_holds(&shelf, 7));
    assert!(!shelf_holds(&shelf, 8));
    assert_eq!(unshelved_books(&vec![6, 7, 8], &vec![7]), vec![6, 8]);
    let chapter = value(vec![("pages", Json::List(vec![value(vec![("id", Json::Int(4))])]))]);
    assert_eq!(chapter_page_ids(&chapter), vec![4]);
    let manifest = value(vec![("markdown", word("---\nouid: abc\n---\n"))]);
    assert_eq!(identity_of_page(&manifest).as_deref(), Some("abc"));
}

#[test]
fn parents_are_named() {
    let page = value(vec![("book_id", Json::Int(4)), ("chapter_id", Json::Int(0))]);
    assert_eq!(page_parents(1, &page), Ok((4, None)));
    assert_eq!(page_parents(1, &value(vec![])), Err("page 1 has no book_id".to_string()));
    assert_eq!(chapter_parent(2, &page), Ok(4));
    assert_eq!(chapter_parent(2, &value(vec![])), Err("chapter 2 has no book_id".to_string()));
    let m = missing_parent("page", 2116, "book", 2113);
    assert_eq!(m.scope, "book:2113");
    assert_eq!(m.triggered_by, "cascade_from_page:2116");
    assert_eq!(m.subject, "page 2116 parent book 2113");
}

#[test]
fn a_delta_walk_moves_forward() {
    assert!(DeltaWalk::begin(None, None).is_none());
    let mut walk = DeltaWalk::begin(Some("2026-01-01T00:00:00Z"), None).unwrap();
    assert_eq!(walk.boundary("2026-05-05T00:00:00Z"), "2026-05-05T00:00:00Z");
    walk.indexed(Some("2026-03-01T00:00:00Z"));
    walk.indexed(Some("2026-02-01T00:00:00Z"));
    walk.indexed(None);
    assert_eq!(walk.boundary("2026-05-05T00:00:00Z"), "2026-03-01T00:00:00Z");
}

#[test]
fn housekeeping_fails_overdue_jobs_and_closes_ended_ones() {
    let settings = LifecycleSettings::read(Some("60"), None, None, Some("x"));
    assert_eq!((settings.timeout_secs, settings.close_grace_secs), (60, 30));
    assert_eq!((settings.reconcile_secs, settings.max_chain), (300, 5));
    let mut db = queue_of_jobs();
    let (slow, _) = db.create_index_job("page:1", "both", "test");
    db.claim_next_index_job(NOW - 100);
    let (done, _) = db.create_index_job("page:2", "both", "test");
    db.complete(done, NOW - 100, None);
    assert!(!housekeep(&mut db, NOW, &settings, 10));
    let listed = db.list_index_jobs(20);
    let slow_job = listed.iter().find(|j| j.id == slow).unwrap();
    assert_eq!((slow_job.status.as_str(), slow_job.error.as_deref()), ("failed", Some("timeout")));
    assert_eq!(listed.iter().find(|j| j.id == done).unwrap().status, "closed");
    assert!(housekeep(&mut db, NOW, &settings, 300));
    assert!(db.list_failed_open().is_empty());
}

#[test]
fn the_first_walk_is_queued_once() {
    let mut db = queue_of_jobs();
    assert_eq!(enqueue_initial_walk(&mut db, Some("123")), None);
    assert_eq!(enqueue_initial_walk(&mut db, None), Some((1, true)));
    assert_eq!(enqueue_initial_walk(&mut db, None), Some((1, false)));
}

#[test]
fn a_job_that_was_ended_is_left() {
    let mut db = queue_of_jobs();
    let (j, _) = db.create_index_job("page:1", "both", "test");
    db.claim_next_index_job(NOW);
    db.cancel(j, NOW);
    finish_job(&mut db, j, Some("boom"), NOW);
    assert_eq!(db.latest().unwrap().status, "cancelled");
    let (k, _) = db.create_index_job("page:2", "both", "test");
    db.claim_next_index_job(NOW);
    finish_job(&mut db, k, Some("boom"), NOW);
    assert_eq!(db.latest().unwrap().status, "failed");
}
