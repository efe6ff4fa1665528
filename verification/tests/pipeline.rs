use bsmcp::chunking::chunk_html_with_name;
use bsmcp::crypto::sha256_hex;
use bsmcp::embed_run::{settle_job, show_job_error, PipelineResult, PipelineRun};
use bsmcp::jobs::EmbedJob;
use bsmcp::json::Json;
use bsmcp::models::{
    resolve_model, resolve_reranker, unknown_model, unknown_reranker, BuiltinModel, ModelRepo,
    RerankerKind,
};
use bsmcp::pipeline::{
    context_prefix, link_target, linked_pages, list_named_shelves, page_writes, plan_page,
    preliminary_meta, read_meta, read_scope, resolve_links, scope_covers, EmbedScope, LinkTarget,
    PageScan, PageWork, PageWrite, ShelfLookup,
};
use bsmcp::queue::JobQueue;

fn record(members: Vec<(&str, Json)>) -> Json {
    Json::Object(members.into_iter().map(|(k, v)| (k.to_string(), v)).collect())
}

fn label(s: &str) -> Json {
    Json::Text(s.to_string())
}

#[test]
fn scopes_are_read() {
    assert_eq!(read_scope("acl_reconcile"), EmbedScope::AclReconcile);
    assert_eq!(read_scope("all"), EmbedScope::Everything);
    assert_eq!(read_scope("book:12"), EmbedScope::Book(12));
    assert_eq!(read_scope("page:-3"), EmbedScope::Page(-3));
    assert_eq!(read_scope("book:twelve"), EmbedScope::Everything);
    assert_eq!(read_scope("shelf:1"), EmbedScope::Everything);
}

#[test]
fn a_scan_collects_what_the_scope_covers() {
    let list = record(vec![
        (
            "data",
            Json::List(vec![
                record(vec![("id", Json::Int(1)), ("book_id", Json::Int(9))]),
                record(vec![("id", Json::Int(2)), ("book_id", Json::Int(8))]),
                record(vec![("book_id", Json::Int(9))]),
            ]),
        ),
        ("total", Json::Int(5)),
    ]);
    let mut scan = PageScan::new();
    assert!(scan.accept(EmbedScope::Book(9), &list));
    assert_eq!((scan.ids.clone(), scan.offset), (vec![1], 3));
    assert!(!scan.accept(EmbedScope::Page(2), &list));
    assert_eq!((scan.ids.clone(), scan.offset), (vec![1, 2], 6));
    assert!(!scan.accept(EmbedScope::Everything, &record(vec![])));
    assert!(!scope_covers(EmbedScope::Everything, &record(vec![])));
}

#[test]
fn shelves_are_looked_up_by_book() {
    let list = record(vec![
        (
            "data",
            Json::List(vec![
                record(vec![("id", Json::Int(3)), ("name", label("Hive"))]),
                record(vec![("id", Json::Int(4)), ("name", label(""))]),
                record(vec![("name", label("No id"))]),
            ]),
        ),
        ("total", Json::Int(101)),
    ]);
    assert_eq!(list_named_shelves(&list), vec![(3, "Hive".to_string())]);
    let mut lookup = ShelfLookup::new();
    let shelf = record(vec![(
        "books",
        Json::List(vec![
            record(vec![("id", Json::Int(7))]),
            record(vec![("id", Json::Int(-1))]),
        ]),
    )]);
    lookup.add_shelf("Hive", &shelf);
    lookup.add_shelf("Other", &shelf);
    assert_eq!(lookup.shelf_of(7), "Other");
    assert_eq!(lookup.shelf_of(8), "");
    assert_eq!(lookup.shelf_of(-1), "");
    assert!(lookup.next_page(&list));
    assert!(!lookup.next_page(&list));
}

#[test]
fn the_context_names_what_there_is() {
    assert_eq!(context_prefix("S", "B", "C", "P"), "[S > B > C > P]\n\n");
    assert_eq!(context_prefix("", "B", "", "P"), "[B > P]\n\n");
    assert_eq!(context_prefix("", "", "", ""), "[]\n\n");
}

#[test]
fn links_lead_to_pages() {
    assert!(matches!(link_target("/books/a/page/b/page/c"), Some(LinkTarget::Slug(s)) if s == "c"));
    assert!(matches!(link_target("/page/page/"), Some(LinkTarget::Slug(s)) if s.is_empty()));
    assert!(matches!(link_target("/link/42"), Some(LinkTarget::Page(42))));
    assert!(link_target("/link/x").is_none());
    assert!(link_target("/books/a").is_none());
    let html = r#"<a href="/books/t/page/docker">x</a><a href="/link/42">y</a><a href="/books/t/page/gone">z</a>"#;
    let targets = linked_pages(html);
    assert_eq!(targets.len(), 3);
    assert_eq!(resolve_links(&targets, &vec![Some(5), Some(6), None]), vec![5, 42]);
    assert_eq!(resolve_links(&targets, &vec![]), vec![42]);
}

#[test]
fn a_page_is_planned() {
    let html = "<h1>Guide</h1><p>Some words about the subject that are long enough for a chunk.</p><a href=\"/link/4\">x</a>";
    let page = record(vec![
        ("html", label(html)),
        ("name", label("Guide")),
        ("slug", label("guide")),
        ("book_id", Json::Int(2)),
        ("chapter_id", Json::Int(0)),
        ("book", record(vec![("name", label("Book"))])),
        ("updated_at", label("2026-01-01T00:00:00Z")),
    ]);
    let PageWork::Embed(plan) = plan_page(1, &page, "Shelf", true, Some("anything")) else {
        panic!("is embedded");
    };
    assert_eq!(plan.meta.content_hash, sha256_hex(html));
    assert_eq!((plan.meta.book_id, plan.meta.chapter_id), (2, None));
    let chunks = chunk_html_with_name(html, Some("Guide"));
    assert_eq!(plan.texts.len(), chunks.len());
    assert_eq!(plan.texts[0], format!("[Shelf > Book > Guide]\n\n{}", chunks[0].content));
    assert!(matches!(plan.links[0], LinkTarget::Page(4)));
    let before = preliminary_meta(&plan.meta);
    assert_eq!(before.content_hash, "");
    assert_eq!(before.slug, "guide");
    assert!(matches!(
        plan_page(1, &page, "", false, Some(&plan.meta.content_hash)),
        PageWork::Unchanged
    ));
    assert!(matches!(
        plan_page(1, &page, "", false, Some(&before.content_hash)),
        PageWork::Embed(_)
    ));
    let empty = record(vec![("name", label("Empty"))]);
    assert!(matches!(plan_page(1, &empty, "", false, None), PageWork::StoreRow(_)));
}

#[test]
fn models_are_resolved_by_name() {
    let large = resolve_model("BAAI/bge-large-en-v1.5").unwrap();
    assert_eq!((large.builtin, large.dims), (Some(BuiltinModel::BgeLargeEnV15), 1024));
    let gemma = resolve_model("embeddinggemma-300m").unwrap();
    assert_eq!((gemma.builtin, gemma.hf_repo, gemma.dims), (None, ModelRepo::EmbeddingGemma, 768));
    assert_eq!(resolve_model("google/embeddinggemma-300m"), Some(gemma));
    assert_eq!(resolve_model(gemma.hf_repo.as_str()), Some(gemma));
    assert_eq!(resolve_model("other"), None);
    assert_eq!(resolve_model("BAAI/bge-small-en-v1.5").unwrap().dims, 384);
    assert_eq!(resolve_reranker("bge-reranker-base"), Some(RerankerKind::BgeRerankerBase));
    assert_eq!(resolve_reranker("rozgo/bge-reranker-v2-m3"), Some(RerankerKind::BgeRerankerV2M3));
    assert_eq!(resolve_reranker("x"), None);
    assert!(unknown_model("x").starts_with("Unknown model: x. Supported: "));
    assert!(unknown_reranker("y").starts_with("Unknown reranker model: y. Supported: "));
}

#[test]
fn a_run_is_given_up_after_failures_in_a_row() {
    let mut run = PipelineRun::begin(vec![1, 2, 3, 4, 5], 2);
    assert_eq!(run.next_page(false), Some(1));
    run.page_failed("a".to_string());
    assert_eq!(run.next_page(false), Some(2));
    run.page_embedded();
    assert_eq!(run.next_page(false), Some(3));
    run.page_failed("b".to_string());
    assert_eq!(run.next_page(false), Some(4));
    run.page_failed("c".to_string());
    assert_eq!(run.next_page(false), None);
    let result = run.finish();
    assert_eq!((result.succeeded, result.aborted), (1, true));
    let pages: Vec<i64> = result.failed_pages.iter().map(|(id, _)| *id).collect();
    assert_eq!(pages, vec![1, 3, 4]);
}

#[test]
fn a_run_can_be_stopped() {
    let mut run = PipelineRun::begin(vec![1, 2], 10);
    assert_eq!(run.next_page(false), Some(1));
    run.page_embedded();
    assert_eq!(run.next_page(true), None);
    assert!(run.finish().aborted);
    let mut run = PipelineRun::begin(vec![1], 10);
    run.page_embedded();
    assert_eq!(run.next_page(true), None);
    assert!(!run.finish().aborted);
}

fn result_of(succeeded: usize, failed: &[i64], aborted: bool) -> Result<PipelineResult, String> {
    let failed_pages = failed.iter().map(|id| (*id, format!("e{id}"))).collect();
    Ok(PipelineResult { succeeded, failed_pages, aborted })
}

fn one_running_job() -> (JobQueue<EmbedJob>, i64) {
    let mut jobs: JobQueue<EmbedJob> = JobQueue::new();
    let (id, _) = jobs.create_embed_job("all", 5);
    jobs.claim_next_job("w", 6);
    (jobs, id)
}

#[test]
fn failed_pages_are_queued_again() {
    let (mut jobs, id) = one_running_job();
    assert!(settle_job(&mut jobs, id, &result_of(3, &[7, 8], false), 10, 9));
    let pending = jobs.list_pending(10);
    let scopes: Vec<&str> = pending.iter().map(|j| j.scope.as_str()).collect();
    assert_eq!(scopes, vec!["page:7", "page:8"]);
    let done = jobs.list_jobs(10).into_iter().find(|j| j.id == id).unwrap();
    assert_eq!(done.status, "succeeded");
    let (mut jobs, id) = one_running_job();
    assert!(!settle_job(&mut jobs, id, &result_of(0, &[7], false), 10, 9));
    let (mut jobs, id) = one_running_job();
    assert!(settle_job(&mut jobs, id, &result_of(0, &[], false), 10, 9));
}

#[test]
fn too_many_failures_fail_the_job() {
    let (mut jobs, id) = one_running_job();
    assert!(!settle_job(&mut jobs, id, &result_of(3, &[1, 2, 3, 4], false), 4, 9));
    let job = jobs.latest().unwrap();
    assert_eq!(job.status, "failed");
    assert_eq!(
        job.error.as_deref(),
        Some("4 pages failed (aborted=false). Sample errors: page 1: e1; page 2: e2; page 3: e3")
    );
    assert!(jobs.list_pending(10).is_empty());
    let (mut jobs, id) = one_running_job();
    assert!(!settle_job(&mut jobs, id, &Err("broken".to_string()), 4, 9));
    assert_eq!(jobs.latest().unwrap().error.as_deref(), Some("broken"));
    assert_eq!(show_job_error(&vec![], true), "0 pages failed (aborted=true). Sample errors: ");
}

#[test]
fn the_digest_of_a_page_is_written_last() {
    let page = record(vec![("name", label("Guide")), ("html", label("<p>text</p>"))]);
    let hash = sha256_hex("<p>text</p>");
    let mut stored: Vec<Option<String>> = Vec::new();
    for write in page_writes(read_meta(7, &page)) {
        stored.push(match write {
            PageWrite::Row(meta) => Some(meta.content_hash),
            PageWrite::Chunks | PageWrite::Links => None,
        });
    }
    assert_eq!(stored, vec![Some(String::new()), None, None, Some(hash)]);
}
