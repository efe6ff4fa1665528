use bsmcp::chunking::{chunk_html, Chunk};
use bsmcp::semantic::{
    search_condition, similar_pages, AclPrefilter, Link, LinkKind, PermissionCache, SemanticTables,
};
use bsmcp::types::{PageAcl, PageMeta, RelatedPage, ScopeFilter};

fn meta(page_id: i64, book_id: i64, chapter_id: Option<i64>) -> PageMeta {
    PageMeta {
        page_id,
        book_id,
        chapter_id,
        name: format!("Page {page_id}"),
        slug: format!("page-{page_id}"),
        content_hash: "h".to_string(),
        updated_at: None,
    }
}

fn tables() -> SemanticTables {
    let mut t = SemanticTables::new();
    t.upsert_page(meta(1, 10, Some(100)));
    t.upsert_page(meta(2, 10, Some(100)));
    t.upsert_page(meta(3, 10, None));
    t.upsert_page(meta(4, 11, Some(101)));
    t
}

fn chunks_of(text: &str) -> Vec<Chunk> {
    chunk_html(&format!("<h1>T</h1><p>{}</p>", text.repeat(20)))
}

fn ids(pages: &[RelatedPage]) -> Vec<i64> {
    pages.iter().map(|p| p.page_id).collect()
}

fn filter(shelves: &[i64], books: &[i64], chapters: &[i64], pages: &[i64]) -> ScopeFilter {
    ScopeFilter {
        shelf_ids: shelves.to_vec(),
        book_ids: books.to_vec(),
        chapter_ids: chapters.to_vec(),
        page_ids: pages.to_vec(),
    }
}

#[test]
fn a_page_is_written_over() {
    let mut t = tables();
    t.upsert_page_acl(&PageAcl {
        page_id: 1,
        view_roles: vec![7],
        default_open: false,
        computed_at: 5,
    });
    let mut changed = meta(1, 12, None);
    changed.content_hash = "new".to_string();
    t.upsert_page(changed);
    assert_eq!(t.pages.len(), 4);
    assert_eq!(t.get_page_content_hash(1).as_deref(), Some("new"));
    assert_eq!(t.get_page_meta(1).unwrap().book_id, 12);
    assert!(t.pages[0].acl.is_some());
    assert_eq!(t.resolve_page_slug("page-3"), Some(3));
    assert_eq!(t.resolve_page_slug("page-9"), None);
    assert_eq!(t.get_page_book_ids(&[4, 1, 9]), vec![(1, 12), (4, 11)]);
    assert_eq!(t.get_page_metas(&[2, 9]).len(), 1);
}

#[test]
fn chunks_belong_to_stored_pages() {
    let mut t = tables();
    let chunks = chunks_of("words here ");
    assert_eq!(chunks.len(), 1);
    t.insert_chunks(1, &chunks);
    t.insert_chunks(1, &chunks);
    t.insert_chunks(9, &chunks);
    assert_eq!(t.chunks.len(), 1);
    assert_eq!((t.chunks[0].id, t.next_chunk_id), (2, 3));
    let details = t.get_chunk_details(&[1, 2]);
    assert_eq!(details.len(), 1);
    assert_eq!((details[0].chunk_id, details[0].page_name.as_str()), (2, "Page 1"));
}

#[test]
fn a_deleted_page_is_gone() {
    let mut t = tables();
    t.insert_chunks(1, &chunks_of("a b c "));
    t.replace_relationships(1, &vec![2]);
    t.replace_relationships(3, &vec![1, 2]);
    t.delete_page(1);
    assert!(t.get_page_meta(1).is_none());
    assert!(t.chunks.is_empty());
    assert_eq!(t.links, vec![Link { source: 3, target: 2, kind: LinkKind::Link }]);
    t.clear_all_embeddings();
    assert!(t.pages.is_empty() && t.links.is_empty());
}

#[test]
fn links_are_replaced_and_similar_pages_stay() {
    let mut t = tables();
    t.replace_similar(&vec![(1, 4), (1, 4)]);
    t.replace_relationships(1, &vec![2, 2, 3]);
    t.replace_relationships(1, &vec![3]);
    assert_eq!(
        t.links,
        vec![
            Link { source: 1, target: 4, kind: LinkKind::Similar },
            Link { source: 1, target: 3, kind: LinkKind::Link },
        ]
    );
    t.replace_similar(&vec![]);
    assert_eq!(t.links.len(), 1);
    assert_eq!(LinkKind::Similar.as_str(), "similar");
}

#[test]
fn a_blanket_holds_the_relatives() {
    let mut t = tables();
    t.replace_relationships(1, &vec![3, 9]);
    t.replace_relationships(2, &vec![3, 1]);
    t.replace_relationships(4, &vec![3]);
    let b = t.get_markov_blanket(1);
    assert_eq!(ids(&b.linked_from), vec![2]);
    assert_eq!(ids(&b.links_to), vec![3]);
    assert_eq!(ids(&b.co_linked), vec![2, 4]);
    assert_eq!(ids(&b.siblings), vec![2]);
    assert_eq!(ids(&t.get_markov_blanket(3).siblings), vec![1, 2]);
    assert_eq!(ids(&t.get_markov_blanket(4).siblings), Vec::<i64>::new());
    assert!(t.get_markov_blanket(99).siblings.is_empty());
}

#[test]
fn a_blanket_is_limited() {
    let mut t = SemanticTables::new();
    for id in 0..40 {
        t.upsert_page(meta(id, 1, None));
    }
    for id in 1..40 {
        t.replace_relationships(id, &vec![0]);
    }
    let b = t.get_markov_blanket(0);
    assert_eq!((b.linked_from.len(), b.siblings.len()), (20, 20));
    assert_eq!(t.get_markov_blanket(1).co_linked.len(), 10);
}

#[test]
fn a_search_looks_at_what_the_filter_names() {
    let mut t = tables();
    for id in [1, 2, 3, 4] {
        t.insert_chunks(id, &chunks_of("x y z "));
    }
    let pages = |f: Option<&ScopeFilter>| -> Vec<i64> {
        t.search_candidates(f).into_iter().map(|(_, page)| page).collect()
    };
    assert_eq!(pages(None), vec![1, 2, 3, 4]);
    assert_eq!(pages(Some(&filter(&[], &[], &[], &[]))), vec![1, 2, 3, 4]);
    assert_eq!(pages(Some(&filter(&[], &[11], &[], &[3]))), vec![3, 4]);
    assert_eq!(pages(Some(&filter(&[], &[], &[100], &[]))), vec![1, 2]);
    assert_eq!(pages(Some(&filter(&[5], &[], &[], &[]))), Vec::<i64>::new());
}

#[test]
fn a_filter_has_a_condition() {
    assert_eq!(
        search_condition(&filter(&[], &[1], &[2], &[3])).unwrap(),
        "p.book_id = ANY($4) OR p.chapter_id = ANY($5) OR p.page_id = ANY($6)"
    );
    assert_eq!(search_condition(&filter(&[], &[], &[], &[3])).unwrap(), "p.page_id = ANY($4)");
    assert_eq!(search_condition(&filter(&[7], &[], &[], &[])), None);
}

#[test]
fn similar_pages_are_above_the_threshold() {
    let keys = vec![(1, 90), (2, 50), (3, 70), (4, 51), (5, 70)];
    assert_eq!(similar_pages(1, &keys, 3, 50), vec![3, 5, 4]);
    assert_eq!(similar_pages(9, &keys, 1, 50), vec![1]);
}

#[test]
fn access_lists_are_asked_first() {
    let mut t = tables();
    let acl = |page_id: i64, view_roles: Vec<i64>, default_open: bool| PageAcl {
        page_id,
        view_roles,
        default_open,
        computed_at: 1,
    };
    t.upsert_page_acl(&acl(1, vec![7, 7, 8], false));
    t.upsert_page_acl(&acl(2, vec![9], false));
    t.upsert_page_acl(&acl(3, vec![], true));
    t.upsert_page_acl(&acl(99, vec![7], false));
    assert_eq!(t.list_acl_page_ids(), vec![1, 2, 3]);
    assert_eq!(
        t.prefilter_pages_by_roles(&[1, 2, 3, 4, 99], &[8]),
        vec![
            (1, AclPrefilter::Allow),
            (2, AclPrefilter::Deny),
            (3, AclPrefilter::DefaultOpen),
            (4, AclPrefilter::Uncomputed),
        ]
    );
    t.delete_role_from_acl(8);
    assert_eq!(t.prefilter_pages_by_roles(&[1], &[8]), vec![(1, AclPrefilter::Deny)]);
    t.delete_page_acl(1);
    assert_eq!(t.prefilter_pages_by_roles(&[1], &[7]), vec![(1, AclPrefilter::Deny)]);
    assert_eq!(t.viewers.len(), 2);
}

#[test]
fn verdicts_are_remembered_for_a_time() {
    let mut cache = PermissionCache::new();
    cache.upsert_permission_cache_batch("a", &vec![(1, true), (2, false)], 100);
    cache.upsert_permission_cache_batch("b", &vec![(1, false)], 100);
    cache.upsert_permission_cache_batch("a", &vec![(1, false)], 200);
    assert_eq!(cache.get_permission_cache_batch("a", &[1, 2, 3], 100), vec![(2, false), (1, false)]);
    assert_eq!(cache.get_permission_cache_batch("a", &[1, 2], 150), vec![(1, false)]);
    assert_eq!(cache.evict_stale_permission_cache(150), 2);
    assert_eq!(cache.entries.len(), 1);
}
