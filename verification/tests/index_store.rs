use bsmcp::directory::{DirectoryNodeKind, DirectoryScope, IndexTables};
use bsmcp::index::{
    BookKind, ChapterKind, IndexedBook, IndexedChapter, IndexedPage, IndexedShelf, PageCache,
    PageKind, ShelfKind,
};
use bsmcp::index_store::{
    find_indexed_page_by_key, get_page_cache, get_row, list_indexed_books_by_identity,
    list_indexed_books_by_shelf, list_indexed_books_unshelved, list_indexed_chapters_by_book,
    list_indexed_pages_by_book_root, list_indexed_pages_by_chapter, list_indexed_pages_recent,
    list_indexed_shelves, read_tree_by_name, soft_delete_row, upsert_indexed_page, upsert_row,
    MetaTable,
};

fn shelf(id: i64, name: &str) -> IndexedShelf {
    IndexedShelf {
        shelf_id: id,
        name: name.to_string(),
        slug: String::new(),
        shelf_kind: ShelfKind::Unclassified,
        indexed_at: 1,
        deleted: false,
    }
}

fn book(id: i64, name: &str, shelf_id: Option<i64>, kind: BookKind) -> IndexedBook {
    IndexedBook {
        book_id: id,
        name: name.to_string(),
        slug: String::new(),
        shelf_id,
        identity_ouid: Some("o".to_string()),
        book_kind: kind,
        indexed_at: 1,
        deleted: false,
    }
}

fn chapter(id: i64, book_id: i64, name: &str) -> IndexedChapter {
    IndexedChapter {
        chapter_id: id,
        book_id,
        name: name.to_string(),
        slug: String::new(),
        identity_ouid: None,
        chapter_kind: ChapterKind::Unclassified,
        archive_year: None,
        indexed_at: 1,
        deleted: false,
    }
}

fn page(id: i64, chapter_id: Option<i64>, name: &str, updated: Option<&str>) -> IndexedPage {
    IndexedPage {
        page_id: id,
        book_id: 20,
        chapter_id,
        name: name.to_string(),
        slug: String::new(),
        url: None,
        page_created_at: None,
        page_updated_at: updated.map(|s| s.to_string()),
        identity_ouid: Some("o".to_string()),
        page_kind: PageKind::Agent,
        page_key: Some(name.to_string()),
        archive_year: None,
        indexed_at: 1,
        deleted: false,
    }
}

fn index() -> IndexTables {
    IndexTables {
        shelves: vec![shelf(1, "Zoo"), shelf(2, "Art")],
        books: vec![
            book(20, "Beta", Some(1), BookKind::Identity),
            book(21, "Alpha", Some(1), BookKind::Identity),
            book(22, "Loose", None, BookKind::Collage),
        ],
        chapters: vec![chapter(30, 20, "Two"), chapter(31, 20, "One")],
        pages: vec![
            page(40, Some(30), "p", Some("2026-01-02")),
            page(41, None, "root", None),
            page(42, Some(30), "a", Some("2026-01-03")),
        ],
    }
}

#[test]
fn rows_are_written_read_and_marked() {
    let mut t = index();
    upsert_row(&mut t.shelves, shelf(2, "Music"));
    upsert_row(&mut t.shelves, shelf(3, "New"));
    assert_eq!(t.shelves.len(), 3);
    assert_eq!(get_row(&t.shelves, 2).unwrap().name, "Music");
    soft_delete_row(&mut t.shelves, 2);
    soft_delete_row(&mut t.shelves, 9);
    assert!(get_row(&t.shelves, 2).unwrap().deleted);
    assert!(get_row(&t.shelves, 9).is_none());
    let names: Vec<&str> = list_indexed_shelves(&t).iter().map(|s| s.name.as_str()).collect();
    assert_eq!(names, vec!["New", "Zoo"]);
}

#[test]
fn rows_are_listed_in_order() {
    let t = index();
    let names: Vec<&str> =
        list_indexed_books_by_shelf(&t, 1).iter().map(|b| b.name.as_str()).collect();
    assert_eq!(names, vec!["Alpha", "Beta"]);
    assert_eq!(list_indexed_books_unshelved(&t)[0].book_id, 22);
    let ids: Vec<i64> =
        list_indexed_books_by_identity(&t, "o").iter().map(|b| b.book_id).collect();
    assert_eq!(ids, vec![22, 21, 20]);
    let ids: Vec<i64> =
        list_indexed_chapters_by_book(&t, 20).iter().map(|c| c.chapter_id).collect();
    assert_eq!(ids, vec![31, 30]);
    let ids: Vec<i64> = list_indexed_pages_by_chapter(&t, 30).iter().map(|p| p.page_id).collect();
    assert_eq!(ids, vec![42, 40]);
    assert_eq!(list_indexed_pages_by_book_root(&t, 20)[0].page_id, 41);
    let ids: Vec<i64> = list_indexed_pages_recent(&t, 20, -1).iter().map(|p| p.page_id).collect();
    assert_eq!(ids, vec![42, 40, 41]);
    assert_eq!(list_indexed_pages_recent(&t, 20, 1).len(), 1);
}

#[test]
fn pages_are_found_by_key() {
    let mut t = index();
    assert_eq!(find_indexed_page_by_key(&t, "o", PageKind::Agent, "a").unwrap().page_id, 42);
    assert!(find_indexed_page_by_key(&t, "o", PageKind::Manifest, "a").is_none());
    soft_delete_row(&mut t.pages, 42);
    assert!(find_indexed_page_by_key(&t, "o", PageKind::Agent, "a").is_none());
}

#[test]
fn a_page_is_written_with_its_body() {
    let mut t = index();
    let mut caches: Vec<PageCache> = Vec::new();
    let cache = |updated: &str| PageCache {
        page_id: 40,
        markdown: Some(updated.to_string()),
        raw_markdown: None,
        html: None,
        cached_at: 1,
        page_updated_at: Some(updated.to_string()),
    };
    let first = page(40, None, "p", Some("u1"));
    assert_eq!(upsert_indexed_page(&mut t, &mut caches, first, Some(cache("u1"))), Ok(()));
    let second = page(40, None, "p", Some("u2"));
    assert_eq!(upsert_indexed_page(&mut t, &mut caches, second, Some(cache("u2"))), Ok(()));
    assert_eq!(upsert_indexed_page(&mut t, &mut caches, page(41, None, "q", None), None), Ok(()));
    assert_eq!(caches.len(), 1);
    let row = get_row(&t.pages, 40).unwrap();
    assert_eq!(get_page_cache(&caches, 40).unwrap().page_updated_at, row.page_updated_at);
    assert!(get_page_cache(&caches, 41).is_none());
}

#[test]
fn a_key_belongs_to_one_page() {
    let mut t = index();
    let mut caches: Vec<PageCache> = Vec::new();
    assert_eq!(upsert_indexed_page(&mut t, &mut caches, page(50, None, "a", None), None), Err(42));
    assert!(get_row(&t.pages, 50).is_none());
    let mut unkeyed = page(50, None, "a", None);
    unkeyed.page_key = None;
    assert_eq!(upsert_indexed_page(&mut t, &mut caches, unkeyed, None), Ok(()));
    let mut other_kind = page(51, None, "a", None);
    other_kind.page_kind = PageKind::CollageTopic;
    assert_eq!(upsert_indexed_page(&mut t, &mut caches, other_kind, None), Ok(()));
    soft_delete_row(&mut t.pages, 42);
    assert_eq!(upsert_indexed_page(&mut t, &mut caches, page(52, None, "a", None), None), Ok(()));
    assert_eq!(find_indexed_page_by_key(&t, "o", PageKind::Agent, "a").unwrap().page_id, 52);
}

#[test]
fn values_are_stored_by_key() {
    let mut meta = MetaTable::new();
    meta.set("a", "1");
    meta.set("b", "2");
    meta.set("a", "3");
    assert_eq!((meta.get("a"), meta.get("b"), meta.get("c")), (Some("3"), Some("2"), None));
    assert_eq!(meta.entries.len(), 2);
}

#[test]
fn the_tree_is_shown_by_name() {
    let mut t = index();
    let nodes = read_tree_by_name(&mut t, DirectoryScope::All, None).unwrap();
    let names: Vec<&str> = nodes.iter().map(|n| n.name.as_str()).collect();
    assert_eq!(names[..2], ["Art", "Zoo"]);
    assert_eq!(nodes.len(), 3);
    let zoo = &nodes[1];
    let books: Vec<&str> = zoo.children.iter().map(|n| n.name.as_str()).collect();
    assert_eq!(books, vec!["Alpha", "Beta"]);
    let inside: Vec<(DirectoryNodeKind, i64)> =
        zoo.children[1].children.iter().map(|n| (n.kind, n.id)).collect();
    assert_eq!(
        inside,
        vec![
            (DirectoryNodeKind::Chapter, 31),
            (DirectoryNodeKind::Chapter, 30),
            (DirectoryNodeKind::Page, 41),
        ]
    );
    let one = read_tree_by_name(&mut t, DirectoryScope::Book(20), Some(0)).unwrap();
    assert!(one[0].children.is_empty());
    assert_eq!(
        read_tree_by_name(&mut t, DirectoryScope::Chapter(9), None).err().unwrap(),
        "chapter 9 not found"
    );
    assert!(read_tree_by_name(&mut t, DirectoryScope::Shelf(1), Some(1)).unwrap()[0].children.len() == 2);
}
