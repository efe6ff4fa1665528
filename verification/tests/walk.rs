use bsmcp::index::{BookKind, ChapterKind, IndexedBook, IndexedChapter, PageKind};
use bsmcp::json::Json;
use bsmcp::walk::{Walk, WalkRow, WalkStep};
use bsmcp::worker::{
    manifest_to_fetch, reconcile_book, reconcile_chapter, reconcile_page, Reconcile, ShelfProbe,
};

fn object(members: Vec<(&str, Json)>) -> Json {
    Json::Object(members.into_iter().map(|(k, v)| (k.to_string(), v)).collect())
}

fn named(name: &str, more: Vec<(&str, Json)>) -> Json {
    let mut members = vec![("name", Json::Text(name.to_string()))];
    members.extend(more);
    object(members)
}

fn with_ids(name: &str, member: &str, ids: &[i64]) -> Json {
    let rows = ids.iter().map(|id| object(vec![("id", Json::Int(*id))])).collect();
    named(name, vec![(member, Json::List(rows))])
}

fn item(kind: &str, id: i64, name: &str) -> Json {
    named(name, vec![("type", Json::Text(kind.to_string())), ("id", Json::Int(id))])
}

fn page_value(id: i64, name: &str) -> Json {
    named(name, vec![("id", Json::Int(id))])
}

/// A wiki with two shelves, two books on them, a loose book and one broken chapter.
fn answer(step: WalkStep) -> Option<Json> {
    match step {
        WalkStep::Shelf(1) => Some(with_ids("One", "books", &[10, 11])),
        WalkStep::Shelf(2) => Some(with_ids("Two", "books", &[])),
        WalkStep::Book(10) => Some(named(
            "Ada",
            vec![(
                "contents",
                Json::List(vec![item("chapter", 20, "Notes"), item("page", 30, "Start")]),
            )],
        )),
        WalkStep::Book(11) => Some(named(
            "B",
            vec![("contents", Json::List(vec![item("chapter", 21, "Broken")]))],
        )),
        WalkStep::Book(12) => Some(named(
            "Loose",
            vec![("contents", Json::List(vec![item("page", 32, "Alone")]))],
        )),
        WalkStep::Chapter(20) => Some(with_ids("Notes", "pages", &[31])),
        WalkStep::Page(id) => Some(page_value(id, "P")),
        _ => None,
    }
}

fn run(walk: &mut Walk, stop_after: usize, unstorable: &[WalkStep]) -> Vec<WalkStep> {
    let mut steps = Vec::new();
    loop {
        let step = walk.next(steps.len() >= stop_after);
        steps.push(step);
        match step {
            WalkStep::Done => return steps,
            WalkStep::ListBooks => walk.books_listed(&vec![10, 11, 12]),
            _ => match answer(step) {
                Some(value) => {
                    assert_eq!(walk.manifest_to_fetch(&value), None);
                    walk.answered(&value, None, 5).unwrap();
                    if unstorable.contains(&step) {
                        walk.not_stored();
                    }
                }
                None => walk.failed(),
            },
        }
    }
}

#[test]
fn a_walk_takes_everything_in_order() {
    let mut walk = Walk::begin(&vec![1, 2]);
    assert_eq!(
        run(&mut walk, usize::MAX, &[]),
        vec![
            WalkStep::Shelf(1),
            WalkStep::Book(10),
            WalkStep::Chapter(20),
            WalkStep::Page(31),
            WalkStep::Page(30),
            WalkStep::Book(11),
            WalkStep::Chapter(21),
            WalkStep::Shelf(2),
            WalkStep::ListBooks,
            WalkStep::Book(12),
            WalkStep::Page(32),
            WalkStep::Done,
        ]
    );
    assert!(walk.is_complete());
}

#[test]
fn a_stopped_walk_is_not_complete() {
    let mut walk = Walk::begin(&vec![1, 2]);
    assert_eq!(
        run(&mut walk, 2, &[]),
        vec![WalkStep::Shelf(1), WalkStep::Book(10), WalkStep::Done]
    );
    assert!(!walk.is_complete());
    assert_eq!(walk.next(false), WalkStep::Done);
}

#[test]
fn a_row_that_is_not_stored_ends_its_branch() {
    let mut walk = Walk::begin(&vec![1]);
    let steps = run(&mut walk, usize::MAX, &[WalkStep::Book(10)]);
    assert_eq!(
        steps[..4],
        [WalkStep::Shelf(1), WalkStep::Book(10), WalkStep::Book(11), WalkStep::Chapter(21)]
    );
    assert!(walk.is_complete());
}

#[test]
fn rows_have_what_their_parents_have() {
    let mut walk = Walk::begin(&vec![1]);
    assert_eq!(walk.next(false), WalkStep::Shelf(1));
    let shelf = with_ids("One", "books", &[10]);
    match walk.answered(&shelf, None, 5).unwrap() {
        WalkRow::Shelf(row) => assert_eq!((row.shelf_id, row.name.as_str()), (1, "One")),
        other => panic!("{other:?}"),
    }
    match walk.answered(&answer(WalkStep::Book(10)).unwrap(), None, 6).unwrap() {
        WalkRow::Book(row) => {
            assert_eq!((row.book_id, row.shelf_id, row.indexed_at), (10, Some(1), 6));
            assert_eq!(row.book_kind, BookKind::Unclassified);
        }
        other => panic!("{other:?}"),
    }
    match walk.answered(&answer(WalkStep::Chapter(20)).unwrap(), None, 7).unwrap() {
        WalkRow::Chapter(row) => assert_eq!((row.chapter_id, row.book_id), (20, 10)),
        other => panic!("{other:?}"),
    }
    match walk.answered(&page_value(31, "P"), None, 8).unwrap() {
        WalkRow::Page(row, cache) => {
            assert_eq!((row.page_id, row.book_id, row.chapter_id), (31, 10, Some(20)));
            assert_eq!((cache.page_id, cache.cached_at), (31, 8));
        }
        other => panic!("{other:?}"),
    }
    assert_eq!(walk.answered(&object(vec![]), None, 9).err().unwrap(), "page has no id");
}

fn book_row_of(kind: BookKind, ouid: Option<&str>) -> IndexedBook {
    IndexedBook {
        book_id: 10,
        name: "B".to_string(),
        slug: String::new(),
        shelf_id: None,
        identity_ouid: ouid.map(String::from),
        book_kind: kind,
        indexed_at: 1,
        deleted: false,
    }
}

#[test]
fn a_page_is_indexed_below_its_parents() {
    let page = named(
        "Scout",
        vec![("id", Json::Int(5)), ("book_id", Json::Int(10)), ("chapter_id", Json::Int(20))],
    );
    let book = book_row_of(BookKind::Identity, Some("o"));
    let chapter = IndexedChapter {
        chapter_id: 20,
        book_id: 10,
        name: "Agents".to_string(),
        slug: String::new(),
        identity_ouid: None,
        chapter_kind: ChapterKind::Agents,
        archive_year: None,
        indexed_at: 1,
        deleted: false,
    };
    match reconcile_page(5, &page, Some(&book), Some(&chapter), 9).unwrap() {
        Reconcile::Store((row, cache)) => {
            assert_eq!((row.page_id, row.book_id, row.chapter_id), (5, 10, Some(20)));
            assert_eq!(row.identity_ouid.as_deref(), Some("o"));
            assert_eq!(row.page_kind, PageKind::Agent);
            assert_eq!(cache.page_updated_at, row.page_updated_at);
        }
        other => panic!("{other:?}"),
    }
    match reconcile_page(5, &page, None, None, 9).unwrap() {
        Reconcile::Cascade(m) => {
            assert_eq!(m.scope, "book:10");
            assert_eq!(m.triggered_by, "cascade_from_page:5");
            assert_eq!(m.subject, "page 5 parent book 10");
        }
        other => panic!("{other:?}"),
    }
    assert_eq!(
        reconcile_page(5, &object(vec![]), Some(&book), None, 9).err().unwrap(),
        "page 5 has no book_id"
    );
    let anonymous = object(vec![("book_id", Json::Int(10))]);
    assert_eq!(
        reconcile_page(5, &anonymous, Some(&book), None, 9).err().unwrap(),
        "page has no id"
    );
}

#[test]
fn a_chapter_is_indexed_below_its_book() {
    let chapter = named("Agents", vec![("book_id", Json::Int(10))]);
    let book = book_row_of(BookKind::Identity, Some("o"));
    match reconcile_chapter(20, &chapter, Some(&book), 9).unwrap() {
        Reconcile::Store(row) => {
            assert_eq!((row.chapter_id, row.book_id), (20, 10));
            assert_eq!(row.chapter_kind, ChapterKind::Agents);
            assert_eq!(row.identity_ouid.as_deref(), Some("o"));
        }
        other => panic!("{other:?}"),
    }
    match reconcile_chapter(20, &chapter, None, 9).unwrap() {
        Reconcile::Cascade(m) => assert_eq!(m.triggered_by, "cascade_from_chapter:20"),
        other => panic!("{other:?}"),
    }
    assert_eq!(
        reconcile_chapter(20, &object(vec![]), None, 9).err().unwrap(),
        "chapter 20 has no book_id"
    );
}

#[test]
fn a_book_is_indexed_below_its_shelf() {
    let book = named("B", vec![]);
    match reconcile_book(10, &book, Some(3), false, None, 9) {
        Reconcile::Cascade(m) => {
            assert_eq!(m.scope, "shelf:3");
            assert_eq!(m.subject, "book 10 parent shelf 3");
        }
        other => panic!("{other:?}"),
    }
    match reconcile_book(10, &book, Some(3), true, None, 9) {
        Reconcile::Store(row) => assert_eq!((row.book_id, row.shelf_id), (10, Some(3))),
        other => panic!("{other:?}"),
    }
    assert!(matches!(reconcile_book(10, &book, None, false, None, 9), Reconcile::Store(_)));
    assert_eq!(manifest_to_fetch(&book, bsmcp::index::ShelfKind::Unclassified), None);
}

#[test]
fn the_first_shelf_that_holds_the_book_is_found() {
    let mut probe = ShelfProbe::begin(vec![1, 2, 3, 4]);
    assert_eq!(probe.next(), Some(1));
    probe.answered(None, 7);
    assert_eq!(probe.next(), Some(2));
    probe.answered(Some(&with_ids("S", "books", &[8])), 7);
    assert_eq!(probe.next(), Some(3));
    probe.answered(Some(&with_ids("S", "books", &[8, 7])), 7);
    assert_eq!((probe.next(), probe.found), (None, Some(3)));
}
