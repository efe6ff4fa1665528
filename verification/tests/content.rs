use bsmcp::content::{
    creator_in_search, find_admin_role_id, find_chapter_in_book, find_page_in_book,
    find_page_in_chapter, flatten_book_pages, identity_from_user, list_book_pages_by_updated,
    list_chapter_pages_by_updated, user_role_ids, whoami_error, IdListing, RoleListing,
};
use bsmcp::json::Json;

fn obj(members: Vec<(&str, Json)>) -> Json {
    Json::Object(members.into_iter().map(|(k, v)| (k.to_string(), v)).collect())
}

fn txt(s: &str) -> Json {
    Json::Text(s.to_string())
}

fn page_of(id: i64, name: &str, updated: &str) -> Json {
    obj(vec![("id", Json::Int(id)), ("name", txt(name)), ("updated_at", txt(updated))])
}

fn fixture_book() -> Json {
    obj(vec![
        ("id", Json::Int(986)),
        ("name", txt("Pia's Journal")),
        (
            "contents",
            Json::List(vec![
                obj(vec![
                    ("type", txt("page")),
                    ("id", Json::Int(1003)),
                    ("name", txt("Archive Daily Log")),
                    ("updated_at", txt("2026-03-02T20:07:50Z")),
                ]),
                obj(vec![
                    ("type", txt("chapter")),
                    ("id", Json::Int(989)),
                    ("name", txt("2026-02")),
                    (
                        "pages",
                        Json::List(vec![
                            page_of(990, "2026-02-22", "2026-03-03T20:32:51Z"),
                            page_of(991, "2026-02-19", "2026-03-03T20:32:53Z"),
                        ]),
                    ),
                ]),
                obj(vec![
                    ("type", txt("chapter")),
                    ("id", Json::Int(1869)),
                    ("name", txt("2026-04")),
                    (
                        "pages",
                        Json::List(vec![
                            page_of(2025, "2026-04-26", "2026-04-26T06:10:24Z"),
                            page_of(2006, "2026-04-25", "2026-04-25T22:29:51Z"),
                        ]),
                    ),
                ]),
            ]),
        ),
    ])
}

fn ids_of(rows: &[&Json]) -> Vec<i64> {
    rows.iter().map(|p| p.get_i64("id").unwrap_or(0)).collect()
}

#[test]
fn flatten_collects_top_level_and_chapter_pages() {
    let book = fixture_book();
    let ids = ids_of(&flatten_book_pages(&book));
    assert_eq!(ids.len(), 5);
    assert!(ids.contains(&1003));
    assert!(ids.contains(&2025));
    assert!(ids.contains(&990));
}

#[test]
fn flatten_handles_missing_contents() {
    let book = obj(vec![("id", Json::Int(1)), ("name", txt("Empty"))]);
    assert!(flatten_book_pages(&book).is_empty());
}

#[test]
fn flatten_handles_malformed_chapter() {
    let book = obj(vec![(
        "contents",
        Json::List(vec![obj(vec![
            ("type", txt("chapter")),
            ("id", Json::Int(1)),
            ("name", txt("no pages array")),
        ])]),
    )]);
    assert!(flatten_book_pages(&book).is_empty());
}

#[test]
fn pages_are_listed_latest_first() {
    let book = fixture_book();
    assert_eq!(ids_of(&list_book_pages_by_updated(&book, 3)), vec![2025, 2006, 991]);
    let chapter = find_chapter_in_book(&book, "2026-02").unwrap();
    assert_eq!(ids_of(&list_chapter_pages_by_updated(chapter, 9)), vec![991, 990]);
}

#[test]
fn pages_and_chapters_are_found_by_name() {
    let book = fixture_book();
    let page = find_page_in_book(&book, "archive daily LOG").unwrap();
    assert_eq!(page.get_i64("id"), Some(1003));
    assert!(find_page_in_book(&book, "2026-04").is_none());
    let chapter = find_chapter_in_book(&book, "2026-04").unwrap();
    assert_eq!(chapter.get_i64("id"), Some(1869));
    assert!(find_chapter_in_book(&book, "Archive Daily Log").is_none());
    let page = find_page_in_chapter(chapter, "2026-04-25").unwrap();
    assert_eq!(page.get_i64("id"), Some(2006));
}

#[test]
fn the_administrators_role_is_found_by_name() {
    let listing = obj(vec![(
        "data",
        Json::List(vec![
            obj(vec![("display_name", txt("Viewer")), ("id", Json::Int(3))]),
            obj(vec![("display_name", txt("ADMIN")), ("id", Json::Int(1))]),
        ]),
    )]);
    assert_eq!(find_admin_role_id(&listing), Ok(1));
    assert_eq!(
        find_admin_role_id(&obj(vec![])).err().unwrap(),
        "No role named \"Admin\" found in BookStack \u{2014} cannot apply admin-only permission lock"
    );
}

#[test]
fn users_are_read() {
    let found = obj(vec![(
        "data",
        Json::List(vec![
            obj(vec![("name", txt("no creator"))]),
            obj(vec![("created_by", obj(vec![("id", Json::Int(12))]))]),
        ]),
    )]);
    assert_eq!(creator_in_search(&found), Some(12));
    assert_eq!(creator_in_search(&obj(vec![])), None);
    let user = obj(vec![
        ("name", txt("Nate")),
        ("email", txt("nate@example.com")),
        ("roles", Json::List(vec![obj(vec![("id", Json::Int(4))]), obj(vec![])])),
    ]);
    let identity = identity_from_user(12, &user);
    assert_eq!(identity.bookstack_user_id, 12);
    assert_eq!(identity.email.as_deref(), Some("nate@example.com"));
    assert_eq!(identity.name, "Nate");
    assert_eq!(user_role_ids(&user), vec![4]);
    assert_eq!(whoami_error(12, "boom"), "whoami: get_user(12) failed: boom");
}

#[test]
fn listings_go_on_until_a_page_is_empty() {
    let mut listing = IdListing::new();
    let full = obj(vec![(
        "data",
        Json::List((0..500).map(|i| obj(vec![("id", Json::Int(i))])).collect()),
    )]);
    assert!(listing.accept(&full));
    assert_eq!(listing.offset, 500);
    assert!(listing.accept(&obj(vec![("data", Json::List(vec![obj(vec![("id", Json::Int(7))])]))])));
    assert_eq!(listing.offset, 1_000);
    assert!(!listing.accept(&obj(vec![("data", Json::List(vec![]))])));
    assert_eq!(listing.offset, 1_000);
    assert_eq!(listing.ids.len(), 501);
    assert!(!IdListing::new().accept(&obj(vec![])));
    let mut roles = RoleListing::new();
    let page = obj(vec![
        ("data", Json::List(vec![obj(vec![("id", Json::Int(1))]), obj(vec![])])),
        ("total", Json::Int(101)),
    ]);
    assert!(roles.accept(&page));
    assert!(!roles.accept(&page));
    assert_eq!(roles.ids, vec![1, 1]);
}
