//! Reading the wiki's answers: listings, books, chapters, roles and users.

use crate::bookstack::UserIdentity;
use crate::json;
use crate::json::Json;
use crate::rows;
use crate::rows::sort_refs;
use crate::text;
use crate::text::{chars_of, decimal_int_string, eq_ignore_ascii_case, same_text, text_before};
use vstd::prelude::*;
use vstd::string::StringExecFns;

verus! {

// --- Listings ---

/// Items per page of a listing.
pub const PAGE_SIZE: i64 = 500;

/// The ids of the first `n` items; an item without one is passed over.
pub open spec fn item_ids(items: Seq<Json>, n: int) -> Seq<i64>
    decreases n,
{
    if n <= 0 {
        Seq::empty()
    } else {
        let before = item_ids(items, n - 1);
        match json::int_of(json::member(items[n - 1], "id"@)) {
            Some(id) => before.push(id),
            None => before,
        }
    }
}

/// The ids on one page of a listing.
pub open spec fn page_ids(page: Json) -> Seq<i64> {
    member_ids(page, "data"@)
}

/// Appends the ids of the items.
fn push_item_ids(ids: &mut Vec<i64>, items: &Vec<Json>)
    ensures
        final(ids)@ == old(ids)@ + item_ids(items@, items@.len() as int),
{
    let ghost start = ids@;
    let mut i: usize = 0;
    assert(start + item_ids(items@, 0) =~= start);
    while i < items.len()
        invariant
            i <= items@.len(),
            ids@ == start + item_ids(items@, i as int),
        decreases items@.len() - i,
    {
        if let Some(id) = items[i].get_i64("id") {
            ids.push(id);
            assert(ids@ =~= start + item_ids(items@, i + 1));
        }
        i += 1;
    }
}

/// The collection of every id of a listing, page by page.
pub struct IdListing {
    pub ids: Vec<i64>,
    /// Where the next page begins.
    pub offset: i64,
}

impl IdListing {
    /// Begins a listing.
    pub fn new() -> (r: Self)
        ensures
            r.ids@ == Seq::<i64>::empty(),
            r.offset == 0,
    {
        IdListing { ids: Vec::new(), offset: 0 }
    }

    /// Takes one page in and tells whether to ask for another one: the listing
    /// ends with a page that is empty.
    pub fn accept(&mut self, page: &Json) -> (more: bool)
        requires
            old(self).offset <= i64::MAX - PAGE_SIZE,
        ensures
            final(self).ids@ == old(self).ids@ + page_ids(*page),
            more == (json::items_of(json::member(*page, "data"@)).len() > 0),
            final(self).offset == if more {
                old(self).offset + PAGE_SIZE
            } else {
                old(self).offset as int
            },
    {
        let items: &Vec<Json> = match page.get_items("data") {
            Some(v) => v,
            None => {
                assert(page_ids(*page) =~= Seq::<i64>::empty());
                assert(self.ids@ =~= old(self).ids@ + page_ids(*page));
                return false;
            },
        };
        push_item_ids(&mut self.ids, items);
        if items.len() == 0 {
            return false;
        }
        self.offset = self.offset + PAGE_SIZE;
        true
    }
}

/// The roles of the wiki, collected page by page.
pub struct RoleListing {
    pub ids: Vec<i64>,
    /// Where the next page begins.
    pub offset: i64,
}

impl RoleListing {
    /// Begins a listing.
    pub fn new() -> (r: Self)
        ensures
            r.ids@ == Seq::<i64>::empty(),
            r.offset == 0,
    {
        RoleListing { ids: Vec::new(), offset: 0 }
    }

    /// Takes one page of a hundred in and tells whether there is another one:
    /// the listing ends with an empty page, or where the stated total is
    /// reached.
    pub fn accept(&mut self, page: &Json) -> (more: bool)
        requires
            old(self).offset <= i64::MAX - 100,
        ensures
            final(self).ids@ == old(self).ids@ + page_ids(*page),
            more == (json::items_of(json::member(*page, "data"@)).len() > 0 && old(self).offset
                + 100 < match json::int_of(json::member(*page, "total"@)) {
                Some(t) => t as int,
                None => 0,
            }),
            more ==> final(self).offset == old(self).offset + 100,
    {
        let items: &Vec<Json> = match page.get_items("data") {
            Some(v) => v,
            None => {
                assert(page_ids(*page) =~= Seq::<i64>::empty());
                assert(self.ids@ =~= old(self).ids@ + page_ids(*page));
                return false;
            },
        };
        push_item_ids(&mut self.ids, items);
        if items.len() == 0 {
            return false;
        }
        let total: i64 = match page.get_i64("total") {
            Some(t) => t,
            None => 0,
        };
        self.offset = self.offset + 100;
        self.offset < total
    }
}

// --- Books and chapters ---

/// The page rows that one entry of a book's contents holds: the entry itself,
/// or the pages of a chapter.
pub open spec fn rows_of(item: Json) -> Seq<Json> {
    let kind = json::text_of(json::member(item, "type"@));
    if kind == Some("page"@) {
        seq![item]
    } else if kind == Some("chapter"@) {
        json::items_of(json::member(item, "pages"@))
    } else {
        Seq::empty()
    }
}

/// The page rows of the first `n` entries, in order.
pub open spec fn rows_of_all(items: Seq<Json>, n: int) -> Seq<Json>
    decreases n,
{
    if n <= 0 {
        Seq::empty()
    } else {
        rows_of_all(items, n - 1) + rows_of(items[n - 1])
    }
}

/// Every page row of a book.
pub open spec fn book_rows(book: Json) -> Seq<Json> {
    let items = json::items_of(json::member(book, "contents"@));
    rows_of_all(items, items.len() as int)
}

/// Appends references to all items.
fn push_refs<'a>(out: &mut Vec<&'a Json>, items: &'a Vec<Json>)
    ensures
        json::values_of(final(out)@) == json::values_of(old(out)@) + items@,
{
    let ghost start = json::values_of(out@);
    let mut i: usize = 0;
    assert(start + items@.take(0) =~= start);
    while i < items.len()
        invariant
            i <= items@.len(),
            json::values_of(out@) == start + items@.take(i as int),
        decreases items@.len() - i,
    {
        let ghost before = out@;
        out.push(&items[i]);
        assert(json::values_of(out@) =~= json::values_of(before).push(items@[i as int]));
        assert(start + items@.take(i + 1) =~= (start + items@.take(i as int)).push(
            items@[i as int],
        ));
        i += 1;
    }
    assert(items@.take(i as int) =~= items@);
}

/// Flattens a book into one list of page rows: its own pages and those of its
/// chapters. A book whose contents are missing or malformed has none.
pub fn flatten_book_pages<'a>(book: &'a Json) -> (r: Vec<&'a Json>)
    ensures
        json::values_of(r@) == book_rows(*book),
{
    let mut pages: Vec<&'a Json> = Vec::new();
    assert(json::values_of(pages@) =~= Seq::<Json>::empty());
    let items: &'a Vec<Json> = match book.get_items("contents") {
        Some(v) => v,
        None => {
            return pages;
        },
    };
    let mut i: usize = 0;
    while i < items.len()
        invariant
            i <= items@.len(),
            json::values_of(pages@) == rows_of_all(items@, i as int),
        decreases items@.len() - i,
    {
        let item = &items[i];
        let ghost before = json::values_of(pages@);
        let ghost start = pages@;
        proof {
            reveal_strlit("page");
            reveal_strlit("chapter");
            assert("page"@.len() != "chapter"@.len());
        }
        match item.get_str("type") {
            Some(kind) => if same_text(kind, "page") {
                pages.push(item);
                assert(json::values_of(pages@) =~= json::values_of(start).push(*item));
                assert(before + rows_of(*item) =~= before.push(*item));
            } else if same_text(kind, "chapter") {
                if let Some(rows) = item.get_items("pages") {
                    push_refs(&mut pages, rows);
                } else {
                    assert(before + rows_of(*item) =~= before);
                }
            } else {
                assert(before + rows_of(*item) =~= before);
            },
            None => {
                assert(before + rows_of(*item) =~= before);
            },
        }
        i += 1;
    }
    pages
}

/// The rows of a chapter.
pub open spec fn chapter_rows(chapter: Json) -> Seq<Json> {
    json::items_of(json::member(chapter, "pages"@))
}

/// The page rows of a chapter.
pub fn chapter_pages<'a>(chapter: &'a Json) -> (r: Vec<&'a Json>)
    ensures
        json::values_of(r@) == chapter_rows(*chapter),
{
    let mut pages: Vec<&'a Json> = Vec::new();
    assert(json::values_of(pages@) =~= Seq::<Json>::empty());
    if let Some(rows) = chapter.get_items("pages") {
        push_refs(&mut pages, rows);
        assert(Seq::<Json>::empty() + rows@ =~= rows@);
    }
    pages
}

/// The row has the given name, up to the case of ASCII letters.
pub open spec fn has_name(row: Json, name: Seq<char>) -> bool {
    json::text_of(json::member(row, "name"@)) matches Some(n) && text::eq_ignoring_ascii_case(
        n,
        name,
    )
}

/// Tells whether a row has the given name.
fn row_has_name(row: &Json, name: &str) -> (r: bool)
    ensures
        r == has_name(*row, name@),
{
    match row.get_str("name") {
        Some(n) => {
            let a = chars_of(n);
            let b = chars_of(name);
            eq_ignore_ascii_case(a.as_slice(), b.as_slice())
        },
        None => false,
    }
}

/// The first row with the given name, from position `i` on.
pub open spec fn first_named(rows: Seq<Json>, name: Seq<char>, i: int) -> Option<Json>
    decreases rows.len() - i,
{
    if i < 0 || i >= rows.len() {
        None
    } else if has_name(rows[i], name) {
        Some(rows[i])
    } else {
        first_named(rows, name, i + 1)
    }
}

/// Finds the first row with the given name.
fn find_named<'a>(rows: &Vec<&'a Json>, name: &str) -> (r: Option<&'a Json>)
    ensures
        json::value_of(r) == first_named(json::values_of(rows@), name@, 0),
{
    let mut i: usize = 0;
    while i < rows.len()
        invariant
            i <= rows@.len(),
            first_named(json::values_of(rows@), name@, 0) == first_named(
                json::values_of(rows@),
                name@,
                i as int,
            ),
        decreases rows@.len() - i,
    {
        let row: &'a Json = rows[i];
        assert(json::values_of(rows@)[i as int] == *row);
        if row_has_name(row, name) {
            return Some(row);
        }
        i += 1;
    }
    None
}

/// Finds a page of a book by its name, whatever the case of its letters.
pub fn find_page_in_book<'a>(book: &'a Json, name: &str) -> (r: Option<&'a Json>)
    ensures
        json::value_of(r) == first_named(book_rows(*book), name@, 0),
{
    let rows = flatten_book_pages(book);
    find_named(&rows, name)
}

/// Finds a page of a chapter by its name, whatever the case of its letters.
pub fn find_page_in_chapter<'a>(chapter: &'a Json, name: &str) -> (r: Option<&'a Json>)
    ensures
        json::value_of(r) == first_named(chapter_rows(*chapter), name@, 0),
{
    let rows = chapter_pages(chapter);
    find_named(&rows, name)
}

/// The first chapter with the given name among a book's contents.
pub open spec fn first_chapter(items: Seq<Json>, name: Seq<char>, i: int) -> Option<Json>
    decreases items.len() - i,
{
    if i < 0 || i >= items.len() {
        None
    } else if json::text_of(json::member(items[i], "type"@)) == Some("chapter"@) && has_name(
        items[i],
        name,
    ) {
        Some(items[i])
    } else {
        first_chapter(items, name, i + 1)
    }
}

/// Finds a chapter of a book by its name, whatever the case of its letters.
pub fn find_chapter_in_book<'a>(book: &'a Json, name: &str) -> (r: Option<&'a Json>)
    ensures
        json::value_of(r) == first_chapter(
            json::items_of(json::member(*book, "contents"@)),
            name@,
            0,
        ),
{
    let items: &'a Vec<Json> = match book.get_items("contents") {
        Some(v) => v,
        None => {
            return None;
        },
    };
    let ghost all = json::items_of(json::member(*book, "contents"@));
    let mut i: usize = 0;
    while i < items.len()
        invariant
            i <= items@.len(),
            all == items@,
            all == json::items_of(json::member(*book, "contents"@)),
            first_chapter(all, name@, 0) == first_chapter(all, name@, i as int),
        decreases items@.len() - i,
    {
        let item = &items[i];
        if let Some(kind) = item.get_str("type") {
            if same_text(kind, "chapter") && row_has_name(item, name) {
                return Some(item);
            }
        }
        i += 1;
    }
    None
}

// --- Recent pages ---

/// When a row says that it was updated; empty where it does not say.
pub open spec fn updated_at(row: Json) -> Seq<char> {
    match json::text_of(json::member(row, "updated_at"@)) {
        Some(t) => t,
        None => Seq::empty(),
    }
}

/// A row comes before one that is earlier.
pub open spec fn later() -> spec_fn(Json, Json) -> bool {
    |a: Json, b: Json| text::precedes(updated_at(b), updated_at(a))
}

/// The rows from the latest to the earliest; rows of one time keep their order.
pub open spec fn latest_first(rows: Seq<Json>) -> Seq<Json> {
    rows::sorted(rows, later())
}

/// The time of a row.
fn row_time<'a>(row: &'a Json) -> (r: &'a str)
    ensures
        r@ == updated_at(*row),
{
    match row.get_str("updated_at") {
        Some(t) => t,
        None => {
            proof {
                reveal_strlit("");
            }
            assert(""@ =~= Seq::<char>::empty());
            ""
        },
    }
}

/// Sorts rows from the latest to the earliest and keeps the first `limit`.
fn sort_latest_first<'a>(rows: &Vec<&'a Json>, limit: usize) -> (r: Vec<&'a Json>)
    ensures
        json::values_of(r@) == first_rows(latest_first(json::values_of(rows@)), limit as int),
{
    let is_later = |a: &Json, b: &Json| -> (c: bool)
        ensures
            c == text::precedes(updated_at(*b), updated_at(*a)),
    {
        text_before(row_time(b), row_time(a))
    };
    let mut out = sort_refs(rows, is_later, Ghost(later()));
    assert(json::values_of(rows@) =~= rows::values(rows@));
    assert(json::values_of(out@) =~= rows::values(out@));
    if out.len() > limit {
        let ghost before = out@;
        out.truncate(limit);
        assert(json::values_of(out@) =~= json::values_of(before).take(limit as int));
    } else {
        assert(first_rows(json::values_of(out@), limit as int) =~= json::values_of(out@));
    }
    out
}

/// At most the first `limit` rows.
pub open spec fn first_rows(rows: Seq<Json>, limit: int) -> Seq<Json> {
    if rows.len() > limit {
        rows.take(limit)
    } else {
        rows
    }
}

/// The pages of a book that were updated last, latest first.
pub fn list_book_pages_by_updated<'a>(book: &'a Json, limit: usize) -> (r: Vec<&'a Json>)
    ensures
        json::values_of(r@) == first_rows(latest_first(book_rows(*book)), limit as int),
{
    let rows = flatten_book_pages(book);
    sort_latest_first(&rows, limit)
}

/// The pages of a chapter that were updated last, latest first.
pub fn list_chapter_pages_by_updated<'a>(chapter: &'a Json, limit: usize) -> (r: Vec<&'a Json>)
    ensures
        json::values_of(r@) == first_rows(latest_first(chapter_rows(*chapter)), limit as int),
{
    let rows = chapter_pages(chapter);
    sort_latest_first(&rows, limit)
}

/// No row is followed by a later one.
pub open spec fn is_latest_first(rows: Seq<Json>) -> bool {
    forall|i: int, j: int|
        0 <= i < j < rows.len() ==> !text::precedes(
            updated_at(#[trigger] rows[i]),
            updated_at(#[trigger] rows[j]),
        )
}

/// Sorting puts the latest row first, and neither loses nor adds a row.
pub proof fn law_latest_first(rows: Seq<Json>)
    ensures
        is_latest_first(latest_first(rows)),
        latest_first(rows).to_multiset() =~= rows.to_multiset(),
{
    let back = |a: Json, b: Json| later()(b, a);
    assert(rows::is_text_order(back, |row: Json| updated_at(row)));
    rows::lemma_text_order(later(), |row: Json| updated_at(row));
    rows::law_sorted(rows, later());
    let all = latest_first(rows);
    assert forall|i: int, j: int| 0 <= i < j < all.len() implies !text::precedes(
        updated_at(#[trigger] all[i]),
        updated_at(#[trigger] all[j]),
    ) by {
        assert(!later()(all[j], all[i]));
    }
}

// --- Roles and users ---

/// The id of the first role that is named `admin`, in whatever case, and has an
/// id.
pub open spec fn admin_role(roles: Seq<Json>, i: int) -> Option<i64>
    decreases roles.len() - i,
{
    if i < 0 || i >= roles.len() {
        None
    } else {
        let name = json::text_of(json::member(roles[i], "display_name"@));
        let id = json::int_of(json::member(roles[i], "id"@));
        if name is Some && text::eq_ignoring_ascii_case(name->0, "admin"@) && id is Some {
            id
        } else {
            admin_role(roles, i + 1)
        }
    }
}

/// Finds the administrator role in a listing of roles.
pub fn find_admin_role_id(listing: &Json) -> (r: Result<i64, String>)
    ensures
        match r {
            Ok(id) => admin_role(json::items_of(json::member(*listing, "data"@)), 0) == Some(id),
            Err(e) => admin_role(json::items_of(json::member(*listing, "data"@)), 0) is None && e@
                == "No role named \"Admin\" found in BookStack \u{2014} cannot apply admin-only permission lock"@,
        },
{
    let ghost roles = json::items_of(json::member(*listing, "data"@));
    let admin = chars_of("admin");
    if let Some(items) = listing.get_items("data") {
        let mut i: usize = 0;
        while i < items.len()
            invariant
                i <= items@.len(),
                roles == items@,
                admin@ == "admin"@,
                roles == json::items_of(json::member(*listing, "data"@)),
                admin_role(roles, 0) == admin_role(roles, i as int),
            decreases items@.len() - i,
        {
            if let Some(name) = items[i].get_str("display_name") {
                let name = chars_of(name);
                if eq_ignore_ascii_case(name.as_slice(), admin.as_slice()) {
                    if let Some(id) = items[i].get_i64("id") {
                        return Ok(id);
                    }
                }
            }
            i += 1;
        }
    }
    Err(
        "No role named \"Admin\" found in BookStack \u{2014} cannot apply admin-only permission lock".to_owned(),
    )
}

/// The ids of the items in a list member.
pub open spec fn member_ids(j: Json, name: Seq<char>) -> Seq<i64> {
    let items = json::items_of(json::member(j, name));
    item_ids(items, items.len() as int)
}

/// Reads the ids of the items in a list member.
pub fn read_member_ids(j: &Json, name: &str) -> (r: Vec<i64>)
    ensures
        r@ == member_ids(*j, name@),
{
    let mut ids: Vec<i64> = Vec::new();
    if let Some(items) = j.get_items(name) {
        push_item_ids(&mut ids, items);
        assert(Seq::<i64>::empty() + item_ids(items@, items@.len() as int) =~= item_ids(
            items@,
            items@.len() as int,
        ));
    }
    ids
}

/// The ids of a user's roles.
pub fn user_role_ids(user: &Json) -> (r: Vec<i64>)
    ensures
        r@ == member_ids(*user, "roles"@),
{
    read_member_ids(user, "roles")
}

/// The creator of the first row that names one.
pub open spec fn first_creator(rows: Seq<Json>, i: int) -> Option<i64>
    decreases rows.len() - i,
{
    if i < 0 || i >= rows.len() {
        None
    } else {
        match json::int_of(json::member_opt(json::member(rows[i], "created_by"@), "id"@)) {
            Some(id) => Some(id),
            None => first_creator(rows, i + 1),
        }
    }
}

/// The user behind a search for content that the caller created; `None` where
/// there is no such content yet.
pub fn creator_in_search(found: &Json) -> (r: Option<i64>)
    ensures
        r == first_creator(json::items_of(json::member(*found, "data"@)), 0),
{
    let ghost rows = json::items_of(json::member(*found, "data"@));
    if let Some(items) = found.get_items("data") {
        let mut i: usize = 0;
        while i < items.len()
            invariant
                i <= items@.len(),
                rows == items@,
                rows == json::items_of(json::member(*found, "data"@)),
                first_creator(rows, 0) == first_creator(rows, i as int),
            decreases items@.len() - i,
        {
            if let Some(creator) = items[i].get("created_by") {
                if let Some(id) = creator.get_i64("id") {
                    return Some(id);
                }
            }
            i += 1;
        }
    }
    None
}

/// The identity that a user record describes.
pub fn identity_from_user(user_id: i64, user: &Json) -> (r: UserIdentity)
    ensures
        r.bookstack_user_id == user_id,
        text::opt_text(r.email) == json::text_of(json::member(*user, "email"@)),
        r.name@ == match json::text_of(json::member(*user, "name"@)) {
            Some(n) => n,
            None => Seq::empty(),
        },
{
    let email: Option<String> = match user.get_str("email") {
        Some(s) => Some(s.to_owned()),
        None => None,
    };
    let name: String = match user.get_str("name") {
        Some(s) => s.to_owned(),
        None => String::new(),
    };
    UserIdentity { bookstack_user_id: user_id, email, name }
}

/// The error for a user record that could not be had.
pub fn whoami_error(user_id: i64, reason: &str) -> (r: String)
    ensures
        r@ == "whoami: get_user("@ + text::decimal_int(user_id as int) + ") failed: "@ + reason@,
{
    let number = decimal_int_string(user_id);
    let mut e = String::new();
    e.append("whoami: get_user(");
    e.append(number.as_str());
    e.append(") failed: ");
    e.append(reason);
    assert(e@ =~= "whoami: get_user("@ + text::decimal_int(user_id as int) + ") failed: "@
        + reason@);
    e
}

} // verus!
