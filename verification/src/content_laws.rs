//! What holds of the wiki's answers as they are read.

use crate::content;
use crate::json;
use crate::json::Json;
use crate::rows;
use crate::text;
use vstd::prelude::*;

verus! {

/// The ids that are read from a list are those of its items, all of them, in
/// order; an item without an id is passed over.
pub proof fn law_ids_are_read(j: Json, name: Seq<char>)
    ensures
        rows::is_selection(
            json::items_of(json::member(j, name)),
            |item: Json| json::int_of(json::member(item, "id"@)),
            content::member_ids(j, name),
        ),
        content::page_ids(j) == content::member_ids(j, "data"@),
{
    let items = json::items_of(json::member(j, name));
    rows::lemma_selected(
        items,
        |item: Json| json::int_of(json::member(item, "id"@)),
        |k: int| content::item_ids(items, k),
    );
}

/// Every item of a list with an id is among the ids that are read from it.
pub proof fn law_every_id_is_read(j: Json, name: Seq<char>, k: int, id: i64)
    requires
        0 <= k < json::items_of(json::member(j, name)).len(),
        json::int_of(json::member(json::items_of(json::member(j, name))[k], "id"@)) == Some(id),
    ensures
        content::member_ids(j, name).contains(id),
{
    law_ids_are_read(j, name);
    let items = json::items_of(json::member(j, name));
    let value = |item: Json| json::int_of(json::member(item, "id"@));
    rows::law_selection_is_complete(items, value, content::member_ids(j, name));
    assert(value(items[k]) == Some(id));
}

/// The entry of a book's contents is of the kind.
pub open spec fn has_kind(item: Json, kind: Seq<char>) -> bool {
    json::text_of(json::member(item, "type"@)) == Some(kind)
}

/// The row is a page of the book: an entry of its contents that is a page, or one
/// of the pages of an entry that is a chapter.
pub open spec fn is_page_of_book(book: Json, row: Json) -> bool {
    exists|k: int|
        0 <= k < json::items_of(json::member(book, "contents"@)).len() && ({
            let item = #[trigger] json::items_of(json::member(book, "contents"@))[k];
            ||| has_kind(item, "page"@) && row == item
            ||| has_kind(item, "chapter"@) && json::items_of(json::member(item, "pages"@)).contains(
                row,
            )
        })
}

proof fn lemma_rows_of(item: Json, row: Json)
    ensures
        content::rows_of(item).contains(row) <==> (has_kind(item, "page"@) && row == item) || (
        has_kind(item, "chapter"@) && json::items_of(json::member(item, "pages"@)).contains(row)),
{
    reveal_strlit("page");
    reveal_strlit("chapter");
    assert("page"@.len() != "chapter"@.len());
    if has_kind(item, "page"@) {
        assert(content::rows_of(item) =~= seq![item]);
        assert(seq![item][0] == item);
    }
}

proof fn lemma_rows_of_all(items: Seq<Json>, n: int, row: Json)
    requires
        0 <= n <= items.len(),
    ensures
        content::rows_of_all(items, n).contains(row) <==> exists|k: int|
            0 <= k < n && content::rows_of(#[trigger] items[k]).contains(row),
    decreases n,
{
    if n > 0 {
        lemma_rows_of_all(items, n - 1, row);
        let before = content::rows_of_all(items, n - 1);
        let here = content::rows_of(items[n - 1]);
        let all = before + here;
        if before.contains(row) {
            let i = choose|i: int| 0 <= i < before.len() && before[i] == row;
            assert(all[i] == row);
        }
        if here.contains(row) {
            let i = choose|i: int| 0 <= i < here.len() && here[i] == row;
            assert(all[before.len() + i] == row);
        }
        if all.contains(row) {
            let i = choose|i: int| 0 <= i < all.len() && all[i] == row;
            if i < before.len() {
                assert(before[i] == row);
            } else {
                assert(here[i - before.len()] == row);
            }
        }
    }
}

/// The page rows of a book are all its pages: those that stand by themselves and
/// those of its chapters, and no others.
pub proof fn law_book_rows_are_its_pages(book: Json, row: Json)
    ensures
        content::book_rows(book).contains(row) <==> is_page_of_book(book, row),
{
    let items = json::items_of(json::member(book, "contents"@));
    lemma_rows_of_all(items, items.len() as int, row);
    assert forall|k: int| 0 <= k < items.len() implies (content::rows_of(#[trigger] items[k]).contains(
        row,
    ) <==> (has_kind(items[k], "page"@) && row == items[k]) || (has_kind(items[k], "chapter"@)
        && json::items_of(json::member(items[k], "pages"@)).contains(row))) by {
        lemma_rows_of(items[k], row);
    }
    if content::book_rows(book).contains(row) {
        let k = choose|k: int|
            0 <= k < items.len() && content::rows_of(#[trigger] items[k]).contains(row);
        assert(items[k] == json::items_of(json::member(book, "contents"@))[k]);
    }
}

/// The page rows of two books with the same contents one after the other are those
/// of the first and then those of the second: the order of the contents is kept.
pub proof fn law_book_rows_keep_their_order(a: Seq<Json>, b: Seq<Json>)
    ensures
        content::rows_of_all(a + b, (a + b).len() as int) == content::rows_of_all(
            a,
            a.len() as int,
        ) + content::rows_of_all(b, b.len() as int),
{
    lemma_rows_of_two(a, b, b.len() as int);
}

proof fn lemma_rows_of_two(a: Seq<Json>, b: Seq<Json>, n: int)
    requires
        0 <= n <= b.len(),
    ensures
        content::rows_of_all(a + b, a.len() + n) == content::rows_of_all(a, a.len() as int)
            + content::rows_of_all(b, n),
    decreases n,
{
    if n > 0 {
        lemma_rows_of_two(a, b, n - 1);
        assert((a + b)[a.len() + n - 1] == b[n - 1]);
        assert(content::rows_of_all(a + b, a.len() + n) =~= content::rows_of_all(a, a.len() as int)
            + content::rows_of_all(b, n));
    } else {
        lemma_rows_of_prefix(a, b, a.len() as int);
        assert(content::rows_of_all(a, a.len() as int) + content::rows_of_all(b, 0)
            =~= content::rows_of_all(a, a.len() as int));
    }
}

proof fn lemma_rows_of_prefix(a: Seq<Json>, b: Seq<Json>, n: int)
    requires
        0 <= n <= a.len(),
    ensures
        content::rows_of_all(a + b, n) == content::rows_of_all(a, n),
    decreases n,
{
    if n > 0 {
        lemma_rows_of_prefix(a, b, n - 1);
        assert((a + b)[n - 1] == a[n - 1]);
    }
}

/// Two texts are the same up to the case of ASCII letters.
pub open spec fn same_letters(a: Seq<char>, b: Seq<char>) -> bool {
    a.len() == b.len() && forall|i: int|
        0 <= i < a.len() ==> text::ascii_lower(#[trigger] a[i]) == text::ascii_lower(b[i])
}

/// The row has a name that is the given one up to the case of ASCII letters.
pub open spec fn is_named(row: Json, name: Seq<char>) -> bool {
    json::text_of(json::member(row, "name"@)) matches Some(n) && same_letters(n, name)
}

/// A page is found by name: the first row with it, whatever the case, and none
/// where no row has it.
pub proof fn law_page_is_found_by_name(found_in: Seq<Json>, name: Seq<char>)
    ensures
        rows::is_first(
            found_in,
            |row: Json|
                if is_named(row, name) {
                    Some(row)
                } else {
                    None
                },
            content::first_named(found_in, name, 0),
        ),
{
    rows::lemma_first(
        found_in,
        |row: Json|
            if is_named(row, name) {
                Some(row)
            } else {
                None
            },
        |k: int| content::first_named(found_in, name, k),
    );
}

/// A chapter is found by name: the first entry that is a chapter with it.
pub proof fn law_chapter_is_found_by_name(items: Seq<Json>, name: Seq<char>)
    ensures
        rows::is_first(
            items,
            |row: Json|
                if has_kind(row, "chapter"@) && is_named(row, name) {
                    Some(row)
                } else {
                    None
                },
            content::first_chapter(items, name, 0),
        ),
{
    rows::lemma_first(
        items,
        |row: Json|
            if has_kind(row, "chapter"@) && is_named(row, name) {
                Some(row)
            } else {
                None
            },
        |k: int| content::first_chapter(items, name, k),
    );
}

/// The administrator role is the first one with an id whose name shown is `admin`
/// in whatever case.
pub proof fn law_admin_role_is_found(roles: Seq<Json>)
    ensures
        rows::is_first(
            roles,
            |role: Json|
                if json::text_of(json::member(role, "display_name"@)) matches Some(n)
                    && same_letters(n, "admin"@) {
                    json::int_of(json::member(role, "id"@))
                } else {
                    None
                },
            content::admin_role(roles, 0),
        ),
{
    rows::lemma_first(
        roles,
        |role: Json|
            if json::text_of(json::member(role, "display_name"@)) matches Some(n) && same_letters(
                n,
                "admin"@,
            ) {
                json::int_of(json::member(role, "id"@))
            } else {
                None
            },
        |k: int| content::admin_role(roles, k),
    );
}

/// The creator is that of the first row that names one.
pub proof fn law_creator_is_found(found: Seq<Json>)
    ensures
        rows::is_first(
            found,
            |row: Json| json::int_of(json::member_opt(json::member(row, "created_by"@), "id"@)),
            content::first_creator(found, 0),
        ),
{
    rows::lemma_first(
        found,
        |row: Json| json::int_of(json::member_opt(json::member(row, "created_by"@), "id"@)),
        |k: int| content::first_creator(found, k),
    );
}

/// A list of the latest rows has the first of them, as many as the limit allows,
/// and a row that was updated later is never left out for an earlier one.
pub proof fn law_latest_rows_are_kept(all: Seq<Json>, limit: int, i: int, j: int)
    requires
        0 <= limit,
        0 <= i < content::first_rows(content::latest_first(all), limit).len(),
        content::first_rows(content::latest_first(all), limit).len() <= j < all.len(),
    ensures
        content::first_rows(content::latest_first(all), limit).len() == limit,
        content::first_rows(content::latest_first(all), limit)[i] == content::latest_first(all)[i],
        !text::precedes(
            content::updated_at(content::latest_first(all)[i]),
            content::updated_at(content::latest_first(all)[j]),
        ),
        content::latest_first(all).len() == all.len(),
{
    content::law_latest_first(all);
    rows::lemma_sorted_from(all, content::later());
}

/// When a row was updated is what its member says, and empty where it says
/// nothing.
pub proof fn law_update_is_read(row: Json)
    ensures
        json::text_of(json::member(row, "updated_at"@)) matches Some(t) ==> content::updated_at(row)
            == t,
        json::text_of(json::member(row, "updated_at"@)) is None ==> content::updated_at(row).len()
            == 0,
{
}

} // verus!
