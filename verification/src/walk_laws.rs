//! What holds of a walk over the wiki, told by what the wiki answers.

use crate::calendar;
use crate::content;
use crate::content_laws;
use crate::frontmatter;
use crate::index::{
    BookKind, IndexedBook, IndexedChapter, IndexedPage, IndexedShelf, PageCache, ShelfKind,
};
use crate::json;
use crate::json::Json;
use crate::rows;
use crate::text;
use crate::walk;
use crate::walk::{TaskModel, WalkModel, WalkRow, WalkStep};
use crate::worker;
use crate::worker::{BookItem, IndexTask, MissingParent, ParentsModel};
use vstd::prelude::*;

verus! {

// --- What a book holds ---

/// The rows of a book's contents.
pub open spec fn contents(book: Json) -> Seq<Json> {
    json::items_of(json::member(book, "contents"@))
}

/// The row of a book's contents is of the kind and has the id.
pub open spec fn states(row: Json, kind: Seq<char>, id: i64) -> bool {
    &&& json::text_of(json::member(row, "type"@)) == Some(kind)
    &&& json::int_of(json::member(row, "id"@)) == Some(id)
}

/// What a row of a book's contents stands for.
pub open spec fn stated_item(row: Json) -> Option<BookItem> {
    match json::int_of(json::member(row, "id"@)) {
        Some(id) => if states(row, "page"@, id) {
            Some(BookItem::Page(id))
        } else if states(row, "chapter"@, id) {
            Some(BookItem::Chapter(id))
        } else {
            None
        },
        None => None,
    }
}

/// The items of a book are what the rows of its contents stand for, all of them,
/// in order.
pub proof fn law_items_are_the_contents(book: Json)
    ensures
        rows::is_selection(
            contents(book),
            |row: Json| stated_item(row),
            worker::items_of_book(book),
        ),
{
    reveal_strlit("page");
    reveal_strlit("chapter");
    assert("page"@.len() != "chapter"@.len());
    rows::lemma_selected(
        contents(book),
        |row: Json| stated_item(row),
        |k: int| worker::book_items(contents(book), k),
    );
}

/// Every row of a book's contents that states a page or a chapter is among the
/// items of the book, wherever it stands, and every item is stated by a row.
pub proof fn law_every_row_is_listed(book: Json, k: int, id: i64)
    requires
        0 <= k < contents(book).len(),
    ensures
        states(contents(book)[k], "page"@, id) ==> worker::items_of_book(book).contains(
            BookItem::Page(id),
        ),
        states(contents(book)[k], "chapter"@, id) ==> worker::items_of_book(book).contains(
            BookItem::Chapter(id),
        ),
        worker::items_of_book(book).contains(BookItem::Page(id)) ==> exists|r: int|
            0 <= r < contents(book).len() && states(#[trigger] contents(book)[r], "page"@, id),
        worker::items_of_book(book).contains(BookItem::Chapter(id)) ==> exists|r: int|
            0 <= r < contents(book).len() && states(#[trigger] contents(book)[r], "chapter"@, id),
{
    reveal_strlit("page");
    reveal_strlit("chapter");
    assert("page"@.len() != "chapter"@.len());
    law_items_are_the_contents(book);
    let value = |row: Json| stated_item(row);
    let items = worker::items_of_book(book);
    rows::law_selection_is_complete(contents(book), value, items);
    assert(value(contents(book)[k]) == stated_item(contents(book)[k]));
    if items.contains(BookItem::Page(id)) {
        let i = choose|i: int| 0 <= i < items.len() && items[i] == BookItem::Page(id);
        assert(rows::is_value(contents(book), value, items[i]));
        let r = choose|r: int|
            0 <= r < contents(book).len() && value(#[trigger] contents(book)[r]) == Some(items[i]);
        assert(states(contents(book)[r], "page"@, id));
    }
    if items.contains(BookItem::Chapter(id)) {
        let i = choose|i: int| 0 <= i < items.len() && items[i] == BookItem::Chapter(id);
        assert(rows::is_value(contents(book), value, items[i]));
        let r = choose|r: int|
            0 <= r < contents(book).len() && value(#[trigger] contents(book)[r]) == Some(items[i]);
        assert(states(contents(book)[r], "chapter"@, id));
    }
}

// --- What a walk takes ---

/// One of the rows in the list member has the id.
pub open spec fn lists_id(j: Json, name: Seq<char>, id: i64) -> bool {
    exists|k: int|
        0 <= k < json::items_of(json::member(j, name)).len() && json::int_of(
            json::member(#[trigger] json::items_of(json::member(j, name))[k], "id"@),
        ) == Some(id)
}

/// One of the rows of the book's contents states the content.
pub open spec fn lists_content(book: Json, kind: Seq<char>, id: i64) -> bool {
    exists|k: int| 0 <= k < contents(book).len() && states(#[trigger] contents(book)[k], kind, id)
}

proof fn lemma_listed(j: Json, name: Seq<char>, id: i64)
    requires
        lists_id(j, name, id),
    ensures
        content::member_ids(j, name).contains(id),
{
    let k = choose|k: int|
        0 <= k < json::items_of(json::member(j, name)).len() && json::int_of(
            json::member(#[trigger] json::items_of(json::member(j, name))[k], "id"@),
        ) == Some(id);
    content_laws::law_every_id_is_read(j, name, k, id);
}

/// The content has a task for the page in the given place.
pub open spec fn takes_page(
    all: Seq<TaskModel>,
    page_id: i64,
    book_id: i64,
    chapter_id: Option<i64>,
) -> bool {
    exists|parents: ParentsModel|
        parents.book_id == book_id && parents.chapter_id == chapter_id && #[trigger] all.contains(
            TaskModel::Page { page_id, parents },
        )
}

/// A walk over the shelves takes every page: one that a row of a book's contents
/// states, and one that a row of a chapter's pages states, wherever those rows
/// stand, for every book that a row of a shelf's books states.
pub proof fn law_walk_takes_every_stated_page(
    wiki: spec_fn(WalkStep) -> Option<Json>,
    shelves: Seq<i64>,
    shelf_id: i64,
    book_id: i64,
    chapter_id: i64,
    page_id: i64,
)
    requires
        shelves.contains(shelf_id),
        wiki(WalkStep::Shelf(shelf_id)) matches Some(shelf) && lists_id(shelf, "books"@, book_id),
        wiki(WalkStep::Book(book_id)) is Some,
    ensures
        ({
            let todo = shelves.map_values(|id: i64| TaskModel::Shelf(id));
            let all = walk::all_content(wiki, todo);
            let book = wiki(WalkStep::Book(book_id))->0;
            &&& all.contains(TaskModel::Shelf(shelf_id))
            &&& all.contains(
                TaskModel::Book {
                    book_id,
                    shelf_id: Some(shelf_id),
                    shelf_kind: ShelfKind::Unclassified,
                },
            )
            &&& lists_content(book, "page"@, page_id) ==> takes_page(all, page_id, book_id, None)
            &&& lists_content(book, "chapter"@, chapter_id) && (wiki(WalkStep::Chapter(chapter_id))
                matches Some(chapter) && lists_id(chapter, "pages"@, page_id)) ==> takes_page(
                all,
                page_id,
                book_id,
                Some(chapter_id),
            )
        }),
{
    let todo = shelves.map_values(|id: i64| TaskModel::Shelf(id));
    let all = walk::all_content(wiki, todo);
    let book = wiki(WalkStep::Book(book_id))->0;
    let shelf = wiki(WalkStep::Shelf(shelf_id))->0;
    let s = choose|s: int| 0 <= s < shelves.len() && shelves[s] == shelf_id;
    assert(todo[s] == TaskModel::Shelf(shelf_id));
    walk::lemma_content_holds_tasks(wiki, todo, 3, TaskModel::Shelf(shelf_id));
    lemma_listed(shelf, "books"@, book_id);
    let _ = walk::law_walk_reaches_book(wiki, todo, shelf_id, book_id);
    if lists_content(book, "page"@, page_id) {
        let k = choose|k: int|
            0 <= k < contents(book).len() && states(#[trigger] contents(book)[k], "page"@, page_id);
        law_every_row_is_listed(book, k, page_id);
        walk::law_walk_reaches_root_pages(wiki, todo, shelf_id, book_id, page_id);
        let parents = ParentsModel {
            book_id,
            chapter_id: None,
            book_kind: worker::kind_of_book(book, ShelfKind::Unclassified),
            chapter_kind: None,
            chapter_archive_year: None,
            identity_ouid: walk::identity_in(wiki, book_id),
        };
        assert(all.contains(TaskModel::Page { page_id, parents }));
    }
    if lists_content(book, "chapter"@, chapter_id) && (wiki(WalkStep::Chapter(chapter_id))
        matches Some(chapter) && lists_id(chapter, "pages"@, page_id)) {
        let k = choose|k: int|
            0 <= k < contents(book).len() && states(
                #[trigger] contents(book)[k],
                "chapter"@,
                chapter_id,
            );
        law_every_row_is_listed(book, k, chapter_id);
        let chapter = wiki(WalkStep::Chapter(chapter_id))->0;
        lemma_listed(chapter, "pages"@, page_id);
        walk::law_walk_reaches_chapter_pages(
            wiki,
            todo,
            shelf_id,
            book_id,
            chapter_id,
            page_id,
        );
        let kind = worker::kind_of_book(book, ShelfKind::Unclassified);
        let (chapter_kind, year) = worker::class_of_chapter(chapter, kind);
        let parents = ParentsModel {
            book_id,
            chapter_id: Some(chapter_id),
            book_kind: kind,
            chapter_kind: Some(chapter_kind),
            chapter_archive_year: year,
            identity_ouid: walk::identity_in(wiki, book_id),
        };
        assert(all.contains(TaskModel::Page { page_id, parents }));
    }
}

/// A book that stands on no shelf is walked like the others: once it is a task,
/// every page that a row of its contents or of its chapters' pages states is
/// taken.
pub proof fn law_walk_takes_pages_of_loose_books(
    wiki: spec_fn(WalkStep) -> Option<Json>,
    todo: Seq<TaskModel>,
    book_id: i64,
    chapter_id: i64,
    page_id: i64,
)
    requires
        todo.contains(
            TaskModel::Book { book_id, shelf_id: None, shelf_kind: ShelfKind::Unclassified },
        ),
        wiki(WalkStep::Book(book_id)) is Some,
    ensures
        ({
            let all = walk::all_content(wiki, todo);
            let book = wiki(WalkStep::Book(book_id))->0;
            &&& lists_content(book, "page"@, page_id) ==> takes_page(all, page_id, book_id, None)
            &&& lists_content(book, "chapter"@, chapter_id) && (wiki(WalkStep::Chapter(chapter_id))
                matches Some(chapter) && lists_id(chapter, "pages"@, page_id)) ==> takes_page(
                all,
                page_id,
                book_id,
                Some(chapter_id),
            )
        }),
{
    let all = walk::all_content(wiki, todo);
    let book = wiki(WalkStep::Book(book_id))->0;
    let task = TaskModel::Book { book_id, shelf_id: None, shelf_kind: ShelfKind::Unclassified };
    walk::lemma_content_holds_tasks(wiki, todo, 3, task);
    let kind = worker::kind_of_book(book, ShelfKind::Unclassified);
    let manifest = match walk::wanted_manifest(task, book) {
        Some(id) => wiki(WalkStep::Page(id)),
        None => None,
    };
    let identity = walk::book_identity(kind, manifest);
    let item = walk::item_task(book_id, kind, identity);
    let items = worker::items_of_book(book);
    if lists_content(book, "page"@, page_id) {
        let k = choose|k: int|
            0 <= k < contents(book).len() && states(#[trigger] contents(book)[k], "page"@, page_id);
        law_every_row_is_listed(book, k, page_id);
        let i = choose|i: int| 0 <= i < items.len() && items[i] == BookItem::Page(page_id);
        let below = item(BookItem::Page(page_id));
        assert(walk::under(wiki, task)[i] == below);
        walk::law_walk_goes_down(wiki, todo, task, below);
        let parents = ParentsModel {
            book_id,
            chapter_id: None,
            book_kind: kind,
            chapter_kind: None,
            chapter_archive_year: None,
            identity_ouid: identity,
        };
        assert(all.contains(TaskModel::Page { page_id, parents }));
    }
    if lists_content(book, "chapter"@, chapter_id) && (wiki(WalkStep::Chapter(chapter_id))
        matches Some(chapter) && lists_id(chapter, "pages"@, page_id)) {
        let k = choose|k: int|
            0 <= k < contents(book).len() && states(
                #[trigger] contents(book)[k],
                "chapter"@,
                chapter_id,
            );
        law_every_row_is_listed(book, k, chapter_id);
        let i = choose|i: int| 0 <= i < items.len() && items[i] == BookItem::Chapter(chapter_id);
        let between = item(BookItem::Chapter(chapter_id));
        assert(walk::under(wiki, task)[i] == between);
        walk::law_walk_goes_down(wiki, todo, task, between);
        let chapter = wiki(WalkStep::Chapter(chapter_id))->0;
        lemma_listed(chapter, "pages"@, page_id);
        let ids = content::member_ids(chapter, "pages"@);
        let j = choose|j: int| 0 <= j < ids.len() && ids[j] == page_id;
        let (chapter_kind, year) = worker::class_of_chapter(chapter, kind);
        let parents = ParentsModel {
            book_id,
            chapter_id: Some(chapter_id),
            book_kind: kind,
            chapter_kind: Some(chapter_kind),
            chapter_archive_year: year,
            identity_ouid: identity,
        };
        let below = TaskModel::Page { page_id, parents };
        assert(walk::under(wiki, between)[j] == below);
        walk::law_walk_goes_down(wiki, todo, between, below);
        assert(all.contains(below));
    }
}

/// What a shelf's answer states as its books is known as shelved from then on, and
/// nothing that was known is forgotten; other answers change nothing of it.
pub proof fn law_shelved_books_are_known(
    m: WalkModel,
    answer: Json,
    manifest: Option<Json>,
    book_id: i64,
)
    requires
        m.todo.len() > 0,
    ensures
        ({
            let after = walk::after_answer(m, answer, manifest);
            &&& m.todo[0] is Shelf ==> (after.shelved.contains(book_id) <==> m.shelved.contains(
                book_id,
            ) || content::member_ids(answer, "books"@).contains(book_id))
            &&& !(m.todo[0] is Shelf) ==> after.shelved == m.shelved
            &&& m.todo[0] is Shelf && lists_id(answer, "books"@, book_id)
                ==> after.shelved.contains(book_id)
            &&& after.listed == m.listed && after.stopped == m.stopped
        }),
{
    if lists_id(answer, "books"@, book_id) {
        lemma_listed(answer, "books"@, book_id);
    }
    let ids = content::member_ids(answer, "books"@);
    let all = m.shelved + ids;
    if m.shelved.contains(book_id) {
        let i = choose|i: int| 0 <= i < m.shelved.len() && m.shelved[i] == book_id;
        assert(all[i] == book_id);
    }
    if ids.contains(book_id) {
        let i = choose|i: int| 0 <= i < ids.len() && ids[i] == book_id;
        assert(all[m.shelved.len() + i] == book_id);
    }
    if all.contains(book_id) {
        let i = choose|i: int| 0 <= i < all.len() && all[i] == book_id;
        if i < m.shelved.len() {
            assert(m.shelved[i] == book_id);
        } else {
            assert(ids[i - m.shelved.len()] == book_id);
        }
    }
}

/// Listing all books adds a task for each one that is not known as shelved, and
/// for no other; the tasks that there were come first.
pub proof fn law_loose_books_are_added(m: WalkModel, all: Seq<i64>, i: int)
    requires
        m.todo.len() <= i < walk::after_listing(m, all).todo.len(),
    ensures
        walk::after_listing(m, all).todo.take(m.todo.len() as int) == m.todo,
        walk::after_listing(m, all).todo[i] matches TaskModel::Book { book_id, shelf_id, .. }
            && shelf_id is None && all.contains(book_id) && !m.shelved.contains(book_id),
        walk::after_listing(m, all).listed,
        walk::after_listing(m, all).stopped == m.stopped,
{
    broadcast use vstd::seq_lib::group_filter_ensures;

    let keep = |id: i64| !m.shelved.contains(id);
    let loose = all.filter(keep);
    let todo = walk::after_listing(m, all).todo;
    assert(todo.take(m.todo.len() as int) =~= m.todo);
    let id = loose[i - m.todo.len()];
    assert(loose.contains(id));
    all.lemma_filter_contains_rev(keep, id);
    assert(keep(loose[i - m.todo.len()]));
}

// --- The identity of a book ---

/// The manifest is the first row of the contents that is a page named `Identity`,
/// and its id is the one that the row has.
pub proof fn law_manifest_is_the_first(book: Json)
    ensures
        rows::is_first(
            contents(book),
            |row: Json|
                if json::text_of(json::member(row, "type"@)) == Some("page"@) && (json::text_of(
                    json::member(row, "name"@),
                ) matches Some(n) && text::trim(n) == "Identity"@) {
                    Some(row)
                } else {
                    None
                },
            worker::first_manifest(contents(book), 0),
        ),
        worker::manifest_of(book) == match worker::first_manifest(contents(book), 0) {
            Some(row) => json::int_of(json::member(row, "id"@)),
            None => None,
        },
{
    rows::lemma_first(
        contents(book),
        |row: Json|
            if json::text_of(json::member(row, "type"@)) == Some("page"@) && (json::text_of(
                json::member(row, "name"@),
            ) matches Some(n) && text::trim(n) == "Identity"@) {
                Some(row)
            } else {
                None
            },
        |k: int| worker::first_manifest(contents(book), k),
    );
}

/// Books of the two identity kinds get the identity that their manifest's
/// Markdown states; other books, and books without a manifest, have none.
pub proof fn law_identity_comes_from_the_manifest(kind: BookKind, manifest: Option<Json>)
    ensures
        ({
            let stated = match manifest {
                Some(page) => match json::text_of(json::member(page, "markdown"@)) {
                    Some(md) => frontmatter::page_ouid(md),
                    None => None,
                },
                None => None,
            };
            walk::book_identity(kind, manifest) == if kind == BookKind::Identity || kind
                == BookKind::UserIdentity {
                stated
            } else {
                None
            }
        }),
{
}

/// The shelf of a book is the first candidate of which a row of the books states
/// it; a shelf that is not answered is passed over.
pub proof fn law_first_shelf_holds_the_book(
    shelves: Seq<i64>,
    answers: spec_fn(i64) -> Option<Json>,
    book_id: i64,
)
    ensures
        rows::is_first(
            shelves,
            |id: i64|
                if answers(id) matches Some(shelf) && lists_id(shelf, "books"@, book_id) {
                    Some(id)
                } else {
                    None
                },
            worker::first_holder(shelves, answers, book_id, 0),
        ),
{
    let value = |id: i64|
        if answers(id) matches Some(shelf) && lists_id(shelf, "books"@, book_id) {
            Some(id)
        } else {
            None
        };
    let found = |k: int| worker::first_holder(shelves, answers, book_id, k);
    assert forall|k: int| 0 <= k < shelves.len() implies found(k) == match value(
        #[trigger] shelves[k],
    ) {
        Some(b) => Some(b),
        None => found(k + 1),
    } by {
        if let Some(shelf) = answers(shelves[k]) {
            lemma_holds_book(shelf, book_id);
        }
    }
    rows::lemma_first(shelves, value, found);
}

proof fn lemma_holds_book(shelf: Json, book_id: i64)
    ensures
        content::member_ids(shelf, "books"@).contains(book_id) <==> lists_id(
            shelf,
            "books"@,
            book_id,
        ),
{
    if lists_id(shelf, "books"@, book_id) {
        lemma_listed(shelf, "books"@, book_id);
    }
    let ids = content::member_ids(shelf, "books"@);
    if ids.contains(book_id) {
        content_laws::law_ids_are_read(shelf, "books"@);
        let items = json::items_of(json::member(shelf, "books"@));
        let value = |item: Json| json::int_of(json::member(item, "id"@));
        rows::law_selection_is_complete(items, value, ids);
        let i = choose|i: int| 0 <= i < ids.len() && ids[i] == book_id;
        assert(rows::is_value(items, value, ids[i]));
        let k = choose|k: int| 0 <= k < items.len() && value(#[trigger] items[k]) == Some(ids[i]);
        assert(json::int_of(json::member(items[k], "id"@)) == Some(book_id));
    }
}

// --- Rows ---

/// The text member of a value, or the empty text.
pub open spec fn member_text(j: Json, name: Seq<char>) -> Seq<char> {
    match json::member(j, name) {
        Some(Json::Text(s)) => s@,
        _ => Seq::empty(),
    }
}

/// The rows of a walk hold what was fetched under their names, and stand where the
/// task says.
pub proof fn law_rows_hold_what_was_fetched(
    shelf: IndexedShelf,
    book: IndexedBook,
    chapter: IndexedChapter,
    page: IndexedPage,
    cache: PageCache,
    answer: Json,
    id: i64,
    shelf_id: Option<i64>,
    shelf_kind: ShelfKind,
    book_kind: BookKind,
    parents: ParentsModel,
    identity: Option<Seq<char>>,
    now: i64,
)
    ensures
        worker::is_shelf_row(shelf, id, answer, now) ==> shelf.shelf_id == id && shelf.name@
            == member_text(answer, "name"@) && shelf.slug@ == member_text(answer, "slug"@)
            && shelf.indexed_at == now && !shelf.deleted,
        worker::is_book_row(book, id, answer, shelf_id, shelf_kind, identity, now)
            ==> book.book_id == id && book.name@ == member_text(answer, "name"@) && book.slug@
            == member_text(answer, "slug"@) && book.shelf_id == shelf_id && book.indexed_at == now
            && !book.deleted && book.book_kind == crate::index::book_kind(
            member_text(answer, "name"@),
            shelf_kind,
        ),
        worker::is_chapter_row(chapter, id, answer, parents.book_id, book_kind, identity, now)
            ==> chapter.chapter_id == id && chapter.book_id == parents.book_id && chapter.name@
            == member_text(answer, "name"@) && chapter.slug@ == member_text(answer, "slug"@)
            && text::opt_text(chapter.identity_ouid) == identity && chapter.indexed_at == now
            && !chapter.deleted && (chapter.chapter_kind, chapter.archive_year)
            == crate::index::chapter_class(member_text(answer, "name"@), book_kind),
        worker::is_page_row(page, answer, parents, now) ==> json::member(answer, "id"@) == Some(
            Json::Int(page.page_id),
        ) && page.book_id == parents.book_id && page.chapter_id == parents.chapter_id && page.name@
            == member_text(answer, "name"@) && page.slug@ == member_text(answer, "slug"@)
            && text::opt_text(page.identity_ouid) == parents.identity_ouid && page.indexed_at == now
            && !page.deleted,
        worker::is_cache_row(cache, answer, now) ==> json::member(answer, "id"@) == Some(
            Json::Int(cache.page_id),
        ) && cache.cached_at == now && (json::member(answer, "html"@) matches Some(Json::Text(h))
            ==> text::opt_text(cache.html) == Some(h@)) && (json::member(answer, "markdown"@)
            matches Some(Json::Text(md)) ==> text::opt_text(cache.raw_markdown) == Some(md@)
            && text::opt_text(cache.markdown) == Some(frontmatter::body_of(md@))),
{
}

// --- Scopes ---

/// The scope that names a thing by its kind and number leads back to it.
pub proof fn law_scope_leads_to_its_task(id: i64)
    ensures
        worker::task_of("page:"@ + text::decimal_int(id as int)) == Ok::<IndexTask, Seq<char>>(
            IndexTask::Page(id),
        ),
        worker::task_of("chapter:"@ + text::decimal_int(id as int)) == Ok::<IndexTask, Seq<char>>(
            IndexTask::Chapter(id),
        ),
        worker::task_of("book:"@ + text::decimal_int(id as int)) == Ok::<IndexTask, Seq<char>>(
            IndexTask::Book(id),
        ),
        worker::task_of("shelf:"@ + text::decimal_int(id as int)) == Ok::<IndexTask, Seq<char>>(
            IndexTask::Shelf(id),
        ),
        worker::task_of("all"@) == Ok::<IndexTask, Seq<char>>(IndexTask::All),
        worker::task_of("delta"@) == Ok::<IndexTask, Seq<char>>(IndexTask::Delta),
{
    reveal_strlit("all");
    reveal_strlit("delta");
    reveal_strlit("page:");
    reveal_strlit("chapter:");
    reveal_strlit("book:");
    reveal_strlit("shelf:");
    let number = text::decimal_int(id as int);
    text::law_decimal_round_trip(id);
    let (p, c, b, s) = (
        "page:"@ + number,
        "chapter:"@ + number,
        "book:"@ + number,
        "shelf:"@ + number,
    );
    assert(p.take(5) =~= "page:"@ && p.skip(5) =~= number);
    assert(c.take(8) =~= "chapter:"@ && c.skip(8) =~= number);
    assert(b.take(5) =~= "book:"@ && b.skip(5) =~= number);
    assert(s.take(6) =~= "shelf:"@ && s.skip(6) =~= number);
    assert(p[0] == 'p' && c[0] == 'c' && b[0] == 'b' && s[0] == 's');
    assert("all"@[0] == 'a' && "delta"@[0] == 'd');
    assert("page:"@[0] == 'p' && "chapter:"@[0] == 'c' && "book:"@[0] == 'b' && "shelf:"@[0]
        == 's');
    assert(c.take(5)[0] == 'c');
    assert(b.take(5)[0] == 'b' && b.take(8)[0] == 'b' || b.len() < 8);
    assert(s.take(5)[0] == 's' && (s.len() < 8 || s.take(8)[0] == 's'));
    assert("all"@ != "delta"@);
}

// --- Parents ---

/// A page is in a chapter where it names one other than zero. It is classed by its
/// chapter where that is indexed, and takes its identity from its book.
pub proof fn law_parents_of_a_page(page: Json, book: IndexedBook, chapter: Option<&IndexedChapter>)
    ensures
        ({
            let p = worker::indexed_parents(page, book, chapter);
            let named = json::int_of(json::member(page, "chapter_id"@));
            &&& named is Some && named->0 != 0 ==> p.chapter_id == named
            &&& named is None || named->0 == 0 ==> p.chapter_id is None
            &&& p.book_kind == book.book_kind
            &&& p.identity_ouid == text::opt_text(book.identity_ouid)
            &&& json::int_of(json::member(page, "book_id"@)) matches Some(b) ==> p.book_id == b
            &&& p.chapter_id is Some && chapter is Some ==> p.chapter_kind == Some(
                chapter->0.chapter_kind,
            ) && p.chapter_archive_year == chapter->0.archive_year
            &&& p.chapter_id is None || chapter is None ==> p.chapter_kind is None
                && p.chapter_archive_year is None
        }),
{
}

/// A walk of changes starts where the last one ended, or else where the last full walk
/// started, and there is none before a full walk.
pub proof fn law_changes_are_walked_from(
    last_delta: Option<Seq<char>>,
    last_full: Option<Seq<char>>,
)
    ensures
        last_delta is Some ==> worker::delta_start(last_delta, last_full) == last_delta,
        last_delta is None && last_full is None ==> worker::delta_start(
            last_delta,
            last_full,
        ) is None,
        last_delta is None && last_full is Some ==> forall|secs: i64, m: calendar::Moment|
            text::parsed_i64(last_full->0) == Some(secs as int) && #[trigger] calendar::is_moment_at(
                m,
                secs as int,
            ) ==> worker::delta_start(last_delta, last_full) == Some(calendar::iso_text(m)),
{
    if last_delta is None && last_full is Some {
        assert forall|secs: i64, m: calendar::Moment|
            text::parsed_i64(last_full->0) == Some(secs as int) && #[trigger] calendar::is_moment_at(
                m,
                secs as int,
            ) implies worker::delta_start(last_delta, last_full) == Some(
            calendar::iso_text(m),
        ) by {
            calendar::law_moment_is_unique(m, calendar::the_moment(secs as int), secs as int);
        }
    }
}

/// A page's row holds its class by the place where it stands, its times and its
/// address; a book's row an identity only where it is a book of one.
pub proof fn law_rows_hold_their_class(
    page: IndexedPage,
    book: IndexedBook,
    answer: Json,
    id: i64,
    shelf_id: Option<i64>,
    shelf_kind: ShelfKind,
    parents: ParentsModel,
    identity: Option<Seq<char>>,
    now: i64,
)
    ensures
        worker::is_page_row(page, answer, parents, now) ==> {
            let class = crate::index::page_class(
                member_text(answer, "name"@),
                parents.book_kind,
                parents.chapter_kind,
                parents.chapter_archive_year,
            );
            &&& page.page_kind == class.0
            &&& text::opt_text(page.page_key) == class.1
            &&& class.2 is Some ==> page.archive_year == class.2
            &&& class.2 is None ==> page.archive_year == parents.chapter_archive_year
            &&& text::opt_text(page.url) == json::text_of(json::member(answer, "url"@))
            &&& text::opt_text(page.page_created_at) == json::text_of(
                json::member(answer, "created_at"@),
            )
            &&& text::opt_text(page.page_updated_at) == json::text_of(
                json::member(answer, "updated_at"@),
            )
        },
        worker::is_book_row(book, id, answer, shelf_id, shelf_kind, identity, now)
            ==> text::opt_text(book.identity_ouid) == if book.book_kind == BookKind::Identity
            || book.book_kind == BookKind::UserIdentity {
            identity
        } else {
            None
        },
{
}

/// The manifest is fetched for a book of an identity alone.
pub proof fn law_manifest_is_fetched_for_identities(task: TaskModel, answer: Json)
    ensures
        task matches TaskModel::Book { shelf_kind, .. } ==> {
            let kind = crate::index::book_kind(member_text(answer, "name"@), shelf_kind);
            walk::wanted_manifest(task, answer) == if kind == BookKind::Identity || kind
                == BookKind::UserIdentity {
                worker::manifest_of(answer)
            } else {
                None
            }
        },
        !(task is Book) ==> walk::wanted_manifest(task, answer) is None,
{
}

/// A failure leaves out what could not be fetched and nothing else, and forgets no
/// book that was found on a shelf; a row that is lost leaves out what was found under
/// it, and forgets none either.
pub proof fn law_failures_forget_nothing_else(m: WalkModel)
    requires
        m.todo.len() > 0,
        0 <= m.fresh <= m.todo.len(),
    ensures
        ({
            let failed = walk::after_failure(m);
            let lost = walk::after_lost_row(m);
            &&& failed.todo.len() == m.todo.len() - 1
            &&& forall|i: int| 0 <= i < failed.todo.len() ==> #[trigger] failed.todo[i] == m.todo[i
                + 1]
            &&& failed.shelved == m.shelved && failed.listed == m.listed && failed.stopped
                == m.stopped
            &&& lost.todo.len() == m.todo.len() - m.fresh
            &&& forall|i: int|
                0 <= i < lost.todo.len() ==> #[trigger] lost.todo[i] == m.todo[i + m.fresh]
            &&& lost.shelved == m.shelved && lost.listed == m.listed && lost.stopped == m.stopped
        }),
{
}

/// Every book that is listed and was not found on a shelf is walked too.
pub proof fn law_every_loose_book_is_walked(m: WalkModel, all: Seq<i64>, id: i64)
    requires
        all.contains(id),
        !m.shelved.contains(id),
    ensures
        walk::after_listing(m, all).todo.contains(
            TaskModel::Book { book_id: id, shelf_id: None, shelf_kind: ShelfKind::Unclassified },
        ),
{
    walk::law_walk_reaches_loose_books(m, all, id);
}

/// What is queued for a missing parent is the walk of that parent, and it tells which
/// child asked for it.
pub proof fn law_missing_parent_is_walked(r: MissingParent, child_id: i64, parent_id: i64)
    ensures
        worker::describes_parent(r, "page"@, child_id, "book"@, parent_id) ==> worker::task_of(
            r.scope@,
        ) == Ok::<IndexTask, Seq<char>>(IndexTask::Book(parent_id)) && r.triggered_by@
            == "cascade_from_"@ + "page"@ + ":"@ + text::decimal_int(child_id as int),
        worker::describes_parent(r, "chapter"@, child_id, "book"@, parent_id) ==> worker::task_of(
            r.scope@,
        ) == Ok::<IndexTask, Seq<char>>(IndexTask::Book(parent_id)) && r.triggered_by@
            == "cascade_from_"@ + "chapter"@ + ":"@ + text::decimal_int(child_id as int),
        worker::describes_parent(r, "book"@, child_id, "shelf"@, parent_id) ==> worker::task_of(
            r.scope@,
        ) == Ok::<IndexTask, Seq<char>>(IndexTask::Shelf(parent_id)) && r.triggered_by@
            == "cascade_from_"@ + "book"@ + ":"@ + text::decimal_int(child_id as int),
{
    law_scope_leads_to_its_task(parent_id);
    reveal_strlit("book");
    reveal_strlit("book:");
    reveal_strlit("shelf");
    reveal_strlit("shelf:");
    reveal_strlit(":");
    assert("book"@ + ":"@ =~= "book:"@);
    assert("shelf"@ + ":"@ =~= "shelf:"@);
}

/// What a walk stores is the row of what it asked for: a shelf's, a book's or a
/// chapter's, and for a page its row together with its cache.
pub proof fn law_row_is_of_its_task(
    row: WalkRow,
    task: TaskModel,
    answer: Json,
    manifest: Option<Json>,
    now: i64,
)
    requires
        walk::is_row_of(row, task, answer, manifest, now),
    ensures
        task matches TaskModel::Shelf(id) ==> (row matches WalkRow::Shelf(r) && r.shelf_id == id
            && r.name@ == member_text(answer, "name"@)),
        task matches TaskModel::Book { book_id, shelf_id, .. } ==> (row matches WalkRow::Book(r)
            && r.book_id == book_id && r.shelf_id == shelf_id && r.name@ == member_text(
            answer,
            "name"@,
        )),
        task matches TaskModel::Chapter { chapter_id, book_id, identity_ouid, .. } ==> (
        row matches WalkRow::Chapter(r) && r.chapter_id == chapter_id && r.book_id == book_id
            && text::opt_text(r.identity_ouid) == identity_ouid && r.name@ == member_text(
            answer,
            "name"@,
        )),
        task matches TaskModel::Page { parents, .. } ==> (row matches WalkRow::Page(r, c)
            && r.book_id == parents.book_id && r.chapter_id == parents.chapter_id && r.name@
            == member_text(answer, "name"@) && json::member(answer, "id"@) == Some(
            Json::Int(r.page_id),
        ) && c.page_id == r.page_id && c.cached_at == now && text::opt_text(c.html)
            == json::text_of(json::member(answer, "html"@))),
{
}

} // verus!
