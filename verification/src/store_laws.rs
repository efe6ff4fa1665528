//! What holds of the index tables, the directory tree and the token tables, told by
//! the rows themselves.

use crate::auth;
use crate::auth::TokenRow;
use crate::crypto;
use crate::directory;
use crate::directory::{DirectoryNode, DirectoryNodeKind, DirectoryScope, IndexTables};
use crate::index::{IndexedBook, IndexedChapter, IndexedPage, IndexedShelf, PageCache, PageKind};
use crate::index_store;
use crate::index_store::IndexRow;
use crate::queue;
use crate::rows;
use crate::text;
use vstd::prelude::*;

verus! {

// --- Rows by id ---

/// A row is read by its id: the first in the table that has it.
pub proof fn law_row_is_read_by_id<T: IndexRow>(table: Seq<T>, id: i64)
    ensures
        rows::is_first(
            table,
            |row: T|
                if row.row_id() == id {
                    Some(row)
                } else {
                    None
                },
            index_store::row_with(table, id),
        ),
{
    let value = |row: T|
        if row.row_id() == id {
            Some(row)
        } else {
            None
        };
    let found = |k: int|
        match index_store::row_at(table, id, k) {
            Some(i) => Some(table[i]),
            None => None,
        };
    rows::lemma_first(table, value, found);
}

/// Writing or deleting a row leaves every row with another id at its place.
pub proof fn law_other_rows_stay<T: IndexRow>(table: Seq<T>, row: T, id: i64, i: int)
    requires
        0 <= i < table.len(),
    ensures
        table.len() <= index_store::written(table, row).len() <= table.len() + 1,
        table[i].row_id() != row.row_id() ==> index_store::written(table, row)[i] == table[i],
        table[i].row_id() != id ==> index_store::soft_deleted(table, id)[i] == table[i],
        index_store::written(table, row).len() == table.len() <==> exists|k: int|
            0 <= k < table.len() && (#[trigger] table[k]).row_id() == row.row_id(),
{
    lemma_place_of_id(table, row.row_id(), 0);
    lemma_place_of_id(table, id, 0);
}

proof fn lemma_place_of_id<T: IndexRow>(table: Seq<T>, id: i64, i: int)
    requires
        0 <= i <= table.len(),
    ensures
        match index_store::row_at(table, id, i) {
            Some(k) => i <= k < table.len() && table[k].row_id() == id,
            None => forall|k: int| i <= k < table.len() ==> (#[trigger] table[k]).row_id() != id,
        },
    decreases table.len() - i,
{
    if i < table.len() && table[i].row_id() != id {
        lemma_place_of_id(table, id, i + 1);
    }
}

/// A deleted page keeps all that it states but is marked as deleted, and so do a
/// deleted chapter, book and shelf.
pub proof fn law_deleting_only_marks(
    p: IndexedPage,
    c: IndexedChapter,
    b: IndexedBook,
    s: IndexedShelf,
)
    ensures
        p.as_deleted().deleted && c.as_deleted().deleted && b.as_deleted().deleted
            && s.as_deleted().deleted,
        p.as_deleted().page_id == p.page_id && p.as_deleted().book_id == p.book_id
            && p.as_deleted().chapter_id == p.chapter_id && p.as_deleted().name == p.name
            && p.as_deleted().slug == p.slug && p.as_deleted().page_kind == p.page_kind
            && p.as_deleted().page_key == p.page_key && p.as_deleted().identity_ouid
            == p.identity_ouid && p.as_deleted().page_updated_at == p.page_updated_at,
        c.as_deleted().chapter_id == c.chapter_id && c.as_deleted().book_id == c.book_id
            && c.as_deleted().name == c.name && c.as_deleted().slug == c.slug,
        b.as_deleted().book_id == b.book_id && b.as_deleted().shelf_id == b.shelf_id
            && b.as_deleted().name == b.name && b.as_deleted().slug == b.slug
            && b.as_deleted().book_kind == b.book_kind && b.as_deleted().identity_ouid
            == b.identity_ouid,
        s.as_deleted().shelf_id == s.shelf_id && s.as_deleted().name == s.name
            && s.as_deleted().slug == s.slug,
{
}

// --- Lists ---

/// The lists of the index have exactly the rows that are not deleted and stand where
/// they were asked for: books on their shelf, chapters and loose pages in their book,
/// pages in their chapter, and books of an identity.
pub proof fn law_lists_have_their_rows(
    tables: IndexTables,
    shelf_id: Option<i64>,
    book_id: i64,
    chapter_id: i64,
    ouid: Seq<char>,
)
    ensures
        rows::is_choice(
            tables.shelves@,
            |s: IndexedShelf| !s.deleted,
            directory::live_shelves(tables.shelves@),
        ),
        rows::is_choice(
            tables.books@,
            |b: IndexedBook| !b.deleted && b.shelf_id == shelf_id,
            directory::books_of_shelf(tables.books@, shelf_id),
        ),
        rows::is_choice(
            tables.chapters@,
            |c: IndexedChapter| !c.deleted && c.book_id == book_id,
            directory::chapters_of_book(tables.chapters@, book_id),
        ),
        rows::is_choice(
            tables.pages@,
            |p: IndexedPage| !p.deleted && p.book_id == book_id && p.chapter_id is None,
            directory::root_pages_of_book(tables.pages@, book_id),
        ),
        rows::is_choice(
            tables.pages@,
            |p: IndexedPage| !p.deleted && p.chapter_id == Some(chapter_id),
            directory::pages_of_chapter(tables.pages@, chapter_id),
        ),
        rows::is_choice(
            tables.pages@,
            |p: IndexedPage| !p.deleted && p.book_id == book_id,
            index_store::pages_of_book(tables.pages@, book_id),
        ),
        rows::is_choice(
            tables.books@,
            |b: IndexedBook|
                !b.deleted && (b.identity_ouid matches Some(o) && o@ == ouid),
            index_store::books_of_identity(tables.books@, ouid),
        ),
{
    rows::lemma_chosen(
        tables.shelves@,
        |s: IndexedShelf| !s.deleted,
        |s: IndexedShelf| !s.deleted,
    );
    rows::lemma_chosen(
        tables.books@,
        |b: IndexedBook| !b.deleted && b.shelf_id == shelf_id,
        |b: IndexedBook| !b.deleted && b.shelf_id == shelf_id,
    );
    rows::lemma_chosen(
        tables.chapters@,
        |c: IndexedChapter| !c.deleted && c.book_id == book_id,
        |c: IndexedChapter| !c.deleted && c.book_id == book_id,
    );
    rows::lemma_chosen(
        tables.pages@,
        |p: IndexedPage| !p.deleted && p.book_id == book_id && p.chapter_id is None,
        |p: IndexedPage| !p.deleted && p.chapter_id is None && p.book_id == book_id,
    );
    rows::lemma_chosen(
        tables.pages@,
        |p: IndexedPage| !p.deleted && p.chapter_id == Some(chapter_id),
        |p: IndexedPage| !p.deleted && p.chapter_id == Some(chapter_id),
    );
    rows::lemma_chosen(
        tables.pages@,
        |p: IndexedPage| !p.deleted && p.book_id == book_id,
        |p: IndexedPage| !p.deleted && p.book_id == book_id,
    );
    rows::lemma_chosen(
        tables.books@,
        |b: IndexedBook| !b.deleted && (b.identity_ouid matches Some(o) && o@ == ouid),
        |b: IndexedBook| !b.deleted && text::opt_text(b.identity_ouid) == Some(ouid),
    );
}

/// The recent pages are the latest of a list: no more than the limit, none twice, and
/// none that is left out was updated later than one that is shown. A page without a
/// time counts as the oldest.
pub proof fn law_recent_pages_come_first(pages: Seq<IndexedPage>, limit: int)
    ensures
        ({
            let all = rows::sorted(pages, index_store::updated_later());
            let shown = queue::at_most(all, limit);
            &&& all.to_multiset() =~= pages.to_multiset()
            &&& shown.len() == if 0 <= limit < pages.len() {
                limit
            } else {
                pages.len() as int
            }
            &&& forall|i: int| 0 <= i < shown.len() ==> #[trigger] shown[i] == all[i]
            &&& forall|i: int, j: int|
                0 <= i < j < all.len() ==> (#[trigger] all[j]).page_updated_at is None || ((
                #[trigger] all[i]).page_updated_at is Some && !text::precedes(
                    all[i].page_updated_at->0@,
                    all[j].page_updated_at->0@,
                )) || (all[i].page_updated_at is None && all[j].page_updated_at->0@.len() == 0)
        }),
{
    let less = index_store::updated_later();
    assert(rows::is_order(less)) by {
        assert forall|a: IndexedPage, b: IndexedPage| #[trigger] less(a, b) implies !less(b, a) by {
            text::law_order_is_total(index_store::update_time(a), index_store::update_time(b));
        }
        assert forall|a: IndexedPage, b: IndexedPage, c: IndexedPage|
            #[trigger] less(a, b) && !less(c, b) implies #[trigger] less(a, c) by {
            let x = index_store::update_time(a);
            let y = index_store::update_time(b);
            let z = index_store::update_time(c);
            text::law_order_is_total(y, z);
            text::law_order_is_transitive(z, y, x);
        }
    }
    rows::law_sorted(pages, less);
    let all = rows::sorted(pages, less);
    all.to_multiset_ensures();
    pages.to_multiset_ensures();
    assert(all.len() == pages.len());
    assert forall|i: int, j: int| 0 <= i < j < all.len() implies (
    #[trigger] all[j]).page_updated_at is None || ((#[trigger] all[i]).page_updated_at is Some
        && !text::precedes(all[i].page_updated_at->0@, all[j].page_updated_at->0@)) || (
    all[i].page_updated_at is None && all[j].page_updated_at->0@.len() == 0) by {
        assert(!less(all[j], all[i]));
        if all[i].page_updated_at is None && all[j].page_updated_at is Some {
            let t = all[j].page_updated_at->0@;
            assert(!text::precedes(Seq::empty(), t));
            if t.len() > 0 {
                assert(text::precedes_from(Seq::empty(), t, 0));
            }
        }
    }
}

/// Rows are listed by their names: a shelf, a book, a chapter and a page each by the
/// name that it shows.
pub proof fn law_rows_go_by_name(
    s: (IndexedShelf, IndexedShelf),
    b: (IndexedBook, IndexedBook),
    c: (IndexedChapter, IndexedChapter),
    p: (IndexedPage, IndexedPage),
)
    ensures
        index_store::name_less::<IndexedShelf>()(s.0, s.1) == text::precedes(s.0.name@, s.1.name@),
        index_store::name_less::<IndexedBook>()(b.0, b.1) == text::precedes(b.0.name@, b.1.name@),
        index_store::name_less::<IndexedChapter>()(c.0, c.1) == text::precedes(
            c.0.name@,
            c.1.name@,
        ),
        index_store::name_less::<IndexedPage>()(p.0, p.1) == text::precedes(p.0.name@, p.1.name@),
{
}

/// The books of an identity are listed by their kinds, as these are stored, and books
/// of one kind by their names; none is lost.
pub proof fn law_books_go_by_kind_then_name(books: Seq<IndexedBook>, i: int, j: int)
    requires
        0 <= i < j < rows::sorted(
            rows::sorted(books, index_store::name_less()),
            index_store::kind_less(),
        ).len(),
    ensures
        ({
            let all = rows::sorted(
                rows::sorted(books, index_store::name_less()),
                index_store::kind_less(),
            );
            &&& all.to_multiset() =~= books.to_multiset()
            &&& !text::precedes(all[j].book_kind.stored_name(), all[i].book_kind.stored_name())
            &&& all[i].book_kind.stored_name() == all[j].book_kind.stored_name()
                ==> !text::precedes(all[j].name@, all[i].name@)
        }),
{
    let by_name = index_store::name_less::<IndexedBook>();
    let by_kind = index_store::kind_less();
    let inner = rows::sorted(books, by_name);
    let all = rows::sorted(inner, by_kind);
    rows::law_sorted_by_text(books, by_name, |b: IndexedBook| b.row_name());
    rows::law_sorted_by_text(inner, by_kind, |b: IndexedBook| b.book_kind.stored_name());
    assert(!by_kind(all[j], all[i]));
    let kind = all[i].book_kind.stored_name();
    if all[j].book_kind.stored_name() == kind {
        let class = |b: IndexedBook| has_kind_name(b, kind);
        rows::lemma_text_order(by_kind, |b: IndexedBook| b.book_kind.stored_name());
        assert forall|a: IndexedBook, b: IndexedBook| class(a) && class(b) implies !#[trigger]
            by_kind(a, b) by {
            text::law_order_is_total(kind, kind);
        }
        rows::law_equal_rows_keep_their_order(inner, by_kind, class);
        rows::law_selection_stays_in_order(inner, by_name, class);
        lemma_order_within(all, by_name, class, i, j);
    }
}

/// The book's kind is stored under the name.
pub open spec fn has_kind_name(b: IndexedBook, kind: Seq<char>) -> bool {
    b.book_kind.stored_name() == kind
}

proof fn lemma_order_within<T>(
    all: Seq<T>,
    less: spec_fn(T, T) -> bool,
    class: spec_fn(T) -> bool,
    i: int,
    j: int,
)
    requires
        0 <= i < j < all.len(),
        class(all[i]),
        class(all[j]),
        rows::is_sorted(all.filter(class), less),
    ensures
        !less(all[j], all[i]),
    decreases all.len(),
{
    reveal(Seq::filter);
    let init = all.drop_last();
    let kept = all.filter(class);
    let front = init.filter(class);
    if j == all.len() - 1 {
        assert(kept == front.push(all[j]));
        rows::lemma_chosen(init, class, class);
        rows::law_choice_is_complete(init, class, front);
        assert(init[i] == all[i]);
        assert(front.contains(init[i]));
        let k = choose|k: int| 0 <= k < front.len() && front[k] == init[i];
        assert(kept[k] == all[i]);
        assert(kept[front.len() as int] == all[j]);
    } else {
        assert forall|k: int, l: int| 0 <= k < l < front.len() implies !less(
            #[trigger] front[l],
            #[trigger] front[k],
        ) by {
            assert(kept[k] == front[k] && kept[l] == front[l]);
        }
        lemma_order_within(init, less, class, i, j);
    }
}

// --- Keys and caches ---

/// The page states the key, under the identity and of the kind.
pub open spec fn states_key(
    p: IndexedPage,
    ouid: Seq<char>,
    kind: PageKind,
    key: Seq<char>,
) -> bool {
    !p.deleted && p.page_kind == kind && (p.identity_ouid matches Some(o) && o@ == ouid) && (
    p.page_key matches Some(k) && k@ == key)
}

/// A page is found by its key: the first that is not deleted and states it.
pub proof fn law_page_is_found_by_key(
    pages: Seq<IndexedPage>,
    ouid: Seq<char>,
    kind: PageKind,
    key: Seq<char>,
)
    ensures
        rows::is_first(
            pages,
            |p: IndexedPage|
                if states_key(p, ouid, kind, key) {
                    Some(p)
                } else {
                    None
                },
            index_store::page_with_key(pages, ouid, kind, key, 0),
        ),
{
    rows::lemma_first(
        pages,
        |p: IndexedPage|
            if states_key(p, ouid, kind, key) {
                Some(p)
            } else {
                None
            },
        |k: int| index_store::page_with_key(pages, ouid, kind, key, k),
    );
}

/// A page is refused for its key exactly if a page with another id states the same
/// key; the first such page is named. A deleted page, or one without an identity or
/// a key, is never refused.
pub proof fn law_key_is_held_by_another(pages: Seq<IndexedPage>, page: IndexedPage)
    ensures
        rows::is_first(
            pages,
            |p: IndexedPage|
                if !page.deleted && page.identity_ouid is Some && page.page_key is Some && p.page_id
                    != page.page_id && states_key(
                    p,
                    page.identity_ouid->0@,
                    page.page_kind,
                    page.page_key->0@,
                ) {
                    Some(p.page_id)
                } else {
                    None
                },
            index_store::key_holder(pages, page, 0),
        ),
{
    rows::lemma_first(
        pages,
        |p: IndexedPage|
            if !page.deleted && page.identity_ouid is Some && page.page_key is Some && p.page_id
                != page.page_id && states_key(
                p,
                page.identity_ouid->0@,
                page.page_kind,
                page.page_key->0@,
            ) {
                Some(p.page_id)
            } else {
                None
            },
        |k: int| index_store::key_holder(pages, page, k),
    );
}

/// A cache is read by the id of its page.
pub proof fn law_cache_is_read_by_page(caches: Seq<PageCache>, page_id: i64)
    ensures
        rows::is_first(
            caches,
            |c: PageCache|
                if c.page_id == page_id {
                    Some(c)
                } else {
                    None
                },
            index_store::cache_of(caches, page_id),
        ),
{
    rows::lemma_first(
        caches,
        |c: PageCache|
            if c.page_id == page_id {
                Some(c)
            } else {
                None
            },
        |k: int|
            match index_store::cache_at(caches, page_id, k) {
                Some(i) => Some(caches[i]),
                None => None,
            },
    );
}

/// A cache is fresh exactly if it is of the page and from the same update of it.
pub proof fn law_fresh_caches(page: IndexedPage, cache: PageCache)
    ensures
        index_store::is_fresh(page, cache) <==> page.page_id == cache.page_id && ((
        page.page_updated_at is None && cache.page_updated_at is None) || (
        page.page_updated_at is Some && cache.page_updated_at is Some && page.page_updated_at->0@
            == cache.page_updated_at->0@)),
{
}

/// A value is read by its key.
pub proof fn law_value_is_read_by_key(entries: Seq<(String, String)>, key: Seq<char>)
    ensures
        rows::is_first(
            entries,
            |e: (String, String)|
                if e.0@ == key {
                    Some(e.1@)
                } else {
                    None
                },
            index_store::value_for(entries, key),
        ),
{
    rows::lemma_first(
        entries,
        |e: (String, String)|
            if e.0@ == key {
                Some(e.1@)
            } else {
                None
            },
        |k: int|
            match index_store::key_at(entries, key, k) {
                Some(i) => Some(entries[i].1@),
                None => None,
            },
    );
}

// --- The directory ---

/// What a scope asks for is the first row with its id that is not deleted.
pub proof fn law_directory_rows_are_found(tables: IndexTables, id: i64)
    ensures
        rows::is_first(
            tables.shelves@,
            |s: IndexedShelf|
                if s.shelf_id == id && !s.deleted {
                    Some(s)
                } else {
                    None
                },
            directory::find_shelf(tables.shelves@, id, 0),
        ),
        rows::is_first(
            tables.books@,
            |b: IndexedBook|
                if b.book_id == id && !b.deleted {
                    Some(b)
                } else {
                    None
                },
            directory::find_book(tables.books@, id, 0),
        ),
        rows::is_first(
            tables.chapters@,
            |c: IndexedChapter|
                if c.chapter_id == id && !c.deleted {
                    Some(c)
                } else {
                    None
                },
            directory::find_chapter(tables.chapters@, id, 0),
        ),
{
    rows::lemma_first(
        tables.shelves@,
        |s: IndexedShelf|
            if s.shelf_id == id && !s.deleted {
                Some(s)
            } else {
                None
            },
        |k: int| directory::find_shelf(tables.shelves@, id, k),
    );
    rows::lemma_first(
        tables.books@,
        |b: IndexedBook|
            if b.book_id == id && !b.deleted {
                Some(b)
            } else {
                None
            },
        |k: int| directory::find_book(tables.books@, id, k),
    );
    rows::lemma_first(
        tables.chapters@,
        |c: IndexedChapter|
            if c.chapter_id == id && !c.deleted {
                Some(c)
            } else {
                None
            },
        |k: int| directory::find_chapter(tables.chapters@, id, k),
    );
}

/// The tree is refused exactly where the row that the scope names is missing or
/// deleted, and the answer names what was asked for.
pub proof fn law_missing_scope_is_refused(tables: IndexTables, id: i64)
    ensures
        directory::tree_error(DirectoryScope::All, tables) is None,
        (exists|i: int|
            0 <= i < tables.shelves@.len() && (#[trigger] tables.shelves@[i]).shelf_id == id
                && !tables.shelves@[i].deleted) <==> directory::tree_error(
            DirectoryScope::Shelf(id),
            tables,
        ) is None,
        (exists|i: int|
            0 <= i < tables.books@.len() && (#[trigger] tables.books@[i]).book_id == id
                && !tables.books@[i].deleted) <==> directory::tree_error(
            DirectoryScope::Book(id),
            tables,
        ) is None,
        (exists|i: int|
            0 <= i < tables.chapters@.len() && (#[trigger] tables.chapters@[i]).chapter_id == id
                && !tables.chapters@[i].deleted) <==> directory::tree_error(
            DirectoryScope::Chapter(id),
            tables,
        ) is None,
{
    law_directory_rows_are_found(tables, id);
}

/// A child of the kind with the id.
pub open spec fn has_child(node: DirectoryNode, kind: DirectoryNodeKind, id: i64) -> bool {
    exists|k: int|
        0 <= k < node.children@.len() && (#[trigger] node.children@[k]).kind == kind
            && node.children@[k].id == id
}

/// A chapter that is opened shows every page in it that is not deleted.
pub proof fn law_opened_chapter_shows_every_page(
    node: DirectoryNode,
    chapter: IndexedChapter,
    depth: Option<u32>,
    tables: IndexTables,
    i: int,
)
    requires
        directory::shows_chapter(node, chapter, depth, tables),
        depth != Some(0u32),
        0 <= i < tables.pages@.len(),
        !tables.pages@[i].deleted,
        tables.pages@[i].chapter_id == Some(chapter.chapter_id),
    ensures
        node.kind is Chapter,
        node.id == chapter.chapter_id,
        has_child(node, DirectoryNodeKind::Page, tables.pages@[i].page_id),
{
    let shown = directory::pages_of_chapter(tables.pages@, chapter.chapter_id);
    law_lists_have_their_rows(tables, None, 0, chapter.chapter_id, Seq::empty());
    rows::law_choice_is_complete(
        tables.pages@,
        |p: IndexedPage| !p.deleted && p.chapter_id == Some(chapter.chapter_id),
        shown,
    );
    assert(shown.contains(tables.pages@[i]));
    let k = choose|k: int| 0 <= k < shown.len() && shown[k] == tables.pages@[i];
    assert(directory::shows_page(node.children@[0 + k], shown[k]));
    assert(node.children@[k].kind is Page);
}

/// A book that is opened shows every chapter of it and every page of it outside
/// chapters that is not deleted, chapters first.
pub proof fn law_opened_book_shows_everything(
    node: DirectoryNode,
    book: IndexedBook,
    depth: Option<u32>,
    tables: IndexTables,
)
    requires
        directory::shows_book(node, book, depth, tables),
        depth != Some(0u32),
    ensures
        node.kind is Book,
        node.id == book.book_id,
        forall|i: int|
            0 <= i < tables.chapters@.len() && !(#[trigger] tables.chapters@[i]).deleted
                && tables.chapters@[i].book_id == book.book_id ==> has_child(
                node,
                DirectoryNodeKind::Chapter,
                tables.chapters@[i].chapter_id,
            ),
        forall|i: int|
            0 <= i < tables.pages@.len() && !(#[trigger] tables.pages@[i]).deleted
                && tables.pages@[i].book_id == book.book_id && tables.pages@[i].chapter_id is None
                ==> has_child(node, DirectoryNodeKind::Page, tables.pages@[i].page_id),
        forall|j: int, k: int|
            0 <= j < k < node.children@.len() && (#[trigger] node.children@[k]).kind is Chapter
                ==> (#[trigger] node.children@[j]).kind is Chapter,
{
    let chapters = directory::chapters_of_book(tables.chapters@, book.book_id);
    let pages = directory::root_pages_of_book(tables.pages@, book.book_id);
    let from = chapters.len() as int;
    law_lists_have_their_rows(tables, None, book.book_id, 0, Seq::empty());
    rows::law_choice_is_complete(
        tables.chapters@,
        |c: IndexedChapter| !c.deleted && c.book_id == book.book_id,
        chapters,
    );
    rows::law_choice_is_complete(
        tables.pages@,
        |p: IndexedPage| !p.deleted && p.book_id == book.book_id && p.chapter_id is None,
        pages,
    );
    assert forall|i: int|
        0 <= i < tables.chapters@.len() && !(#[trigger] tables.chapters@[i]).deleted
            && tables.chapters@[i].book_id == book.book_id implies has_child(
        node,
        DirectoryNodeKind::Chapter,
        tables.chapters@[i].chapter_id,
    ) by {
        assert(chapters.contains(tables.chapters@[i]));
        let k = choose|k: int| 0 <= k < chapters.len() && chapters[k] == tables.chapters@[i];
        assert(directory::shows_chapter(
            node.children@[k],
            chapters[k],
            directory::child_depth(depth),
            tables,
        ));
    }
    assert forall|i: int|
        0 <= i < tables.pages@.len() && !(#[trigger] tables.pages@[i]).deleted
            && tables.pages@[i].book_id == book.book_id
            && tables.pages@[i].chapter_id is None implies has_child(
        node,
        DirectoryNodeKind::Page,
        tables.pages@[i].page_id,
    ) by {
        assert(pages.contains(tables.pages@[i]));
        let k = choose|k: int| 0 <= k < pages.len() && pages[k] == tables.pages@[i];
        assert(directory::shows_page(node.children@[from + k], pages[k]));
    }
    assert forall|j: int, k: int|
        0 <= j < k < node.children@.len() && (
        #[trigger] node.children@[k]).kind is Chapter implies (
    #[trigger] node.children@[j]).kind is Chapter by {
        if k >= from {
            assert(directory::shows_page(node.children@[from + (k - from)], pages[k - from]));
        }
        assert(directory::shows_chapter(
            node.children@[j],
            chapters[j],
            directory::child_depth(depth),
            tables,
        ));
    }
}

/// A shelf that is opened shows every book on it that is not deleted, each opened as
/// far as one level less.
pub proof fn law_opened_shelf_shows_every_book(
    node: DirectoryNode,
    shelf: IndexedShelf,
    depth: Option<u32>,
    tables: IndexTables,
)
    requires
        directory::shows_shelf(node, shelf, depth, tables),
        depth != Some(0u32),
    ensures
        node.kind is Shelf,
        node.id == shelf.shelf_id,
        forall|i: int|
            0 <= i < tables.books@.len() && !(#[trigger] tables.books@[i]).deleted
                && tables.books@[i].shelf_id == Some(shelf.shelf_id) ==> has_child(
                node,
                DirectoryNodeKind::Book,
                tables.books@[i].book_id,
            ),
        forall|k: int|
            0 <= k < node.children@.len() ==> shows_some_book(
                #[trigger] node.children@[k],
                match depth {
                    Some(d) => Some((d - 1) as u32),
                    None => None,
                },
                tables,
            ),
{
    let books = directory::books_of_shelf(tables.books@, Some(shelf.shelf_id));
    lemma_every_book_is_shown(node, Some(shelf.shelf_id), depth, tables, books);
}

/// The node shows one of the books.
pub open spec fn shows_some_book(
    node: DirectoryNode,
    depth: Option<u32>,
    tables: IndexTables,
) -> bool {
    exists|i: int|
        0 <= i < tables.books@.len() && directory::shows_book(
            node,
            #[trigger] tables.books@[i],
            depth,
            tables,
        )
}

proof fn lemma_every_book_is_shown(
    node: DirectoryNode,
    shelf_id: Option<i64>,
    depth: Option<u32>,
    tables: IndexTables,
    books: Seq<IndexedBook>,
)
    requires
        depth != Some(0u32),
        books == directory::books_of_shelf(tables.books@, shelf_id),
        directory::show_books(node.children@, books, directory::child_depth(depth), tables),
    ensures
        forall|i: int|
            0 <= i < tables.books@.len() && !(#[trigger] tables.books@[i]).deleted
                && tables.books@[i].shelf_id == shelf_id ==> has_child(
                node,
                DirectoryNodeKind::Book,
                tables.books@[i].book_id,
            ),
        forall|k: int|
            0 <= k < node.children@.len() ==> shows_some_book(
                #[trigger] node.children@[k],
                match depth {
                    Some(d) => Some((d - 1) as u32),
                    None => None,
                },
                tables,
            ),
{
    law_lists_have_their_rows(tables, shelf_id, 0, 0, Seq::empty());
    rows::law_choice_is_complete(
        tables.books@,
        |b: IndexedBook| !b.deleted && b.shelf_id == shelf_id,
        books,
    );
    assert forall|i: int|
        0 <= i < tables.books@.len() && !(#[trigger] tables.books@[i]).deleted
            && tables.books@[i].shelf_id == shelf_id implies has_child(
        node,
        DirectoryNodeKind::Book,
        tables.books@[i].book_id,
    ) by {
        assert(books.contains(tables.books@[i]));
        let k = choose|k: int| 0 <= k < books.len() && books[k] == tables.books@[i];
        assert(directory::shows_book(
            node.children@[k],
            books[k],
            directory::child_depth(depth),
            tables,
        ));
    }
    assert forall|k: int| 0 <= k < node.children@.len() implies shows_some_book(
        #[trigger] node.children@[k],
        match depth {
            Some(d) => Some((d - 1) as u32),
            None => None,
        },
        tables,
    ) by {
        assert(tables.books@.contains(books[k]));
        let i = choose|i: int| 0 <= i < tables.books@.len() && tables.books@[i] == books[k];
        assert(directory::shows_book(
            node.children@[k],
            tables.books@[i],
            directory::child_depth(depth),
            tables,
        ));
    }
}

/// The whole tree shows every shelf that is not deleted, and a last node for the
/// books on no shelf exactly where there are any that are not deleted.
pub proof fn law_tree_shows_every_shelf(
    nodes: Seq<DirectoryNode>,
    depth: Option<u32>,
    tables: IndexTables,
)
    requires
        directory::shows_tree(nodes, DirectoryScope::All, depth, tables),
    ensures
        forall|i: int|
            0 <= i < tables.shelves@.len() && !(#[trigger] tables.shelves@[i]).deleted
                ==> is_among(nodes, tables.shelves@[i].shelf_id),
        (exists|i: int|
            0 <= i < tables.books@.len() && !(#[trigger] tables.books@[i]).deleted
                && tables.books@[i].shelf_id is None) ==> {
            &&& nodes.len() > 0
            &&& nodes.last().name@ == "Unshelved"@
            &&& nodes.last().id == 0
            &&& depth != Some(0u32) ==> forall|i: int|
                0 <= i < tables.books@.len() && !(#[trigger] tables.books@[i]).deleted
                    && tables.books@[i].shelf_id is None ==> has_child(
                    nodes.last(),
                    DirectoryNodeKind::Book,
                    tables.books@[i].book_id,
                )
        },
        (forall|i: int|
            0 <= i < tables.books@.len() && !(#[trigger] tables.books@[i]).deleted
                ==> tables.books@[i].shelf_id is Some) ==> nodes.len() == directory::live_shelves(
            tables.shelves@,
        ).len(),
{
    let shelves = directory::live_shelves(tables.shelves@);
    let loose = directory::books_of_shelf(tables.books@, None);
    law_lists_have_their_rows(tables, None, 0, 0, Seq::empty());
    rows::law_choice_is_complete(tables.shelves@, |s: IndexedShelf| !s.deleted, shelves);
    rows::law_choice_is_complete(
        tables.books@,
        |b: IndexedBook| !b.deleted && b.shelf_id == None::<i64>,
        loose,
    );
    assert forall|i: int|
        0 <= i < tables.shelves@.len() && !(#[trigger] tables.shelves@[i]).deleted implies is_among(
        nodes,
        tables.shelves@[i].shelf_id,
    ) by {
        assert(shelves.contains(tables.shelves@[i]));
        let k = choose|k: int| 0 <= k < shelves.len() && shelves[k] == tables.shelves@[i];
        assert(directory::shows_shelf(nodes[k], shelves[k], depth, tables));
    }
    if exists|i: int|
        0 <= i < tables.books@.len() && !(#[trigger] tables.books@[i]).deleted
            && tables.books@[i].shelf_id is None {
        let i = choose|i: int|
            0 <= i < tables.books@.len() && !(#[trigger] tables.books@[i]).deleted
                && tables.books@[i].shelf_id is None;
        assert(loose.contains(tables.books@[i]));
        assert(directory::shows_unshelved(nodes.last(), depth, tables));
        if depth != Some(0u32) {
            lemma_every_book_is_shown(nodes.last(), None, depth, tables, loose);
        }
    } else if loose.len() > 0 {
        assert(tables.books@.contains(loose[0]));
    }
}

/// A shelf with the id is among the nodes.
pub open spec fn is_among(nodes: Seq<DirectoryNode>, shelf_id: i64) -> bool {
    exists|k: int|
        0 <= k < nodes.len() && (#[trigger] nodes[k]).kind is Shelf && nodes[k].id == shelf_id
}

/// A node shows its row's id, name and slug; a page's node its kind too, and nothing
/// below it.
pub proof fn law_nodes_show_their_rows(
    node: DirectoryNode,
    page: IndexedPage,
    chapter: IndexedChapter,
    book: IndexedBook,
    shelf: IndexedShelf,
    depth: Option<u32>,
    tables: IndexTables,
)
    ensures
        directory::shows_page(node, page) ==> node.kind is Page && node.id == page.page_id
            && node.name@ == page.name@ && node.slug@ == page.slug@ && (
        node.page_kind matches Some(k) && k@ == page.page_kind.stored_name())
            && node.children@.len() == 0,
        directory::shows_chapter(node, chapter, depth, tables) ==> node.kind is Chapter && node.id
            == chapter.chapter_id && node.name@ == chapter.name@ && node.slug@ == chapter.slug@
            && node.page_kind is None,
        directory::shows_book(node, book, depth, tables) ==> node.kind is Book && node.id
            == book.book_id && node.name@ == book.name@ && node.slug@ == book.slug@
            && node.page_kind is None,
        directory::shows_shelf(node, shelf, depth, tables) ==> node.kind is Shelf && node.id
            == shelf.shelf_id && node.name@ == shelf.name@ && node.slug@ == shelf.slug@
            && node.page_kind is None,
{
}

/// A node that is not opened has nothing below it, and one that is has no more below
/// it than its rows.
pub proof fn law_nodes_show_nothing_else(
    node: DirectoryNode,
    chapter: IndexedChapter,
    book: IndexedBook,
    shelf: IndexedShelf,
    depth: Option<u32>,
    tables: IndexTables,
)
    ensures
        directory::shows_chapter(node, chapter, depth, tables) ==> node.children@.len() == if depth
            == Some(0u32) {
            0
        } else {
            directory::pages_of_chapter(tables.pages@, chapter.chapter_id).len()
        },
        directory::shows_book(node, book, depth, tables) ==> node.children@.len() == if depth
            == Some(0u32) {
            0
        } else {
            directory::chapters_of_book(tables.chapters@, book.book_id).len()
                + directory::root_pages_of_book(tables.pages@, book.book_id).len()
        },
        directory::shows_shelf(node, shelf, depth, tables) ==> node.children@.len() == if depth
            == Some(0u32) {
            0
        } else {
            directory::books_of_shelf(tables.books@, Some(shelf.shelf_id)).len()
        },
{
}

/// Nothing is opened at depth zero, and every level below counts one.
pub proof fn law_depth_counts_levels(depth: Option<u32>)
    ensures
        directory::descends(depth) <==> (depth matches Some(d) ==> d > 0),
        depth is None ==> directory::child_depth(depth) is None,
        depth matches Some(d) ==> directory::child_depth(depth) == Some(
            if d == 0 {
                0u32
            } else {
                (d - 1) as u32
            },
        ),
{
}

// --- Tokens ---

/// A token is valid through the first row that holds it and was stored later than
/// the cutoff.
pub proof fn law_valid_row_is_the_first(table: Seq<TokenRow>, token: Seq<char>, cutoff: int)
    ensures
        rows::is_first(
            table,
            |r: TokenRow|
                if r.token@ == token && r.created_at > cutoff {
                    Some(r)
                } else {
                    None
                },
            auth::valid_row(table, token, cutoff, 0),
        ),
{
    rows::lemma_first(
        table,
        |r: TokenRow|
            if r.token@ == token && r.created_at > cutoff {
                Some(r)
            } else {
                None
            },
        |k: int| auth::valid_row(table, token, cutoff, k),
    );
}

/// The row holds the token.
pub open spec fn is_row_of(r: TokenRow, token: Seq<char>) -> bool {
    r.token@ == token
}

/// Cleaning keeps exactly the rows stored later than the cutoff, and forgetting a
/// token keeps exactly the rows of other tokens; a table is cleaned only when full.
pub proof fn law_kept_rows(table: Seq<TokenRow>, token: Seq<char>, cutoff: int)
    ensures
        rows::is_choice(
            table,
            |r: TokenRow| r.created_at > cutoff,
            auth::stored_after(table, cutoff),
        ),
        rows::is_choice(table, |r: TokenRow| !is_row_of(r, token), auth::without(table, token)),
        table.len() < 10000 ==> auth::kept_access_rows(table, cutoff) == table,
        table.len() >= 10000 ==> rows::is_choice(
            table,
            |r: TokenRow| r.created_at > cutoff,
            auth::kept_access_rows(table, cutoff),
        ),
{
    rows::lemma_chosen(
        table,
        |r: TokenRow| r.created_at > cutoff,
        |r: TokenRow| r.created_at > cutoff,
    );
    let value = |r: TokenRow|
        if !is_row_of(r, token) {
            Some(r)
        } else {
            None
        };
    let built = |k: int| auth::without(table.take(k), token);
    reveal(Seq::filter);
    assert(table.take(0) =~= Seq::empty());
    assert forall|k: int| 0 <= k < table.len() implies built(k + 1) == match value(
        #[trigger] table[k],
    ) {
        Some(b) => built(k).push(b),
        None => built(k),
    } by {
        assert(table.take(k + 1).drop_last() =~= table.take(k));
        assert(table.take(k + 1).last() == table[k]);
    }
    rows::lemma_selected(table, value, built);
    assert(table.take(table.len() as int) =~= table);
    let fits = |r: TokenRow| !is_row_of(r, token);
    rows::lemma_same_selection(
        table,
        value,
        |r: TokenRow|
            if fits(r) {
                Some(r)
            } else {
                None
            },
        auth::without(table, token),
    );
    assert(rows::is_choice(table, fits, auth::without(table, token)));
}

/// An access token is looked up by its hash, and only where no row has the hash as
/// it stands. What is stored is decrypted, or given out as it stands where it does
/// not decrypt. A refresh token is looked up by its hash alone and must decrypt.
pub proof fn law_tokens_are_answered(
    table: Seq<TokenRow>,
    key: Seq<u8>,
    token: Seq<char>,
    cutoff: int,
)
    ensures
        ({
            let hashed = auth::valid_row(table, crypto::sha256_text(token), cutoff, 0);
            let plain = auth::valid_row(table, token, cutoff, 0);
            let row = if hashed is Some {
                hashed
            } else {
                plain
            };
            let id = crypto::decrypted(key, row->0.token_id@);
            let secret = crypto::decrypted(key, row->0.token_secret@);
            let answer = auth::access_answer(table, key, token, cutoff);
            &&& row is None ==> answer is None
            &&& row is Some && id is Some && secret is Some ==> answer == Some(
                (id->0, secret->0),
            )
            &&& row is Some && !(id is Some && secret is Some) ==> answer == Some(
                (row->0.token_id@, row->0.token_secret@),
            )
            &&& hashed is None ==> auth::refresh_answer(table, key, token, cutoff) is None
            &&& hashed is Some && id is Some && secret is Some ==> auth::refresh_answer(
                table,
                key,
                token,
                cutoff,
            ) == Some((id->0, secret->0))
            &&& hashed is Some && !(id is Some && secret is Some) ==> auth::refresh_answer(
                table,
                key,
                token,
                cutoff,
            ) is None
        }),
{
}

/// Encrypting the rows of a token anew leaves the rows of other tokens as they are,
/// and when each row was stored.
pub proof fn law_other_tokens_stay(
    before: Seq<TokenRow>,
    after: Seq<TokenRow>,
    key: Seq<u8>,
    token: Seq<char>,
    id: Seq<char>,
    secret: Seq<char>,
    i: int,
)
    requires
        auth::is_reencrypted(before, after, key, token, id, secret),
        0 <= i < before.len(),
    ensures
        after.len() == before.len(),
        before[i].token@ != token ==> after[i] == before[i],
        after[i].token@ == before[i].token@,
        after[i].created_at == before[i].created_at,
        before[i].token@ == token ==> crypto::decrypted(key, after[i].token_id@) == Some(id)
            && crypto::decrypted(key, after[i].token_secret@) == Some(secret),
{
    let row = after[i];
}

} // verus!
