//! The index as a store: rows are written, marked as deleted, looked up and
//! listed in the orders in which they are shown.

use crate::directory;
use crate::directory::{read_directory_tree, DirectoryNode, DirectoryScope, IndexTables};
use crate::index::{
    IndexedBook, IndexedChapter, IndexedPage, IndexedShelf, PageCache, PageKind,
};
use crate::queue;
use crate::rows;
use crate::rows::{select_rows, sort_refs, sort_rows};
use crate::text;
use crate::text::{same_text, text_before};
use vstd::prelude::*;

verus! {

// --- Rows ---

/// A row of the index.
pub trait IndexRow: Sized {
    /// The row's id.
    spec fn row_id(&self) -> i64;

    /// The row's name.
    spec fn row_name(&self) -> Seq<char>;

    /// The row after it was marked as deleted.
    spec fn as_deleted(self) -> Self;

    /// A row that is marked as deleted keeps its id.
    proof fn deleting_keeps_id(self)
        ensures
            self.as_deleted().row_id() == self.row_id(),
    ;

    /// The row's id.
    fn id(&self) -> (r: i64)
        ensures
            r == self.row_id(),
    ;

    /// The row's name.
    fn name(&self) -> (r: &str)
        ensures
            r@ == self.row_name(),
    ;

    /// Marks the row as deleted.
    fn mark_deleted(&mut self)
        ensures
            *final(self) == old(self).as_deleted(),
    ;
}

impl IndexRow for IndexedShelf {
    open spec fn row_id(&self) -> i64 {
        self.shelf_id
    }

    open spec fn row_name(&self) -> Seq<char> {
        self.name@
    }

    open spec fn as_deleted(self) -> Self {
        IndexedShelf { deleted: true, ..self }
    }

    proof fn deleting_keeps_id(self) {
    }

    fn id(&self) -> i64 {
        self.shelf_id
    }

    fn name(&self) -> &str {
        self.name.as_str()
    }

    fn mark_deleted(&mut self) {
        self.deleted = true;
    }
}

impl IndexRow for IndexedBook {
    open spec fn row_id(&self) -> i64 {
        self.book_id
    }

    open spec fn row_name(&self) -> Seq<char> {
        self.name@
    }

    open spec fn as_deleted(self) -> Self {
        IndexedBook { deleted: true, ..self }
    }

    proof fn deleting_keeps_id(self) {
    }

    fn id(&self) -> i64 {
        self.book_id
    }

    fn name(&self) -> &str {
        self.name.as_str()
    }

    fn mark_deleted(&mut self) {
        self.deleted = true;
    }
}

impl IndexRow for IndexedChapter {
    open spec fn row_id(&self) -> i64 {
        self.chapter_id
    }

    open spec fn row_name(&self) -> Seq<char> {
        self.name@
    }

    open spec fn as_deleted(self) -> Self {
        IndexedChapter { deleted: true, ..self }
    }

    proof fn deleting_keeps_id(self) {
    }

    fn id(&self) -> i64 {
        self.chapter_id
    }

    fn name(&self) -> &str {
        self.name.as_str()
    }

    fn mark_deleted(&mut self) {
        self.deleted = true;
    }
}

impl IndexRow for IndexedPage {
    open spec fn row_id(&self) -> i64 {
        self.page_id
    }

    open spec fn row_name(&self) -> Seq<char> {
        self.name@
    }

    open spec fn as_deleted(self) -> Self {
        IndexedPage { deleted: true, ..self }
    }

    proof fn deleting_keeps_id(self) {
    }

    fn id(&self) -> i64 {
        self.page_id
    }

    fn name(&self) -> &str {
        self.name.as_str()
    }

    fn mark_deleted(&mut self) {
        self.deleted = true;
    }
}

/// The position of the row with the id, from the `i`th on.
pub open spec fn row_at<T: IndexRow>(table: Seq<T>, id: i64, i: int) -> Option<int>
    decreases table.len() - i,
{
    if i < 0 || i >= table.len() {
        None
    } else if table[i].row_id() == id {
        Some(i)
    } else {
        row_at(table, id, i + 1)
    }
}

/// The row with the id.
pub open spec fn row_with<T: IndexRow>(table: Seq<T>, id: i64) -> Option<T> {
    match row_at(table, id, 0) {
        Some(i) => Some(table[i]),
        None => None,
    }
}

/// The table after a row was written: in place of the one with its id, or else
/// at the end.
pub open spec fn written<T: IndexRow>(table: Seq<T>, row: T) -> Seq<T> {
    match row_at(table, row.row_id(), 0) {
        Some(i) => table.update(i, row),
        None => table.push(row),
    }
}

/// The table after the row with the id was marked as deleted.
pub open spec fn soft_deleted<T: IndexRow>(table: Seq<T>, id: i64) -> Seq<T> {
    match row_at(table, id, 0) {
        Some(i) => table.update(i, table[i].as_deleted()),
        None => table,
    }
}

/// Finds the row with the id.
fn find_row<T: IndexRow>(table: &Vec<T>, id: i64) -> (r: Option<usize>)
    ensures
        match r {
            Some(i) => i < table@.len() && row_at(table@, id, 0) == Some(i as int),
            None => row_at(table@, id, 0) is None,
        },
{
    let mut i: usize = 0;
    while i < table.len()
        invariant
            i <= table@.len(),
            row_at(table@, id, 0) == row_at(table@, id, i as int),
        decreases table@.len() - i,
    {
        if table[i].id() == id {
            return Some(i);
        }
        i += 1;
    }
    None
}

/// Writes a row.
pub fn upsert_row<T: IndexRow>(table: &mut Vec<T>, row: T)
    ensures
        final(table)@ == written(old(table)@, row),
{
    match find_row(table, row.id()) {
        Some(i) => {
            table.set(i, row);
        },
        None => {
            table.push(row);
        },
    }
}

/// Looks a row up.
pub fn get_row<'a, T: IndexRow>(table: &'a Vec<T>, id: i64) -> (r: Option<&'a T>)
    ensures
        match r {
            Some(row) => row_with(table@, id) == Some(*row),
            None => row_with(table@, id) is None,
        },
{
    match find_row(table, id) {
        Some(i) => Some(&table[i]),
        None => None,
    }
}

/// Marks a row as deleted.
pub fn soft_delete_row<T: IndexRow>(table: &mut Vec<T>, id: i64)
    ensures
        final(table)@ == soft_deleted(old(table)@, id),
{
    if let Some(i) = find_row(table, id) {
        let mut row = table.remove(i);
        row.mark_deleted();
        let ghost marked = row;
        table.insert(i, row);
        assert(table@ =~= old(table)@.update(i as int, marked));
    }
}

// --- Lists ---

/// One row's name comes before the other's.
pub open spec fn name_less<T: IndexRow>() -> spec_fn(T, T) -> bool {
    |a: T, b: T| text::precedes(a.row_name(), b.row_name())
}

/// Sorts references to rows by the rows' names.
fn sort_by_name<'a, T: IndexRow>(found: &Vec<&'a T>) -> (r: Vec<&'a T>)
    ensures
        rows::values(r@) == rows::sorted(rows::values(found@), name_less()),
{
    let is_less = |a: &T, b: &T| -> (c: bool)
        ensures
            c == text::precedes(a.row_name(), b.row_name()),
    {
        text_before(a.name(), b.name())
    };
    sort_refs(found, is_less, Ghost(name_less()))
}

/// Puts rows in the order of their names.
pub fn order_by_name<T: IndexRow>(table: &mut Vec<T>)
    ensures
        final(table)@ == rows::sorted(old(table)@, name_less()),
{
    let is_less = |a: &T, b: &T| -> (c: bool)
        ensures
            c == text::precedes(a.row_name(), b.row_name()),
    {
        text_before(a.name(), b.name())
    };
    sort_rows(table, is_less, Ghost(name_less()));
}

/// Puts every table in the order of the names, in which children are shown.
pub fn order_tables(tables: &mut IndexTables)
    ensures
        final(tables).shelves@ == rows::sorted(old(tables).shelves@, name_less()),
        final(tables).books@ == rows::sorted(old(tables).books@, name_less()),
        final(tables).chapters@ == rows::sorted(old(tables).chapters@, name_less()),
        final(tables).pages@ == rows::sorted(old(tables).pages@, name_less()),
{
    order_by_name(&mut tables.shelves);
    order_by_name(&mut tables.books);
    order_by_name(&mut tables.chapters);
    order_by_name(&mut tables.pages);
}

/// Reads the directory tree below a root, down to the given depth, with the
/// children of each node by name.
pub fn read_tree_by_name(
    tables: &mut IndexTables,
    scope: DirectoryScope,
    depth: Option<u32>,
) -> (r: Result<Vec<DirectoryNode>, String>)
    ensures
        final(tables).shelves@ == rows::sorted(old(tables).shelves@, name_less()),
        final(tables).books@ == rows::sorted(old(tables).books@, name_less()),
        final(tables).chapters@ == rows::sorted(old(tables).chapters@, name_less()),
        final(tables).pages@ == rows::sorted(old(tables).pages@, name_less()),
        match r {
            Ok(nodes) => directory::tree_error(scope, *final(tables)) is None
                && directory::shows_tree(nodes@, scope, depth, *final(tables)),
            Err(e) => directory::tree_error(scope, *final(tables)) == Some(e@),
        },
{
    order_tables(tables);
    read_directory_tree(tables, scope, depth)
}

/// The shelves that are not deleted, by name.
pub fn list_indexed_shelves<'a>(tables: &'a IndexTables) -> (r: Vec<&'a IndexedShelf>)
    ensures
        rows::values(r@) == rows::sorted(
            directory::live_shelves(tables.shelves@),
            name_less(),
        ),
{
    let ghost fits = |s: IndexedShelf| !s.deleted;
    let choose_row = |s: &IndexedShelf| -> (b: bool)
        ensures
            b == !s.deleted,
    {
        !s.deleted
    };
    let found = select_rows(&tables.shelves, choose_row, Ghost(fits));
    sort_by_name(&found)
}

/// The books on a shelf that are not deleted, by name.
pub fn list_indexed_books_by_shelf<'a>(tables: &'a IndexTables, shelf_id: i64) -> (r: Vec<
    &'a IndexedBook,
>)
    ensures
        rows::values(r@) == rows::sorted(
            directory::books_of_shelf(tables.books@, Some(shelf_id)),
            name_less(),
        ),
{
    let ghost fits = |b: IndexedBook| !b.deleted && b.shelf_id == Some(shelf_id);
    let choose_row = |b: &IndexedBook| -> (c: bool)
        ensures
            c == (!b.deleted && b.shelf_id == Some(shelf_id)),
    {
        !b.deleted && match b.shelf_id {
            Some(s) => s == shelf_id,
            None => false,
        }
    };
    let found = select_rows(&tables.books, choose_row, Ghost(fits));
    sort_by_name(&found)
}

/// The books on no shelf that are not deleted, by name.
pub fn list_indexed_books_unshelved<'a>(tables: &'a IndexTables) -> (r: Vec<&'a IndexedBook>)
    ensures
        rows::values(r@) == rows::sorted(
            directory::books_of_shelf(tables.books@, None),
            name_less(),
        ),
{
    let ghost fits = |b: IndexedBook| !b.deleted && b.shelf_id == None::<i64>;
    let choose_row = |b: &IndexedBook| -> (c: bool)
        ensures
            c == (!b.deleted && b.shelf_id == None::<i64>),
    {
        !b.deleted && b.shelf_id.is_none()
    };
    let found = select_rows(&tables.books, choose_row, Ghost(fits));
    sort_by_name(&found)
}

/// The books of an identity that are not deleted.
pub open spec fn books_of_identity(books: Seq<IndexedBook>, ouid: Seq<char>) -> Seq<IndexedBook> {
    books.filter(
        |b: IndexedBook| !b.deleted && text::opt_text(b.identity_ouid) == Some(ouid),
    )
}

/// One book's kind comes before the other's, by their stored names.
pub open spec fn kind_less() -> spec_fn(IndexedBook, IndexedBook) -> bool {
    |a: IndexedBook, b: IndexedBook|
        text::precedes(a.book_kind.stored_name(), b.book_kind.stored_name())
}

/// Whether an optional text is the given one.
fn is_text(s: &Option<String>, other: &str) -> (r: bool)
    ensures
        r == (text::opt_text(*s) == Some(other@)),
{
    match s {
        Some(v) => same_text(v.as_str(), other),
        None => false,
    }
}

/// The books of an identity that are not deleted, by kind and within a kind by
/// name.
pub fn list_indexed_books_by_identity<'a>(tables: &'a IndexTables, identity_ouid: &str) -> (r: Vec<
    &'a IndexedBook,
>)
    ensures
        rows::values(r@) == rows::sorted(
            rows::sorted(books_of_identity(tables.books@, identity_ouid@), name_less()),
            kind_less(),
        ),
{
    let ghost fits = |b: IndexedBook|
        !b.deleted && text::opt_text(b.identity_ouid) == Some(identity_ouid@);
    let choose_row = |b: &IndexedBook| -> (c: bool)
        ensures
            c == (!b.deleted && text::opt_text(b.identity_ouid) == Some(identity_ouid@)),
    {
        !b.deleted && is_text(&b.identity_ouid, identity_ouid)
    };
    let found = select_rows(&tables.books, choose_row, Ghost(fits));
    let by_name = sort_by_name(&found);
    let is_less = |a: &IndexedBook, b: &IndexedBook| -> (c: bool)
        ensures
            c == text::precedes(a.book_kind.stored_name(), b.book_kind.stored_name()),
    {
        text_before(a.book_kind.as_str(), b.book_kind.as_str())
    };
    sort_refs(&by_name, is_less, Ghost(kind_less()))
}

/// The chapters of a book that are not deleted, by name.
pub fn list_indexed_chapters_by_book<'a>(tables: &'a IndexTables, book_id: i64) -> (r: Vec<
    &'a IndexedChapter,
>)
    ensures
        rows::values(r@) == rows::sorted(
            directory::chapters_of_book(tables.chapters@, book_id),
            name_less(),
        ),
{
    let ghost fits = |c: IndexedChapter| !c.deleted && c.book_id == book_id;
    let choose_row = |c: &IndexedChapter| -> (b: bool)
        ensures
            b == (!c.deleted && c.book_id == book_id),
    {
        !c.deleted && c.book_id == book_id
    };
    let found = select_rows(&tables.chapters, choose_row, Ghost(fits));
    sort_by_name(&found)
}

/// The pages of a chapter that are not deleted, by name.
pub fn list_indexed_pages_by_chapter<'a>(tables: &'a IndexTables, chapter_id: i64) -> (r: Vec<
    &'a IndexedPage,
>)
    ensures
        rows::values(r@) == rows::sorted(
            directory::pages_of_chapter(tables.pages@, chapter_id),
            name_less(),
        ),
{
    let ghost fits = |p: IndexedPage| !p.deleted && p.chapter_id == Some(chapter_id);
    let choose_row = |p: &IndexedPage| -> (b: bool)
        ensures
            b == (!p.deleted && p.chapter_id == Some(chapter_id)),
    {
        !p.deleted && match p.chapter_id {
            Some(c) => c == chapter_id,
            None => false,
        }
    };
    let found = select_rows(&tables.pages, choose_row, Ghost(fits));
    sort_by_name(&found)
}

/// The pages of a book outside its chapters that are not deleted, by name.
pub fn list_indexed_pages_by_book_root<'a>(tables: &'a IndexTables, book_id: i64) -> (r: Vec<
    &'a IndexedPage,
>)
    ensures
        rows::values(r@) == rows::sorted(
            directory::root_pages_of_book(tables.pages@, book_id),
            name_less(),
        ),
{
    let ghost fits = |p: IndexedPage| !p.deleted && p.chapter_id is None && p.book_id == book_id;
    let choose_row = |p: &IndexedPage| -> (b: bool)
        ensures
            b == (!p.deleted && p.book_id == book_id && p.chapter_id is None),
    {
        !p.deleted && p.book_id == book_id && p.chapter_id.is_none()
    };
    let found = select_rows(&tables.pages, choose_row, Ghost(fits));
    sort_by_name(&found)
}

/// The pages of a book that are not deleted.
pub open spec fn pages_of_book(pages: Seq<IndexedPage>, book_id: i64) -> Seq<IndexedPage> {
    pages.filter(|p: IndexedPage| !p.deleted && p.book_id == book_id)
}

/// When a page was updated; empty where that is not known.
pub open spec fn update_time(page: IndexedPage) -> Seq<char> {
    match page.page_updated_at {
        Some(t) => t@,
        None => Seq::empty(),
    }
}

/// One page was updated after the other. A page without a time comes last.
pub open spec fn updated_later() -> spec_fn(IndexedPage, IndexedPage) -> bool {
    |a: IndexedPage, b: IndexedPage| text::precedes(update_time(b), update_time(a))
}

/// When a page was updated.
fn read_update_time<'a>(page: &'a IndexedPage) -> (r: &'a str)
    ensures
        r@ == update_time(*page),
{
    match &page.page_updated_at {
        Some(t) => t.as_str(),
        None => {
            proof {
                reveal_strlit("");
                assert(""@ =~= Seq::<char>::empty());
            }
            ""
        },
    }
}

/// The pages of a book that are not deleted, the latest first; at most `limit`
/// of them, and all with a negative limit.
pub fn list_indexed_pages_recent<'a>(tables: &'a IndexTables, book_id: i64, limit: i64) -> (r: Vec<
    &'a IndexedPage,
>)
    ensures
        rows::values(r@) == queue::at_most(
            rows::sorted(pages_of_book(tables.pages@, book_id), updated_later()),
            limit as int,
        ),
{
    let ghost fits = |p: IndexedPage| !p.deleted && p.book_id == book_id;
    let choose_row = |p: &IndexedPage| -> (b: bool)
        ensures
            b == (!p.deleted && p.book_id == book_id),
    {
        !p.deleted && p.book_id == book_id
    };
    let found = select_rows(&tables.pages, choose_row, Ghost(fits));
    let is_less = |a: &IndexedPage, b: &IndexedPage| -> (c: bool)
        ensures
            c == text::precedes(update_time(*b), update_time(*a)),
    {
        text_before(read_update_time(b), read_update_time(a))
    };
    let mut latest = sort_refs(&found, is_less, Ghost(updated_later()));
    let ghost all = latest@;
    if limit >= 0 && latest.len() as u64 > limit as u64 {
        latest.truncate(limit as usize);
    }
    assert(rows::values(latest@) =~= queue::at_most(rows::values(all), limit as int));
    latest
}

/// The page is not deleted and stands for the key of the identity.
pub open spec fn has_key(
    page: IndexedPage,
    ouid: Seq<char>,
    kind: PageKind,
    key: Seq<char>,
) -> bool {
    &&& !page.deleted
    &&& text::opt_text(page.identity_ouid) == Some(ouid)
    &&& page.page_kind == kind
    &&& text::opt_text(page.page_key) == Some(key)
}

/// The first page from the `i`th on that stands for the key.
pub open spec fn page_with_key(
    pages: Seq<IndexedPage>,
    ouid: Seq<char>,
    kind: PageKind,
    key: Seq<char>,
    i: int,
) -> Option<IndexedPage>
    decreases pages.len() - i,
{
    if i < 0 || i >= pages.len() {
        None
    } else if has_key(pages[i], ouid, kind, key) {
        Some(pages[i])
    } else {
        page_with_key(pages, ouid, kind, key, i + 1)
    }
}

/// Finds the page that stands for a key of an identity.
pub fn find_indexed_page_by_key<'a>(
    tables: &'a IndexTables,
    identity_ouid: &str,
    page_kind: PageKind,
    page_key: &str,
) -> (r: Option<&'a IndexedPage>)
    ensures
        match r {
            Some(p) => page_with_key(
                tables.pages@,
                identity_ouid@,
                page_kind,
                page_key@,
                0,
            ) == Some(*p),
            None => page_with_key(tables.pages@, identity_ouid@, page_kind, page_key@, 0) is None,
        },
{
    let mut i: usize = 0;
    while i < tables.pages.len()
        invariant
            i <= tables.pages@.len(),
            page_with_key(tables.pages@, identity_ouid@, page_kind, page_key@, 0)
                == page_with_key(tables.pages@, identity_ouid@, page_kind, page_key@, i as int),
        decreases tables.pages@.len() - i,
    {
        let p = &tables.pages[i];
        if !p.deleted && p.page_kind == page_kind && is_text(&p.identity_ouid, identity_ouid)
            && is_text(&p.page_key, page_key) {
            return Some(p);
        }
        i += 1;
    }
    None
}

/// The page is not deleted and stands for a key of an identity.
pub open spec fn is_keyed(page: IndexedPage) -> bool {
    !page.deleted && page.identity_ouid is Some && page.page_key is Some
}

/// Two pages stand for the same key.
pub open spec fn same_key(a: IndexedPage, b: IndexedPage) -> bool {
    &&& is_keyed(a)
    &&& is_keyed(b)
    &&& text::opt_text(a.identity_ouid) == text::opt_text(b.identity_ouid)
    &&& a.page_kind == b.page_kind
    &&& text::opt_text(a.page_key) == text::opt_text(b.page_key)
}

/// The first other page from the `i`th on that stands for the page's key.
pub open spec fn key_holder(pages: Seq<IndexedPage>, page: IndexedPage, i: int) -> Option<i64>
    decreases pages.len() - i,
{
    if i < 0 || i >= pages.len() {
        None
    } else if pages[i].page_id != page.page_id && same_key(pages[i], page) {
        Some(pages[i].page_id)
    } else {
        key_holder(pages, page, i + 1)
    }
}

/// Finds another page that stands for the page's key.
fn find_key_holder(pages: &Vec<IndexedPage>, page: &IndexedPage) -> (r: Option<i64>)
    ensures
        r == key_holder(pages@, *page, 0),
{
    let mut i: usize = 0;
    while i < pages.len()
        invariant
            i <= pages@.len(),
            key_holder(pages@, *page, 0) == key_holder(pages@, *page, i as int),
        decreases pages@.len() - i,
    {
        let other = &pages[i];
        if let (Some(ouid), Some(key)) = (&page.identity_ouid, &page.page_key) {
            if other.page_id != page.page_id && !page.deleted && !other.deleted && other.page_kind
                == page.page_kind && is_text(&other.identity_ouid, ouid.as_str()) && is_text(
                &other.page_key,
                key.as_str(),
            ) {
                return Some(other.page_id);
            }
        }
        i += 1;
    }
    None
}

// --- Page bodies ---

/// The position of the cached body of the page, from the `i`th on.
pub open spec fn cache_at(caches: Seq<PageCache>, page_id: i64, i: int) -> Option<int>
    decreases caches.len() - i,
{
    if i < 0 || i >= caches.len() {
        None
    } else if caches[i].page_id == page_id {
        Some(i)
    } else {
        cache_at(caches, page_id, i + 1)
    }
}

/// The cached bodies after one was written.
pub open spec fn cache_written(caches: Seq<PageCache>, cache: PageCache) -> Seq<PageCache> {
    match cache_at(caches, cache.page_id, 0) {
        Some(i) => caches.update(i, cache),
        None => caches.push(cache),
    }
}

/// The cached body of the page.
pub open spec fn cache_of(caches: Seq<PageCache>, page_id: i64) -> Option<PageCache> {
    match cache_at(caches, page_id, 0) {
        Some(i) => Some(caches[i]),
        None => None,
    }
}

/// The body is that of the page as it is indexed.
pub open spec fn is_fresh(page: IndexedPage, cache: PageCache) -> bool {
    page.page_id == cache.page_id && text::opt_text(page.page_updated_at) == text::opt_text(
        cache.page_updated_at,
    )
}

/// Finds the cached body of a page.
fn find_cache(caches: &Vec<PageCache>, page_id: i64) -> (r: Option<usize>)
    ensures
        match r {
            Some(i) => i < caches@.len() && cache_at(caches@, page_id, 0) == Some(i as int),
            None => cache_at(caches@, page_id, 0) is None,
        },
{
    let mut i: usize = 0;
    while i < caches.len()
        invariant
            i <= caches@.len(),
            cache_at(caches@, page_id, 0) == cache_at(caches@, page_id, i as int),
        decreases caches@.len() - i,
    {
        if caches[i].page_id == page_id {
            return Some(i);
        }
        i += 1;
    }
    None
}

/// Writes a page's row, and with it its body where there is one, in one step. A
/// page whose key another page stands for is refused, with the id of that page,
/// and nothing is written.
pub fn upsert_indexed_page(
    tables: &mut IndexTables,
    caches: &mut Vec<PageCache>,
    page: IndexedPage,
    cache: Option<PageCache>,
) -> (r: Result<(), i64>)
    ensures
        match r {
            Ok(_) => {
                &&& key_holder(old(tables).pages@, page, 0) is None
                &&& final(tables).pages@ == written(old(tables).pages@, page)
                &&& final(caches)@ == match cache {
                    Some(c) => cache_written(old(caches)@, c),
                    None => old(caches)@,
                }
            },
            Err(holder) => {
                &&& key_holder(old(tables).pages@, page, 0) == Some(holder)
                &&& final(tables).pages == old(tables).pages
                &&& *final(caches) == *old(caches)
            },
        },
        final(tables).shelves == old(tables).shelves,
        final(tables).books == old(tables).books,
        final(tables).chapters == old(tables).chapters,
{
    if let Some(holder) = find_key_holder(&tables.pages, &page) {
        return Err(holder);
    }
    upsert_row(&mut tables.pages, page);
    if let Some(c) = cache {
        match find_cache(caches, c.page_id) {
            Some(i) => {
                caches.set(i, c);
            },
            None => {
                caches.push(c);
            },
        }
    }
    Ok(())
}

/// Looks the cached body of a page up.
pub fn get_page_cache<'a>(caches: &'a Vec<PageCache>, page_id: i64) -> (r: Option<&'a PageCache>)
    ensures
        match r {
            Some(c) => cache_of(caches@, page_id) == Some(*c),
            None => cache_of(caches@, page_id) is None,
        },
{
    match find_cache(caches, page_id) {
        Some(i) => Some(&caches[i]),
        None => None,
    }
}

// --- Values by key ---

/// The position of the value for the key, from the `i`th on.
pub open spec fn key_at(entries: Seq<(String, String)>, key: Seq<char>, i: int) -> Option<int>
    decreases entries.len() - i,
{
    if i < 0 || i >= entries.len() {
        None
    } else if entries[i].0@ == key {
        Some(i)
    } else {
        key_at(entries, key, i + 1)
    }
}

/// The value for the key.
pub open spec fn value_for(entries: Seq<(String, String)>, key: Seq<char>) -> Option<Seq<char>> {
    match key_at(entries, key, 0) {
        Some(i) => Some(entries[i].1@),
        None => None,
    }
}

/// Named values, such as when the last walk was.
pub struct MetaTable {
    pub entries: Vec<(String, String)>,
}

impl MetaTable {
    /// No value.
    pub fn new() -> (r: Self)
        ensures
            r.entries@ == Seq::<(String, String)>::empty(),
    {
        MetaTable { entries: Vec::new() }
    }

    /// Finds the value for a key.
    fn find(&self, key: &str) -> (r: Option<usize>)
        ensures
            match r {
                Some(i) => i < self.entries@.len() && key_at(self.entries@, key@, 0) == Some(
                    i as int,
                ),
                None => key_at(self.entries@, key@, 0) is None,
            },
    {
        let mut i: usize = 0;
        while i < self.entries.len()
            invariant
                i <= self.entries@.len(),
                key_at(self.entries@, key@, 0) == key_at(self.entries@, key@, i as int),
            decreases self.entries@.len() - i,
        {
            if same_text(self.entries[i].0.as_str(), key) {
                return Some(i);
            }
            i += 1;
        }
        None
    }

    /// The value for a key.
    pub fn get(&self, key: &str) -> (r: Option<&str>)
        ensures
            text::opt_str(r) == value_for(self.entries@, key@),
    {
        match self.find(key) {
            Some(i) => Some(self.entries[i].1.as_str()),
            None => None,
        }
    }

    /// Stores the value for a key. The values for other keys stay.
    pub fn set(&mut self, key: &str, value: &str)
        ensures
            value_for(final(self).entries@, key@) == Some(value@),
            forall|other: Seq<char>|
                other != key@ ==> #[trigger] value_for(final(self).entries@, other) == value_for(
                    old(self).entries@,
                    other,
                ),
    {
        let ghost start = self.entries@;
        match self.find(key) {
            Some(i) => {
                self.entries.set(i, (key.to_owned(), value.to_owned()));
                proof {
                    lemma_key_at(start, key@, 0);
                    let after = self.entries@;
                    lemma_same_keys(start, after, key@, 0);
                    assert forall|other: Seq<char>| other != key@ implies #[trigger] value_for(
                        after,
                        other,
                    ) == value_for(start, other) by {
                        lemma_same_keys(start, after, other, 0);
                        lemma_key_at(start, other, 0);
                    }
                }
            },
            None => {
                let entry = (key.to_owned(), value.to_owned());
                self.entries.push(entry);
                proof {
                    let after = self.entries@;
                    lemma_pushed_key(start, entry, key@, 0);
                    assert forall|other: Seq<char>| other != key@ implies #[trigger] value_for(
                        after,
                        other,
                    ) == value_for(start, other) by {
                        lemma_pushed_key(start, entry, other, 0);
                        lemma_key_at(start, other, 0);
                    }
                }
            },
        }
    }
}

proof fn lemma_key_at(entries: Seq<(String, String)>, key: Seq<char>, i: int)
    requires
        0 <= i,
    ensures
        key_at(entries, key, i) matches Some(k) ==> i <= k < entries.len() && entries[k].0@ == key,
    decreases entries.len() - i,
{
    if i < entries.len() && entries[i].0@ != key {
        lemma_key_at(entries, key, i + 1);
    }
}

proof fn lemma_same_keys(
    before: Seq<(String, String)>,
    after: Seq<(String, String)>,
    key: Seq<char>,
    i: int,
)
    requires
        0 <= i,
        before.len() == after.len(),
        forall|k: int| 0 <= k < before.len() ==> (#[trigger] after[k]).0@ == before[k].0@,
    ensures
        key_at(after, key, i) == key_at(before, key, i),
    decreases before.len() - i,
{
    if i < before.len() {
        assert(after[i].0@ == before[i].0@);
        lemma_same_keys(before, after, key, i + 1);
    }
}

proof fn lemma_pushed_key(
    entries: Seq<(String, String)>,
    entry: (String, String),
    key: Seq<char>,
    i: int,
)
    requires
        0 <= i <= entries.len(),
    ensures
        key_at(entries.push(entry), key, i) == match key_at(entries, key, i) {
            Some(k) => Some(k),
            None => if entry.0@ == key {
                Some(entries.len() as int)
            } else {
                None
            },
        },
    decreases entries.len() - i,
{
    if i < entries.len() {
        assert(entries.push(entry)[i] == entries[i]);
        lemma_pushed_key(entries, entry, key, i + 1);
    } else {
        assert(entries.push(entry)[i] == entry);
        assert(key_at(entries.push(entry), key, i + 1) is None);
    }
}

// --- Laws ---

proof fn lemma_row_at<T: IndexRow>(table: Seq<T>, id: i64, i: int)
    requires
        0 <= i,
    ensures
        match row_at(table, id, i) {
            Some(k) => i <= k < table.len() && table[k].row_id() == id && forall|j: int|
                i <= j < k ==> (#[trigger] table[j]).row_id() != id,
            None => forall|j: int| i <= j < table.len() ==> (#[trigger] table[j]).row_id() != id,
        },
    decreases table.len() - i,
{
    if i < table.len() && table[i].row_id() != id {
        lemma_row_at(table, id, i + 1);
    }
}

/// What was written for an id is what is read for it, and other ids read as
/// before.
pub proof fn law_reads_what_was_written<T: IndexRow>(table: Seq<T>, row: T, other: i64)
    ensures
        row_with(written(table, row), row.row_id()) == Some(row),
        other != row.row_id() ==> row_with(written(table, row), other) == row_with(table, other),
{
    let id = row.row_id();
    lemma_row_at(table, id, 0);
    lemma_row_at(written(table, row), id, 0);
    lemma_row_at(table, other, 0);
    lemma_row_at(written(table, row), other, 0);
    let after = written(table, row);
    match row_at(table, id, 0) {
        Some(i) => {
            assert(after[i] == row);
            assert(row_at(after, id, 0) is Some);
            let k = row_at(after, id, 0)->0;
            if k != i {
                assert(after[k] == table[k]);
            }
            lemma_other_row(table, i, row, other, 0);
        },
        None => {
            assert(after[table.len() as int] == row);
            assert(row_at(after, id, 0) is Some);
            let k = row_at(after, id, 0)->0;
            if k < table.len() {
                assert(after[k] == table[k]);
            }
            lemma_row_with_last(table, row, other, 0);
        },
    }
}

proof fn lemma_other_row<T: IndexRow>(table: Seq<T>, k: int, row: T, other: i64, i: int)
    requires
        0 <= i,
        0 <= k < table.len(),
        table[k].row_id() == row.row_id(),
    ensures
        row_at(table.update(k, row), other, i) == row_at(table, other, i),
    decreases table.len() - i,
{
    if i < table.len() {
        lemma_other_row(table, k, row, other, i + 1);
    }
}

proof fn lemma_row_with_last<T: IndexRow>(table: Seq<T>, row: T, other: i64, i: int)
    requires
        0 <= i <= table.len(),
    ensures
        row_at(table.push(row), other, i) == match row_at(table, other, i) {
            Some(k) => Some(k),
            None => if row.row_id() == other {
                Some(table.len() as int)
            } else {
                None
            },
        },
    decreases table.len() - i,
{
    if i < table.len() {
        assert(table.push(row)[i] == table[i]);
        lemma_row_with_last(table, row, other, i + 1);
    } else {
        assert(table.push(row)[i] == row);
        assert(row_at(table.push(row), other, i + 1) is None);
    }
}

/// A row that is marked as deleted stays in the table: a page that was deleted
/// can be told from one that never was.
pub proof fn law_deleted_row_stays<T: IndexRow>(table: Seq<T>, id: i64)
    ensures
        row_with(soft_deleted(table, id), id) == match row_with(table, id) {
            Some(row) => Some(row.as_deleted()),
            None => None,
        },
        soft_deleted(table, id).len() == table.len(),
{
    lemma_row_at(table, id, 0);
    match row_at(table, id, 0) {
        Some(i) => {
            table[i].deleting_keeps_id();
            lemma_other_row(table, i, table[i].as_deleted(), id, 0);
        },
        None => {},
    }
}

/// No two rows of the table have the same id.
pub open spec fn one_row_per_id<T: IndexRow>(table: Seq<T>) -> bool {
    forall|i: int, j: int|
        0 <= i < j < table.len() ==> (#[trigger] table[i]).row_id() != (
        #[trigger] table[j]).row_id()
}

/// No two pages stand for the same key.
pub open spec fn one_page_per_key(pages: Seq<IndexedPage>) -> bool {
    forall|i: int, j: int|
        0 <= i < j < pages.len() ==> !same_key(#[trigger] pages[i], #[trigger] pages[j])
}

proof fn lemma_key_holder(pages: Seq<IndexedPage>, page: IndexedPage, i: int)
    requires
        0 <= i,
    ensures
        key_holder(pages, page, i) is None <==> forall|j: int|
            i <= j < pages.len() && (#[trigger] pages[j]).page_id != page.page_id ==> !same_key(
                pages[j],
                page,
            ),
    decreases pages.len() - i,
{
    if i < pages.len() {
        lemma_key_holder(pages, page, i + 1);
    }
}

proof fn lemma_page_with_key(
    pages: Seq<IndexedPage>,
    ouid: Seq<char>,
    kind: PageKind,
    key: Seq<char>,
    i: int,
)
    requires
        0 <= i,
    ensures
        match page_with_key(pages, ouid, kind, key, i) {
            Some(p) => exists|k: int|
                i <= k < pages.len() && #[trigger] pages[k] == p && has_key(p, ouid, kind, key),
            None => forall|k: int|
                i <= k < pages.len() ==> !has_key(#[trigger] pages[k], ouid, kind, key),
        },
    decreases pages.len() - i,
{
    if i < pages.len() && !has_key(pages[i], ouid, kind, key) {
        lemma_page_with_key(pages, ouid, kind, key, i + 1);
    }
}

/// A page that is accepted leaves one row for each id and one page for each key,
/// and it is the page that is found for its key.
pub proof fn law_key_finds_its_page(pages: Seq<IndexedPage>, page: IndexedPage)
    requires
        one_row_per_id(pages),
        one_page_per_key(pages),
        key_holder(pages, page, 0) is None,
    ensures
        one_row_per_id(written(pages, page)),
        one_page_per_key(written(pages, page)),
        is_keyed(page) ==> page_with_key(
            written(pages, page),
            page.identity_ouid->0@,
            page.page_kind,
            page.page_key->0@,
            0,
        ) == Some(page),
{
    let after = written(pages, page);
    lemma_row_at(pages, page.page_id, 0);
    lemma_key_holder(pages, page, 0);
    assert forall|i: int, j: int| 0 <= i < j < after.len() implies (
    #[trigger] after[i]).row_id() != (#[trigger] after[j]).row_id() by {
        if i < pages.len() && j < pages.len() {
            assert(pages[i].row_id() != pages[j].row_id());
        }
    }
    assert forall|i: int, j: int| 0 <= i < j < after.len() implies !same_key(
        #[trigger] after[i],
        #[trigger] after[j],
    ) by {
        assert(after[i].row_id() != after[j].row_id());
        if after[i] != page && after[j] != page {
            assert(after[i] == pages[i] && after[j] == pages[j]);
        } else if after[i] == page {
            assert(after[j] == pages[j]);
        } else {
            assert(after[i] == pages[i]);
        }
    }
    if is_keyed(page) {
        let ouid = page.identity_ouid->0@;
        let key = page.page_key->0@;
        lemma_page_with_key(after, ouid, page.page_kind, key, 0);
        let at = match row_at(pages, page.page_id, 0) {
            Some(k) => k,
            None => pages.len() as int,
        };
        assert(after[at] == page && has_key(after[at], ouid, page.page_kind, key));
        let found = page_with_key(after, ouid, page.page_kind, key, 0)->0;
        let k = choose|k: int| 0 <= k < after.len() && #[trigger] after[k] == found;
        assert(same_key(after[k], after[at]) && same_key(after[at], after[k]));
    }
}

/// A page that is marked as deleted gives its key up: one page for each key is
/// left, and a page with the key of the deleted one is accepted.
pub proof fn law_deleting_frees_the_key(pages: Seq<IndexedPage>, id: i64, page: IndexedPage)
    requires
        one_row_per_id(pages),
        one_page_per_key(pages),
    ensures
        one_row_per_id(soft_deleted(pages, id)),
        one_page_per_key(soft_deleted(pages, id)),
        row_with(pages, id) matches Some(p) && same_key(p, page) ==> key_holder(
            soft_deleted(pages, id),
            page,
            0,
        ) is None,
{
    let after = soft_deleted(pages, id);
    lemma_row_at(pages, id, 0);
    lemma_key_holder(after, page, 0);
    assert forall|i: int, j: int| 0 <= i < j < after.len() implies (
    #[trigger] after[i]).row_id() != (#[trigger] after[j]).row_id() by {
        assert(pages[i].row_id() != pages[j].row_id());
    }
    assert forall|i: int, j: int| 0 <= i < j < after.len() implies !same_key(
        #[trigger] after[i],
        #[trigger] after[j],
    ) by {
        assert(!same_key(pages[i], pages[j]));
    }
    if let Some(p) = row_with(pages, id) {
        if same_key(p, page) {
            let at = row_at(pages, id, 0)->0;
            assert forall|j: int|
                0 <= j < after.len() && (#[trigger] after[j]).page_id
                    != page.page_id implies !same_key(after[j], page) by {
                if j != at {
                    assert(after[j] == pages[j]);
                    assert(!same_key(pages[j], pages[at]) && !same_key(pages[at], pages[j]));
                }
            }
        }
    }
}

/// A page that is written together with a body of the same update is fresh: its
/// body is found and is that of the page.
pub proof fn law_written_page_is_fresh(caches: Seq<PageCache>, page: IndexedPage, cache: PageCache)
    requires
        is_fresh(page, cache),
    ensures
        cache_of(cache_written(caches, cache), page.page_id) == Some(cache),
        is_fresh(page, cache_of(cache_written(caches, cache), page.page_id)->0),
{
    let after = cache_written(caches, cache);
    lemma_cache_at(caches, cache.page_id, 0);
    lemma_cache_at(after, cache.page_id, 0);
    match cache_at(caches, cache.page_id, 0) {
        Some(i) => {
            assert(after[i] == cache);
            let k = cache_at(after, cache.page_id, 0)->0;
            if k != i {
                assert(after[k] == caches[k]);
            }
        },
        None => {
            assert(after[caches.len() as int] == cache);
            let k = cache_at(after, cache.page_id, 0)->0;
            if k < caches.len() {
                assert(after[k] == caches[k]);
            }
        },
    }
}

proof fn lemma_cache_at(caches: Seq<PageCache>, id: i64, i: int)
    requires
        0 <= i,
    ensures
        match cache_at(caches, id, i) {
            Some(k) => i <= k < caches.len() && caches[k].page_id == id && forall|j: int|
                i <= j < k ==> (#[trigger] caches[j]).page_id != id,
            None => forall|j: int| i <= j < caches.len() ==> (#[trigger] caches[j]).page_id != id,
        },
    decreases caches.len() - i,
{
    if i < caches.len() && caches[i].page_id != id {
        lemma_cache_at(caches, id, i + 1);
    }
}

/// Lists by name are in the order of the names and keep every row.
pub proof fn law_listed_by_name<T: IndexRow>(table: Seq<T>)
    ensures
        rows::is_sorted(rows::sorted(table, name_less()), name_less()),
        rows::sorted(table, name_less()).to_multiset() =~= table.to_multiset(),
{
    rows::law_sorted_by_text(table, name_less(), |row: T| row.row_name());
}

/// In tables ordered by name, the shelves, the books of a shelf or of none, the
/// chapters and root pages of a book and the pages of a chapter are shown by name.
pub proof fn law_children_are_shown_by_name(
    shelves: Seq<IndexedShelf>,
    books: Seq<IndexedBook>,
    chapters: Seq<IndexedChapter>,
    pages: Seq<IndexedPage>,
    shelf_id: Option<i64>,
    book_id: i64,
    chapter_id: i64,
)
    ensures
        rows::is_sorted(
            directory::live_shelves(rows::sorted(shelves, name_less())),
            name_less(),
        ),
        rows::is_sorted(
            directory::books_of_shelf(rows::sorted(books, name_less()), shelf_id),
            name_less(),
        ),
        rows::is_sorted(
            directory::chapters_of_book(rows::sorted(chapters, name_less()), book_id),
            name_less(),
        ),
        rows::is_sorted(
            directory::root_pages_of_book(rows::sorted(pages, name_less()), book_id),
            name_less(),
        ),
        rows::is_sorted(
            directory::pages_of_chapter(rows::sorted(pages, name_less()), chapter_id),
            name_less(),
        ),
{
    law_listed_by_name(shelves);
    law_listed_by_name(books);
    law_listed_by_name(chapters);
    law_listed_by_name(pages);
    rows::law_selection_stays_in_order(
        rows::sorted(shelves, name_less()),
        name_less(),
        |s: IndexedShelf| !s.deleted,
    );
    rows::law_selection_stays_in_order(
        rows::sorted(books, name_less()),
        name_less(),
        |b: IndexedBook| !b.deleted && b.shelf_id == shelf_id,
    );
    rows::law_selection_stays_in_order(
        rows::sorted(chapters, name_less()),
        name_less(),
        |c: IndexedChapter| !c.deleted && c.book_id == book_id,
    );
    rows::law_selection_stays_in_order(
        rows::sorted(pages, name_less()),
        name_less(),
        |p: IndexedPage| !p.deleted && p.chapter_id is None && p.book_id == book_id,
    );
    rows::law_selection_stays_in_order(
        rows::sorted(pages, name_less()),
        name_less(),
        |p: IndexedPage| !p.deleted && p.chapter_id == Some(chapter_id),
    );
}

} // verus!
