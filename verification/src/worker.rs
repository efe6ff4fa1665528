//! The indexing worker's decisions: what a job does, which rows it writes, and
//! how it goes on when a parent is missing.

use crate::calendar;
use crate::config;
use crate::config::{read_int, read_size, read_uint};
use crate::content;
use crate::content::read_member_ids;
use crate::frontmatter;
use crate::frontmatter::{extract_ouid_from_frontmatter, strip_frontmatter};
use crate::index;
use crate::index::{
    classify_book, classify_chapter, classify_page, classify_shelf, BookKind, ChapterKind,
    IndexedBook, IndexedChapter, IndexedPage, IndexedShelf, PageCache, ShelfKind,
};
use crate::jobs;
use crate::jobs::{IndexJob, JobModel, JobRow};
use crate::json;
use crate::json::Json;
use crate::queue;
use crate::queue::{JobFilter, JobQueue};
use crate::rows::holds_id;
use crate::text;
use crate::text::{
    chars_of, decimal_int_string, same_chars, same_text, starts_with_chars, string_of, text_before,
    trim_chars,
};
use vstd::prelude::*;
use vstd::slice::slice_subrange;
use vstd::string::StringExecFns;

verus! {

// --- Scopes ---

/// Why a text is no number of 64 bits.
pub uninterp spec fn number_error(s: Seq<char>) -> Seq<char>;

/// The standard library's `str::parse` for `i64`, on a text that is no number of
/// 64 bits: its error, whose text depends on the text alone.
#[verifier::external_body]
fn why_no_number(s: &str) -> (r: String)
    requires
        text::parsed_i64(s@) is None,
    ensures
        r@ == number_error(s@),
{
    match s.parse::<i64>() {
        Ok(_) => String::new(),
        Err(e) => e.to_string(),
    }
}

/// The id in a scope such as `page:42`, or why there is none.
pub open spec fn scope_id(scope: Seq<char>, prefix: Seq<char>) -> Result<i64, Seq<char>> {
    if !text::starts_with(scope, prefix) {
        Err("invalid scope: "@ + scope)
    } else {
        match text::parsed_i64(scope.skip(prefix.len() as int)) {
            Some(n) => Ok(n as i64),
            None => Err(
                "invalid scope id in "@ + scope + ": "@ + number_error(
                    scope.skip(prefix.len() as int),
                ),
            ),
        }
    }
}

/// A result with its error as a text.
pub open spec fn with_text<T>(r: Result<T, String>) -> Result<T, Seq<char>> {
    match r {
        Ok(v) => Ok(v),
        Err(e) => Err(e@),
    }
}

/// Reads the id behind a prefix such as `page:`.
pub fn parse_scope_id(scope: &str, prefix: &str) -> (r: Result<i64, String>)
    ensures
        with_text(r) == scope_id(scope@, prefix@),
{
    let chars = chars_of(scope);
    let head = chars_of(prefix);
    if !starts_with_chars(chars.as_slice(), head.as_slice()) {
        let mut e = String::new();
        e.append("invalid scope: ");
        e.append(scope);
        assert(e@ =~= "invalid scope: "@ + scope@);
        return Err(e);
    }
    let tail = slice_subrange(chars.as_slice(), head.len(), chars.len());
    assert(tail@ =~= scope@.skip(prefix@.len() as int));
    match text::parse_i64(tail) {
        Some(n) => Ok(n),
        None => {
            let number = string_of(tail);
            let reason = why_no_number(number.as_str());
            let mut e = String::new();
            e.append("invalid scope id in ");
            e.append(scope);
            e.append(": ");
            e.append(reason.as_str());
            assert(e@ =~= "invalid scope id in "@ + scope@ + ": "@ + reason@);
            Err(e)
        },
    }
}

/// What an indexing job does.
#[derive(Clone, Copy, Debug, PartialEq, Eq, Structural)]
pub enum IndexTask {
    /// Walk everything.
    All,
    /// Walk what changed since the last walk.
    Delta,
    Page(i64),
    Chapter(i64),
    Book(i64),
    Shelf(i64),
}

/// A task with an id, from a scope with the given prefix.
pub open spec fn task_with_id(
    scope: Seq<char>,
    prefix: Seq<char>,
    task: spec_fn(i64) -> IndexTask,
) -> Result<IndexTask, Seq<char>> {
    match scope_id(scope, prefix) {
        Ok(id) => Ok(task(id)),
        Err(e) => Err(e),
    }
}

/// What a job with the given scope does, or why it does nothing.
pub open spec fn task_of(scope: Seq<char>) -> Result<IndexTask, Seq<char>> {
    if scope == "all"@ {
        Ok(IndexTask::All)
    } else if scope == "delta"@ {
        Ok(IndexTask::Delta)
    } else if text::starts_with(scope, "page:"@) {
        task_with_id(scope, "page:"@, |id: i64| IndexTask::Page(id))
    } else if text::starts_with(scope, "chapter:"@) {
        task_with_id(scope, "chapter:"@, |id: i64| IndexTask::Chapter(id))
    } else if text::starts_with(scope, "book:"@) {
        task_with_id(scope, "book:"@, |id: i64| IndexTask::Book(id))
    } else if text::starts_with(scope, "shelf:"@) {
        task_with_id(scope, "shelf:"@, |id: i64| IndexTask::Shelf(id))
    } else {
        Err("unknown scope: "@ + scope)
    }
}

/// Tells whether a text begins with another.
fn has_prefix(s: &str, prefix: &str) -> (r: bool)
    ensures
        r == text::starts_with(s@, prefix@),
{
    let a = chars_of(s);
    let b = chars_of(prefix);
    starts_with_chars(a.as_slice(), b.as_slice())
}

/// Reads what a job does from its scope.
pub fn plan_job(scope: &str) -> (r: Result<IndexTask, String>)
    ensures
        with_text(r) == task_of(scope@),
{
    if same_text(scope, "all") {
        Ok(IndexTask::All)
    } else if same_text(scope, "delta") {
        Ok(IndexTask::Delta)
    } else if has_prefix(scope, "page:") {
        match parse_scope_id(scope, "page:") {
            Ok(id) => Ok(IndexTask::Page(id)),
            Err(e) => Err(e),
        }
    } else if has_prefix(scope, "chapter:") {
        match parse_scope_id(scope, "chapter:") {
            Ok(id) => Ok(IndexTask::Chapter(id)),
            Err(e) => Err(e),
        }
    } else if has_prefix(scope, "book:") {
        match parse_scope_id(scope, "book:") {
            Ok(id) => Ok(IndexTask::Book(id)),
            Err(e) => Err(e),
        }
    } else if has_prefix(scope, "shelf:") {
        match parse_scope_id(scope, "shelf:") {
            Ok(id) => Ok(IndexTask::Shelf(id)),
            Err(e) => Err(e),
        }
    } else {
        let mut e = String::new();
        e.append("unknown scope: ");
        e.append(scope);
        assert(e@ =~= "unknown scope: "@ + scope@);
        Err(e)
    }
}

/// How a job is ended once its work is over.
pub enum JobEnd {
    /// It was ended by someone else: leave it.
    Leave,
    Succeed,
    Fail(String),
}

/// Decides how a job is ended: one that no longer runs is left as it is.
pub fn end_of_job(stopped: bool, error: Option<&str>) -> (r: JobEnd)
    ensures
        match r {
            JobEnd::Leave => stopped,
            JobEnd::Succeed => !stopped && error is None,
            JobEnd::Fail(e) => !stopped && (error matches Some(x) && e@ == x@),
        },
{
    if stopped {
        JobEnd::Leave
    } else {
        match error {
            None => JobEnd::Succeed,
            Some(e) => JobEnd::Fail(e.to_owned()),
        }
    }
}

// --- Rows ---

/// A text member of a value; empty where there is none.
pub open spec fn field_text(j: Json, name: Seq<char>) -> Seq<char> {
    match json::text_of(json::member(j, name)) {
        Some(t) => t,
        None => Seq::empty(),
    }
}

/// Reads a text member; empty where there is none.
pub fn string_field(v: &Json, key: &str) -> (r: String)
    ensures
        r@ == field_text(*v, key@),
{
    match v.get_str(key) {
        Some(s) => s.to_owned(),
        None => String::new(),
    }
}

/// Reads an optional text member.
fn optional_field(v: &Json, key: &str) -> (r: Option<String>)
    ensures
        text::opt_text(r) == json::text_of(json::member(*v, key@)),
{
    match v.get_str(key) {
        Some(s) => Some(s.to_owned()),
        None => None,
    }
}

/// A copy of an optional text.
pub(crate) fn copy_text(s: Option<&str>) -> (r: Option<String>)
    ensures
        text::opt_text(r) == text::opt_str(s),
{
    match s {
        Some(v) => Some(v.to_owned()),
        None => None,
    }
}

/// The row shows the shelf.
pub open spec fn is_shelf_row(r: IndexedShelf, shelf_id: i64, shelf: Json, now: i64) -> bool {
    &&& r.shelf_id == shelf_id
    &&& r.name@ == field_text(shelf, "name"@)
    &&& r.slug@ == field_text(shelf, "slug"@)
    &&& r.shelf_kind == ShelfKind::Unclassified
    &&& r.indexed_at == now
    &&& !r.deleted
}

/// The row for a shelf.
pub fn shelf_row(shelf_id: i64, shelf: &Json, now: i64) -> (r: IndexedShelf)
    ensures
        is_shelf_row(r, shelf_id, *shelf, now),
{
    IndexedShelf {
        shelf_id,
        name: string_field(shelf, "name"),
        slug: string_field(shelf, "slug"),
        shelf_kind: classify_shelf(shelf_id),
        indexed_at: now,
        deleted: false,
    }
}

/// The books of such kinds have an identity, stated by their manifest page.
pub open spec fn has_identity(kind: BookKind) -> bool {
    kind == BookKind::Identity || kind == BookKind::UserIdentity
}

/// Tells whether a book's identity is to be looked up.
pub fn needs_identity(kind: BookKind) -> (r: bool)
    ensures
        r == has_identity(kind),
{
    kind == BookKind::Identity || kind == BookKind::UserIdentity
}

/// The kind of a book from its name and its shelf.
pub open spec fn kind_of_book(book: Json, shelf_kind: ShelfKind) -> BookKind {
    index::book_kind(field_text(book, "name"@), shelf_kind)
}

/// The row shows the book, with the identity for the kinds that have one.
pub open spec fn is_book_row(
    r: IndexedBook,
    book_id: i64,
    book: Json,
    shelf_id: Option<i64>,
    shelf_kind: ShelfKind,
    identity_ouid: Option<Seq<char>>,
    now: i64,
) -> bool {
    &&& r.book_id == book_id
    &&& r.name@ == field_text(book, "name"@)
    &&& r.slug@ == field_text(book, "slug"@)
    &&& r.shelf_id == shelf_id
    &&& r.book_kind == kind_of_book(book, shelf_kind)
    &&& text::opt_text(r.identity_ouid) == if has_identity(r.book_kind) {
        identity_ouid
    } else {
        None
    }
    &&& r.indexed_at == now
    &&& !r.deleted
}

/// The row for a book. The identity is kept for the kinds that have one.
pub fn book_row(
    book_id: i64,
    book: &Json,
    shelf_id: Option<i64>,
    shelf_kind: ShelfKind,
    identity_ouid: Option<&str>,
    now: i64,
) -> (r: IndexedBook)
    ensures
        is_book_row(
            r,
            book_id,
            *book,
            shelf_id,
            shelf_kind,
            text::opt_str(identity_ouid),
            now,
        ),
{
    let name = string_field(book, "name");
    let book_kind = classify_book(name.as_str(), shelf_kind);
    let identity_ouid: Option<String> = if needs_identity(book_kind) {
        copy_text(identity_ouid)
    } else {
        None
    };
    IndexedBook {
        book_id,
        name,
        slug: string_field(book, "slug"),
        shelf_id,
        identity_ouid,
        book_kind,
        indexed_at: now,
        deleted: false,
    }
}

/// The class of a chapter from its name and its book.
pub open spec fn class_of_chapter(chapter: Json, book_kind: BookKind) -> (
    ChapterKind,
    Option<i32>,
) {
    index::chapter_class(field_text(chapter, "name"@), book_kind)
}

/// The row shows the chapter, with the identity of its book.
pub open spec fn is_chapter_row(
    r: IndexedChapter,
    chapter_id: i64,
    chapter: Json,
    book_id: i64,
    book_kind: BookKind,
    identity_ouid: Option<Seq<char>>,
    now: i64,
) -> bool {
    &&& r.chapter_id == chapter_id
    &&& r.book_id == book_id
    &&& r.name@ == field_text(chapter, "name"@)
    &&& r.slug@ == field_text(chapter, "slug"@)
    &&& text::opt_text(r.identity_ouid) == identity_ouid
    &&& (r.chapter_kind, r.archive_year) == class_of_chapter(chapter, book_kind)
    &&& r.indexed_at == now
    &&& !r.deleted
}

/// The row for a chapter. It has the identity of its book.
pub fn chapter_row(
    chapter_id: i64,
    chapter: &Json,
    book_id: i64,
    book_kind: BookKind,
    identity_ouid: Option<&str>,
    now: i64,
) -> (r: IndexedChapter)
    ensures
        is_chapter_row(
            r,
            chapter_id,
            *chapter,
            book_id,
            book_kind,
            text::opt_str(identity_ouid),
            now,
        ),
{
    let name = string_field(chapter, "name");
    let (chapter_kind, archive_year) = classify_chapter(name.as_str(), book_kind);
    IndexedChapter {
        chapter_id,
        book_id,
        name,
        slug: string_field(chapter, "slug"),
        identity_ouid: copy_text(identity_ouid),
        chapter_kind,
        archive_year,
        indexed_at: now,
        deleted: false,
    }
}

/// What a page has from its parents.
pub struct PageParents<'a> {
    pub book_id: i64,
    pub chapter_id: Option<i64>,
    pub book_kind: BookKind,
    pub chapter_kind: Option<ChapterKind>,
    pub chapter_archive_year: Option<i32>,
    pub identity_ouid: Option<&'a str>,
}

/// What a page has from its parents, with the identity as text.
pub struct ParentsModel {
    pub book_id: i64,
    pub chapter_id: Option<i64>,
    pub book_kind: BookKind,
    pub chapter_kind: Option<ChapterKind>,
    pub chapter_archive_year: Option<i32>,
    pub identity_ouid: Option<Seq<char>>,
}

impl<'a> PageParents<'a> {
    pub open spec fn model(self) -> ParentsModel {
        ParentsModel {
            book_id: self.book_id,
            chapter_id: self.chapter_id,
            book_kind: self.book_kind,
            chapter_kind: self.chapter_kind,
            chapter_archive_year: self.chapter_archive_year,
            identity_ouid: text::opt_str(self.identity_ouid),
        }
    }
}

/// The class of a page from its name and parents.
pub open spec fn class_of_page(page: Json, parents: ParentsModel) -> (
    index::PageKind,
    Option<Seq<char>>,
    Option<i32>,
) {
    index::page_class(
        field_text(page, "name"@),
        parents.book_kind,
        parents.chapter_kind,
        parents.chapter_archive_year,
    )
}

/// The row shows the page.
pub open spec fn is_page_row(r: IndexedPage, page: Json, parents: ParentsModel, now: i64) -> bool {
    let (kind, key, year) = class_of_page(page, parents);
    &&& json::int_of(json::member(page, "id"@)) == Some(r.page_id)
    &&& r.book_id == parents.book_id
    &&& r.chapter_id == parents.chapter_id
    &&& r.name@ == field_text(page, "name"@)
    &&& r.slug@ == field_text(page, "slug"@)
    &&& text::opt_text(r.url) == json::text_of(json::member(page, "url"@))
    &&& text::opt_text(r.page_created_at) == json::text_of(json::member(page, "created_at"@))
    &&& text::opt_text(r.page_updated_at) == json::text_of(json::member(page, "updated_at"@))
    &&& text::opt_text(r.identity_ouid) == parents.identity_ouid
    &&& r.page_kind == kind
    &&& text::opt_text(r.page_key) == key
    &&& r.archive_year == match year {
        Some(y) => Some(y),
        None => parents.chapter_archive_year,
    }
    &&& r.indexed_at == now
    &&& !r.deleted
}

/// The cache row holds the body of the page: its Markdown as it is and without
/// frontmatter, and its HTML.
pub open spec fn is_cache_row(r: PageCache, page: Json, now: i64) -> bool {
    let raw = json::text_of(json::member(page, "markdown"@));
    &&& json::int_of(json::member(page, "id"@)) == Some(r.page_id)
    &&& text::opt_text(r.raw_markdown) == raw
    &&& text::opt_text(r.markdown) == match raw {
        Some(md) => Some(frontmatter::body_of(md)),
        None => None,
    }
    &&& text::opt_text(r.html) == json::text_of(json::member(page, "html"@))
    &&& text::opt_text(r.page_updated_at) == json::text_of(json::member(page, "updated_at"@))
    &&& r.cached_at == now
}

/// The rows for a page. A page without an id has none.
pub fn page_rows(page: &Json, parents: &PageParents, now: i64) -> (r: Result<
    (IndexedPage, PageCache),
    String,
>)
    ensures
        match r {
            Ok((row, cache)) => is_page_row(row, *page, parents.model(), now) && is_cache_row(
                cache,
                *page,
                now,
            ),
            Err(e) => json::int_of(json::member(*page, "id"@)) is None && e@ == "page has no id"@,
        },
{
    let page_id: i64 = match page.get_i64("id") {
        Some(id) => id,
        None => {
            return Err("page has no id".to_owned());
        },
    };
    let name = string_field(page, "name");
    let (page_kind, page_key, year) = classify_page(
        name.as_str(),
        parents.book_kind,
        parents.chapter_kind,
        parents.chapter_archive_year,
    );
    let archive_year: Option<i32> = match year {
        Some(y) => Some(y),
        None => parents.chapter_archive_year,
    };
    let markdown: Option<String> = match page.get_str("markdown") {
        Some(md) => Some(strip_frontmatter(md)),
        None => None,
    };
    let row = IndexedPage {
        page_id,
        book_id: parents.book_id,
        chapter_id: parents.chapter_id,
        name,
        slug: string_field(page, "slug"),
        url: optional_field(page, "url"),
        page_created_at: optional_field(page, "created_at"),
        page_updated_at: optional_field(page, "updated_at"),
        identity_ouid: copy_text(parents.identity_ouid),
        page_kind,
        page_key,
        archive_year,
        indexed_at: now,
        deleted: false,
    };
    let cache = PageCache {
        page_id,
        markdown,
        raw_markdown: optional_field(page, "markdown"),
        html: optional_field(page, "html"),
        cached_at: now,
        page_updated_at: optional_field(page, "updated_at"),
    };
    Ok((row, cache))
}

/// A page row and its cache row carry the same time of the last update, so a
/// page that was just indexed is always found fresh in the cache.
pub proof fn law_indexed_page_is_fresh(
    row: IndexedPage,
    cache: PageCache,
    page: Json,
    parents: ParentsModel,
    now: i64,
)
    requires
        is_page_row(row, page, parents, now),
        is_cache_row(cache, page, now),
    ensures
        row.page_id == cache.page_id,
        text::opt_text(row.page_updated_at) == text::opt_text(cache.page_updated_at),
{
}

// --- Walking ---

/// An entry of a book's contents.
#[derive(Clone, Copy, Debug, PartialEq, Eq, Structural)]
pub enum BookItem {
    Chapter(i64),
    Page(i64),
}

/// The entry that one row of a book's contents stands for.
pub open spec fn book_item(row: Json) -> Option<BookItem> {
    let kind = json::text_of(json::member(row, "type"@));
    let id = json::int_of(json::member(row, "id"@));
    if kind == Some("chapter"@) && id is Some {
        Some(BookItem::Chapter(id->0))
    } else if kind == Some("page"@) && id is Some {
        Some(BookItem::Page(id->0))
    } else {
        None
    }
}

/// The entries of the first `n` rows, in order.
pub open spec fn book_items(rows: Seq<Json>, n: int) -> Seq<BookItem>
    decreases n,
{
    if n <= 0 {
        Seq::empty()
    } else {
        let before = book_items(rows, n - 1);
        match book_item(rows[n - 1]) {
            Some(item) => before.push(item),
            None => before,
        }
    }
}

/// The chapters and pages that a book holds, in order.
pub open spec fn items_of_book(book: Json) -> Seq<BookItem> {
    let rows = json::items_of(json::member(book, "contents"@));
    book_items(rows, rows.len() as int)
}

/// Lists the chapters and pages that a book holds, in order.
pub fn list_book_items(book: &Json) -> (r: Vec<BookItem>)
    ensures
        r@ == items_of_book(*book),
{
    let mut out: Vec<BookItem> = Vec::new();
    proof {
        reveal_strlit("page");
        reveal_strlit("chapter");
        assert("page"@.len() != "chapter"@.len());
    }
    if let Some(rows) = book.get_items("contents") {
        let mut i: usize = 0;
        while i < rows.len()
            invariant
                i <= rows@.len(),
                "page"@ != "chapter"@,
                out@ == book_items(rows@, i as int),
            decreases rows@.len() - i,
        {
            let row = &rows[i];
            if let Some(kind) = row.get_str("type") {
                if let Some(id) = row.get_i64("id") {
                    if same_text(kind, "chapter") {
                        out.push(BookItem::Chapter(id));
                    } else if same_text(kind, "page") {
                        out.push(BookItem::Page(id));
                    }
                }
            }
            i += 1;
        }
    }
    out
}

/// The ids of the books on a shelf.
pub fn shelf_books(shelf: &Json) -> (r: Vec<i64>)
    ensures
        r@ == content::member_ids(*shelf, "books"@),
{
    read_member_ids(shelf, "books")
}

/// The ids of the pages in a chapter.
pub fn chapter_page_ids(chapter: &Json) -> (r: Vec<i64>)
    ensures
        r@ == content::member_ids(*chapter, "pages"@),
{
    read_member_ids(chapter, "pages")
}

/// Tells whether a shelf holds a book.
pub fn shelf_holds(shelf: &Json, book_id: i64) -> (r: bool)
    ensures
        r == content::member_ids(*shelf, "books"@).contains(book_id),
{
    let ids = shelf_books(shelf);
    holds_id(ids.as_slice(), book_id)
}

/// The books that no shelf holds, which a walk from the shelves does not reach,
/// in order.
pub fn unshelved_books(all: &Vec<i64>, shelved: &Vec<i64>) -> (r: Vec<i64>)
    ensures
        r@ == all@.filter(|id: i64| !shelved@.contains(id)),
{
    let ghost keep = |id: i64| !shelved@.contains(id);
    let mut out: Vec<i64> = Vec::new();
    let mut i: usize = 0;
    proof {
        reveal(Seq::filter);
        assert(out@ =~= all@.take(0).filter(keep));
    }
    while i < all.len()
        invariant
            i <= all@.len(),
            keep == (|id: i64| !shelved@.contains(id)),
            out@ == all@.take(i as int).filter(keep),
        decreases all@.len() - i,
    {
        proof {
            reveal(Seq::filter);
            assert(all@.take(i + 1).drop_last() =~= all@.take(i as int));
            assert(all@.take(i + 1).last() == all@[i as int]);
        }
        if !holds_id(shelved.as_slice(), all[i]) {
            out.push(all[i]);
        }
        i += 1;
    }
    assert(all@.take(i as int) =~= all@);
    out
}

/// A walk over every shelf and over the books without one reaches every book.
pub proof fn law_walk_reaches_every_book(all: Seq<i64>, shelved: Seq<i64>, id: i64)
    requires
        all.contains(id),
    ensures
        shelved.contains(id) || all.filter(|b: i64| !shelved.contains(b)).contains(id),
{
    let keep = |b: i64| !shelved.contains(b);
    broadcast use vstd::seq_lib::group_filter_ensures;

    let i = choose|i: int| 0 <= i < all.len() && all[i] == id;
    if !shelved.contains(id) {
        assert(keep(all[i]));
        assert(all.filter(keep).contains(all[i]));
    }
}

// --- The identity of a book ---

/// The row is the manifest of a book: a page that is named `Identity`.
pub open spec fn is_manifest(row: Json) -> bool {
    &&& json::text_of(json::member(row, "type"@)) == Some("page"@)
    &&& json::text_of(json::member(row, "name"@)) matches Some(n) && text::trim(n) == "Identity"@
}

/// The first manifest among a book's rows, from position `i` on.
pub open spec fn first_manifest(rows: Seq<Json>, i: int) -> Option<Json>
    decreases rows.len() - i,
{
    if i < 0 || i >= rows.len() {
        None
    } else if is_manifest(rows[i]) {
        Some(rows[i])
    } else {
        first_manifest(rows, i + 1)
    }
}

/// The id of a book's manifest page.
pub open spec fn manifest_of(book: Json) -> Option<i64> {
    json::int_of(
        json::member_opt(first_manifest(json::items_of(json::member(book, "contents"@)), 0), "id"@),
    )
}

/// Finds the id of a book's manifest page.
pub fn manifest_page_id(book: &Json) -> (r: Option<i64>)
    ensures
        r == manifest_of(*book),
{
    let ghost all = json::items_of(json::member(*book, "contents"@));
    let title = chars_of("Identity");
    if let Some(rows) = book.get_items("contents") {
        let mut i: usize = 0;
        while i < rows.len()
            invariant
                i <= rows@.len(),
                all == rows@,
                all == json::items_of(json::member(*book, "contents"@)),
                title@ == "Identity"@,
                first_manifest(all, 0) == first_manifest(all, i as int),
            decreases rows@.len() - i,
        {
            let row = &rows[i];
            let is_page = match row.get_str("type") {
                Some(kind) => same_text(kind, "page"),
                None => false,
            };
            let is_titled = match row.get_str("name") {
                Some(name) => {
                    let chars = chars_of(name);
                    same_chars(trim_chars(chars.as_slice()), title.as_slice())
                },
                None => false,
            };
            if is_page && is_titled {
                assert(is_manifest(all[i as int]));
                return row.get_i64("id");
            }
            i += 1;
        }
    }
    None
}

/// The identity that a manifest page states.
pub open spec fn stated_identity(page: Json) -> Option<Seq<char>> {
    match json::text_of(json::member(page, "markdown"@)) {
        Some(md) => frontmatter::page_ouid(md),
        None => None,
    }
}

/// Reads the identity that a manifest page states.
pub fn identity_of_page(page: &Json) -> (r: Option<String>)
    ensures
        text::opt_text(r) == stated_identity(*page),
{
    match page.get_str("markdown") {
        Some(md) => extract_ouid_from_frontmatter(md),
        None => None,
    }
}

// --- Parents ---

/// A kind of content and its number: `page 42`.
fn labelled(kind: &str, id: i64) -> (r: String)
    ensures
        r@ == kind@ + text::decimal_int(id as int),
{
    let number = decimal_int_string(id);
    let mut s = String::new();
    s.append(kind);
    s.append(number.as_str());
    assert(s@ =~= kind@ + text::decimal_int(id as int));
    s
}

/// The error for content that names no book.
fn no_book(kind: &str, id: i64) -> (r: String)
    ensures
        r@ == kind@ + text::decimal_int(id as int) + " has no book_id"@,
{
    let mut e = labelled(kind, id);
    e.append(" has no book_id");
    e
}

/// The book of a page, and its chapter where it is in one; a chapter number of
/// zero means none.
pub fn page_parents(page_id: i64, page: &Json) -> (r: Result<(i64, Option<i64>), String>)
    ensures
        match r {
            Ok((book, chapter)) => json::int_of(json::member(*page, "book_id"@)) == Some(book)
                && chapter == chapter_in(*page),
            Err(e) => json::int_of(json::member(*page, "book_id"@)) is None && e@ == "page "@
                + text::decimal_int(page_id as int) + " has no book_id"@,
        },
{
    let book_id: i64 = match page.get_i64("book_id") {
        Some(id) => id,
        None => {
            return Err(no_book("page ", page_id));
        },
    };
    let chapter_id: Option<i64> = match page.get_i64("chapter_id") {
        Some(c) => if c != 0 {
            Some(c)
        } else {
            None
        },
        None => None,
    };
    Ok((book_id, chapter_id))
}

/// The book of a chapter.
pub fn chapter_parent(chapter_id: i64, chapter: &Json) -> (r: Result<i64, String>)
    ensures
        match r {
            Ok(book) => json::int_of(json::member(*chapter, "book_id"@)) == Some(book),
            Err(e) => json::int_of(json::member(*chapter, "book_id"@)) is None && e@
                == "chapter "@ + text::decimal_int(chapter_id as int) + " has no book_id"@,
        },
{
    match chapter.get_i64("book_id") {
        Some(id) => Ok(id),
        None => Err(no_book("chapter ", chapter_id)),
    }
}

/// A parent that is not indexed yet: the job that indexes it, what that job
/// states as its trigger, and how the error names it.
#[derive(Debug)]
pub struct MissingParent {
    pub scope: String,
    pub triggered_by: String,
    pub subject: String,
}

/// The text `{child} {child id} parent {parent} {parent id}`.
pub open spec fn parent_subject(
    child: Seq<char>,
    child_id: i64,
    parent: Seq<char>,
    parent_id: i64,
) -> Seq<char> {
    child + " "@ + text::decimal_int(child_id as int) + " parent "@ + parent + " "@
        + text::decimal_int(parent_id as int)
}

/// The description is that of the missing parent.
pub open spec fn describes_parent(
    r: MissingParent,
    child: Seq<char>,
    child_id: i64,
    parent: Seq<char>,
    parent_id: i64,
) -> bool {
    &&& r.scope@ == parent + ":"@ + text::decimal_int(parent_id as int)
    &&& r.triggered_by@ == "cascade_from_"@ + child + ":"@ + text::decimal_int(child_id as int)
    &&& r.subject@ == parent_subject(child, child_id, parent, parent_id)
}

/// Describes a missing parent: `child` and `parent` are kinds of content such
/// as `page` and `book`.
pub fn missing_parent(child: &str, child_id: i64, parent: &str, parent_id: i64) -> (r:
    MissingParent)
    ensures
        describes_parent(r, child@, child_id, parent@, parent_id),
{
    let child_number = decimal_int_string(child_id);
    let parent_number = decimal_int_string(parent_id);
    let mut scope = String::new();
    scope.append(parent);
    scope.append(":");
    scope.append(parent_number.as_str());
    assert(scope@ =~= parent@ + ":"@ + text::decimal_int(parent_id as int));
    let mut triggered_by = String::new();
    triggered_by.append("cascade_from_");
    triggered_by.append(child);
    triggered_by.append(":");
    triggered_by.append(child_number.as_str());
    assert(triggered_by@ =~= "cascade_from_"@ + child@ + ":"@ + text::decimal_int(
        child_id as int,
    ));
    let mut subject = String::new();
    subject.append(child);
    subject.append(" ");
    subject.append(child_number.as_str());
    subject.append(" parent ");
    subject.append(parent);
    subject.append(" ");
    subject.append(parent_number.as_str());
    assert(subject@ =~= parent_subject(child@, child_id, parent@, parent_id));
    MissingParent { scope, triggered_by, subject }
}

/// What indexing one thing by itself comes to: its row is stored, or its parent is
/// indexed first.
#[derive(Debug)]
pub enum Reconcile<T> {
    Store(T),
    Cascade(MissingParent),
}

/// The chapter of a page; a number of zero means none.
pub open spec fn chapter_in(page: Json) -> Option<i64> {
    match json::int_of(json::member(page, "chapter_id"@)) {
        Some(c) => if c != 0 {
            Some(c)
        } else {
            None
        },
        None => None,
    }
}

/// What a page has from its parents as they are indexed.
pub open spec fn indexed_parents(
    page: Json,
    book: IndexedBook,
    chapter: Option<&IndexedChapter>,
) -> ParentsModel {
    let in_chapter = chapter_in(page) is Some && chapter is Some;
    ParentsModel {
        book_id: json::int_of(json::member(page, "book_id"@))->0,
        chapter_id: chapter_in(page),
        book_kind: book.book_kind,
        chapter_kind: if in_chapter {
            Some(chapter->0.chapter_kind)
        } else {
            None
        },
        chapter_archive_year: if in_chapter {
            chapter->0.archive_year
        } else {
            None
        },
        identity_ouid: text::opt_text(book.identity_ouid),
    }
}

/// Decides what indexing a page comes to, given the rows of its book and of its
/// chapter. A chapter that is not indexed is done without; a book is not.
pub fn reconcile_page(
    page_id: i64,
    page: &Json,
    book: Option<&IndexedBook>,
    chapter: Option<&IndexedChapter>,
    now: i64,
) -> (r: Result<Reconcile<(IndexedPage, PageCache)>, String>)
    ensures
        match (json::int_of(json::member(*page, "book_id"@)), book) {
            (None, _) => r matches Err(e) && e@ == "page "@ + text::decimal_int(page_id as int)
                + " has no book_id"@,
            (Some(book_id), None) => r matches Ok(Reconcile::Cascade(m)) && describes_parent(
                m,
                "page"@,
                page_id,
                "book"@,
                book_id,
            ),
            (Some(_), Some(b)) => match r {
                Ok(Reconcile::Store((row, cache))) => is_page_row(
                    row,
                    *page,
                    indexed_parents(*page, *b, chapter),
                    now,
                ) && is_cache_row(cache, *page, now),
                Ok(Reconcile::Cascade(_)) => false,
                Err(e) => json::int_of(json::member(*page, "id"@)) is None && e@
                    == "page has no id"@,
            },
        },
{
    let (book_id, chapter_id) = match page_parents(page_id, page) {
        Ok(parents) => parents,
        Err(e) => {
            return Err(e);
        },
    };
    let b: &IndexedBook = match book {
        Some(b) => b,
        None => {
            return Ok(Reconcile::Cascade(missing_parent("page", page_id, "book", book_id)));
        },
    };
    let (chapter_kind, chapter_archive_year): (Option<ChapterKind>, Option<i32>) = match (
        chapter_id,
        chapter,
    ) {
        (Some(_), Some(c)) => (Some(c.chapter_kind), c.archive_year),
        _ => (None, None),
    };
    let identity_ouid: Option<&str> = match &b.identity_ouid {
        Some(s) => Some(s.as_str()),
        None => None,
    };
    let parents = PageParents {
        book_id,
        chapter_id,
        book_kind: b.book_kind,
        chapter_kind,
        chapter_archive_year,
        identity_ouid,
    };
    assert(parents.model() == indexed_parents(*page, *b, chapter));
    match page_rows(page, &parents, now) {
        Ok(rows) => Ok(Reconcile::Store(rows)),
        Err(e) => Err(e),
    }
}

/// Decides what indexing a chapter comes to, given the row of its book.
pub fn reconcile_chapter(
    chapter_id: i64,
    chapter: &Json,
    book: Option<&IndexedBook>,
    now: i64,
) -> (r: Result<Reconcile<IndexedChapter>, String>)
    ensures
        match (json::int_of(json::member(*chapter, "book_id"@)), book) {
            (None, _) => r matches Err(e) && e@ == "chapter "@ + text::decimal_int(
                chapter_id as int,
            ) + " has no book_id"@,
            (Some(book_id), None) => r matches Ok(Reconcile::Cascade(m)) && describes_parent(
                m,
                "chapter"@,
                chapter_id,
                "book"@,
                book_id,
            ),
            (Some(book_id), Some(b)) => r matches Ok(Reconcile::Store(row)) && is_chapter_row(
                row,
                chapter_id,
                *chapter,
                book_id,
                b.book_kind,
                text::opt_text(b.identity_ouid),
                now,
            ),
        },
{
    let book_id: i64 = match chapter_parent(chapter_id, chapter) {
        Ok(id) => id,
        Err(e) => {
            return Err(e);
        },
    };
    match book {
        None => Ok(
            Reconcile::Cascade(missing_parent("chapter", chapter_id, "book", book_id)),
        ),
        Some(b) => {
            let identity_ouid: Option<&str> = match &b.identity_ouid {
                Some(s) => Some(s.as_str()),
                None => None,
            };
            Ok(
                Reconcile::Store(
                    chapter_row(chapter_id, chapter, book_id, b.book_kind, identity_ouid, now),
                ),
            )
        },
    }
}

/// A search for the shelf that a book stands on, shelf by shelf.
pub struct ShelfProbe {
    pub candidates: Vec<i64>,
    pub asked: usize,
    pub found: Option<i64>,
}

/// The first of the shelves from the `i`th on that holds the book. A shelf that
/// is not answered is passed over.
pub open spec fn first_holder(
    shelves: Seq<i64>,
    answers: spec_fn(i64) -> Option<Json>,
    book_id: i64,
    i: int,
) -> Option<i64>
    decreases shelves.len() - i,
{
    if i < 0 || i >= shelves.len() {
        None
    } else if answers(shelves[i]) matches Some(shelf) && content::member_ids(
        shelf,
        "books"@,
    ).contains(book_id) {
        Some(shelves[i])
    } else {
        first_holder(shelves, answers, book_id, i + 1)
    }
}

impl ShelfProbe {
    /// The shelves that were asked about are among the candidates.
    pub open spec fn well_formed(self) -> bool {
        self.asked <= self.candidates@.len()
    }

    /// Begins a search.
    pub fn begin(candidates: Vec<i64>) -> (r: Self)
        ensures
            r.well_formed(),
            r.candidates == candidates,
            r.asked == 0,
            r.found is None,
    {
        ShelfProbe { candidates, asked: 0, found: None }
    }

    /// The shelf to ask about next; none once one was found or all were asked
    /// about.
    pub fn next(&self) -> (r: Option<i64>)
        requires
            self.well_formed(),
        ensures
            r == if self.found is None && self.asked < self.candidates@.len() {
                Some(self.candidates@[self.asked as int])
            } else {
                None
            },
    {
        if self.found.is_none() && self.asked < self.candidates.len() {
            Some(self.candidates[self.asked])
        } else {
            None
        }
    }

    /// Takes in what was fetched for the shelf; nothing where it could not be.
    pub fn answered(&mut self, shelf: Option<&Json>, book_id: i64)
        requires
            old(self).well_formed(),
            old(self).asked < old(self).candidates@.len(),
        ensures
            final(self).well_formed(),
            final(self).candidates == old(self).candidates,
            final(self).asked == old(self).asked + 1,
            final(self).found == if shelf matches Some(s) && content::member_ids(
                *s,
                "books"@,
            ).contains(book_id) {
                Some(old(self).candidates@[old(self).asked as int])
            } else {
                old(self).found
            },
    {
        let total: usize = self.candidates.len();
        let id: i64 = self.candidates[self.asked];
        assert(self.asked < total);
        self.asked = self.asked + 1;
        if let Some(s) = shelf {
            if shelf_holds(s, book_id) {
                self.found = Some(id);
            }
        }
    }
}

/// Each step of a search leaves the same shelf to be found: the first one that
/// holds the book, or none where every shelf was asked about in vain.
pub proof fn law_probe_finds_first_shelf(
    probe: ShelfProbe,
    after: ShelfProbe,
    answers: spec_fn(i64) -> Option<Json>,
    book_id: i64,
)
    requires
        probe.well_formed(),
        probe.found is None,
        probe.asked < probe.candidates@.len(),
        after.candidates == probe.candidates,
        after.asked == probe.asked + 1,
        after.found == if answers(probe.candidates@[probe.asked as int]) matches Some(s)
            && content::member_ids(s, "books"@).contains(book_id) {
            Some(probe.candidates@[probe.asked as int])
        } else {
            None
        },
    ensures
        first_holder(probe.candidates@, answers, book_id, probe.asked as int)
            == match after.found {
            Some(id) => Some(id),
            None => first_holder(after.candidates@, answers, book_id, after.asked as int),
        },
        after.found is None && after.asked == after.candidates@.len() ==> first_holder(
            probe.candidates@,
            answers,
            book_id,
            probe.asked as int,
        ) is None,
{
}

/// Decides what indexing a book comes to, given the shelf that it stands on, if
/// any, whether that shelf is indexed, and the manifest page of the book.
pub fn reconcile_book(
    book_id: i64,
    book: &Json,
    shelf_id: Option<i64>,
    shelf_is_indexed: bool,
    manifest: Option<&Json>,
    now: i64,
) -> (r: Reconcile<IndexedBook>)
    ensures
        match (r, shelf_id) {
            (Reconcile::Cascade(m), Some(shelf)) => !shelf_is_indexed && describes_parent(
                m,
                "book"@,
                book_id,
                "shelf"@,
                shelf,
            ),
            (Reconcile::Cascade(_), None) => false,
            (Reconcile::Store(row), _) => (shelf_is_indexed || shelf_id is None) && is_book_row(
                row,
                book_id,
                *book,
                shelf_id,
                ShelfKind::Unclassified,
                match manifest {
                    Some(page) => stated_identity(*page),
                    None => None,
                },
                now,
            ),
        },
{
    if let Some(shelf) = shelf_id {
        if !shelf_is_indexed {
            return Reconcile::Cascade(missing_parent("book", book_id, "shelf", shelf));
        }
    }
    let identity: Option<String> = match manifest {
        Some(page) => identity_of_page(page),
        None => None,
    };
    let identity_ouid: Option<&str> = match &identity {
        Some(s) => Some(s.as_str()),
        None => None,
    };
    let shelf_kind = classify_shelf(
        match shelf_id {
            Some(id) => id,
            None => 0,
        },
    );
    Reconcile::Store(book_row(book_id, book, shelf_id, shelf_kind, identity_ouid, now))
}

/// The page that is to be fetched for the identity of a book that is indexed by
/// itself, if any.
pub fn manifest_to_fetch(book: &Json, shelf_kind: ShelfKind) -> (r: Option<i64>)
    ensures
        r == if has_identity(kind_of_book(*book, shelf_kind)) {
            manifest_of(*book)
        } else {
            None
        },
{
    let name = string_field(book, "name");
    if needs_identity(classify_book(name.as_str(), shelf_kind)) {
        manifest_page_id(book)
    } else {
        None
    }
}

/// The error with which a job waits for its parent.
pub open spec fn waiting_error(subject: Seq<char>, parent_scope: Seq<char>, job_id: i64) -> Seq<
    char,
> {
    subject + " not in index \u{2014} enqueued "@ + parent_scope + " (job "@ + text::decimal_int(
        job_id as int,
    ) + "); will retry"@
}

/// Shows the error with which a job waits for its parent.
fn show_waiting_error(subject: &str, parent_scope: &str, job_id: i64) -> (r: String)
    ensures
        r@ == waiting_error(subject@, parent_scope@, job_id),
{
    let number = decimal_int_string(job_id);
    let mut e = String::new();
    e.append(subject);
    e.append(" not in index \u{2014} enqueued ");
    e.append(parent_scope);
    e.append(" (job ");
    e.append(number.as_str());
    e.append("); will retry");
    assert(e@ =~= waiting_error(subject@, parent_scope@, job_id));
    e
}

/// Queues the indexing of a missing parent, unless a job already stands for it,
/// and returns the error with which the job at hand fails, to be retried once
/// the parent is there.
pub fn cascade_missing_parent(
    jobs: &mut JobQueue<IndexJob>,
    parent_scope: &str,
    triggered_by: &str,
    subject: &str,
) -> (r: Result<(), String>)
    requires
        old(jobs).well_formed(),
        old(jobs).next_id < i64::MAX,
    ensures
        final(jobs).well_formed(),
        r is Err,
        match queue::newest_live(old(jobs).model(), old(jobs).model().len() as int, parent_scope@) {
            Some(id) => {
                &&& final(jobs).model() == old(jobs).model()
                &&& final(jobs).next_id == old(jobs).next_id
                &&& r->Err_0@ == waiting_error(subject@, parent_scope@, id)
            },
            None => {
                &&& final(jobs).next_id == old(jobs).next_id + 1
                &&& final(jobs).model() == old(jobs).model().push(
                    queue::new_index_job(
                        old(jobs).next_id,
                        parent_scope@,
                        "both"@,
                        triggered_by@,
                        None,
                    ),
                )
                &&& r->Err_0@ == waiting_error(subject@, parent_scope@, old(jobs).next_id)
            },
        },
{
    let (job_id, _) = jobs.create_index_job(parent_scope, "both", triggered_by);
    Err(show_waiting_error(subject, parent_scope, job_id))
}

// --- The delta walk ---

/// A walk over the pages that changed: where it began, and the latest change
/// that it has taken in.
pub struct DeltaWalk {
    pub since: String,
    pub newest: String,
}

/// Where a delta walk begins: at the end of the last one, or else at the last
/// full walk; nowhere before the first full walk.
pub open spec fn delta_start(last_delta: Option<Seq<char>>, last_full: Option<Seq<char>>) -> Option<
    Seq<char>,
> {
    match last_delta {
        Some(t) => Some(t),
        None => match last_full {
            Some(t) => Some(
                calendar::iso_text(calendar::the_moment(calendar::stored_seconds(t))),
            ),
            None => None,
        },
    }
}

impl DeltaWalk {
    /// Begins a walk.
    pub fn begin(last_delta: Option<&str>, last_full: Option<&str>) -> (r: Option<DeltaWalk>)
        ensures
            match r {
                Some(w) => delta_start(text::opt_str(last_delta), text::opt_str(last_full))
                    == Some(w.since@) && w.newest@ == w.since@,
                None => delta_start(text::opt_str(last_delta), text::opt_str(last_full)) is None,
            },
    {
        let since: String = match last_delta {
            Some(t) => t.to_owned(),
            None => match last_full {
                Some(t) => calendar::unix_to_iso(t),
                None => {
                    return None;
                },
            },
        };
        let newest = since.clone();
        Some(DeltaWalk { since, newest })
    }

    /// Takes in a page that was indexed: the walk has come at least as far as
    /// its last change.
    pub fn indexed(&mut self, updated_at: Option<&str>)
        ensures
            final(self).since == old(self).since,
            final(self).newest@ == match updated_at {
                Some(t) => if text::precedes(old(self).newest@, t@) {
                    t@
                } else {
                    old(self).newest@
                },
                None => old(self).newest@,
            },
    {
        if let Some(t) = updated_at {
            if text_before(self.newest.as_str(), t) {
                self.newest = t.to_owned();
            }
        }
    }

    /// Where the next walk begins: at the latest change that was taken in, or
    /// at the present where there was none.
    pub fn boundary(&self, now: &str) -> (r: String)
        ensures
            r@ == if self.newest@ != self.since@ {
                self.newest@
            } else {
                now@
            },
    {
        if same_text(self.newest.as_str(), self.since.as_str()) {
            now.to_owned()
        } else {
            self.newest.clone()
        }
    }
}

/// Taking pages in never moves the boundary back, and leaves it no earlier than
/// any of them.
pub proof fn law_delta_walk_moves_forward(newest: Seq<char>, t: Seq<char>)
    ensures
        ({
            let after = if text::precedes(newest, t) {
                t
            } else {
                newest
            };
            !text::precedes(after, newest) && !text::precedes(after, t)
        }),
{
    text::law_order_is_total(newest, t);
    text::law_order_is_total(t, t);
    text::law_order_is_total(newest, newest);
}

// --- Settings ---

/// How the housekeeping of jobs is set up.
#[derive(Clone, Copy, Debug, PartialEq, Eq, Structural)]
pub struct LifecycleSettings {
    /// Seconds after which a running job is given up.
    pub timeout_secs: i64,
    /// Seconds between two reconciliations.
    pub reconcile_secs: u64,
    /// The longest chain of retries.
    pub max_chain: usize,
    /// Seconds for which an ended job stays before it is closed.
    pub close_grace_secs: i64,
}

impl LifecycleSettings {
    /// Reads the settings: an hour of running, five minutes between
    /// reconciliations, chains of five and half a minute of grace are usual.
    pub fn read(
        timeout: Option<&str>,
        reconcile: Option<&str>,
        max_chain: Option<&str>,
        close_grace: Option<&str>,
    ) -> (r: Self)
        ensures
            r.timeout_secs == config::int_or(text::opt_str(timeout), 3600),
            r.reconcile_secs == config::uint_or(text::opt_str(reconcile), 300),
            r.max_chain == config::size_or(text::opt_str(max_chain), 5),
            r.close_grace_secs == config::int_or(text::opt_str(close_grace), 30),
    {
        LifecycleSettings {
            timeout_secs: read_int(timeout, 3600),
            reconcile_secs: read_uint(reconcile, 300),
            max_chain: read_size(max_chain, 5),
            close_grace_secs: read_int(close_grace, 30),
        }
    }
}

/// The jobs after those that ran too long failed, and those that ended long
/// enough ago were closed.
pub open spec fn tidied(
    s: Seq<JobModel>,
    now: i64,
    timeout_secs: i64,
    close_grace_secs: i64,
) -> Seq<JobModel> {
    queue::changed_where(
        queue::changed_where(
            s,
            JobFilter::RunningSince((now - timeout_secs) as i64),
            |m: JobModel| jobs::failed(m, now, "timeout"@),
        ),
        JobFilter::Archivable((now - close_grace_secs) as i64),
        |m: JobModel| jobs::closed(m, None),
    )
}

/// The jobs and the next id after a round of housekeeping. With enough time
/// since the last reconciliation, failed jobs are reconciled too.
pub open spec fn housekept(
    s: Seq<JobModel>,
    next_id: i64,
    now: i64,
    settings: LifecycleSettings,
    elapsed_secs: u64,
    trigger: Seq<char>,
) -> (Seq<JobModel>, i64) {
    let tidy = tidied(s, now, settings.timeout_secs, settings.close_grace_secs);
    if elapsed_secs >= settings.reconcile_secs {
        queue::reconciled(tidy, next_id, tidy.len() as int, settings.max_chain as nat, trigger)
    } else {
        (tidy, next_id)
    }
}

/// Does a round of housekeeping on a queue, so many seconds after the last
/// reconciliation, and tells whether it reconciled.
pub fn housekeep<J: JobRow>(
    jobs: &mut JobQueue<J>,
    now: i64,
    settings: &LifecycleSettings,
    elapsed_secs: u64,
) -> (reconciled: bool)
    requires
        old(jobs).well_formed(),
        i64::MIN <= now - settings.timeout_secs <= i64::MAX,
        i64::MIN <= now - settings.close_grace_secs <= i64::MAX,
        old(jobs).next_id + old(jobs).model().len() <= i64::MAX,
    ensures
        final(jobs).well_formed(),
        (final(jobs).model(), final(jobs).next_id) == housekept(
            old(jobs).model(),
            old(jobs).next_id,
            now,
            *settings,
            elapsed_secs,
            J::retry_trigger(),
        ),
        reconciled == (elapsed_secs >= settings.reconcile_secs),
{
    let _ = jobs.expire_running(now, now - settings.timeout_secs);
    jobs.archive(now, settings.close_grace_secs);
    if elapsed_secs >= settings.reconcile_secs {
        jobs.reconcile_failed(settings.max_chain);
        true
    } else {
        false
    }
}

/// After a round of housekeeping before reconciliation, no job runs that started
/// before the timeout.
pub proof fn law_no_overdue_job_runs(
    s: Seq<JobModel>,
    now: i64,
    timeout_secs: i64,
    close_grace_secs: i64,
    i: int,
)
    requires
        0 <= i < s.len(),
    ensures
        !queue::is_chosen(
            tidied(s, now, timeout_secs, close_grace_secs)[i],
            JobFilter::RunningSince((now - timeout_secs) as i64),
        ),
{
    reveal_strlit("running");
    reveal_strlit("failed");
    reveal_strlit("closed");
    assert("running"@.len() == 7);
    assert("failed"@.len() == 6);
    assert("closed"@.len() == 6);
}

/// Queues the first walk over everything, unless one was done before.
pub fn enqueue_initial_walk(jobs: &mut JobQueue<IndexJob>, last_full_walk: Option<&str>) -> (r:
    Option<(i64, bool)>)
    requires
        old(jobs).well_formed(),
        old(jobs).next_id < i64::MAX,
    ensures
        final(jobs).well_formed(),
        match (last_full_walk, r) {
            (Some(_), None) => final(jobs).model() == old(jobs).model() && final(jobs).next_id
                == old(jobs).next_id,
            (None, Some((id, is_new))) => match queue::newest_live(
                old(jobs).model(),
                old(jobs).model().len() as int,
                "all"@,
            ) {
                Some(found) => id == found && !is_new && final(jobs).model() == old(jobs).model()
                    && final(jobs).next_id == old(jobs).next_id,
                None => id == old(jobs).next_id && is_new && final(jobs).next_id == id + 1
                    && final(jobs).model() == old(jobs).model().push(
                    queue::new_index_job(id, "all"@, "both"@, "startup"@, None),
                ),
            },
            _ => false,
        },
{
    match last_full_walk {
        Some(_) => None,
        None => Some(jobs.create_index_job("all", "both", "startup")),
    }
}

/// Ends an indexing job after its work. One that no longer runs is left as it
/// is: whoever ended it has said how.
pub fn finish_job(jobs: &mut JobQueue<IndexJob>, job_id: i64, error: Option<&str>, now: i64)
    requires
        old(jobs).well_formed(),
    ensures
        final(jobs).well_formed(),
        final(jobs).next_id == old(jobs).next_id,
        final(jobs).model() == if queue::job_with(old(jobs).model(), job_id) matches Some(m)
            && m.status != "running"@ {
            old(jobs).model()
        } else {
            queue::changed(
                old(jobs).model(),
                job_id,
                |m: JobModel| jobs::completed(m, now, text::opt_str(error)),
            )
        },
{
    let stopped = jobs.should_stop(job_id);
    match end_of_job(stopped, error) {
        JobEnd::Leave => {},
        JobEnd::Succeed => {
            jobs.complete(job_id, now, None);
        },
        JobEnd::Fail(e) => {
            jobs.complete(job_id, now, Some(e.as_str()));
        },
    }
}

} // verus!
