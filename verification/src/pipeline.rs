//! Embedding pages: which pages a job covers, what is embedded of each, and
//! which pages it links to.

use crate::chunking;
use crate::chunking::{chunk_html_with_name, extract_links, Chunk};
use crate::crypto;
use crate::crypto::sha256_hex;
use crate::json;
use crate::json::Json;
use crate::text;
use crate::text::{
    after_last_chars, chars_of, contains_chars, parse_i64, same_text, starts_with_chars, string_of,
};
use crate::types::PageMeta;
use crate::worker;
use crate::worker::string_field;
use std::collections::HashMap;
use vstd::prelude::*;
use vstd::slice::slice_subrange;
use vstd::string::StringExecFns;

verus! {

// --- Scopes ---

/// What an embedding job covers.
#[derive(Clone, Copy, Debug, PartialEq, Eq, Structural)]
pub enum EmbedScope {
    /// No page is embedded: only the access lists are computed anew.
    AclReconcile,
    Everything,
    Book(i64),
    Page(i64),
}

/// What the text of a scope covers. A book or page whose id is no number
/// restricts nothing.
pub open spec fn scope_of(scope: Seq<char>) -> EmbedScope {
    if scope == "acl_reconcile"@ {
        EmbedScope::AclReconcile
    } else if text::starts_with(scope, "book:"@) {
        match text::parsed_i64(scope.skip("book:"@.len() as int)) {
            Some(n) => EmbedScope::Book(n as i64),
            None => EmbedScope::Everything,
        }
    } else if text::starts_with(scope, "page:"@) {
        match text::parsed_i64(scope.skip("page:"@.len() as int)) {
            Some(n) => EmbedScope::Page(n as i64),
            None => EmbedScope::Everything,
        }
    } else {
        EmbedScope::Everything
    }
}

/// Reads the number behind a prefix that the text has.
fn parse_after(s: &[char], prefix: &[char]) -> (r: Option<i64>)
    requires
        text::starts_with(s@, prefix@),
    ensures
        match r {
            Some(n) => text::parsed_i64(s@.skip(prefix@.len() as int)) == Some(n as int),
            None => text::parsed_i64(s@.skip(prefix@.len() as int)) is None,
        },
{
    let rest = slice_subrange(s, prefix.len(), s.len());
    assert(rest@ =~= s@.skip(prefix@.len() as int));
    parse_i64(rest)
}

/// Reads what a scope covers.
pub fn read_scope(scope: &str) -> (r: EmbedScope)
    ensures
        r == scope_of(scope@),
{
    if same_text(scope, "acl_reconcile") {
        return EmbedScope::AclReconcile;
    }
    let chars = chars_of(scope);
    let book = chars_of("book:");
    let page = chars_of("page:");
    if starts_with_chars(chars.as_slice(), book.as_slice()) {
        match parse_after(chars.as_slice(), book.as_slice()) {
            Some(n) => EmbedScope::Book(n),
            None => EmbedScope::Everything,
        }
    } else if starts_with_chars(chars.as_slice(), page.as_slice()) {
        match parse_after(chars.as_slice(), page.as_slice()) {
            Some(n) => EmbedScope::Page(n),
            None => EmbedScope::Everything,
        }
    } else {
        EmbedScope::Everything
    }
}

/// An integer member of a value; zero where there is none.
pub open spec fn id_or_zero(j: Json, name: Seq<char>) -> i64 {
    match json::int_of(json::member(j, name)) {
        Some(n) => n,
        None => 0,
    }
}

/// Reads an integer member; zero where there is none.
fn read_id(j: &Json, name: &str) -> (r: i64)
    ensures
        r == id_or_zero(*j, name@),
{
    match j.get_i64(name) {
        Some(n) => n,
        None => 0,
    }
}

/// The listed page is one that the scope covers. One without an id never is.
pub open spec fn covers(scope: EmbedScope, page: Json) -> bool {
    id_or_zero(page, "id"@) != 0 && match scope {
        EmbedScope::Book(book) => id_or_zero(page, "book_id"@) == book,
        EmbedScope::Page(id) => id_or_zero(page, "id"@) == id,
        _ => true,
    }
}

/// Whether the scope covers the listed page.
pub fn scope_covers(scope: EmbedScope, page: &Json) -> (r: bool)
    ensures
        r == covers(scope, *page),
{
    let id: i64 = read_id(page, "id");
    if id == 0 {
        return false;
    }
    match scope {
        EmbedScope::Book(book) => read_id(page, "book_id") == book,
        EmbedScope::Page(target) => id == target,
        _ => true,
    }
}

/// The ids of the covered pages among the first `n` listed ones.
pub open spec fn covered_ids(scope: EmbedScope, rows: Seq<Json>, n: int) -> Seq<i64>
    decreases n,
{
    if n <= 0 {
        Seq::empty()
    } else {
        let before = covered_ids(scope, rows, n - 1);
        if covers(scope, rows[n - 1]) {
            before.push(id_or_zero(rows[n - 1], "id"@))
        } else {
            before
        }
    }
}

/// The pages to embed, collected from the pages of a listing.
pub struct PageScan {
    pub ids: Vec<i64>,
    /// Where the next page of the listing begins.
    pub offset: i64,
}

/// The entries that a page of a listing holds.
pub open spec fn listed(list: Json) -> Seq<Json> {
    json::items_of(json::member(list, "data"@))
}

/// The stated size of a listing; as large as can be where none is stated.
pub open spec fn stated_total(list: Json) -> i64 {
    match json::int_of(json::member(list, "total"@)) {
        Some(n) => n,
        None => i64::MAX,
    }
}

impl PageScan {
    /// Nothing is collected yet.
    pub fn new() -> (r: Self)
        ensures
            r.ids@ == Seq::<i64>::empty(),
            r.offset == 0,
    {
        PageScan { ids: Vec::new(), offset: 0 }
    }

    /// Takes a page of the listing in and tells whether there may be another.
    /// The next one begins behind the entries that came, however many were
    /// asked for.
    pub fn accept(&mut self, scope: EmbedScope, list: &Json) -> (more: bool)
        requires
            0 <= old(self).offset,
            old(self).offset + listed(*list).len() <= i64::MAX,
        ensures
            final(self).ids@ == old(self).ids@ + covered_ids(
                scope,
                listed(*list),
                listed(*list).len() as int,
            ),
            final(self).offset == old(self).offset + listed(*list).len(),
            more == (listed(*list).len() > 0 && final(self).offset < stated_total(*list)),
    {
        match list.get_items("data") {
            None => {
                assert(covered_ids(scope, listed(*list), 0) =~= Seq::<i64>::empty());
                assert(self.ids@ =~= old(self).ids@ + Seq::<i64>::empty());
                false
            },
            Some(rows) => {
                let total: usize = rows.len();
                let mut i: usize = 0;
                assert(self.ids@ =~= old(self).ids@ + Seq::<i64>::empty());
                while i < total
                    invariant
                        i <= total,
                        total == rows@.len(),
                        self.offset == old(self).offset,
                        self.ids@ == old(self).ids@ + covered_ids(scope, rows@, i as int),
                    decreases total - i,
                {
                    if scope_covers(scope, &rows[i]) {
                        let id: i64 = read_id(&rows[i], "id");
                        self.ids.push(id);
                    }
                    assert(self.ids@ =~= old(self).ids@ + covered_ids(scope, rows@, i + 1));
                    i += 1;
                }
                self.offset = self.offset + total as i64;
                let stated: i64 = match list.get_i64("total") {
                    Some(n) => n,
                    None => i64::MAX,
                };
                total > 0 && self.offset < stated
            },
        }
    }
}

/// A listed page is collected exactly if the scope covers it.
pub proof fn law_scan_collects_covered_pages(scope: EmbedScope, rows: Seq<Json>, n: int, id: i64)
    requires
        0 <= n <= rows.len(),
    ensures
        covered_ids(scope, rows, n).contains(id) <==> exists|i: int|
            0 <= i < n && covers(scope, #[trigger] rows[i]) && id_or_zero(rows[i], "id"@) == id,
    decreases n,
{
    if n > 0 {
        law_scan_collects_covered_pages(scope, rows, n - 1, id);
        let before = covered_ids(scope, rows, n - 1);
        let last = rows[n - 1];
        if covers(scope, last) {
            let after = before.push(id_or_zero(last, "id"@));
            if after.contains(id) {
                let k = choose|k: int| 0 <= k < after.len() && after[k] == id;
                if k < before.len() {
                    assert(before[k] == id);
                }
            }
            if before.contains(id) {
                let k = choose|k: int| 0 <= k < before.len() && before[k] == id;
                assert(after[k] == id);
            }
            if id_or_zero(last, "id"@) == id {
                assert(after[before.len() as int] == id);
            }
        }
    }
}

// --- Shelves ---

/// Pairs of an id and a text.
pub open spec fn labelled(v: Seq<(i64, String)>) -> Seq<(i64, Seq<char>)> {
    Seq::new(v.len(), |i: int| (v[i].0, v[i].1@))
}

/// The shelves among the first `n` listed ones that have an id and a name.
pub open spec fn named_shelves(rows: Seq<Json>, n: int) -> Seq<(i64, Seq<char>)>
    decreases n,
{
    if n <= 0 {
        Seq::empty()
    } else {
        let before = named_shelves(rows, n - 1);
        let id = id_or_zero(rows[n - 1], "id"@);
        let name = worker::field_text(rows[n - 1], "name"@);
        if id != 0 && name.len() > 0 {
            before.push((id, name))
        } else {
            before
        }
    }
}

/// Reads the shelves of a listing that have an id and a name.
pub fn list_named_shelves(list: &Json) -> (r: Vec<(i64, String)>)
    ensures
        labelled(r@) == named_shelves(listed(*list), listed(*list).len() as int),
{
    let mut out: Vec<(i64, String)> = Vec::new();
    match list.get_items("data") {
        None => {},
        Some(rows) => {
            let mut i: usize = 0;
            assert(labelled(out@) =~= named_shelves(rows@, 0));
            while i < rows.len()
                invariant
                    i <= rows@.len(),
                    labelled(out@) == named_shelves(rows@, i as int),
                decreases rows@.len() - i,
            {
                let id: i64 = read_id(&rows[i], "id");
                let name = string_field(&rows[i], "name");
                let chars = chars_of(name.as_str());
                if id != 0 && chars.len() > 0 {
                    out.push((id, name));
                }
                assert(labelled(out@) =~= named_shelves(rows@, i + 1));
                i += 1;
            }
        },
    }
    assert(labelled(out@) =~= named_shelves(listed(*list), listed(*list).len() as int));
    out
}

/// The shelf names by book, after the first `n` books of one more shelf. A book
/// that is on several shelves has the name of the one that came last.
pub open spec fn with_books(
    names: Map<i64, Seq<char>>,
    books: Seq<Json>,
    n: int,
    shelf: Seq<char>,
) -> Map<i64, Seq<char>>
    decreases n,
{
    if n <= 0 {
        names
    } else {
        let before = with_books(names, books, n - 1, shelf);
        let id = id_or_zero(books[n - 1], "id"@);
        if id > 0 {
            before.insert(id, shelf)
        } else {
            before
        }
    }
}

/// The shelf that each book stands on.
pub struct ShelfLookup {
    pub by_book: HashMap<i64, String>,
    /// Where the next page of the listing of shelves begins.
    pub offset: i64,
}

impl ShelfLookup {
    /// The shelf names by book.
    pub open spec fn names(self) -> Map<i64, Seq<char>> {
        self.by_book@.map_values(|s: String| s@)
    }

    /// No shelf is known yet.
    pub fn new() -> (r: Self)
        ensures
            r.names() == Map::<i64, Seq<char>>::empty(),
            r.offset == 0,
    {
        let r = ShelfLookup { by_book: HashMap::new(), offset: 0 };
        assert(r.names() =~= Map::<i64, Seq<char>>::empty());
        r
    }

    /// Takes the books of a shelf in.
    pub fn add_shelf(&mut self, name: &str, shelf: &Json)
        ensures
            final(self).names() == with_books(
                old(self).names(),
                json::items_of(json::member(*shelf, "books"@)),
                json::items_of(json::member(*shelf, "books"@)).len() as int,
                name@,
            ),
            final(self).offset == old(self).offset,
    {
        broadcast use vstd::std_specs::hash::group_hash_axioms;

        match shelf.get_items("books") {
            None => {},
            Some(books) => {
                let mut i: usize = 0;
                while i < books.len()
                    invariant
                        i <= books@.len(),
                        self.offset == old(self).offset,
                        self.names() == with_books(old(self).names(), books@, i as int, name@),
                    decreases books@.len() - i,
                {
                    broadcast use vstd::std_specs::hash::group_hash_axioms;

                    let ghost before = self.names();
                    let id: i64 = read_id(&books[i], "id");
                    if id > 0 {
                        let label = name.to_owned();
                        self.by_book.insert(id, label);
                        assert(self.names() =~= before.insert(id, name@));
                    }
                    i += 1;
                }
            },
        }
    }

    /// Goes on to the next page of the listing and tells whether there may be
    /// one. The listing is read a hundred shelves at a time.
    pub fn next_page(&mut self, list: &Json) -> (more: bool)
        requires
            old(self).offset <= i64::MAX - 100,
        ensures
            final(self).names() == old(self).names(),
            more == (listed(*list).len() > 0 && old(self).offset + 100 < id_or_zero(
                *list,
                "total"@,
            )),
            final(self).offset == if listed(*list).len() > 0 {
                old(self).offset + 100
            } else {
                old(self).offset as int
            },
    {
        match list.get_items("data") {
            None => false,
            Some(rows) => {
                if rows.len() == 0 {
                    return false;
                }
                self.offset = self.offset + 100;
                self.offset < read_id(list, "total")
            },
        }
    }

    /// The name of a book's shelf; empty where it is on none.
    pub fn shelf_of<'a>(&'a self, book_id: i64) -> (r: &'a str)
        ensures
            r@ == shelf_name(self.names(), book_id),
    {
        broadcast use vstd::std_specs::hash::group_hash_axioms;

        match self.by_book.get(&book_id) {
            Some(name) => name.as_str(),
            None => {
                proof {
                    reveal_strlit("");
                    assert(""@ =~= Seq::<char>::empty());
                }
                ""
            },
        }
    }
}

/// The name of a book's shelf; empty where it is on none.
pub open spec fn shelf_name(names: Map<i64, Seq<char>>, book_id: i64) -> Seq<char> {
    if names.contains_key(book_id) {
        names[book_id]
    } else {
        Seq::empty()
    }
}

/// Every book of a shelf gets the shelf's name, and no other book's changes.
pub proof fn law_shelf_names_its_books(
    names: Map<i64, Seq<char>>,
    books: Seq<Json>,
    n: int,
    shelf: Seq<char>,
    book: i64,
)
    requires
        0 <= n <= books.len(),
    ensures
        shelf_name(with_books(names, books, n, shelf), book) == if exists|i: int|
            0 <= i < n && book > 0 && id_or_zero(#[trigger] books[i], "id"@) == book {
            shelf
        } else {
            shelf_name(names, book)
        },
    decreases n,
{
    if n > 0 {
        law_shelf_names_its_books(names, books, n - 1, shelf, book);
        let id = id_or_zero(books[n - 1], "id"@);
        if book > 0 && (exists|i: int|
            0 <= i < n - 1 && book > 0 && id_or_zero(#[trigger] books[i], "id"@) == book) {
            let i = choose|i: int|
                0 <= i < n - 1 && book > 0 && id_or_zero(#[trigger] books[i], "id"@) == book;
            assert(0 <= i < n && id_or_zero(books[i], "id"@) == book);
        }
    }
}

// --- Pages ---

/// The non-empty texts among the first `n`.
pub open spec fn non_empty(parts: Seq<Seq<char>>) -> Seq<Seq<char>> {
    parts.filter(|p: Seq<char>| p.len() > 0)
}

/// Where a page stands, as it is put before each of its chunks: the names of
/// its shelf, book and chapter as far as it has them, and its own.
pub open spec fn context_of(
    shelf: Seq<char>,
    book: Seq<char>,
    chapter: Seq<char>,
    page: Seq<char>,
) -> Seq<char> {
    "["@ + text::join_with(non_empty(seq![shelf, book, chapter]).push(page), " > "@) + "]\n\n"@
}

proof fn lemma_non_empty_parts(shelf: Seq<char>, book: Seq<char>, chapter: Seq<char>)
    ensures
        non_empty(seq![shelf, book, chapter]) == only(shelf) + only(book) + only(chapter),
{
    let keep = |p: Seq<char>| p.len() > 0;
    reveal(Seq::filter);
    let three = seq![shelf, book, chapter];
    let two = seq![shelf, book];
    let one = seq![shelf];
    assert(three.drop_last() =~= two);
    assert(two.drop_last() =~= one);
    assert(one.drop_last() =~= Seq::<Seq<char>>::empty());
    assert(Seq::<Seq<char>>::empty().filter(keep) =~= Seq::<Seq<char>>::empty());
    assert(one.filter(keep) =~= only(shelf));
    assert(two.filter(keep) =~= only(shelf) + only(book));
    assert(three.filter(keep) =~= only(shelf) + only(book) + only(chapter));
}

/// The text alone, or nothing where it is empty.
spec fn only(s: Seq<char>) -> Seq<Seq<char>> {
    if s.len() > 0 {
        seq![s]
    } else {
        Seq::empty()
    }
}

/// Adds a text that is not empty.
fn push_part(parts: &mut Vec<Vec<char>>, part: &str)
    ensures
        text::texts(final(parts)@) == text::texts(old(parts)@) + only(part@),
{
    let chars = chars_of(part);
    if chars.len() > 0 {
        parts.push(chars);
    }
    assert(text::texts(parts@) =~= text::texts(old(parts)@) + only(part@));
}

/// Writes where a page stands.
pub fn context_prefix(shelf: &str, book: &str, chapter: &str, page: &str) -> (r: String)
    ensures
        r@ == context_of(shelf@, book@, chapter@, page@),
{
    let mut parts: Vec<Vec<char>> = Vec::new();
    assert(text::texts(parts@) =~= Seq::<Seq<char>>::empty());
    push_part(&mut parts, shelf);
    push_part(&mut parts, book);
    push_part(&mut parts, chapter);
    proof {
        lemma_non_empty_parts(shelf@, book@, chapter@);
        assert(text::texts(parts@) =~= non_empty(seq![shelf@, book@, chapter@]));
    }
    let ghost named = text::texts(parts@);
    parts.push(chars_of(page));
    assert(text::texts(parts@) =~= named.push(page@));
    let arrow = chars_of(" > ");
    let path = text::join_chars(parts.as_slice(), arrow.as_slice());
    let mut out = String::new();
    out.append("[");
    out.append(string_of(path.as_slice()).as_str());
    out.append("]\n\n");
    assert(out@ =~= context_of(shelf@, book@, chapter@, page@));
    out
}

/// What is stored of a page besides its chunks.
#[verifier::ext_equal]
pub struct MetaModel {
    pub page_id: i64,
    pub book_id: i64,
    pub chapter_id: Option<i64>,
    pub name: Seq<char>,
    pub slug: Seq<char>,
    pub content_hash: Seq<char>,
    pub updated_at: Option<Seq<char>>,
}

/// What a page's row holds.
pub open spec fn meta_model(m: PageMeta) -> MetaModel {
    MetaModel {
        page_id: m.page_id,
        book_id: m.book_id,
        chapter_id: m.chapter_id,
        name: m.name@,
        slug: m.slug@,
        content_hash: m.content_hash@,
        updated_at: text::opt_text(m.updated_at),
    }
}

/// The row for a page as the wiki gives it. Its digest is that of its markup.
pub open spec fn meta_of(page_id: i64, page: Json) -> MetaModel {
    MetaModel {
        page_id,
        book_id: id_or_zero(page, "book_id"@),
        chapter_id: match json::int_of(json::member(page, "chapter_id"@)) {
            Some(id) => if id > 0 {
                Some(id)
            } else {
                None
            },
            None => None,
        },
        name: worker::field_text(page, "name"@),
        slug: worker::field_text(page, "slug"@),
        content_hash: crypto::sha256_text(worker::field_text(page, "html"@)),
        updated_at: json::text_of(json::member(page, "updated_at"@)),
    }
}

/// Reads the row for a page.
pub fn read_meta(page_id: i64, page: &Json) -> (r: PageMeta)
    ensures
        meta_model(r) == meta_of(page_id, *page),
        r.content_hash@.len() == 64,
{
    let html = string_field(page, "html");
    let chapter_id: Option<i64> = match page.get_i64("chapter_id") {
        Some(id) => if id > 0 {
            Some(id)
        } else {
            None
        },
        None => None,
    };
    PageMeta {
        page_id,
        book_id: read_id(page, "book_id"),
        chapter_id,
        name: string_field(page, "name"),
        slug: string_field(page, "slug"),
        content_hash: sha256_hex(html.as_str()),
        updated_at: match page.get_str("updated_at") {
            Some(s) => Some(s.to_owned()),
            None => None,
        },
    }
}

/// The row that is stored before the chunks are: without a digest, so that a
/// page whose chunks were not all stored is taken for changed.
pub fn preliminary_meta(meta: &PageMeta) -> (r: PageMeta)
    ensures
        meta_model(r) == (MetaModel { content_hash: Seq::empty(), ..meta_model(*meta) }),
{
    PageMeta {
        page_id: meta.page_id,
        book_id: meta.book_id,
        chapter_id: meta.chapter_id,
        name: meta.name.as_str().to_owned(),
        slug: meta.slug.as_str().to_owned(),
        content_hash: String::new(),
        updated_at: match &meta.updated_at {
            Some(s) => Some(s.as_str().to_owned()),
            None => None,
        },
    }
}

/// The name in a page's nested value; empty where there is none.
pub open spec fn nested_name(page: Json, part: Seq<char>) -> Seq<char> {
    match json::text_of(json::member_opt(json::member(page, part), "name"@)) {
        Some(t) => t,
        None => Seq::empty(),
    }
}

/// Reads the name in a nested value.
fn read_nested_name(page: &Json, part: &str) -> (r: String)
    ensures
        r@ == nested_name(*page, part@),
{
    match page.get(part) {
        Some(inner) => string_field(inner, "name"),
        None => String::new(),
    }
}

/// The texts that are embedded: each chunk behind the page's context.
pub open spec fn embedded_texts(context: Seq<char>, chunks: Seq<chunking::ChunkModel>) -> Seq<
    Seq<char>,
> {
    Seq::new(chunks.len(), |i: int| context + chunks[i].content)
}

/// Writes the texts that are embedded.
pub fn texts_to_embed(context: &str, chunks: &Vec<Chunk>) -> (r: Vec<String>)
    ensures
        text::string_texts(r@) == embedded_texts(context@, chunking::chunk_models(chunks@)),
{
    let mut out: Vec<String> = Vec::new();
    let mut i: usize = 0;
    while i < chunks.len()
        invariant
            i <= chunks@.len(),
            out@.len() == i,
            forall|j: int|
                0 <= j < i ==> (#[trigger] out@[j])@ == context@ + chunks@[j].content@,
        decreases chunks@.len() - i,
    {
        let mut t = String::new();
        t.append(context);
        t.append(chunks[i].content.as_str());
        assert(t@ =~= context@ + chunks@[i as int].content@);
        out.push(t);
        i += 1;
    }
    assert(text::string_texts(out@) =~= embedded_texts(
        context@,
        chunking::chunk_models(chunks@),
    ));
    out
}

/// A page that a link leads to.
#[derive(Debug)]
pub enum LinkTarget {
    /// The page with this slug, which is looked up.
    Slug(String),
    Page(i64),
}

/// A page that a link leads to.
pub enum TargetModel {
    Slug(Seq<char>),
    Page(i64),
}

impl LinkTarget {
    /// What the target says.
    pub open spec fn model(self) -> TargetModel {
        match self {
            LinkTarget::Slug(s) => TargetModel::Slug(s@),
            LinkTarget::Page(id) => TargetModel::Page(id),
        }
    }
}

/// What the targets say.
pub open spec fn target_models(v: Seq<LinkTarget>) -> Seq<TargetModel> {
    Seq::new(v.len(), |i: int| v[i].model())
}

/// The page that a link leads to: what follows the last `/page/` is a slug, and
/// what follows `/link/` at the start is an id.
pub open spec fn target_of(link: Seq<char>) -> Option<TargetModel> {
    if text::contains(link, "/page/"@) {
        Some(TargetModel::Slug(text::after_last(link, "/page/"@)))
    } else if text::starts_with(link, "/link/"@) {
        match text::parsed_i64(link.skip("/link/"@.len() as int)) {
            Some(id) => Some(TargetModel::Page(id as i64)),
            None => None,
        }
    } else {
        None
    }
}

/// Reads the page that a link leads to.
pub fn link_target(link: &str) -> (r: Option<LinkTarget>)
    ensures
        match r {
            Some(t) => target_of(link@) == Some(t.model()),
            None => target_of(link@) is None,
        },
{
    let chars = chars_of(link);
    let page = chars_of("/page/");
    let short = chars_of("/link/");
    if contains_chars(chars.as_slice(), page.as_slice()) {
        let slug = after_last_chars(chars.as_slice(), page.as_slice());
        Some(LinkTarget::Slug(string_of(slug)))
    } else if starts_with_chars(chars.as_slice(), short.as_slice()) {
        match parse_after(chars.as_slice(), short.as_slice()) {
            Some(id) => Some(LinkTarget::Page(id)),
            None => None,
        }
    } else {
        None
    }
}

/// The pages that the first `n` links lead to.
pub open spec fn targets_of(links: Seq<Seq<char>>, n: int) -> Seq<TargetModel>
    decreases n,
{
    if n <= 0 {
        Seq::empty()
    } else {
        let before = targets_of(links, n - 1);
        match target_of(links[n - 1]) {
            Some(t) => before.push(t),
            None => before,
        }
    }
}

/// Reads the pages that a page links to.
pub fn linked_pages(html: &str) -> (r: Vec<LinkTarget>)
    ensures
        target_models(r@) == targets_of(
            chunking::links_from(html@, 0),
            chunking::links_from(html@, 0).len() as int,
        ),
{
    let links = extract_links(html);
    let ghost all = text::string_texts(links@);
    let mut out: Vec<LinkTarget> = Vec::new();
    let mut i: usize = 0;
    assert(target_models(out@) =~= targets_of(all, 0));
    while i < links.len()
        invariant
            i <= links@.len(),
            all == text::string_texts(links@),
            target_models(out@) == targets_of(all, i as int),
        decreases links@.len() - i,
    {
        match link_target(links[i].as_str()) {
            Some(t) => {
                out.push(t);
            },
            None => {},
        }
        assert(target_models(out@) =~= targets_of(all, i + 1));
        i += 1;
    }
    out
}

/// The id that a target stands for, given what looking its slug up found.
pub open spec fn resolved_target(target: TargetModel, found: Option<i64>) -> Option<i64> {
    match target {
        TargetModel::Slug(_) => found,
        TargetModel::Page(id) => Some(id),
    }
}

/// The ids of the first `n` targets as far as they have one.
pub open spec fn resolved_targets(
    targets: Seq<TargetModel>,
    found: Seq<Option<i64>>,
    n: int,
) -> Seq<i64>
    decreases n,
{
    if n <= 0 {
        Seq::empty()
    } else {
        let before = resolved_targets(targets, found, n - 1);
        match resolved_target(
            targets[n - 1],
            if n <= found.len() {
                found[n - 1]
            } else {
                None
            },
        ) {
            Some(id) => before.push(id),
            None => before,
        }
    }
}

/// The ids of the linked pages, given what looking up the slug of each target
/// found. A slug that was not found, or not looked up, leads nowhere.
pub fn resolve_links(targets: &Vec<LinkTarget>, found: &Vec<Option<i64>>) -> (r: Vec<i64>)
    ensures
        r@ == resolved_targets(target_models(targets@), found@, targets@.len() as int),
{
    let ghost models = target_models(targets@);
    let mut out: Vec<i64> = Vec::new();
    let mut i: usize = 0;
    while i < targets.len()
        invariant
            i <= targets@.len(),
            models == target_models(targets@),
            out@ == resolved_targets(models, found@, i as int),
        decreases targets@.len() - i,
    {
        match &targets[i] {
            LinkTarget::Page(id) => {
                out.push(*id);
            },
            LinkTarget::Slug(_) => {
                if i < found.len() {
                    match found[i] {
                        Some(id) => {
                            out.push(id);
                        },
                        None => {},
                    }
                }
            },
        }
        i += 1;
    }
    out
}

/// What is to be done for a page.
#[derive(Debug)]
pub enum PageWork {
    /// Nothing: it is stored as it is.
    Unchanged,
    /// It has no text to embed: store its row.
    StoreRow(PageMeta),
    /// Embed the texts; then store the row without its digest, the chunks, the
    /// links and the row.
    Embed(PagePlan),
}

/// What is stored of a page that is embedded.
#[derive(Debug)]
pub struct PagePlan {
    pub meta: PageMeta,
    pub chunks: Vec<Chunk>,
    /// What is embedded, one text for each chunk.
    pub texts: Vec<String>,
    pub links: Vec<LinkTarget>,
}

/// The stored digest is that of the page as it is now.
pub open spec fn up_to_date(stored_hash: Option<Seq<char>>, meta: MetaModel) -> bool {
    stored_hash == Some(meta.content_hash)
}

/// The chunks of a page.
pub open spec fn chunks_of_page(page: Json) -> Seq<chunking::ChunkModel> {
    chunking::page_chunks(
        worker::field_text(page, "html"@),
        Some(worker::field_text(page, "name"@)),
    )
}

/// The plan is the one for the page, which stands on the named shelf.
pub open spec fn is_plan_for(plan: PagePlan, page_id: i64, page: Json, shelf: Seq<char>) -> bool {
    let links = chunking::links_from(worker::field_text(page, "html"@), 0);
    &&& meta_model(plan.meta) == meta_of(page_id, page)
    &&& chunking::chunk_models(plan.chunks@) == chunks_of_page(page)
    &&& text::string_texts(plan.texts@) == embedded_texts(
        context_of(
            shelf,
            nested_name(page, "book"@),
            nested_name(page, "chapter"@),
            worker::field_text(page, "name"@),
        ),
        chunks_of_page(page),
    )
    &&& target_models(plan.links@) == targets_of(links, links.len() as int)
}

/// Decides what is to be done for a page. Unless it is forced, a page whose
/// digest is the stored one is left alone.
pub fn plan_page(
    page_id: i64,
    page: &Json,
    shelf: &str,
    force: bool,
    stored_hash: Option<&str>,
) -> (r: PageWork)
    ensures
        match r {
            PageWork::Unchanged => !force && up_to_date(
                text::opt_str(stored_hash),
                meta_of(page_id, *page),
            ),
            PageWork::StoreRow(meta) => {
                &&& force || !up_to_date(text::opt_str(stored_hash), meta_of(page_id, *page))
                &&& chunks_of_page(*page).len() == 0
                &&& meta_model(meta) == meta_of(page_id, *page)
            },
            PageWork::Embed(plan) => {
                &&& force || !up_to_date(text::opt_str(stored_hash), meta_of(page_id, *page))
                &&& chunks_of_page(*page).len() > 0
                &&& is_plan_for(plan, page_id, *page, shelf@)
            },
        },
{
    let meta = read_meta(page_id, page);
    if !force {
        match stored_hash {
            Some(stored) => {
                if same_text(stored, meta.content_hash.as_str()) {
                    return PageWork::Unchanged;
                }
            },
            None => {},
        }
    }
    let html = string_field(page, "html");
    let name = string_field(page, "name");
    let chunks = chunk_html_with_name(html.as_str(), Some(name.as_str()));
    assert(chunking::chunk_models(chunks@).len() == chunks@.len());
    if chunks.len() == 0 {
        return PageWork::StoreRow(meta);
    }
    let book = read_nested_name(page, "book");
    let chapter = read_nested_name(page, "chapter");
    let context = context_prefix(shelf, book.as_str(), chapter.as_str(), name.as_str());
    let texts = texts_to_embed(context.as_str(), &chunks);
    let links = linked_pages(html.as_str());
    PageWork::Embed(PagePlan { meta, chunks, texts, links })
}

/// One write for a page that is embedded.
#[derive(Debug)]
pub enum PageWrite {
    Row(PageMeta),
    Chunks,
    Links,
}

/// A write with its row as text.
pub enum WriteModel {
    Row(MetaModel),
    Chunks,
    Links,
}

impl PageWrite {
    pub open spec fn model(self) -> WriteModel {
        match self {
            PageWrite::Row(meta) => WriteModel::Row(meta_model(meta)),
            PageWrite::Chunks => WriteModel::Chunks,
            PageWrite::Links => WriteModel::Links,
        }
    }
}

/// The writes for a page, in order: its row without the digest, its chunks, its
/// links, and at last its row.
pub open spec fn writes_for(meta: MetaModel) -> Seq<WriteModel> {
    seq![
        WriteModel::Row(MetaModel { content_hash: Seq::empty(), ..meta }),
        WriteModel::Chunks,
        WriteModel::Links,
        WriteModel::Row(meta),
    ]
}

/// Lists the writes for a page, in the order in which they are to be made.
pub fn page_writes(meta: PageMeta) -> (r: Vec<PageWrite>)
    ensures
        r@.map_values(|w: PageWrite| w.model()) == writes_for(meta_model(meta)),
{
    let mut writes: Vec<PageWrite> = Vec::new();
    writes.push(PageWrite::Row(preliminary_meta(&meta)));
    writes.push(PageWrite::Chunks);
    writes.push(PageWrite::Links);
    writes.push(PageWrite::Row(meta));
    assert(writes@.map_values(|w: PageWrite| w.model()) =~= writes_for(meta_model(meta)));
    writes
}

/// The digest that is stored for a page after the first `n` writes.
pub open spec fn hash_after(
    stored_hash: Option<Seq<char>>,
    writes: Seq<WriteModel>,
    n: int,
) -> Option<Seq<char>>
    decreases n,
{
    if n <= 0 {
        stored_hash
    } else {
        match writes[n - 1] {
            WriteModel::Row(meta) => Some(meta.content_hash),
            _ => hash_after(stored_hash, writes, n - 1),
        }
    }
}

/// A page whose writes were interrupted is embedded again: it counts as up to
/// date once all of them were made, and before that from the first one on it does
/// not. (A digest has 64 digits.)
pub proof fn law_interrupted_page_is_done_again(
    stored_hash: Option<Seq<char>>,
    meta: MetaModel,
    n: int,
)
    requires
        meta.content_hash.len() == 64,
        0 < n <= writes_for(meta).len(),
    ensures
        up_to_date(hash_after(stored_hash, writes_for(meta), n), meta) <==> n == writes_for(
            meta,
        ).len(),
{
    let writes = writes_for(meta);
    assert(writes.len() == 4);
    assert(hash_after(stored_hash, writes, 1) == Some(Seq::<char>::empty()));
    assert(hash_after(stored_hash, writes, 2) == hash_after(stored_hash, writes, 1));
    assert(hash_after(stored_hash, writes, 3) == hash_after(stored_hash, writes, 2));
    assert(hash_after(stored_hash, writes, 4) == Some(meta.content_hash));
}

} // verus!
