//! The directory tree of the indexed wiki: shelves, books, chapters and pages,
//! rooted anywhere and cut off at any depth.

use crate::index::{IndexedBook, IndexedChapter, IndexedPage, IndexedShelf};
use crate::text;
use crate::text::decimal_int_string;
use vstd::prelude::*;
use vstd::string::StringExecFns;

verus! {

/// Where a directory tree is rooted.
#[derive(Clone, Copy, Debug, PartialEq, Eq, Structural)]
pub enum DirectoryScope {
    /// Every shelf, and the books without a shelf under a shelf of their own.
    All,
    Shelf(i64),
    Book(i64),
    Chapter(i64),
}

/// The level of a node.
#[derive(Clone, Copy, Debug, PartialEq, Eq, Structural)]
pub enum DirectoryNodeKind {
    Shelf,
    Book,
    Chapter,
    Page,
}

impl DirectoryNodeKind {
    /// The name of the level.
    pub fn as_str(self) -> (r: &'static str)
        ensures
            r@ == match self {
                DirectoryNodeKind::Shelf => "shelf"@,
                DirectoryNodeKind::Book => "book"@,
                DirectoryNodeKind::Chapter => "chapter"@,
                DirectoryNodeKind::Page => "page"@,
            },
    {
        match self {
            DirectoryNodeKind::Shelf => "shelf",
            DirectoryNodeKind::Book => "book",
            DirectoryNodeKind::Chapter => "chapter",
            DirectoryNodeKind::Page => "page",
        }
    }
}

/// One node of a directory tree. Pages have no children, nor has a node at
/// which the tree is cut off; only pages have a page kind.
#[derive(Debug)]
pub struct DirectoryNode {
    pub kind: DirectoryNodeKind,
    pub id: i64,
    pub name: String,
    pub slug: String,
    pub page_kind: Option<String>,
    pub children: Vec<DirectoryNode>,
}

/// The index, each table in the order in which children are shown.
pub struct IndexTables {
    pub shelves: Vec<IndexedShelf>,
    pub books: Vec<IndexedBook>,
    pub chapters: Vec<IndexedChapter>,
    pub pages: Vec<IndexedPage>,
}

// --- Depth ---

/// Children are shown.
pub open spec fn descends(depth: Option<u32>) -> bool {
    depth != Some(0u32)
}

/// The depth that is left for children.
pub open spec fn child_depth(depth: Option<u32>) -> Option<u32> {
    match depth {
        Some(d) => Some(
            if d > 0 {
                (d - 1) as u32
            } else {
                0
            },
        ),
        None => None,
    }
}

/// Tells whether a depth lets children be shown; no depth means no limit.
pub fn depth_allows_descent(depth: Option<u32>) -> (r: bool)
    ensures
        r == descends(depth),
{
    match depth {
        None => true,
        Some(d) => d > 0,
    }
}

/// The depth for the children of a node.
pub fn decrement_depth(depth: Option<u32>) -> (r: Option<u32>)
    ensures
        r == child_depth(depth),
{
    match depth {
        None => None,
        Some(d) => Some(d.saturating_sub(1)),
    }
}

// --- Rows below a node ---

/// The pages of a chapter, in the order of the table.
pub open spec fn pages_of_chapter(pages: Seq<IndexedPage>, chapter_id: i64) -> Seq<IndexedPage> {
    pages.filter(|p: IndexedPage| !p.deleted && p.chapter_id == Some(chapter_id))
}

/// The pages of a book that are in no chapter, in the order of the table.
pub open spec fn root_pages_of_book(pages: Seq<IndexedPage>, book_id: i64) -> Seq<IndexedPage> {
    pages.filter(|p: IndexedPage| !p.deleted && p.chapter_id is None && p.book_id == book_id)
}

/// The chapters of a book, in the order of the table.
pub open spec fn chapters_of_book(chapters: Seq<IndexedChapter>, book_id: i64) -> Seq<
    IndexedChapter,
> {
    chapters.filter(|c: IndexedChapter| !c.deleted && c.book_id == book_id)
}

/// The books of a shelf, or those without one, in the order of the table.
pub open spec fn books_of_shelf(books: Seq<IndexedBook>, shelf_id: Option<i64>) -> Seq<
    IndexedBook,
> {
    books.filter(|b: IndexedBook| !b.deleted && b.shelf_id == shelf_id)
}

/// The shelves, in the order of the table.
pub open spec fn live_shelves(shelves: Seq<IndexedShelf>) -> Seq<IndexedShelf> {
    shelves.filter(|s: IndexedShelf| !s.deleted)
}

// --- Nodes ---

/// The node shows the page.
pub open spec fn shows_page(node: DirectoryNode, page: IndexedPage) -> bool {
    &&& node.kind == DirectoryNodeKind::Page
    &&& node.id == page.page_id
    &&& node.name@ == page.name@
    &&& node.slug@ == page.slug@
    &&& text::opt_text(node.page_kind) == Some(page.page_kind.stored_name())
    &&& node.children@.len() == 0
}

/// The nodes show the pages, one each, from position `from` on.
pub open spec fn show_pages(nodes: Seq<DirectoryNode>, from: int, pages: Seq<IndexedPage>) -> bool {
    &&& nodes.len() == from + pages.len()
    &&& forall|i: int|
        0 <= i < pages.len() ==> shows_page(#[trigger] nodes[from + i], pages[i])
}

/// The node has the given level, id, name and slug, and no page kind.
pub open spec fn is_labelled(
    node: DirectoryNode,
    kind: DirectoryNodeKind,
    id: i64,
    name: Seq<char>,
    slug: Seq<char>,
) -> bool {
    &&& node.kind == kind
    &&& node.id == id
    &&& node.name@ == name
    &&& node.slug@ == slug
    &&& node.page_kind is None
}

/// The node shows the chapter with its pages.
pub open spec fn shows_chapter(
    node: DirectoryNode,
    chapter: IndexedChapter,
    depth: Option<u32>,
    tables: IndexTables,
) -> bool {
    &&& is_labelled(
        node,
        DirectoryNodeKind::Chapter,
        chapter.chapter_id,
        chapter.name@,
        chapter.slug@,
    )
    &&& if descends(depth) {
        show_pages(node.children@, 0, pages_of_chapter(tables.pages@, chapter.chapter_id))
    } else {
        node.children@.len() == 0
    }
}

/// The first nodes show the chapters, one each.
pub open spec fn show_chapters(
    nodes: Seq<DirectoryNode>,
    chapters: Seq<IndexedChapter>,
    depth: Option<u32>,
    tables: IndexTables,
) -> bool {
    &&& nodes.len() >= chapters.len()
    &&& forall|i: int|
        0 <= i < chapters.len() ==> shows_chapter(#[trigger] nodes[i], chapters[i], depth, tables)
}

/// The node shows the book: first its chapters, then the pages in none.
pub open spec fn shows_book(
    node: DirectoryNode,
    book: IndexedBook,
    depth: Option<u32>,
    tables: IndexTables,
) -> bool {
    &&& is_labelled(node, DirectoryNodeKind::Book, book.book_id, book.name@, book.slug@)
    &&& if descends(depth) {
        let chapters = chapters_of_book(tables.chapters@, book.book_id);
        &&& show_chapters(node.children@, chapters, child_depth(depth), tables)
        &&& show_pages(
            node.children@,
            chapters.len() as int,
            root_pages_of_book(tables.pages@, book.book_id),
        )
    } else {
        node.children@.len() == 0
    }
}

/// The nodes show the books, one each.
pub open spec fn show_books(
    nodes: Seq<DirectoryNode>,
    books: Seq<IndexedBook>,
    depth: Option<u32>,
    tables: IndexTables,
) -> bool {
    &&& nodes.len() == books.len()
    &&& forall|i: int|
        0 <= i < books.len() ==> shows_book(#[trigger] nodes[i], books[i], depth, tables)
}

/// The node shows the shelf with its books.
pub open spec fn shows_shelf(
    node: DirectoryNode,
    shelf: IndexedShelf,
    depth: Option<u32>,
    tables: IndexTables,
) -> bool {
    &&& is_labelled(node, DirectoryNodeKind::Shelf, shelf.shelf_id, shelf.name@, shelf.slug@)
    &&& if descends(depth) {
        show_books(
            node.children@,
            books_of_shelf(tables.books@, Some(shelf.shelf_id)),
            child_depth(depth),
            tables,
        )
    } else {
        node.children@.len() == 0
    }
}

/// The node stands for the books without a shelf.
pub open spec fn shows_unshelved(node: DirectoryNode, depth: Option<u32>, tables: IndexTables) -> bool {
    &&& is_labelled(node, DirectoryNodeKind::Shelf, 0, "Unshelved"@, "unshelved"@)
    &&& if descends(depth) {
        show_books(
            node.children@,
            books_of_shelf(tables.books@, None),
            child_depth(depth),
            tables,
        )
    } else {
        node.children@.len() == 0
    }
}

/// The nodes show the whole tree: every shelf, then the books without one,
/// where there are any.
pub open spec fn shows_all(nodes: Seq<DirectoryNode>, depth: Option<u32>, tables: IndexTables) -> bool {
    let shelves = live_shelves(tables.shelves@);
    let unshelved = books_of_shelf(tables.books@, None);
    &&& nodes.len() == shelves.len() + if unshelved.len() > 0 {
        1int
    } else {
        0
    }
    &&& forall|i: int|
        0 <= i < shelves.len() ==> shows_shelf(#[trigger] nodes[i], shelves[i], depth, tables)
    &&& unshelved.len() > 0 ==> shows_unshelved(nodes.last(), depth, tables)
}

// --- Building ---

/// A node for a page, from its id, name, slug and kind.
pub fn page_node(p: (i64, String, String, String)) -> (node: DirectoryNode)
    ensures
        node.kind == DirectoryNodeKind::Page,
        node.id == p.0,
        node.name == p.1,
        node.slug == p.2,
        node.page_kind == Some(p.3),
        node.children@.len() == 0,
{
    let (id, name, slug, page_kind) = p;
    DirectoryNode {
        kind: DirectoryNodeKind::Page,
        id,
        name,
        slug,
        page_kind: Some(page_kind),
        children: Vec::new(),
    }
}

/// A node for an indexed page.
fn indexed_page_node(page: &IndexedPage) -> (node: DirectoryNode)
    ensures
        shows_page(node, *page),
{
    page_node(
        (
            page.page_id,
            page.name.clone(),
            page.slug.clone(),
            page.page_kind.as_str().to_owned(),
        ),
    )
}

/// Filtering one row more.
proof fn lemma_filter_step<A>(s: Seq<A>, i: int, keep: spec_fn(A) -> bool)
    requires
        0 <= i < s.len(),
    ensures
        s.take(i + 1).filter(keep) == if keep(s[i]) {
            s.take(i).filter(keep).push(s[i])
        } else {
            s.take(i).filter(keep)
        },
{
    reveal(Seq::filter);
    assert(s.take(i + 1).drop_last() =~= s.take(i));
    assert(s.take(i + 1).last() == s[i]);
}

/// Filtering nothing.
proof fn lemma_filter_none<A>(s: Seq<A>, keep: spec_fn(A) -> bool)
    ensures
        s.take(0).filter(keep).len() == 0,
{
    reveal(Seq::filter);
}

/// The node of a chapter.
fn build_chapter_node(tables: &IndexTables, chapter: &IndexedChapter, depth: Option<u32>) -> (node:
    DirectoryNode)
    ensures
        shows_chapter(node, *chapter, depth, *tables),
{
    let mut children: Vec<DirectoryNode> = Vec::new();
    if depth_allows_descent(depth) {
        let id: i64 = chapter.chapter_id;
        let ghost keep = |p: IndexedPage| !p.deleted && p.chapter_id == Some(id);
        let ghost all = tables.pages@;
        let mut i: usize = 0;
        proof {
            lemma_filter_none(all, keep);
        }
        while i < tables.pages.len()
            invariant
                i <= tables.pages@.len(),
                all == tables.pages@,
                keep == (|p: IndexedPage| !p.deleted && p.chapter_id == Some(id)),
                show_pages(children@, 0, all.take(i as int).filter(keep)),
            decreases tables.pages@.len() - i,
        {
            let page = &tables.pages[i];
            proof {
                lemma_filter_step(all, i as int, keep);
            }
            let in_chapter = match page.chapter_id {
                Some(c) => c == id,
                None => false,
            };
            let ghost before = children@;
            let ghost rows = all.take(i as int).filter(keep);
            if !page.deleted && in_chapter {
                children.push(indexed_page_node(page));
                assert forall|k: int| 0 <= k < rows.len() + 1 implies shows_page(
                    #[trigger] children@[0 + k],
                    rows.push(*page)[k],
                ) by {
                    if k < rows.len() {
                        assert(shows_page(before[0 + k], rows[k]));
                    }
                }
            }
            i += 1;
        }
        assert(all.take(i as int) =~= all);
    }
    DirectoryNode {
        kind: DirectoryNodeKind::Chapter,
        id: chapter.chapter_id,
        name: chapter.name.clone(),
        slug: chapter.slug.clone(),
        page_kind: None,
        children,
    }
}

/// Adds the nodes of a book's chapters.
fn build_chapter_nodes(tables: &IndexTables, book_id: i64, depth: Option<u32>) -> (nodes: Vec<
    DirectoryNode,
>)
    ensures
        show_chapters(nodes@, chapters_of_book(tables.chapters@, book_id), depth, *tables),
        nodes@.len() == chapters_of_book(tables.chapters@, book_id).len(),
{
    let mut nodes: Vec<DirectoryNode> = Vec::new();
    let ghost keep = |c: IndexedChapter| !c.deleted && c.book_id == book_id;
    let ghost all = tables.chapters@;
    let mut i: usize = 0;
    proof {
        lemma_filter_none(all, keep);
    }
    while i < tables.chapters.len()
        invariant
            i <= tables.chapters@.len(),
            all == tables.chapters@,
            keep == (|c: IndexedChapter| !c.deleted && c.book_id == book_id),
            show_chapters(nodes@, all.take(i as int).filter(keep), depth, *tables),
            nodes@.len() == all.take(i as int).filter(keep).len(),
        decreases tables.chapters@.len() - i,
    {
        let chapter = &tables.chapters[i];
        proof {
            lemma_filter_step(all, i as int, keep);
        }
        let ghost before = nodes@;
        let ghost rows = all.take(i as int).filter(keep);
        if !chapter.deleted && chapter.book_id == book_id {
            nodes.push(build_chapter_node(tables, chapter, depth));
            assert forall|k: int| 0 <= k < rows.len() + 1 implies shows_chapter(
                #[trigger] nodes@[k],
                rows.push(*chapter)[k],
                depth,
                *tables,
            ) by {
                if k < rows.len() {
                    assert(shows_chapter(before[k], rows[k], depth, *tables));
                }
            }
        }
        i += 1;
    }
    assert(all.take(i as int) =~= all);
    nodes
}

/// Adds the nodes of a book's pages outside chapters.
fn push_root_pages(nodes: &mut Vec<DirectoryNode>, tables: &IndexTables, book_id: i64)
    ensures
        show_pages(
            final(nodes)@,
            old(nodes)@.len() as int,
            root_pages_of_book(tables.pages@, book_id),
        ),
        final(nodes)@.take(old(nodes)@.len() as int) == old(nodes)@,
{
    let ghost start = nodes@;
    let ghost keep = |p: IndexedPage|
        !p.deleted && p.chapter_id is None && p.book_id == book_id;
    let ghost all = tables.pages@;
    let mut i: usize = 0;
    proof {
        lemma_filter_none(all, keep);
        assert(nodes@.take(start.len() as int) =~= start);
    }
    while i < tables.pages.len()
        invariant
            i <= tables.pages@.len(),
            all == tables.pages@,
            keep == (|p: IndexedPage|
                !p.deleted && p.chapter_id is None && p.book_id == book_id),
            show_pages(nodes@, start.len() as int, all.take(i as int).filter(keep)),
            nodes@.take(start.len() as int) == start,
        decreases tables.pages@.len() - i,
    {
        let page = &tables.pages[i];
        proof {
            lemma_filter_step(all, i as int, keep);
        }
        let ghost before = nodes@;
        let ghost rows = all.take(i as int).filter(keep);
        if !page.deleted && page.chapter_id.is_none() && page.book_id == book_id {
            nodes.push(indexed_page_node(page));
            assert forall|k: int| 0 <= k < rows.len() + 1 implies shows_page(
                #[trigger] nodes@[start.len() + k],
                rows.push(*page)[k],
            ) by {
                if k < rows.len() {
                    assert(shows_page(before[start.len() + k], rows[k]));
                }
            }
            assert(nodes@.take(start.len() as int) =~= before.take(start.len() as int));
        }
        i += 1;
    }
    assert(all.take(i as int) =~= all);
}

/// The node of a book.
fn build_book_node(tables: &IndexTables, book: &IndexedBook, depth: Option<u32>) -> (node:
    DirectoryNode)
    ensures
        shows_book(node, *book, depth, *tables),
{
    let children: Vec<DirectoryNode> = if depth_allows_descent(depth) {
        let below = decrement_depth(depth);
        let mut nodes = build_chapter_nodes(tables, book.book_id, below);
        let ghost chapters = nodes@;
        push_root_pages(&mut nodes, tables, book.book_id);
        proof {
            let rows = chapters_of_book(tables.chapters@, book.book_id);
            assert forall|k: int| 0 <= k < rows.len() implies shows_chapter(
                #[trigger] nodes@[k],
                rows[k],
                below,
                *tables,
            ) by {
                assert(nodes@.take(chapters.len() as int)[k] == chapters[k]);
                assert(nodes@[k] == chapters[k]);
            }
        }
        nodes
    } else {
        Vec::new()
    };
    DirectoryNode {
        kind: DirectoryNodeKind::Book,
        id: book.book_id,
        name: book.name.clone(),
        slug: book.slug.clone(),
        page_kind: None,
        children,
    }
}

/// Tells whether two optional ids are the same.
fn same_id(a: Option<i64>, b: Option<i64>) -> (r: bool)
    ensures
        r == (a == b),
{
    match (a, b) {
        (Some(x), Some(y)) => x == y,
        (None, None) => true,
        _ => false,
    }
}

/// The nodes of a shelf's books, or of the books without a shelf.
fn build_shelf_children(tables: &IndexTables, shelf_id: Option<i64>, depth: Option<u32>) -> (nodes:
    Vec<DirectoryNode>)
    ensures
        show_books(nodes@, books_of_shelf(tables.books@, shelf_id), depth, *tables),
{
    let mut nodes: Vec<DirectoryNode> = Vec::new();
    let ghost keep = |b: IndexedBook| !b.deleted && b.shelf_id == shelf_id;
    let ghost all = tables.books@;
    let mut i: usize = 0;
    proof {
        lemma_filter_none(all, keep);
    }
    while i < tables.books.len()
        invariant
            i <= tables.books@.len(),
            all == tables.books@,
            keep == (|b: IndexedBook| !b.deleted && b.shelf_id == shelf_id),
            show_books(nodes@, all.take(i as int).filter(keep), depth, *tables),
        decreases tables.books@.len() - i,
    {
        let book = &tables.books[i];
        proof {
            lemma_filter_step(all, i as int, keep);
        }
        let ghost before = nodes@;
        let ghost rows = all.take(i as int).filter(keep);
        if !book.deleted && same_id(book.shelf_id, shelf_id) {
            nodes.push(build_book_node(tables, book, depth));
            assert forall|k: int| 0 <= k < rows.len() + 1 implies shows_book(
                #[trigger] nodes@[k],
                rows.push(*book)[k],
                depth,
                *tables,
            ) by {
                if k < rows.len() {
                    assert(shows_book(before[k], rows[k], depth, *tables));
                }
            }
        }
        i += 1;
    }
    assert(all.take(i as int) =~= all);
    nodes
}

/// The node of a shelf.
fn build_shelf_node(tables: &IndexTables, shelf: &IndexedShelf, depth: Option<u32>) -> (node:
    DirectoryNode)
    ensures
        shows_shelf(node, *shelf, depth, *tables),
{
    let children: Vec<DirectoryNode> = if depth_allows_descent(depth) {
        build_shelf_children(tables, Some(shelf.shelf_id), decrement_depth(depth))
    } else {
        Vec::new()
    };
    DirectoryNode {
        kind: DirectoryNodeKind::Shelf,
        id: shelf.shelf_id,
        name: shelf.name.clone(),
        slug: shelf.slug.clone(),
        page_kind: None,
        children,
    }
}

/// Tells whether some book has no shelf.
fn has_unshelved(tables: &IndexTables) -> (r: bool)
    ensures
        r == (books_of_shelf(tables.books@, None).len() > 0),
{
    let ghost keep = |b: IndexedBook| !b.deleted && b.shelf_id == None::<i64>;
    let ghost all = tables.books@;
    let mut found = false;
    let mut i: usize = 0;
    proof {
        lemma_filter_none(all, keep);
    }
    while i < tables.books.len()
        invariant
            i <= tables.books@.len(),
            all == tables.books@,
            keep == (|b: IndexedBook| !b.deleted && b.shelf_id == None::<i64>),
            found == (all.take(i as int).filter(keep).len() > 0),
        decreases tables.books@.len() - i,
    {
        proof {
            lemma_filter_step(all, i as int, keep);
        }
        if !tables.books[i].deleted && tables.books[i].shelf_id.is_none() {
            found = true;
        }
        i += 1;
    }
    assert(all.take(i as int) =~= all);
    found
}

/// The whole tree.
fn build_all(tables: &IndexTables, depth: Option<u32>) -> (nodes: Vec<DirectoryNode>)
    ensures
        shows_all(nodes@, depth, *tables),
{
    let mut nodes: Vec<DirectoryNode> = Vec::new();
    let ghost keep = |s: IndexedShelf| !s.deleted;
    let ghost all = tables.shelves@;
    let mut i: usize = 0;
    proof {
        lemma_filter_none(all, keep);
    }
    while i < tables.shelves.len()
        invariant
            i <= tables.shelves@.len(),
            all == tables.shelves@,
            keep == (|s: IndexedShelf| !s.deleted),
            nodes@.len() == all.take(i as int).filter(keep).len(),
            forall|k: int|
                0 <= k < nodes@.len() ==> shows_shelf(
                    #[trigger] nodes@[k],
                    all.take(i as int).filter(keep)[k],
                    depth,
                    *tables,
                ),
        decreases tables.shelves@.len() - i,
    {
        let shelf = &tables.shelves[i];
        proof {
            lemma_filter_step(all, i as int, keep);
        }
        let ghost before = nodes@;
        let ghost rows = all.take(i as int).filter(keep);
        if !shelf.deleted {
            nodes.push(build_shelf_node(tables, shelf, depth));
            assert forall|k: int| 0 <= k < rows.len() + 1 implies shows_shelf(
                #[trigger] nodes@[k],
                rows.push(*shelf)[k],
                depth,
                *tables,
            ) by {
                if k < rows.len() {
                    assert(shows_shelf(before[k], rows[k], depth, *tables));
                }
            }
        }
        i += 1;
    }
    assert(all.take(i as int) =~= all);
    if has_unshelved(tables) {
        let children: Vec<DirectoryNode> = if depth_allows_descent(depth) {
            build_shelf_children(tables, None, decrement_depth(depth))
        } else {
            Vec::new()
        };
        let ghost before = nodes@;
        nodes.push(
            DirectoryNode {
                kind: DirectoryNodeKind::Shelf,
                id: 0,
                name: "Unshelved".to_owned(),
                slug: "unshelved".to_owned(),
                page_kind: None,
                children,
            },
        );
        assert forall|k: int| 0 <= k < before.len() implies shows_shelf(
            #[trigger] nodes@[k],
            live_shelves(tables.shelves@)[k],
            depth,
            *tables,
        ) by {
            assert(nodes@[k] == before[k]);
        }
    }
    nodes
}

/// The first shelf with the given id that is not deleted, from position `i` on.
pub open spec fn find_shelf(shelves: Seq<IndexedShelf>, id: i64, i: int) -> Option<IndexedShelf>
    decreases shelves.len() - i,
{
    if i < 0 || i >= shelves.len() {
        None
    } else if shelves[i].shelf_id == id && !shelves[i].deleted {
        Some(shelves[i])
    } else {
        find_shelf(shelves, id, i + 1)
    }
}

/// The first book with the given id that is not deleted, from position `i` on.
pub open spec fn find_book(books: Seq<IndexedBook>, id: i64, i: int) -> Option<IndexedBook>
    decreases books.len() - i,
{
    if i < 0 || i >= books.len() {
        None
    } else if books[i].book_id == id && !books[i].deleted {
        Some(books[i])
    } else {
        find_book(books, id, i + 1)
    }
}

/// The first chapter with the given id that is not deleted, from position `i`
/// on.
pub open spec fn find_chapter(chapters: Seq<IndexedChapter>, id: i64, i: int) -> Option<
    IndexedChapter,
>
    decreases chapters.len() - i,
{
    if i < 0 || i >= chapters.len() {
        None
    } else if chapters[i].chapter_id == id && !chapters[i].deleted {
        Some(chapters[i])
    } else {
        find_chapter(chapters, id, i + 1)
    }
}

/// The error for a root that is not in the index.
fn not_found(kind: &str, id: i64) -> (r: String)
    ensures
        r@ == kind@ + " "@ + text::decimal_int(id as int) + " not found"@,
{
    let number = decimal_int_string(id);
    let mut e = String::new();
    e.append(kind);
    e.append(" ");
    e.append(number.as_str());
    e.append(" not found");
    assert(e@ =~= kind@ + " "@ + text::decimal_int(id as int) + " not found"@);
    e
}

/// The nodes show the tree with the given root.
pub open spec fn shows_tree(
    nodes: Seq<DirectoryNode>,
    scope: DirectoryScope,
    depth: Option<u32>,
    tables: IndexTables,
) -> bool {
    match scope {
        DirectoryScope::All => shows_all(nodes, depth, tables),
        DirectoryScope::Shelf(id) => nodes.len() == 1 && (find_shelf(
            tables.shelves@,
            id,
            0,
        ) matches Some(s) && shows_shelf(nodes[0], s, depth, tables)),
        DirectoryScope::Book(id) => nodes.len() == 1 && (find_book(
            tables.books@,
            id,
            0,
        ) matches Some(b) && shows_book(nodes[0], b, depth, tables)),
        DirectoryScope::Chapter(id) => nodes.len() == 1 && (find_chapter(
            tables.chapters@,
            id,
            0,
        ) matches Some(c) && shows_chapter(nodes[0], c, depth, tables)),
    }
}

/// Why there is no tree with the given root.
pub open spec fn tree_error(scope: DirectoryScope, tables: IndexTables) -> Option<Seq<char>> {
    match scope {
        DirectoryScope::All => None,
        DirectoryScope::Shelf(id) => if find_shelf(tables.shelves@, id, 0) is None {
            Some("shelf"@ + " "@ + text::decimal_int(id as int) + " not found"@)
        } else {
            None
        },
        DirectoryScope::Book(id) => if find_book(tables.books@, id, 0) is None {
            Some("book"@ + " "@ + text::decimal_int(id as int) + " not found"@)
        } else {
            None
        },
        DirectoryScope::Chapter(id) => if find_chapter(tables.chapters@, id, 0) is None {
            Some("chapter"@ + " "@ + text::decimal_int(id as int) + " not found"@)
        } else {
            None
        },
    }
}

/// Reads the directory tree below a root, down to the given depth; without one,
/// down to the pages. A depth of zero gives the root alone.
pub fn read_directory_tree(
    tables: &IndexTables,
    scope: DirectoryScope,
    depth: Option<u32>,
) -> (r: Result<Vec<DirectoryNode>, String>)
    ensures
        match r {
            Ok(nodes) => tree_error(scope, *tables) is None && shows_tree(
                nodes@,
                scope,
                depth,
                *tables,
            ),
            Err(e) => tree_error(scope, *tables) == Some(e@),
        },
{
    match scope {
        DirectoryScope::All => Ok(build_all(tables, depth)),
        DirectoryScope::Shelf(id) => {
            let mut i: usize = 0;
            while i < tables.shelves.len()
                invariant
                    i <= tables.shelves@.len(),
                    scope == DirectoryScope::Shelf(id),
                    find_shelf(tables.shelves@, id, 0) == find_shelf(
                        tables.shelves@,
                        id,
                        i as int,
                    ),
                decreases tables.shelves@.len() - i,
            {
                if tables.shelves[i].shelf_id == id && !tables.shelves[i].deleted {
                    let mut nodes: Vec<DirectoryNode> = Vec::new();
                    nodes.push(build_shelf_node(tables, &tables.shelves[i], depth));
                    return Ok(nodes);
                }
                i += 1;
            }
            Err(not_found("shelf", id))
        },
        DirectoryScope::Book(id) => {
            let mut i: usize = 0;
            while i < tables.books.len()
                invariant
                    i <= tables.books@.len(),
                    scope == DirectoryScope::Book(id),
                    find_book(tables.books@, id, 0) == find_book(tables.books@, id, i as int),
                decreases tables.books@.len() - i,
            {
                if tables.books[i].book_id == id && !tables.books[i].deleted {
                    let mut nodes: Vec<DirectoryNode> = Vec::new();
                    nodes.push(build_book_node(tables, &tables.books[i], depth));
                    return Ok(nodes);
                }
                i += 1;
            }
            Err(not_found("book", id))
        },
        DirectoryScope::Chapter(id) => {
            let mut i: usize = 0;
            while i < tables.chapters.len()
                invariant
                    i <= tables.chapters@.len(),
                    scope == DirectoryScope::Chapter(id),
                    find_chapter(tables.chapters@, id, 0) == find_chapter(
                        tables.chapters@,
                        id,
                        i as int,
                    ),
                decreases tables.chapters@.len() - i,
            {
                if tables.chapters[i].chapter_id == id && !tables.chapters[i].deleted {
                    let mut nodes: Vec<DirectoryNode> = Vec::new();
                    nodes.push(build_chapter_node(tables, &tables.chapters[i], depth));
                    return Ok(nodes);
                }
                i += 1;
            }
            Err(not_found("chapter", id))
        },
    }
}

// --- Laws ---

/// How many levels of nodes a node spans, itself included; zero for none.
pub open spec fn height(node: DirectoryNode) -> nat
    decreases node, 1nat,
{
    1 + tallest(node.children@)
}

/// The height of the tallest of some nodes.
pub open spec fn tallest(nodes: Seq<DirectoryNode>) -> nat
    decreases nodes, 0nat,
{
    if nodes.len() == 0 {
        0
    } else {
        let rest = tallest(nodes.drop_last());
        let here = height(nodes.last());
        if rest >= here {
            rest
        } else {
            here
        }
    }
}

proof fn lemma_tallest(nodes: Seq<DirectoryNode>, bound: nat)
    requires
        forall|i: int| 0 <= i < nodes.len() ==> height(#[trigger] nodes[i]) <= bound,
    ensures
        tallest(nodes) <= bound,
    decreases nodes.len(),
{
    if nodes.len() > 0 {
        assert forall|i: int| 0 <= i < nodes.drop_last().len() implies height(
            #[trigger] nodes.drop_last()[i],
        ) <= bound by {
            assert(nodes.drop_last()[i] == nodes[i]);
        }
        lemma_tallest(nodes.drop_last(), bound);
        assert(height(nodes[nodes.len() - 1]) <= bound);
    }
}

/// The most levels that a depth lets a node of the given natural height have.
pub open spec fn cut_off(levels: nat, depth: Option<u32>) -> nat {
    match depth {
        Some(d) => if d + 1 < levels {
            (d + 1) as nat
        } else {
            levels
        },
        None => levels,
    }
}

proof fn lemma_page_height(node: DirectoryNode, page: IndexedPage)
    requires
        shows_page(node, page),
    ensures
        height(node) == 1,
{
}

proof fn lemma_chapter_height(
    node: DirectoryNode,
    chapter: IndexedChapter,
    depth: Option<u32>,
    tables: IndexTables,
)
    requires
        shows_chapter(node, chapter, depth, tables),
    ensures
        height(node) <= cut_off(2, depth),
{
    if descends(depth) {
        let rows = pages_of_chapter(tables.pages@, chapter.chapter_id);
        assert forall|i: int| 0 <= i < node.children@.len() implies height(
            #[trigger] node.children@[i],
        ) <= 1 by {
            assert(shows_page(node.children@[0 + i], rows[i]));
            lemma_page_height(node.children@[i], rows[i]);
        }
        lemma_tallest(node.children@, 1);
    }
}

proof fn lemma_book_height(
    node: DirectoryNode,
    book: IndexedBook,
    depth: Option<u32>,
    tables: IndexTables,
)
    requires
        shows_book(node, book, depth, tables),
    ensures
        height(node) <= cut_off(3, depth),
{
    if descends(depth) {
        let chapters = chapters_of_book(tables.chapters@, book.book_id);
        let pages = root_pages_of_book(tables.pages@, book.book_id);
        let below = child_depth(depth);
        assert forall|i: int| 0 <= i < node.children@.len() implies height(
            #[trigger] node.children@[i],
        ) <= cut_off(2, below) by {
            if i < chapters.len() {
                lemma_chapter_height(node.children@[i], chapters[i], below, tables);
            } else {
                let k = i - chapters.len();
                assert(shows_page(node.children@[chapters.len() + k], pages[k]));
                lemma_page_height(node.children@[i], pages[k]);
            }
        }
        lemma_tallest(node.children@, cut_off(2, below));
    }
}

proof fn lemma_books_height(
    nodes: Seq<DirectoryNode>,
    books: Seq<IndexedBook>,
    depth: Option<u32>,
    tables: IndexTables,
)
    requires
        show_books(nodes, books, depth, tables),
    ensures
        tallest(nodes) <= cut_off(3, depth),
{
    assert forall|i: int| 0 <= i < nodes.len() implies height(#[trigger] nodes[i]) <= cut_off(
        3,
        depth,
    ) by {
        lemma_book_height(nodes[i], books[i], depth, tables);
    }
    lemma_tallest(nodes, cut_off(3, depth));
}

/// A depth of `d` shows at most `d` levels below the root, and there are never
/// more than four levels in all.
pub proof fn law_depth_limits_height(
    nodes: Seq<DirectoryNode>,
    scope: DirectoryScope,
    depth: Option<u32>,
    tables: IndexTables,
)
    requires
        shows_tree(nodes, scope, depth, tables),
    ensures
        forall|i: int| 0 <= i < nodes.len() ==> height(#[trigger] nodes[i]) <= cut_off(4, depth),
{
    assert forall|i: int| 0 <= i < nodes.len() implies height(#[trigger] nodes[i]) <= cut_off(
        4,
        depth,
    ) by {
        match scope {
            DirectoryScope::All => {
                let shelves = live_shelves(tables.shelves@);
                if descends(depth) {
                    if i < shelves.len() {
                        assert(shows_shelf(nodes[i], shelves[i], depth, tables));
                        lemma_books_height(
                            nodes[i].children@,
                            books_of_shelf(tables.books@, Some(shelves[i].shelf_id)),
                            child_depth(depth),
                            tables,
                        );
                    } else {
                        lemma_books_height(
                            nodes[i].children@,
                            books_of_shelf(tables.books@, None),
                            child_depth(depth),
                            tables,
                        );
                    }
                } else if i < shelves.len() {
                    assert(shows_shelf(nodes[i], shelves[i], depth, tables));
                }
            },
            DirectoryScope::Shelf(id) => {
                if descends(depth) {
                    let s = find_shelf(tables.shelves@, id, 0)->0;
                    lemma_books_height(
                        nodes[0].children@,
                        books_of_shelf(tables.books@, Some(s.shelf_id)),
                        child_depth(depth),
                        tables,
                    );
                }
            },
            DirectoryScope::Book(id) => {
                lemma_book_height(nodes[0], find_book(tables.books@, id, 0)->0, depth, tables);
            },
            DirectoryScope::Chapter(id) => {
                lemma_chapter_height(
                    nodes[0],
                    find_chapter(tables.chapters@, id, 0)->0,
                    depth,
                    tables,
                );
            },
        }
    }
}

/// A chapter shows exactly its pages that are not deleted.
pub proof fn law_chapter_shows_its_pages(pages: Seq<IndexedPage>, chapter_id: i64, page: IndexedPage)
    ensures
        pages_of_chapter(pages, chapter_id).contains(page) <==> pages.contains(page)
            && !page.deleted && page.chapter_id == Some(chapter_id),
{
    let keep = |p: IndexedPage| !p.deleted && p.chapter_id == Some(chapter_id);
    lemma_filter_holds(pages, keep, page);
}

/// Every page of a book that is not deleted stands either at the book's root or
/// among the pages of its chapter. A page in a chapter is never at the root.
pub proof fn law_book_shows_its_pages(pages: Seq<IndexedPage>, book_id: i64, page: IndexedPage)
    ensures
        root_pages_of_book(pages, book_id).contains(page) <==> pages.contains(page)
            && !page.deleted && page.book_id == book_id && page.chapter_id is None,
        pages.contains(page) && !page.deleted && page.book_id == book_id && !root_pages_of_book(
            pages,
            book_id,
        ).contains(page) ==> (page.chapter_id matches Some(c) && pages_of_chapter(
            pages,
            c,
        ).contains(page)),
{
    let keep = |p: IndexedPage| !p.deleted && p.chapter_id is None && p.book_id == book_id;
    lemma_filter_holds(pages, keep, page);
    if let Some(c) = page.chapter_id {
        law_chapter_shows_its_pages(pages, c, page);
    }
}

proof fn lemma_filter_holds<A>(s: Seq<A>, keep: spec_fn(A) -> bool, x: A)
    ensures
        s.filter(keep).contains(x) <==> s.contains(x) && keep(x),
    decreases s.len(),
{
    reveal(Seq::filter);
    if s.len() > 0 {
        let before = s.drop_last();
        lemma_filter_holds(before, keep, x);
        let f = before.filter(keep);
        if s.contains(x) {
            let k = choose|k: int| 0 <= k < s.len() && s[k] == x;
            if k < s.len() - 1 {
                assert(before[k] == x);
            }
        }
        if before.contains(x) {
            let k = choose|k: int| 0 <= k < before.len() && before[k] == x;
            assert(s[k] == x);
        }
        if keep(s.last()) {
            assert(s.filter(keep) =~= f.push(s.last()));
            if f.contains(x) {
                let k = choose|k: int| 0 <= k < f.len() && f[k] == x;
                assert(f.push(s.last())[k] == x);
            }
            assert(f.push(s.last())[f.len() as int] == s.last());
            if f.push(s.last()).contains(x) {
                let k = choose|k: int| 0 <= k < f.len() + 1 && f.push(s.last())[k] == x;
                if k < f.len() {
                    assert(f[k] == x);
                }
            }
        } else {
            assert(s.filter(keep) =~= f);
        }
        assert(s[s.len() - 1] == s.last());
    }
}

} // verus!
