//! Laws of directory trees: what is shown is in the index, and nothing that is
//! deleted is shown.

use crate::directory;
use crate::directory::{DirectoryNode, DirectoryNodeKind, DirectoryScope, IndexTables};
use crate::index::{IndexedBook, IndexedChapter, IndexedPage, IndexedShelf};
use vstd::prelude::*;

verus! {

/// The shelf is in the index and not deleted.
pub open spec fn has_shelf(tables: IndexTables, id: i64, name: Seq<char>) -> bool {
    exists|i: int|
        0 <= i < tables.shelves@.len() && (#[trigger] tables.shelves@[i]).shelf_id == id
            && tables.shelves@[i].name@ == name && !tables.shelves@[i].deleted
}

/// The book is in the index and not deleted.
pub open spec fn has_book(tables: IndexTables, id: i64, name: Seq<char>) -> bool {
    exists|i: int|
        0 <= i < tables.books@.len() && (#[trigger] tables.books@[i]).book_id == id
            && tables.books@[i].name@ == name && !tables.books@[i].deleted
}

/// The chapter is in the index and not deleted.
pub open spec fn has_chapter(tables: IndexTables, id: i64, name: Seq<char>) -> bool {
    exists|i: int|
        0 <= i < tables.chapters@.len() && (#[trigger] tables.chapters@[i]).chapter_id == id
            && tables.chapters@[i].name@ == name && !tables.chapters@[i].deleted
}

/// The page is in the index and not deleted.
pub open spec fn has_page(tables: IndexTables, id: i64, name: Seq<char>) -> bool {
    exists|i: int|
        0 <= i < tables.pages@.len() && (#[trigger] tables.pages@[i]).page_id == id
            && tables.pages@[i].name@ == name && !tables.pages@[i].deleted
}

/// The node stands for a row of the index that is not deleted, or for the books
/// without a shelf.
pub open spec fn stands_for_row(node: DirectoryNode, tables: IndexTables) -> bool {
    match node.kind {
        DirectoryNodeKind::Shelf => has_shelf(tables, node.id, node.name@) || (node.id == 0
            && node.name@ == "Unshelved"@),
        DirectoryNodeKind::Book => has_book(tables, node.id, node.name@),
        DirectoryNodeKind::Chapter => has_chapter(tables, node.id, node.name@),
        DirectoryNodeKind::Page => has_page(tables, node.id, node.name@),
    }
}

/// The node and all nodes below it stand for rows.
pub open spec fn is_live(node: DirectoryNode, tables: IndexTables) -> bool
    decreases node, 1nat,
{
    stands_for_row(node, tables) && are_live(node.children@, tables)
}

/// The nodes and all nodes below them stand for rows.
pub open spec fn are_live(nodes: Seq<DirectoryNode>, tables: IndexTables) -> bool
    decreases nodes, 0nat,
{
    if nodes.len() == 0 {
        true
    } else {
        are_live(nodes.drop_last(), tables) && is_live(nodes.last(), tables)
    }
}

proof fn lemma_are_live(nodes: Seq<DirectoryNode>, tables: IndexTables)
    requires
        forall|i: int| 0 <= i < nodes.len() ==> is_live(#[trigger] nodes[i], tables),
    ensures
        are_live(nodes, tables),
    decreases nodes.len(),
{
    if nodes.len() > 0 {
        let init = nodes.drop_last();
        assert forall|i: int| 0 <= i < init.len() implies is_live(#[trigger] init[i], tables) by {
            assert(init[i] == nodes[i]);
        }
        lemma_are_live(init, tables);
        assert(is_live(nodes[nodes.len() - 1], tables));
    }
}

proof fn lemma_kept_row<A>(s: Seq<A>, keep: spec_fn(A) -> bool, i: int) -> (k: int)
    requires
        0 <= i < s.filter(keep).len(),
    ensures
        0 <= k < s.len(),
        s[k] == s.filter(keep)[i],
        keep(s[k]),
{
    broadcast use vstd::seq_lib::group_filter_ensures;
    broadcast use Seq::lemma_filter_contains_rev;

    let row = s.filter(keep)[i];
    assert(s.filter(keep).contains(row));
    choose|k: int| 0 <= k < s.len() && s[k] == row
}

proof fn lemma_page_is_live(
    node: DirectoryNode,
    tables: IndexTables,
    keep: spec_fn(IndexedPage) -> bool,
    i: int,
)
    requires
        0 <= i < tables.pages@.filter(keep).len(),
        directory::shows_page(node, tables.pages@.filter(keep)[i]),
        forall|p: IndexedPage| #[trigger] keep(p) ==> !p.deleted,
    ensures
        is_live(node, tables),
{
    let k = lemma_kept_row(tables.pages@, keep, i);
    assert(tables.pages@[k].page_id == node.id);
    lemma_are_live(node.children@, tables);
}

proof fn lemma_chapter_is_live(
    node: DirectoryNode,
    chapter: IndexedChapter,
    depth: Option<u32>,
    tables: IndexTables,
)
    requires
        directory::shows_chapter(node, chapter, depth, tables),
        has_chapter(tables, chapter.chapter_id, chapter.name@),
    ensures
        is_live(node, tables),
{
    let id = chapter.chapter_id;
    let keep = |p: IndexedPage| !p.deleted && p.chapter_id == Some(id);
    let rows = directory::pages_of_chapter(tables.pages@, id);
    assert(rows =~= tables.pages@.filter(keep));
    assert forall|i: int| 0 <= i < node.children@.len() implies is_live(
        #[trigger] node.children@[i],
        tables,
    ) by {
        assert(directory::shows_page(node.children@[0 + i], rows[i]));
        lemma_page_is_live(node.children@[i], tables, keep, i);
    }
    lemma_are_live(node.children@, tables);
}

proof fn lemma_book_is_live(
    node: DirectoryNode,
    book: IndexedBook,
    depth: Option<u32>,
    tables: IndexTables,
)
    requires
        directory::shows_book(node, book, depth, tables),
        has_book(tables, book.book_id, book.name@),
    ensures
        is_live(node, tables),
{
    let id = book.book_id;
    let keep = |p: IndexedPage| !p.deleted && p.chapter_id is None && p.book_id == id;
    let keep_chapter = |c: IndexedChapter| !c.deleted && c.book_id == id;
    let pages = directory::root_pages_of_book(tables.pages@, id);
    let chapters = directory::chapters_of_book(tables.chapters@, id);
    assert(pages =~= tables.pages@.filter(keep));
    assert(chapters =~= tables.chapters@.filter(keep_chapter));
    assert forall|i: int| 0 <= i < node.children@.len() implies is_live(
        #[trigger] node.children@[i],
        tables,
    ) by {
        if i < chapters.len() {
            let k = lemma_kept_row(tables.chapters@, keep_chapter, i);
            assert(tables.chapters@[k].chapter_id == chapters[i].chapter_id);
            lemma_chapter_is_live(
                node.children@[i],
                chapters[i],
                directory::child_depth(depth),
                tables,
            );
        } else {
            let k = i - chapters.len();
            assert(directory::shows_page(node.children@[chapters.len() + k], pages[k]));
            lemma_page_is_live(node.children@[i], tables, keep, k);
        }
    }
    lemma_are_live(node.children@, tables);
}

proof fn lemma_books_are_live(
    nodes: Seq<DirectoryNode>,
    shelf_id: Option<i64>,
    depth: Option<u32>,
    tables: IndexTables,
)
    requires
        directory::show_books(
            nodes,
            directory::books_of_shelf(tables.books@, shelf_id),
            depth,
            tables,
        ),
    ensures
        are_live(nodes, tables),
{
    let keep = |b: IndexedBook| !b.deleted && b.shelf_id == shelf_id;
    let books = directory::books_of_shelf(tables.books@, shelf_id);
    assert(books =~= tables.books@.filter(keep));
    assert forall|i: int| 0 <= i < nodes.len() implies is_live(#[trigger] nodes[i], tables) by {
        let k = lemma_kept_row(tables.books@, keep, i);
        assert(tables.books@[k].book_id == books[i].book_id);
        lemma_book_is_live(nodes[i], books[i], depth, tables);
    }
    lemma_are_live(nodes, tables);
}

proof fn lemma_shelf_is_live(
    node: DirectoryNode,
    shelf: IndexedShelf,
    depth: Option<u32>,
    tables: IndexTables,
)
    requires
        directory::shows_shelf(node, shelf, depth, tables),
        has_shelf(tables, shelf.shelf_id, shelf.name@),
    ensures
        is_live(node, tables),
{
    if directory::descends(depth) {
        lemma_books_are_live(
            node.children@,
            Some(shelf.shelf_id),
            directory::child_depth(depth),
            tables,
        );
    } else {
        lemma_are_live(node.children@, tables);
    }
}

proof fn lemma_found_shelf(shelves: Seq<IndexedShelf>, id: i64, i: int) -> (k: int)
    requires
        0 <= i,
        directory::find_shelf(shelves, id, i) is Some,
    ensures
        i <= k < shelves.len(),
        directory::find_shelf(shelves, id, i) == Some(shelves[k]),
        !shelves[k].deleted,
    decreases shelves.len() - i,
{
    if shelves[i].shelf_id == id && !shelves[i].deleted {
        i
    } else {
        lemma_found_shelf(shelves, id, i + 1)
    }
}

proof fn lemma_found_book(books: Seq<IndexedBook>, id: i64, i: int) -> (k: int)
    requires
        0 <= i,
        directory::find_book(books, id, i) is Some,
    ensures
        i <= k < books.len(),
        directory::find_book(books, id, i) == Some(books[k]),
        !books[k].deleted,
    decreases books.len() - i,
{
    if books[i].book_id == id && !books[i].deleted {
        i
    } else {
        lemma_found_book(books, id, i + 1)
    }
}

proof fn lemma_found_chapter(chapters: Seq<IndexedChapter>, id: i64, i: int) -> (k: int)
    requires
        0 <= i,
        directory::find_chapter(chapters, id, i) is Some,
    ensures
        i <= k < chapters.len(),
        directory::find_chapter(chapters, id, i) == Some(chapters[k]),
        !chapters[k].deleted,
    decreases chapters.len() - i,
{
    if chapters[i].chapter_id == id && !chapters[i].deleted {
        i
    } else {
        lemma_found_chapter(chapters, id, i + 1)
    }
}

/// Whatever a tree shows, at any level, is in the index and not deleted; only the
/// shelf for books without one has no row.
pub proof fn law_tree_shows_live_rows(
    nodes: Seq<DirectoryNode>,
    scope: DirectoryScope,
    depth: Option<u32>,
    tables: IndexTables,
)
    requires
        directory::shows_tree(nodes, scope, depth, tables),
    ensures
        are_live(nodes, tables),
{
    assert forall|i: int| 0 <= i < nodes.len() implies is_live(#[trigger] nodes[i], tables) by {
        match scope {
            DirectoryScope::All => {
                let keep = |s: IndexedShelf| !s.deleted;
                let shelves = directory::live_shelves(tables.shelves@);
                assert(shelves =~= tables.shelves@.filter(keep));
                if i < shelves.len() {
                    let k = lemma_kept_row(tables.shelves@, keep, i);
                    assert(tables.shelves@[k].shelf_id == shelves[i].shelf_id);
                    lemma_shelf_is_live(nodes[i], shelves[i], depth, tables);
                } else if directory::descends(depth) {
                    lemma_books_are_live(
                        nodes[i].children@,
                        None,
                        directory::child_depth(depth),
                        tables,
                    );
                } else {
                    lemma_are_live(nodes[i].children@, tables);
                }
            },
            DirectoryScope::Shelf(id) => {
                let k = lemma_found_shelf(tables.shelves@, id, 0);
                assert(has_shelf(tables, tables.shelves@[k].shelf_id, tables.shelves@[k].name@));
                lemma_shelf_is_live(nodes[0], tables.shelves@[k], depth, tables);
            },
            DirectoryScope::Book(id) => {
                let k = lemma_found_book(tables.books@, id, 0);
                assert(has_book(tables, tables.books@[k].book_id, tables.books@[k].name@));
                lemma_book_is_live(nodes[0], tables.books@[k], depth, tables);
            },
            DirectoryScope::Chapter(id) => {
                let k = lemma_found_chapter(tables.chapters@, id, 0);
                assert(has_chapter(
                    tables,
                    tables.chapters@[k].chapter_id,
                    tables.chapters@[k].name@,
                ));
                lemma_chapter_is_live(nodes[0], tables.chapters@[k], depth, tables);
            },
        }
    }
    lemma_are_live(nodes, tables);
}

} // verus!
