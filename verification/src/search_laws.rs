//! What holds of the stored pages, their chunks and relatives, and of what a
//! search looks at.

use crate::chunking::Chunk;
use crate::pipeline;
use crate::queue;
use crate::rows;
use crate::semantic;
use crate::semantic::{
    AclPrefilter, ChunkRowModel, DetailModel, Link, LinkKind, Parent, PermissionModel, StoredChunk,
    StoredPage, Viewer,
};
use crate::text;
use crate::types::{MarkovBlanket, PageMeta, ScopeFilter};
use crate::vector::RankedHit;
use vstd::prelude::*;

verus! {

// --- Pages ---

/// A page is found by its id: every stored row under its own, and no row where
/// none has the id.
pub proof fn law_page_is_found_by_id(pages: Seq<StoredPage>, id: i64)
    requires
        semantic::ids_differ(pages),
    ensures
        forall|i: int|
            0 <= i < pages.len() && (#[trigger] pages[i]).meta.page_id == id ==> semantic::page_with(
                pages,
                id,
            ) == Some(pages[i]),
        (forall|i: int| 0 <= i < pages.len() ==> (#[trigger] pages[i]).meta.page_id != id)
            ==> semantic::page_with(pages, id) is None,
        semantic::page_with(pages, id) matches Some(page) ==> page.meta.page_id == id
            && pages.contains(page),
{
    lemma_page_at(pages, id, 0);
}

proof fn lemma_page_at(pages: Seq<StoredPage>, id: i64, i: int)
    requires
        0 <= i,
    ensures
        match semantic::page_at(pages, id, i) {
            Some(k) => i <= k < pages.len() && pages[k].meta.page_id == id && forall|j: int|
                i <= j < k ==> (#[trigger] pages[j]).meta.page_id != id,
            None => forall|j: int| i <= j < pages.len() ==> (#[trigger] pages[j]).meta.page_id != id,
        },
    decreases pages.len() - i,
{
    if i < pages.len() && pages[i].meta.page_id != id {
        lemma_page_at(pages, id, i + 1);
    }
}

/// A page is found by its slug: the first stored one that has it.
pub proof fn law_page_is_found_by_slug(pages: Seq<StoredPage>, slug: Seq<char>, k: int)
    ensures
        0 <= k < pages.len() && pages[k].meta.slug@ == slug && (forall|i: int|
            0 <= i < k ==> (#[trigger] pages[i]).meta.slug@ != slug) ==> semantic::page_with_slug(
            pages,
            slug,
            0,
        ) == Some(pages[k].meta.page_id),
        (forall|i: int| 0 <= i < pages.len() ==> (#[trigger] pages[i]).meta.slug@ != slug)
            ==> semantic::page_with_slug(pages, slug, 0) is None,
{
    lemma_slug(pages, slug, k, 0);
}

proof fn lemma_slug(pages: Seq<StoredPage>, slug: Seq<char>, k: int, i: int)
    requires
        0 <= i,
    ensures
        i <= k < pages.len() && pages[k].meta.slug@ == slug && (forall|j: int|
            i <= j < k ==> (#[trigger] pages[j]).meta.slug@ != slug) ==> semantic::page_with_slug(
            pages,
            slug,
            i,
        ) == Some(pages[k].meta.page_id),
        (forall|j: int| i <= j < pages.len() ==> (#[trigger] pages[j]).meta.slug@ != slug)
            ==> semantic::page_with_slug(pages, slug, i) is None,
    decreases pages.len() - i,
{
    if i < pages.len() && pages[i].meta.slug@ != slug {
        lemma_slug(pages, slug, k, i + 1);
    }
}

/// Of the pages that are asked for, every stored one is answered, with its row and
/// with its book, in the order of the table, and no other.
pub proof fn law_asked_pages_are_answered(pages: Seq<StoredPage>, ids: Seq<i64>)
    ensures
        rows::is_selection(
            pages,
            |p: StoredPage|
                if ids.contains(p.meta.page_id) {
                    Some(pipeline::meta_model(p.meta))
                } else {
                    None
                },
            semantic::metas_among(pages, ids, pages.len() as int),
        ),
        rows::is_selection(
            pages,
            |p: StoredPage|
                if ids.contains(p.meta.page_id) {
                    Some((p.meta.page_id, p.meta.book_id))
                } else {
                    None
                },
            semantic::books_among(pages, ids, pages.len() as int),
        ),
{
    rows::lemma_selected(
        pages,
        |p: StoredPage|
            if ids.contains(p.meta.page_id) {
                Some(pipeline::meta_model(p.meta))
            } else {
                None
            },
        |k: int| semantic::metas_among(pages, ids, k),
    );
    rows::lemma_selected(
        pages,
        |p: StoredPage|
            if ids.contains(p.meta.page_id) {
                Some((p.meta.page_id, p.meta.book_id))
            } else {
                None
            },
        |k: int| semantic::books_among(pages, ids, k),
    );
}

/// What a row's model tells is what the row holds.
pub proof fn law_meta_is_told(m: PageMeta)
    ensures
        pipeline::meta_model(m).page_id == m.page_id,
        pipeline::meta_model(m).book_id == m.book_id,
        pipeline::meta_model(m).chapter_id == m.chapter_id,
        pipeline::meta_model(m).name == m.name@,
        pipeline::meta_model(m).slug == m.slug@,
        pipeline::meta_model(m).content_hash == m.content_hash@,
{
}

/// The pages of which it was found out who may view them are those with a stamp,
/// in the order of the table.
pub proof fn law_stamped_pages_are_listed(pages: Seq<StoredPage>)
    ensures
        rows::is_selection(
            pages,
            |p: StoredPage|
                if p.acl is Some {
                    Some(p.meta.page_id)
                } else {
                    None
                },
            semantic::stamped_ids(pages, pages.len() as int),
        ),
{
    rows::lemma_selected(
        pages,
        |p: StoredPage|
            if p.acl is Some {
                Some(p.meta.page_id)
            } else {
                None
            },
        |k: int| semantic::stamped_ids(pages, k),
    );
}

// --- Search ---

/// The filter names the page: its book, its chapter or the page itself is in the
/// list for it.
pub open spec fn names_page(filter: ScopeFilter, page: StoredPage) -> bool {
    ||| exists|i: int|
        0 <= i < filter.book_ids@.len() && #[trigger] filter.book_ids@[i] == page.meta.book_id
    ||| exists|i: int|
        0 <= i < filter.chapter_ids@.len() && Some(#[trigger] filter.chapter_ids@[i])
            == page.meta.chapter_id
    ||| exists|i: int|
        0 <= i < filter.page_ids@.len() && #[trigger] filter.page_ids@[i] == page.meta.page_id
}

/// A search looks at the chunk: there is no filter, or one with four empty lists,
/// or the filter names the chunk's stored page.
pub open spec fn is_looked_at(
    pages: Seq<StoredPage>,
    filter: Option<ScopeFilter>,
    chunk: StoredChunk,
) -> bool {
    match filter {
        None => true,
        Some(f) => {
            ||| f.shelf_ids@.len() == 0 && f.book_ids@.len() == 0 && f.chapter_ids@.len() == 0
                && f.page_ids@.len() == 0
            ||| exists|i: int|
                0 <= i < pages.len() && (#[trigger] pages[i]).meta.page_id == chunk.page_id
                    && names_page(f, pages[i])
        },
    }
}

proof fn lemma_looked_at(pages: Seq<StoredPage>, filter: Option<ScopeFilter>, chunk: StoredChunk)
    requires
        semantic::ids_differ(pages),
    ensures
        semantic::is_candidate(pages, filter, chunk) <==> is_looked_at(pages, filter, chunk),
{
    law_page_is_found_by_id(pages, chunk.page_id);
    if let Some(f) = filter {
        assert forall|page: StoredPage| semantic::in_scope(f, page.meta) <==> #[trigger] names_page(
            f,
            page,
        ) by {
            if f.book_ids@.contains(page.meta.book_id) {
                let i = choose|i: int|
                    0 <= i < f.book_ids@.len() && f.book_ids@[i] == page.meta.book_id;
                assert(f.book_ids@[i] == page.meta.book_id);
            }
            if f.page_ids@.contains(page.meta.page_id) {
                let i = choose|i: int|
                    0 <= i < f.page_ids@.len() && f.page_ids@[i] == page.meta.page_id;
                assert(f.page_ids@[i] == page.meta.page_id);
            }
            if let Some(c) = page.meta.chapter_id {
                if f.chapter_ids@.contains(c) {
                    let i = choose|i: int| 0 <= i < f.chapter_ids@.len() && f.chapter_ids@[i] == c;
                    assert(Some(f.chapter_ids@[i]) == page.meta.chapter_id);
                }
            }
        }
        match semantic::page_with(pages, chunk.page_id) {
            Some(page) => {
                let i = choose|i: int| 0 <= i < pages.len() && pages[i] == page;
                assert(pages[i].meta.page_id == chunk.page_id);
                assert(semantic::in_scope(f, page.meta) <==> names_page(f, page));
            },
            None => {
                lemma_page_at(pages, chunk.page_id, 0);
            },
        }
    }
}

/// The candidates of a search are the chunks that it looks at, all of them, each
/// with its page, in the order of the table. A chunk counts if its page is named
/// by its book, by its chapter or by itself, whichever of the others it has.
pub proof fn law_candidates_are_in_scope(
    pages: Seq<StoredPage>,
    chunks: Seq<StoredChunk>,
    filter: Option<ScopeFilter>,
)
    requires
        semantic::ids_differ(pages),
    ensures
        rows::is_selection(
            chunks,
            |c: StoredChunk|
                if is_looked_at(pages, filter, c) {
                    Some((c.id, c.page_id))
                } else {
                    None
                },
            semantic::candidates(pages, chunks, filter, chunks.len() as int),
        ),
{
    let value = |c: StoredChunk|
        if is_looked_at(pages, filter, c) {
            Some((c.id, c.page_id))
        } else {
            None
        };
    let built = |k: int| semantic::candidates(pages, chunks, filter, k);
    assert forall|k: int| 0 <= k < chunks.len() implies built(k + 1) == match value(
        #[trigger] chunks[k],
    ) {
        Some(b) => built(k).push(b),
        None => built(k),
    } by {
        lemma_looked_at(pages, filter, chunks[k]);
    }
    rows::lemma_selected(chunks, value, built);
}

/// Every stored chunk of a stored page is a candidate where the filter has the
/// page's book, or its chapter, or the page; and where it has neither, but has
/// something, the chunk is none.
pub proof fn law_scope_selects_chunks(
    pages: Seq<StoredPage>,
    chunks: Seq<StoredChunk>,
    filter: ScopeFilter,
    p: int,
    c: int,
)
    requires
        semantic::ids_differ(pages),
        0 <= p < pages.len(),
        0 <= c < chunks.len(),
        chunks[c].page_id == pages[p].meta.page_id,
    ensures
        ({
            let found = semantic::candidates(pages, chunks, Some(filter), chunks.len() as int);
            let meta = pages[p].meta;
            let listed = filter.book_ids@.contains(meta.book_id) || filter.page_ids@.contains(
                meta.page_id,
            ) || (meta.chapter_id is Some && filter.chapter_ids@.contains(meta.chapter_id->0));
            let something = filter.shelf_ids@.len() + filter.book_ids@.len()
                + filter.chapter_ids@.len() + filter.page_ids@.len() > 0;
            &&& listed ==> found.contains((chunks[c].id, chunks[c].page_id))
            &&& something && !listed ==> forall|k: int|
                0 <= k < found.len() ==> (#[trigger] found[k]).1 != chunks[c].page_id
        }),
{
    law_candidates_are_in_scope(pages, chunks, Some(filter));
    let value = |c: StoredChunk|
        if is_looked_at(pages, Some(filter), c) {
            Some((c.id, c.page_id))
        } else {
            None
        };
    let found = semantic::candidates(pages, chunks, Some(filter), chunks.len() as int);
    let meta = pages[p].meta;
    let listed = filter.book_ids@.contains(meta.book_id) || filter.page_ids@.contains(meta.page_id)
        || (meta.chapter_id is Some && filter.chapter_ids@.contains(meta.chapter_id->0));
    let something = filter.shelf_ids@.len() + filter.book_ids@.len() + filter.chapter_ids@.len()
        + filter.page_ids@.len() > 0;
    rows::law_selection_is_complete(chunks, value, found);
    law_page_is_found_by_id(pages, chunks[c].page_id);
    if listed {
        if filter.book_ids@.contains(meta.book_id) {
            let i = choose|i: int|
                0 <= i < filter.book_ids@.len() && filter.book_ids@[i] == meta.book_id;
            assert(filter.book_ids@[i] == pages[p].meta.book_id);
        } else if filter.page_ids@.contains(meta.page_id) {
            let i = choose|i: int|
                0 <= i < filter.page_ids@.len() && filter.page_ids@[i] == meta.page_id;
            assert(filter.page_ids@[i] == pages[p].meta.page_id);
        } else {
            let i = choose|i: int|
                0 <= i < filter.chapter_ids@.len() && filter.chapter_ids@[i] == meta.chapter_id->0;
            assert(Some(filter.chapter_ids@[i]) == pages[p].meta.chapter_id);
        }
        assert(names_page(filter, pages[p]));
        assert(is_looked_at(pages, Some(filter), chunks[c]));
        assert(value(chunks[c]) is Some);
    } else if something {
        assert forall|k: int| 0 <= k < found.len() implies (#[trigger] found[k]).1
            != chunks[c].page_id by {
            assert(rows::is_value(chunks, value, found[k]));
            let i = choose|i: int|
                0 <= i < chunks.len() && value(#[trigger] chunks[i]) == Some(found[k]);
            if found[k].1 == chunks[c].page_id {
                assert(is_looked_at(pages, Some(filter), chunks[i]));
                let q = choose|q: int|
                    0 <= q < pages.len() && (#[trigger] pages[q]).meta.page_id == chunks[i].page_id
                        && names_page(filter, pages[q]);
                if q < p {
                    assert(pages[q].meta.page_id != pages[p].meta.page_id);
                } else if p < q {
                    assert(pages[p].meta.page_id != pages[q].meta.page_id);
                }
                assert(names_page(filter, pages[p]));
            }
        }
    }
}

/// The details are those of the chunks that are asked for and whose page is
/// stored, all of them, each with what the chunk holds and the name of its page.
pub proof fn law_details_are_told(
    pages: Seq<StoredPage>,
    chunks: Seq<StoredChunk>,
    ids: Seq<i64>,
)
    ensures
        rows::is_selection(
            chunks,
            |c: StoredChunk|
                if ids.contains(c.id) && semantic::page_with(pages, c.page_id) is Some {
                    Some(
                        DetailModel {
                            chunk_id: c.id,
                            page_id: c.page_id,
                            heading_path: c.heading_path@,
                            content: c.content@,
                            page_name: semantic::page_with(pages, c.page_id)->0.meta.name@,
                        },
                    )
                } else {
                    None
                },
            semantic::details_among(pages, chunks, ids, chunks.len() as int),
        ),
{
    rows::lemma_selected(
        chunks,
        |c: StoredChunk|
            if ids.contains(c.id) && semantic::page_with(pages, c.page_id) is Some {
                Some(
                    DetailModel {
                        chunk_id: c.id,
                        page_id: c.page_id,
                        heading_path: c.heading_path@,
                        content: c.content@,
                        page_name: semantic::page_with(pages, c.page_id)->0.meta.name@,
                    },
                )
            } else {
                None
            },
        |k: int| semantic::details_among(pages, chunks, ids, k),
    );
}

/// The hits for the pages similar to one are the other pages with their keys, all
/// of them.
pub proof fn law_similarity_hits(page_id: i64, keys: Seq<(i64, i64)>)
    ensures
        rows::is_selection(
            keys,
            |k: (i64, i64)|
                if k.0 != page_id {
                    Some(RankedHit { chunk_id: 0, page_id: k.0, key: k.1 })
                } else {
                    None
                },
            semantic::similarity_hits(page_id, keys, keys.len() as int),
        ),
{
    rows::lemma_selected(
        keys,
        |k: (i64, i64)|
            if k.0 != page_id {
                Some(RankedHit { chunk_id: 0, page_id: k.0, key: k.1 })
            } else {
                None
            },
        |k: int| semantic::similarity_hits(page_id, keys, k),
    );
}

// --- Chunks ---

/// Some row is for the page's chunk with the index.
pub open spec fn has_row(rows: Seq<ChunkRowModel>, page_id: i64, index: usize) -> bool {
    exists|i: int|
        0 <= i < rows.len() && (#[trigger] rows[i]).page_id == page_id && rows[i].chunk_index
            == index
}

proof fn lemma_with_chunks(
    rows: Seq<ChunkRowModel>,
    next_id: i64,
    page_id: i64,
    chunks: Seq<Chunk>,
    n: int,
)
    requires
        0 <= n <= chunks.len(),
        next_id + n <= i64::MAX,
        forall|i: int| 0 <= i < rows.len() ==> (#[trigger] rows[i]).page_id != page_id,
    ensures
        ({
            let (after, next) = semantic::with_chunks(rows, next_id, page_id, chunks, n);
            &&& rows.len() <= after.len() <= rows.len() + n
            &&& after.take(rows.len() as int) == rows
            &&& next == next_id + (after.len() - rows.len())
            &&& forall|i: int|
                rows.len() <= i < after.len() ==> (#[trigger] after[i]).page_id == page_id
                    && after[i].id == next_id + (i - rows.len()) && exists|k: int|
                    0 <= k < n && stored_as(#[trigger] chunks[k], after[i])
            &&& forall|k: int|
                0 <= k < n ==> has_row(after, page_id, (#[trigger] chunks[k]).index)
            &&& forall|i: int, j: int|
                rows.len() <= i < j < after.len() ==> (#[trigger] after[i]).chunk_index != (
                #[trigger] after[j]).chunk_index
        }),
    decreases n,
{
    if n > 0 {
        lemma_with_chunks(rows, next_id, page_id, chunks, n - 1);
        let (before, mid) = semantic::with_chunks(rows, next_id, page_id, chunks, n - 1);
        let (after, next) = semantic::with_chunks(rows, next_id, page_id, chunks, n);
        let c = chunks[n - 1];
        assert forall|k: int| 0 <= k < n implies has_row(
            after,
            page_id,
            (#[trigger] chunks[k]).index,
        ) by {
            if k < n - 1 {
                assert(has_row(before, page_id, chunks[k].index));
                let i = choose|i: int|
                    0 <= i < before.len() && (#[trigger] before[i]).page_id == page_id
                        && before[i].chunk_index == chunks[k].index;
                assert(after[i] == before[i]);
            } else if semantic::model_has_chunk(before, page_id, c.index) {
                let i = choose|i: int|
                    0 <= i < before.len() && (#[trigger] before[i]).page_id == page_id
                        && before[i].chunk_index == c.index;
                assert(after[i].page_id == page_id);
            } else {
                assert(after[before.len() as int].page_id == page_id);
            }
        }
        assert forall|i: int| rows.len() <= i < after.len() implies (#[trigger] after[i]).page_id
            == page_id && after[i].id == next_id + (i - rows.len()) && exists|k: int|
            0 <= k < n && stored_as(#[trigger] chunks[k], after[i]) by {
            if i < before.len() {
                assert(after[i] == before[i]);
                let k = choose|k: int| 0 <= k < n - 1 && stored_as(#[trigger] chunks[k], before[i]);
                assert(stored_as(chunks[k], after[i]));
            } else {
                assert(stored_as(chunks[n - 1], after[i]));
            }
        }
        assert(after.take(rows.len() as int) =~= rows) by {
            assert forall|i: int| 0 <= i < rows.len() implies after[i] == rows[i] by {
                assert(before.take(rows.len() as int)[i] == rows[i]);
            }
        }
        assert forall|i: int, j: int| rows.len() <= i < j < after.len() implies (
        #[trigger] after[i]).chunk_index != (#[trigger] after[j]).chunk_index by {
            assert(after[i] == before[i]);
            if j < before.len() {
                assert(after[j] == before[j]);
            } else {
                assert(before[i].page_id == page_id);
            }
        }
    } else {
        assert(rows.take(rows.len() as int) =~= rows);
    }
}

/// The row holds what the chunk does.
pub open spec fn stored_as(c: Chunk, row: ChunkRowModel) -> bool {
    &&& row.chunk_index == c.index
    &&& row.heading_path == c.heading_path@
    &&& row.content == c.content@
    &&& row.content_hash == c.content_hash@
}

/// Storing the chunks of a page leaves the rows of other pages as they are, and
/// puts a row behind them for every chunk index, one each, with what one of the
/// chunks with that index holds. The new rows are numbered on from the next id.
pub proof fn law_chunks_are_stored(
    rows: Seq<ChunkRowModel>,
    next_id: i64,
    page_id: i64,
    chunks: Seq<Chunk>,
)
    requires
        next_id + chunks.len() <= i64::MAX,
        forall|i: int| 0 <= i < rows.len() ==> (#[trigger] rows[i]).page_id != page_id,
    ensures
        ({
            let n = chunks.len() as int;
            let (after, next) = semantic::with_chunks(rows, next_id, page_id, chunks, n);
            &&& after.take(rows.len() as int) == rows
            &&& next == next_id + (after.len() - rows.len())
            &&& forall|i: int|
                rows.len() <= i < after.len() ==> (#[trigger] after[i]).page_id == page_id
                    && after[i].id == next_id + (i - rows.len()) && exists|k: int|
                    0 <= k < n && stored_as(#[trigger] chunks[k], after[i])
            &&& forall|k: int|
                0 <= k < n ==> has_row(after, page_id, (#[trigger] chunks[k]).index)
            &&& forall|i: int, j: int|
                rows.len() <= i < j < after.len() ==> (#[trigger] after[i]).chunk_index != (
                #[trigger] after[j]).chunk_index
            &&& rows.len() <= after.len()
        }),
{
    lemma_with_chunks(rows, next_id, page_id, chunks, chunks.len() as int);
}

// --- Relatives ---

/// What a page is shown as, where it is stored.
pub open spec fn shown(pages: Seq<StoredPage>, id: i64) -> Option<(i64, Seq<char>)> {
    match semantic::page_with(pages, id) {
        Some(page) => Some((id, page.meta.name@)),
        None => None,
    }
}

proof fn lemma_named(pages: Seq<StoredPage>, id: i64)
    ensures
        semantic::named(pages, id) == match shown(pages, id) {
            Some(p) => seq![p],
            None => Seq::<(i64, Seq<char>)>::empty(),
        },
{
}

/// The pages that a page links to are the stored targets of the links from it, all
/// of them, one for each link, in the order of the links; those that link to it
/// are the stored sources of the links to it.
pub proof fn law_links_lead_to_relatives(pages: Seq<StoredPage>, links: Seq<Link>, id: i64)
    ensures
        rows::is_selection(
            links,
            |l: Link|
                if l.source == id {
                    shown(pages, l.target)
                } else {
                    None
                },
            semantic::targets_of(pages, links, id, links.len() as int),
        ),
        rows::is_selection(
            links,
            |l: Link|
                if l.target == id {
                    shown(pages, l.source)
                } else {
                    None
                },
            semantic::sources_of(pages, links, id, links.len() as int),
        ),
{
    let to = |l: Link|
        if l.source == id {
            shown(pages, l.target)
        } else {
            None
        };
    let from = |l: Link|
        if l.target == id {
            shown(pages, l.source)
        } else {
            None
        };
    let built_to = |k: int| semantic::targets_of(pages, links, id, k);
    let built_from = |k: int| semantic::sources_of(pages, links, id, k);
    assert forall|k: int| 0 <= k < links.len() implies built_to(k + 1) == match to(
        #[trigger] links[k],
    ) {
        Some(b) => built_to(k).push(b),
        None => built_to(k),
    } by {
        lemma_named(pages, links[k].target);
        assert(built_to(k + 1) =~= match to(links[k]) {
            Some(b) => built_to(k).push(b),
            None => built_to(k),
        });
    }
    assert forall|k: int| 0 <= k < links.len() implies built_from(k + 1) == match from(
        #[trigger] links[k],
    ) {
        Some(b) => built_from(k).push(b),
        None => built_from(k),
    } by {
        lemma_named(pages, links[k].source);
        assert(built_from(k + 1) =~= match from(links[k]) {
            Some(b) => built_from(k).push(b),
            None => built_from(k),
        });
    }
    rows::lemma_selected(links, to, built_to);
    rows::lemma_selected(links, from, built_from);
}

/// A link leads from the one page to the other.
pub open spec fn is_linked(links: Seq<Link>, source: i64, target: i64) -> bool {
    exists|m: int|
        0 <= m < links.len() && (#[trigger] links[m]).source == source && links[m].target == target
}

/// For every link from a page to a stored one, the latter is among the pages that
/// it links to, and each of those is the stored target of such a link; the same
/// holds of links to the page and their sources.
pub proof fn law_every_link_is_listed(
    pages: Seq<StoredPage>,
    links: Seq<Link>,
    id: i64,
    l: int,
    p: int,
)
    requires
        semantic::ids_differ(pages),
        0 <= l < links.len(),
        0 <= p < pages.len(),
    ensures
        ({
            let to = semantic::targets_of(pages, links, id, links.len() as int);
            let from = semantic::sources_of(pages, links, id, links.len() as int);
            &&& links[l].source == id && links[l].target == pages[p].meta.page_id ==> to.contains(
                (pages[p].meta.page_id, pages[p].meta.name@),
            )
            &&& links[l].target == id && links[l].source == pages[p].meta.page_id ==> from.contains(
                (pages[p].meta.page_id, pages[p].meta.name@),
            )
            &&& forall|k: int| 0 <= k < to.len() ==> is_linked(links, id, (#[trigger] to[k]).0)
            &&& forall|k: int|
                0 <= k < from.len() ==> is_linked(links, (#[trigger] from[k]).0, id)
        }),
{
    law_links_lead_to_relatives(pages, links, id);
    let to_of = |l: Link|
        if l.source == id {
            shown(pages, l.target)
        } else {
            None
        };
    let from_of = |l: Link|
        if l.target == id {
            shown(pages, l.source)
        } else {
            None
        };
    let to = semantic::targets_of(pages, links, id, links.len() as int);
    let from = semantic::sources_of(pages, links, id, links.len() as int);
    rows::law_selection_is_complete(links, to_of, to);
    rows::law_selection_is_complete(links, from_of, from);
    law_page_is_found_by_id(pages, pages[p].meta.page_id);
    assert(to_of(links[l]) == if links[l].source == id {
        shown(pages, links[l].target)
    } else {
        None
    });
    assert(from_of(links[l]) == if links[l].target == id {
        shown(pages, links[l].source)
    } else {
        None
    });
    assert forall|k: int| 0 <= k < to.len() implies is_linked(links, id, (#[trigger] to[k]).0) by {
        assert(rows::is_value(links, to_of, to[k]));
        let m = choose|m: int| 0 <= m < links.len() && to_of(#[trigger] links[m]) == Some(to[k]);
        assert(links[m].source == id);
    }
    assert forall|k: int| 0 <= k < from.len() implies is_linked(
        links,
        (#[trigger] from[k]).0,
        id,
    ) by {
        assert(rows::is_value(links, from_of, from[k]));
        let m = choose|m: int| 0 <= m < links.len() && from_of(#[trigger] links[m]) == Some(from[k]);
        assert(links[m].target == id);
    }
}

/// Two links, the first of them from the page and the other from another page,
/// lead to the same target.
pub open spec fn share_target(links: Seq<Link>, id: i64, other: i64, i: int, j: int) -> bool {
    &&& 0 <= i < links.len()
    &&& 0 <= j < links.len()
    &&& links[i].source == id
    &&& links[j].source == other
    &&& links[i].target == links[j].target
}

proof fn lemma_contains_push<A>(s: Seq<A>, a: A, x: A)
    ensures
        s.push(a).contains(x) <==> s.contains(x) || x == a,
{
    let t = s.push(a);
    assert(t[s.len() as int] == a);
    if s.contains(x) {
        let k = choose|k: int| 0 <= k < s.len() && s[k] == x;
        assert(t[k] == x);
    }
    if t.contains(x) && x != a {
        let k = choose|k: int| 0 <= k < t.len() && t[k] == x;
        assert(s[k] == x);
    }
}

proof fn lemma_sharing_target(
    pages: Seq<StoredPage>,
    links: Seq<Link>,
    id: i64,
    target: i64,
    found: Seq<(i64, Seq<char>)>,
    n: int,
    p: (i64, Seq<char>),
)
    requires
        0 <= n <= links.len(),
    ensures
        semantic::sharing_target(pages, links, id, target, found, n).contains(p)
            <==> found.contains(p) || (p.0 != id && shown(pages, p.0) == Some(p) && exists|j: int|
            0 <= j < n && (#[trigger] links[j]).source == p.0 && links[j].target == target),
    decreases n,
{
    if n > 0 {
        lemma_sharing_target(pages, links, id, target, found, n - 1, p);
        let before = semantic::sharing_target(pages, links, id, target, found, n - 1);
        let l = links[n - 1];
        lemma_named(pages, l.source);
        if l.target == target && l.source != id {
            if let Some(q) = shown(pages, l.source) {
                lemma_contains_push(before, q, p);
            }
        }
    }
}

/// The co-linked pages are the other stored pages of which a link leads to a
/// target that a link of the page leads to, all of them.
pub proof fn law_co_linked_pages_share_a_target(
    pages: Seq<StoredPage>,
    links: Seq<Link>,
    id: i64,
    p: (i64, Seq<char>),
)
    ensures
        semantic::co_linked(pages, links, id, links.len() as int).contains(p) <==> p.0 != id
            && shown(pages, p.0) == Some(p) && exists|i: int, j: int|
            share_target(links, id, p.0, i, j),
{
    lemma_co_linked(pages, links, id, links.len() as int, p);
    if exists|i: int, j: int| share_target(links, id, p.0, i, j) {
        let (i, j) = choose|i: int, j: int| share_target(links, id, p.0, i, j);
        assert(share_target(links, id, p.0, i, j) && i < links.len());
    }
}

proof fn lemma_co_linked(
    pages: Seq<StoredPage>,
    links: Seq<Link>,
    id: i64,
    n: int,
    p: (i64, Seq<char>),
)
    requires
        0 <= n <= links.len(),
    ensures
        semantic::co_linked(pages, links, id, n).contains(p) <==> p.0 != id && shown(pages, p.0)
            == Some(p) && exists|i: int, j: int| i < n && share_target(links, id, p.0, i, j),
    decreases n,
{
    if n > 0 {
        lemma_co_linked(pages, links, id, n - 1, p);
        let before = semantic::co_linked(pages, links, id, n - 1);
        let l = links[n - 1];
        if exists|i: int, j: int| i < n - 1 && share_target(links, id, p.0, i, j) {
            let (i, j) = choose|i: int, j: int| i < n - 1 && share_target(links, id, p.0, i, j);
            assert(i < n && share_target(links, id, p.0, i, j));
        }
        if l.source == id {
            lemma_sharing_target(pages, links, id, l.target, before, links.len() as int, p);
            if exists|j: int|
                0 <= j < links.len() && (#[trigger] links[j]).source == p.0 && links[j].target
                    == l.target {
                let j = choose|j: int|
                    0 <= j < links.len() && (#[trigger] links[j]).source == p.0 && links[j].target
                        == l.target;
                assert(share_target(links, id, p.0, n - 1, j));
            }
        }
        if exists|i: int, j: int| i < n && share_target(links, id, p.0, i, j) {
            let (i, j) = choose|i: int, j: int| i < n && share_target(links, id, p.0, i, j);
            if i < n - 1 {
                assert(i < n - 1 && share_target(links, id, p.0, i, j));
            } else {
                assert(links[j].source == p.0 && links[j].target == l.target);
            }
        }
    }
}

/// The pages next to a page are the others of its chapter, in the order of the
/// table; where it has no chapter, or no other page stands in it, they are the
/// others of its book.
pub proof fn law_neighbours_stand_together(pages: Seq<StoredPage>, id: i64, chapter: i64, book: i64)
    ensures
        rows::is_selection(
            pages,
            |p: StoredPage|
                if p.meta.page_id != id && p.meta.chapter_id == Some(chapter) {
                    Some((p.meta.page_id, p.meta.name@))
                } else {
                    None
                },
            semantic::neighbours(pages, id, Parent::Chapter(chapter), pages.len() as int),
        ),
        rows::is_selection(
            pages,
            |p: StoredPage|
                if p.meta.page_id != id && p.meta.book_id == book {
                    Some((p.meta.page_id, p.meta.name@))
                } else {
                    None
                },
            semantic::neighbours(pages, id, Parent::Book(book), pages.len() as int),
        ),
{
    rows::lemma_selected(
        pages,
        |p: StoredPage|
            if p.meta.page_id != id && p.meta.chapter_id == Some(chapter) {
                Some((p.meta.page_id, p.meta.name@))
            } else {
                None
            },
        |k: int| semantic::neighbours(pages, id, Parent::Chapter(chapter), k),
    );
    rows::lemma_selected(
        pages,
        |p: StoredPage|
            if p.meta.page_id != id && p.meta.book_id == book {
                Some((p.meta.page_id, p.meta.name@))
            } else {
                None
            },
        |k: int| semantic::neighbours(pages, id, Parent::Book(book), k),
    );
}

/// Some other stored page stands in the chapter.
pub open spec fn has_company(pages: Seq<StoredPage>, id: i64, chapter: i64) -> bool {
    exists|i: int|
        0 <= i < pages.len() && (#[trigger] pages[i]).meta.page_id != id
            && pages[i].meta.chapter_id == Some(chapter)
}

/// The siblings of a stored page: up to twenty of the other pages of its chapter,
/// and of its book only where the page has no chapter or is alone in it.
pub proof fn law_siblings(pages: Seq<StoredPage>, page: StoredPage, q: int)
    requires
        semantic::ids_differ(pages),
        pages.contains(page),
        0 <= q < pages.len(),
        pages[q].meta.page_id != page.meta.page_id,
    ensures
        ({
            let id = page.meta.page_id;
            let found = semantic::siblings_of(pages, id);
            let one = (pages[q].meta.page_id, pages[q].meta.name@);
            let by_chapter = page.meta.chapter_id matches Some(c) && has_company(pages, id, c);
            &&& found.len() <= 20
            &&& by_chapter && found.len() < 20 ==> (pages[q].meta.chapter_id
                == page.meta.chapter_id ==> found.contains(one))
            &&& by_chapter && found.contains(one) ==> exists|m: int|
                0 <= m < pages.len() && (#[trigger] pages[m]).meta.chapter_id
                    == page.meta.chapter_id && pages[m].meta.page_id == one.0
            &&& !by_chapter && found.len() < 20 ==> (pages[q].meta.book_id == page.meta.book_id
                ==> found.contains(one))
            &&& !by_chapter && found.contains(one) ==> exists|m: int|
                0 <= m < pages.len() && (#[trigger] pages[m]).meta.book_id == page.meta.book_id
                    && pages[m].meta.page_id == one.0
        }),
{
    let id = page.meta.page_id;
    let at = choose|at: int| 0 <= at < pages.len() && pages[at] == page;
    law_page_is_found_by_id(pages, id);
    assert(pages[at].meta.page_id == id);
    let n = pages.len() as int;
    let book = page.meta.book_id;
    let one = (pages[q].meta.page_id, pages[q].meta.name@);
    let found = semantic::siblings_of(pages, id);
    let in_book = |p: StoredPage|
        if p.meta.page_id != id && p.meta.book_id == book {
            Some((p.meta.page_id, p.meta.name@))
        } else {
            None
        };
    let chapter = match page.meta.chapter_id {
        Some(c) => c,
        None => 0,
    };
    let in_chapter = |p: StoredPage|
        if p.meta.page_id != id && p.meta.chapter_id == Some(chapter) {
            Some((p.meta.page_id, p.meta.name@))
        } else {
            None
        };
    law_neighbours_stand_together(pages, id, chapter, book);
    let chapters = semantic::neighbours(pages, id, Parent::Chapter(chapter), n);
    let books = semantic::neighbours(pages, id, Parent::Book(book), n);
    rows::law_selection_is_complete(pages, in_chapter, chapters);
    rows::law_selection_is_complete(pages, in_book, books);
    assert(in_chapter(pages[q]) is Some || in_chapter(pages[q]) is None);
    assert(in_book(pages[q]) is Some || in_book(pages[q]) is None);
    if page.meta.chapter_id is Some {
        if has_company(pages, id, chapter) {
            let i = choose|i: int|
                0 <= i < pages.len() && (#[trigger] pages[i]).meta.page_id != id
                    && pages[i].meta.chapter_id == Some(chapter);
            assert(in_chapter(pages[i]) is Some);
            assert(chapters.contains(in_chapter(pages[i])->0));
            assert(chapters.len() > 0);
        } else if chapters.len() > 0 {
            assert(rows::is_value(pages, in_chapter, chapters[0]));
            let i = choose|i: int|
                0 <= i < pages.len() && in_chapter(#[trigger] pages[i]) == Some(chapters[0]);
            assert(has_company(pages, id, chapter));
        }
    }
    let by_chapter = page.meta.chapter_id is Some && has_company(pages, id, chapter);
    let list = if by_chapter {
        chapters
    } else {
        books
    };
    assert(found == queue::at_most(list, 20));
    if found.contains(one) {
        let k = choose|k: int| 0 <= k < found.len() && found[k] == one;
        assert(list[k] == one);
        if by_chapter {
            assert(rows::is_value(pages, in_chapter, chapters[k]));
            let m = choose|m: int| 0 <= m < pages.len() && in_chapter(#[trigger] pages[m]) == Some(one);
            assert(pages[m].meta.page_id == one.0);
        } else {
            assert(rows::is_value(pages, in_book, books[k]));
            let m = choose|m: int| 0 <= m < pages.len() && in_book(#[trigger] pages[m]) == Some(one);
            assert(pages[m].meta.page_id == one.0);
        }
    }
}

/// A list that is cut off keeps its first items, as many as the limit allows.
pub proof fn law_cut_list_keeps_the_first<A>(s: Seq<A>, limit: int)
    requires
        0 <= limit,
    ensures
        queue::at_most(s, limit).len() == if s.len() < limit {
            s.len() as int
        } else {
            limit
        },
        forall|i: int| 0 <= i < queue::at_most(s, limit).len() ==> queue::at_most(s, limit)[i] == s[i],
{
}

/// Storing which pages are similar adds a link for every pair, and keeps every
/// link that was there.
pub proof fn law_similar_pages_are_linked(links: Seq<Link>, pairs: Seq<(i64, i64)>, link: Link)
    ensures
        semantic::with_similar(links, pairs, pairs.len() as int).contains(link) <==> links.contains(
            link,
        ) || (link.kind == LinkKind::Similar && pairs.contains((link.source, link.target))),
{
    lemma_similar(links, pairs, pairs.len() as int, link);
    assert(pairs.take(pairs.len() as int) =~= pairs);
}

proof fn lemma_similar(links: Seq<Link>, pairs: Seq<(i64, i64)>, n: int, link: Link)
    requires
        0 <= n <= pairs.len(),
    ensures
        semantic::with_similar(links, pairs, n).contains(link) <==> links.contains(link) || (
        link.kind == LinkKind::Similar && pairs.take(n).contains((link.source, link.target))),
    decreases n,
{
    if n > 0 {
        lemma_similar(links, pairs, n - 1, link);
        let before = semantic::with_similar(links, pairs, n - 1);
        let added = Link { source: pairs[n - 1].0, target: pairs[n - 1].1, kind: LinkKind::Similar };
        lemma_contains_push(before, added, link);
        assert(pairs.take(n) =~= pairs.take(n - 1).push(pairs[n - 1]));
        lemma_contains_push(pairs.take(n - 1), pairs[n - 1], (link.source, link.target));
    } else {
        assert(pairs.take(0) =~= Seq::<(i64, i64)>::empty());
    }
}

// --- Access ---

/// Every page that is asked for and stored gets a verdict, in the order of the pages:
/// that its access is not known, that it is open, or whether one of the roles may
/// view it.
pub proof fn law_every_asked_page_gets_a_verdict(
    pages: Seq<StoredPage>,
    viewers: Seq<Viewer>,
    ids: Seq<i64>,
    roles: Seq<i64>,
)
    ensures
        rows::is_selection(
            pages,
            |p: StoredPage|
                if ids.contains(p.meta.page_id) {
                    Some((p.meta.page_id, verdict_on(p, viewers, roles)))
                } else {
                    None
                },
            semantic::verdicts(pages, viewers, ids, roles, pages.len() as int),
        ),
{
    rows::lemma_selected(
        pages,
        |p: StoredPage|
            if ids.contains(p.meta.page_id) {
                Some((p.meta.page_id, verdict_on(p, viewers, roles)))
            } else {
                None
            },
        |k: int| semantic::verdicts(pages, viewers, ids, roles, k),
    );
}

/// One of the roles is a viewer of the page.
pub open spec fn has_view(viewers: Seq<Viewer>, page_id: i64, roles: Seq<i64>) -> bool {
    exists|i: int|
        0 <= i < viewers.len() && (#[trigger] viewers[i]).page_id == page_id && roles.contains(
            viewers[i].role_id,
        )
}

/// What is known of the access to a page.
pub open spec fn verdict_on(
    p: StoredPage,
    viewers: Seq<Viewer>,
    roles: Seq<i64>,
) -> AclPrefilter {
    if p.acl is None {
        AclPrefilter::Uncomputed
    } else if p.acl->0.default_open {
        AclPrefilter::DefaultOpen
    } else if has_view(viewers, p.meta.page_id, roles) {
        AclPrefilter::Allow
    } else {
        AclPrefilter::Deny
    }
}

/// A viewer is known exactly once it was given for the page, and all viewers of other
/// pages stay; forgetting a page or a role takes away its viewers and no others.
pub proof fn law_viewers_are_kept(
    viewers: Seq<Viewer>,
    page_id: i64,
    role_id: i64,
    roles: Seq<i64>,
)
    ensures
        rows::is_choice(
            viewers,
            |v: Viewer| v.page_id != page_id,
            semantic::viewers_of_others(viewers, page_id),
        ),
        rows::is_choice(
            viewers,
            |v: Viewer| v.role_id != role_id,
            semantic::viewers_but(viewers, role_id),
        ),
        forall|v: Viewer| #[trigger]
            semantic::with_viewers(viewers, page_id, roles, roles.len() as int).contains(v)
                <==> viewers.contains(v) || (v.page_id == page_id && roles.contains(v.role_id)),
{
    rows::lemma_chosen(
        viewers,
        |v: Viewer| v.page_id != page_id,
        |v: Viewer| v.page_id != page_id,
    );
    rows::lemma_chosen(
        viewers,
        |v: Viewer| v.role_id != role_id,
        |v: Viewer| v.role_id != role_id,
    );
    assert forall|v: Viewer| #[trigger]
        semantic::with_viewers(viewers, page_id, roles, roles.len() as int).contains(v)
            <==> viewers.contains(v) || (v.page_id == page_id && roles.contains(v.role_id)) by {
        lemma_viewers_with(viewers, page_id, roles, roles.len() as int, v);
        if v.page_id == page_id && roles.contains(v.role_id) {
            let k = choose|k: int| 0 <= k < roles.len() && roles[k] == v.role_id;
            assert(roles[k] == v.role_id);
        }
    }
}

proof fn lemma_viewers_with(
    viewers: Seq<Viewer>,
    page_id: i64,
    roles: Seq<i64>,
    n: int,
    v: Viewer,
)
    requires
        0 <= n <= roles.len(),
    ensures
        semantic::with_viewers(viewers, page_id, roles, n).contains(v) <==> viewers.contains(v) || (
        v.page_id == page_id && exists|k: int| 0 <= k < n && #[trigger] roles[k] == v.role_id),
    decreases n,
{
    if n > 0 {
        lemma_viewers_with(viewers, page_id, roles, n - 1, v);
        let before = semantic::with_viewers(viewers, page_id, roles, n - 1);
        let viewer = Viewer { page_id, role_id: roles[n - 1] };
        if !before.contains(viewer) {
            lemma_contains_push(before, viewer, v);
        }
        if v.page_id == page_id && roles[n - 1] == v.role_id {
            assert(v == viewer);
        }
    }
}

/// A cached verdict is answered exactly if it is of the token, for a page that is
/// asked for and not older than allowed.
pub proof fn law_fresh_verdicts_are_answered(
    s: Seq<PermissionModel>,
    token_hash: Seq<char>,
    ids: Seq<i64>,
    min: i64,
)
    ensures
        rows::is_selection(
            s,
            |e: PermissionModel| answer_from(e, token_hash, ids, min),
            semantic::fresh_verdicts(s, token_hash, ids, min, s.len() as int),
        ),
{
    rows::lemma_selected(
        s,
        |e: PermissionModel| answer_from(e, token_hash, ids, min),
        |k: int| semantic::fresh_verdicts(s, token_hash, ids, min, k),
    );
}

/// What an entry answers, if anything.
pub open spec fn answer_from(
    e: PermissionModel,
    token_hash: Seq<char>,
    ids: Seq<i64>,
    min: i64,
) -> Option<(i64, bool)> {
    if e.token_hash == token_hash && ids.contains(e.page_id) && e.cached_at >= min {
        Some((e.page_id, e.viewable))
    } else {
        None
    }
}

// --- Conditions ---

/// The condition of a search names the books, the chapters and the pages that are
/// asked for, in this order and each only where some are, and counts its parameters
/// on from four.
pub proof fn law_conditions_of_a_search(filter: ScopeFilter)
    ensures
        ({
            let c = semantic::conditions(filter);
            let b: int = if filter.book_ids@.len() > 0 {
                1
            } else {
                0
            };
            let h: int = if filter.chapter_ids@.len() > 0 {
                1
            } else {
                0
            };
            let p: int = if filter.page_ids@.len() > 0 {
                1
            } else {
                0
            };
            &&& c.len() == b + h + p
            &&& b == 1 ==> c[0] == "p."@ + "book_id"@ + " = ANY($"@ + text::decimal(4) + ")"@
            &&& h == 1 ==> c[b] == "p."@ + "chapter_id"@ + " = ANY($"@ + text::decimal(
                (4 + b) as nat,
            ) + ")"@
            &&& p == 1 ==> c[b + h] == "p."@ + "page_id"@ + " = ANY($"@ + text::decimal(
                (4 + b + h) as nat,
            ) + ")"@
        }),
{
}

/// The id is in one of the lists of the filter.
pub open spec fn names_id(f: ScopeFilter, id: i64) -> bool {
    f.shelf_ids@.contains(id) || f.book_ids@.contains(id) || f.chapter_ids@.contains(id)
        || f.page_ids@.contains(id)
}

/// A filter names nothing exactly if no id is in any of its lists.
pub proof fn law_empty_filters(f: ScopeFilter)
    ensures
        f.names_nothing() <==> forall|id: i64| !#[trigger] names_id(f, id),
{
    if f.shelf_ids@.len() > 0 {
        assert(names_id(f, f.shelf_ids@[0]));
    }
    if f.book_ids@.len() > 0 {
        assert(names_id(f, f.book_ids@[0]));
    }
    if f.chapter_ids@.len() > 0 {
        assert(names_id(f, f.chapter_ids@[0]));
    }
    if f.page_ids@.len() > 0 {
        assert(names_id(f, f.page_ids@[0]));
    }
}

/// The relatives of a page are the first twenty pages that link to it, the first
/// twenty that it links to, and the first ten that share a target with it.
pub proof fn law_relatives_are_the_first(
    b: MarkovBlanket,
    pages: Seq<StoredPage>,
    links: Seq<Link>,
    id: i64,
)
    requires
        semantic::is_blanket(b, pages, links, id),
    ensures
        is_front_of(
            semantic::related(b.linked_from@),
            semantic::sources_of(pages, links, id, links.len() as int),
            20,
        ),
        is_front_of(
            semantic::related(b.links_to@),
            semantic::targets_of(pages, links, id, links.len() as int),
            20,
        ),
        is_front_of(
            semantic::related(b.co_linked@),
            semantic::co_linked(pages, links, id, links.len() as int),
            10,
        ),
        semantic::related(b.siblings@) == semantic::siblings_of(pages, id),
        b.siblings@.len() <= 20,
{
    assert(semantic::related(b.siblings@).len() == b.siblings@.len());
}

/// The list is the front of another: all of it, or as much as the limit.
pub open spec fn is_front_of<A>(front: Seq<A>, all: Seq<A>, limit: int) -> bool {
    &&& front.len() == if all.len() < limit {
        all.len() as int
    } else {
        limit
    }
    &&& forall|i: int| 0 <= i < front.len() ==> #[trigger] front[i] == all[i]
}

} // verus!
