//! The tables behind the semantic search: embedded pages, their chunks, the
//! links between them, and who may view them. The embeddings themselves are kept
//! by the ids of the chunks.

use crate::chunking::Chunk;
use crate::pipeline;
use crate::queue;
use crate::rows::{holds_id, retain_rows};
use crate::text;
use crate::text::{chars_of, decimal_string, join_chars, same_text, string_of};
use crate::types;
use crate::types::{ChunkDetail, MarkovBlanket, PageAcl, PageMeta, RelatedPage, ScopeFilter};
use crate::vector;
use crate::vector::{search_embeddings, RankedHit};
use vstd::prelude::*;
use vstd::string::StringExecFns;

verus! {

// --- Rows ---

/// What was found out about a page's viewers.
#[derive(Clone, Copy, Debug, PartialEq, Eq, Structural)]
pub struct AclStamp {
    /// No level has permissions of its own.
    pub default_open: bool,
    /// When it was found out, in Unix seconds.
    pub computed_at: i64,
}

/// An embedded page.
#[derive(Debug)]
pub struct StoredPage {
    pub meta: PageMeta,
    pub acl: Option<AclStamp>,
}

/// A chunk of an embedded page.
#[derive(Debug)]
pub struct StoredChunk {
    pub id: i64,
    pub page_id: i64,
    pub chunk_index: usize,
    pub heading_path: String,
    pub content: String,
    pub content_hash: String,
}

/// How two pages belong together.
#[derive(Clone, Copy, Debug, PartialEq, Eq, Structural)]
pub enum LinkKind {
    /// One links to the other.
    Link,
    /// Their embeddings are near each other.
    Similar,
}

impl LinkKind {
    /// The kind's stored name.
    pub open spec fn name(self) -> Seq<char> {
        match self {
            LinkKind::Link => "link"@,
            LinkKind::Similar => "similar"@,
        }
    }

    /// The kind's stored name.
    pub fn as_str(self) -> (r: &'static str)
        ensures
            r@ == self.name(),
    {
        match self {
            LinkKind::Link => "link",
            LinkKind::Similar => "similar",
        }
    }
}

/// A page that belongs to another.
#[derive(Clone, Copy, Debug, PartialEq, Eq, Structural)]
pub struct Link {
    pub source: i64,
    pub target: i64,
    pub kind: LinkKind,
}

/// A role that may view a page.
#[derive(Clone, Copy, Debug, PartialEq, Eq, Structural)]
pub struct Viewer {
    pub page_id: i64,
    pub role_id: i64,
}

/// The tables.
pub struct SemanticTables {
    pub pages: Vec<StoredPage>,
    pub chunks: Vec<StoredChunk>,
    pub links: Vec<Link>,
    pub viewers: Vec<Viewer>,
    /// The id of the next chunk.
    pub next_chunk_id: i64,
}

/// The position of the page with the id, from the `i`th row on.
pub open spec fn page_at(pages: Seq<StoredPage>, id: i64, i: int) -> Option<int>
    decreases pages.len() - i,
{
    if i < 0 || i >= pages.len() {
        None
    } else if pages[i].meta.page_id == id {
        Some(i)
    } else {
        page_at(pages, id, i + 1)
    }
}

/// The page with the id.
pub open spec fn page_with(pages: Seq<StoredPage>, id: i64) -> Option<StoredPage> {
    match page_at(pages, id, 0) {
        Some(i) => Some(pages[i]),
        None => None,
    }
}

/// No two rows are for one page.
pub open spec fn ids_differ(pages: Seq<StoredPage>) -> bool {
    forall|i: int, j: int|
        0 <= i < j < pages.len() ==> (#[trigger] pages[i]).meta.page_id != (
        #[trigger] pages[j]).meta.page_id
}

proof fn lemma_page_at(pages: Seq<StoredPage>, id: i64, i: int)
    requires
        0 <= i,
    ensures
        match page_at(pages, id, i) {
            Some(k) => i <= k < pages.len() && pages[k].meta.page_id == id,
            None => forall|k: int|
                i <= k < pages.len() ==> (#[trigger] pages[k]).meta.page_id != id,
        },
    decreases pages.len() - i,
{
    if i < pages.len() && pages[i].meta.page_id != id {
        lemma_page_at(pages, id, i + 1);
    }
}

/// A copy of a page's row.
fn copy_meta(m: &PageMeta) -> (r: PageMeta)
    ensures
        pipeline::meta_model(r) == pipeline::meta_model(*m),
{
    PageMeta {
        page_id: m.page_id,
        book_id: m.book_id,
        chapter_id: m.chapter_id,
        name: m.name.as_str().to_owned(),
        slug: m.slug.as_str().to_owned(),
        content_hash: m.content_hash.as_str().to_owned(),
        updated_at: match &m.updated_at {
            Some(s) => Some(s.as_str().to_owned()),
            None => None,
        },
    }
}

/// The models of rows.
pub open spec fn meta_models(v: Seq<PageMeta>) -> Seq<pipeline::MetaModel> {
    Seq::new(v.len(), |i: int| pipeline::meta_model(v[i]))
}

/// The rows of the first `n` pages that are asked for.
pub open spec fn metas_among(pages: Seq<StoredPage>, ids: Seq<i64>, n: int) -> Seq<
    pipeline::MetaModel,
>
    decreases n,
{
    if n <= 0 {
        Seq::empty()
    } else {
        let before = metas_among(pages, ids, n - 1);
        if ids.contains(pages[n - 1].meta.page_id) {
            before.push(pipeline::meta_model(pages[n - 1].meta))
        } else {
            before
        }
    }
}

/// The pages among the first `n` that are asked for, each with its book.
pub open spec fn books_among(pages: Seq<StoredPage>, ids: Seq<i64>, n: int) -> Seq<(i64, i64)>
    decreases n,
{
    if n <= 0 {
        Seq::empty()
    } else {
        let before = books_among(pages, ids, n - 1);
        if ids.contains(pages[n - 1].meta.page_id) {
            before.push((pages[n - 1].meta.page_id, pages[n - 1].meta.book_id))
        } else {
            before
        }
    }
}

/// The first page from the `i`th on with the slug.
pub open spec fn page_with_slug(pages: Seq<StoredPage>, slug: Seq<char>, i: int) -> Option<i64>
    decreases pages.len() - i,
{
    if i < 0 || i >= pages.len() {
        None
    } else if pages[i].meta.slug@ == slug {
        Some(pages[i].meta.page_id)
    } else {
        page_with_slug(pages, slug, i + 1)
    }
}

// --- Chunks ---

/// What a stored chunk holds.
#[verifier::ext_equal]
pub struct ChunkRowModel {
    pub id: i64,
    pub page_id: i64,
    pub chunk_index: usize,
    pub heading_path: Seq<char>,
    pub content: Seq<char>,
    pub content_hash: Seq<char>,
}

/// What stored chunks hold.
pub open spec fn chunk_rows(v: Seq<StoredChunk>) -> Seq<ChunkRowModel> {
    Seq::new(
        v.len(),
        |i: int|
            ChunkRowModel {
                id: v[i].id,
                page_id: v[i].page_id,
                chunk_index: v[i].chunk_index,
                heading_path: v[i].heading_path@,
                content: v[i].content@,
                content_hash: v[i].content_hash@,
            },
    )
}

/// A chunk of the page with the index is among the rows.
pub open spec fn model_has_chunk(rows: Seq<ChunkRowModel>, page_id: i64, index: usize) -> bool {
    exists|i: int|
        0 <= i < rows.len() && (#[trigger] rows[i]).page_id == page_id && rows[i].chunk_index
            == index
}

/// The rows and the next id after the first `n` chunks of a page were added. A
/// second one with an index is left out.
pub open spec fn with_chunks(
    rows: Seq<ChunkRowModel>,
    next_id: i64,
    page_id: i64,
    chunks: Seq<Chunk>,
    n: int,
) -> (Seq<ChunkRowModel>, i64)
    decreases n,
{
    if n <= 0 {
        (rows, next_id)
    } else {
        let before = with_chunks(rows, next_id, page_id, chunks, n - 1);
        let c = chunks[n - 1];
        if model_has_chunk(before.0, page_id, c.index) {
            before
        } else {
            (
                before.0.push(
                    ChunkRowModel {
                        id: before.1,
                        page_id,
                        chunk_index: c.index,
                        heading_path: c.heading_path@,
                        content: c.content@,
                        content_hash: c.content_hash@,
                    },
                ),
                (before.1 + 1) as i64,
            )
        }
    }
}

/// What the details of a chunk say.
#[verifier::ext_equal]
pub struct DetailModel {
    pub chunk_id: i64,
    pub page_id: i64,
    pub heading_path: Seq<char>,
    pub content: Seq<char>,
    pub page_name: Seq<char>,
}

/// What details of chunks say.
pub open spec fn detail_models(v: Seq<ChunkDetail>) -> Seq<DetailModel> {
    Seq::new(
        v.len(),
        |i: int|
            DetailModel {
                chunk_id: v[i].chunk_id,
                page_id: v[i].page_id,
                heading_path: v[i].heading_path@,
                content: v[i].content@,
                page_name: v[i].page_name@,
            },
    )
}

/// The details of the first `n` chunks that are asked for and whose page is
/// stored.
pub open spec fn details_among(
    pages: Seq<StoredPage>,
    chunks: Seq<StoredChunk>,
    ids: Seq<i64>,
    n: int,
) -> Seq<DetailModel>
    decreases n,
{
    if n <= 0 {
        Seq::empty()
    } else {
        let before = details_among(pages, chunks, ids, n - 1);
        let c = chunks[n - 1];
        match page_with(pages, c.page_id) {
            Some(page) => if ids.contains(c.id) {
                before.push(
                    DetailModel {
                        chunk_id: c.id,
                        page_id: c.page_id,
                        heading_path: c.heading_path@,
                        content: c.content@,
                        page_name: page.meta.name@,
                    },
                )
            } else {
                before
            },
            None => before,
        }
    }
}

// --- Links ---

/// The links after one was added, unless it was there.
pub open spec fn with_link(links: Seq<Link>, link: Link) -> Seq<Link> {
    if links.contains(link) {
        links
    } else {
        links.push(link)
    }
}

/// The links after those of one kind from a page to the first `n` targets were
/// added.
pub open spec fn with_links(
    links: Seq<Link>,
    source: i64,
    targets: Seq<i64>,
    kind: LinkKind,
    n: int,
) -> Seq<Link>
    decreases n,
{
    if n <= 0 {
        links
    } else {
        with_link(
            with_links(links, source, targets, kind, n - 1),
            Link { source, target: targets[n - 1], kind },
        )
    }
}

/// The links of other pages, and those of the page that it does not have by
/// linking.
pub open spec fn without_links_of(links: Seq<Link>, source: i64) -> Seq<Link> {
    links.filter(|l: Link| !(l.source == source && l.kind == LinkKind::Link))
}

/// The links after the first `n` pairs of similar pages were added.
pub open spec fn with_similar(links: Seq<Link>, pairs: Seq<(i64, i64)>, n: int) -> Seq<Link>
    decreases n,
{
    if n <= 0 {
        links
    } else {
        with_link(
            with_similar(links, pairs, n - 1),
            Link { source: pairs[n - 1].0, target: pairs[n - 1].1, kind: LinkKind::Similar },
        )
    }
}

// --- Relatives ---

/// Pages with their names.
pub open spec fn related(v: Seq<RelatedPage>) -> Seq<(i64, Seq<char>)> {
    Seq::new(v.len(), |i: int| (v[i].page_id, v[i].name@))
}

/// The page with its name, where it is stored.
pub open spec fn named(pages: Seq<StoredPage>, id: i64) -> Seq<(i64, Seq<char>)> {
    match page_with(pages, id) {
        Some(page) => seq![(id, page.meta.name@)],
        None => Seq::empty(),
    }
}

/// The stored pages from which the first `n` links lead to the page.
pub open spec fn sources_of(
    pages: Seq<StoredPage>,
    links: Seq<Link>,
    id: i64,
    n: int,
) -> Seq<(i64, Seq<char>)>
    decreases n,
{
    if n <= 0 {
        Seq::empty()
    } else {
        let before = sources_of(pages, links, id, n - 1);
        if links[n - 1].target == id {
            before + named(pages, links[n - 1].source)
        } else {
            before
        }
    }
}

/// The stored pages to which the first `n` links lead from the page.
pub open spec fn targets_of(
    pages: Seq<StoredPage>,
    links: Seq<Link>,
    id: i64,
    n: int,
) -> Seq<(i64, Seq<char>)>
    decreases n,
{
    if n <= 0 {
        Seq::empty()
    } else {
        let before = targets_of(pages, links, id, n - 1);
        if links[n - 1].source == id {
            before + named(pages, links[n - 1].target)
        } else {
            before
        }
    }
}

/// The pages after one was added, unless it was there.
pub open spec fn with_new(
    found: Seq<(i64, Seq<char>)>,
    more: Seq<(i64, Seq<char>)>,
) -> Seq<(i64, Seq<char>)> {
    if more.len() > 0 && !found.contains(more[0]) {
        found.push(more[0])
    } else {
        found
    }
}

/// The other stored pages that the first `n` links lead from to the target,
/// added to those found before.
pub open spec fn sharing_target(
    pages: Seq<StoredPage>,
    links: Seq<Link>,
    id: i64,
    target: i64,
    found: Seq<(i64, Seq<char>)>,
    n: int,
) -> Seq<(i64, Seq<char>)>
    decreases n,
{
    if n <= 0 {
        found
    } else {
        let before = sharing_target(pages, links, id, target, found, n - 1);
        if links[n - 1].target == target && links[n - 1].source != id {
            with_new(before, named(pages, links[n - 1].source))
        } else {
            before
        }
    }
}

/// The other stored pages that link to a target of one of the page's first `n`
/// links, each once.
pub open spec fn co_linked(
    pages: Seq<StoredPage>,
    links: Seq<Link>,
    id: i64,
    n: int,
) -> Seq<(i64, Seq<char>)>
    decreases n,
{
    if n <= 0 {
        Seq::empty()
    } else {
        let before = co_linked(pages, links, id, n - 1);
        if links[n - 1].source == id {
            sharing_target(pages, links, id, links[n - 1].target, before, links.len() as int)
        } else {
            before
        }
    }
}

/// Where pages stand that are next to each other.
#[derive(Clone, Copy, Debug, PartialEq, Eq, Structural)]
pub enum Parent {
    Chapter(i64),
    Book(i64),
}

/// The page stands there.
pub open spec fn stands_in(page: StoredPage, parent: Parent) -> bool {
    match parent {
        Parent::Chapter(c) => page.meta.chapter_id == Some(c),
        Parent::Book(b) => page.meta.book_id == b,
    }
}

/// The other pages among the first `n` that stand there.
pub open spec fn neighbours(
    pages: Seq<StoredPage>,
    id: i64,
    parent: Parent,
    n: int,
) -> Seq<(i64, Seq<char>)>
    decreases n,
{
    if n <= 0 {
        Seq::empty()
    } else {
        let before = neighbours(pages, id, parent, n - 1);
        let page = pages[n - 1];
        if page.meta.page_id != id && stands_in(page, parent) {
            before.push((page.meta.page_id, page.meta.name@))
        } else {
            before
        }
    }
}

/// The pages next to a page: those of its chapter, or where it has none or is
/// alone in it those of its book; at most twenty.
pub open spec fn siblings_of(pages: Seq<StoredPage>, id: i64) -> Seq<(i64, Seq<char>)> {
    match page_with(pages, id) {
        None => Seq::empty(),
        Some(page) => {
            let n = pages.len() as int;
            let in_book = queue::at_most(
                neighbours(pages, id, Parent::Book(page.meta.book_id), n),
                20,
            );
            match page.meta.chapter_id {
                Some(c) => {
                    let in_chapter = neighbours(pages, id, Parent::Chapter(c), n);
                    if in_chapter.len() > 0 {
                        queue::at_most(in_chapter, 20)
                    } else {
                        in_book
                    }
                },
                None => in_book,
            }
        },
    }
}

/// The lists are the relatives of the page, cut to their limits.
pub open spec fn is_blanket(
    b: MarkovBlanket,
    pages: Seq<StoredPage>,
    links: Seq<Link>,
    id: i64,
) -> bool {
    let n = links.len() as int;
    &&& related(b.linked_from@) == queue::at_most(sources_of(pages, links, id, n), 20)
    &&& related(b.links_to@) == queue::at_most(targets_of(pages, links, id, n), 20)
    &&& related(b.co_linked@) == queue::at_most(co_linked(pages, links, id, n), 10)
    &&& related(b.siblings@) == siblings_of(pages, id)
}

// --- Scopes ---

/// The page is one that the filter names, by its book, its chapter or itself.
pub open spec fn in_scope(filter: ScopeFilter, meta: PageMeta) -> bool {
    ||| filter.book_ids@.contains(meta.book_id)
    ||| (meta.chapter_id matches Some(c) && filter.chapter_ids@.contains(c))
    ||| filter.page_ids@.contains(meta.page_id)
}

/// Whether the filter names the page.
pub fn scope_selects(filter: &ScopeFilter, meta: &PageMeta) -> (r: bool)
    ensures
        r == in_scope(*filter, *meta),
{
    if holds_id(filter.book_ids.as_slice(), meta.book_id) || holds_id(
        filter.page_ids.as_slice(),
        meta.page_id,
    ) {
        return true;
    }
    match meta.chapter_id {
        Some(c) => holds_id(filter.chapter_ids.as_slice(), c),
        None => false,
    }
}

/// The chunk is a candidate: without a filter, or with one that names nothing,
/// every chunk is; else those of the stored pages that it names. Shelves name no
/// page by themselves.
pub open spec fn is_candidate(
    pages: Seq<StoredPage>,
    filter: Option<ScopeFilter>,
    chunk: StoredChunk,
) -> bool {
    match filter {
        None => true,
        Some(f) => f.names_nothing() || (page_with(pages, chunk.page_id) matches Some(page)
            && in_scope(f, page.meta)),
    }
}

/// The candidates among the first `n` chunks, each with its page.
pub open spec fn candidates(
    pages: Seq<StoredPage>,
    chunks: Seq<StoredChunk>,
    filter: Option<ScopeFilter>,
    n: int,
) -> Seq<(i64, i64)>
    decreases n,
{
    if n <= 0 {
        Seq::empty()
    } else {
        let before = candidates(pages, chunks, filter, n - 1);
        if is_candidate(pages, filter, chunks[n - 1]) {
            before.push((chunks[n - 1].id, chunks[n - 1].page_id))
        } else {
            before
        }
    }
}

/// The filter that a reference leads to.
pub open spec fn filter_value(filter: Option<&ScopeFilter>) -> Option<ScopeFilter> {
    match filter {
        Some(f) => Some(*f),
        None => None,
    }
}

impl SemanticTables {
    /// No two rows are for one page.
    pub open spec fn well_formed(self) -> bool {
        ids_differ(self.pages@)
    }

    /// Empty tables.
    pub fn new() -> (r: Self)
        ensures
            r.well_formed(),
            r.pages@ == Seq::<StoredPage>::empty(),
            r.chunks@ == Seq::<StoredChunk>::empty(),
            r.links@ == Seq::<Link>::empty(),
            r.viewers@ == Seq::<Viewer>::empty(),
            r.next_chunk_id == 1,
    {
        SemanticTables {
            pages: Vec::new(),
            chunks: Vec::new(),
            links: Vec::new(),
            viewers: Vec::new(),
            next_chunk_id: 1,
        }
    }

    /// The position of a page.
    fn position(&self, id: i64) -> (r: Option<usize>)
        ensures
            match r {
                Some(i) => page_at(self.pages@, id, 0) == Some(i as int) && i < self.pages@.len()
                    && self.pages@[i as int].meta.page_id == id,
                None => page_at(self.pages@, id, 0) is None,
            },
    {
        let mut i: usize = 0;
        while i < self.pages.len()
            invariant
                i <= self.pages@.len(),
                page_at(self.pages@, id, 0) == page_at(self.pages@, id, i as int),
            decreases self.pages@.len() - i,
        {
            if self.pages[i].meta.page_id == id {
                return Some(i);
            }
            i += 1;
        }
        None
    }

    /// Stores a page's row. What is known of its viewers stays.
    pub fn upsert_page(&mut self, meta: PageMeta)
        requires
            old(self).well_formed(),
        ensures
            final(self).well_formed(),
            final(self).pages@ == match page_at(old(self).pages@, meta.page_id, 0) {
                Some(i) => old(self).pages@.update(
                    i,
                    StoredPage { meta, acl: old(self).pages@[i].acl },
                ),
                None => old(self).pages@.push(StoredPage { meta, acl: None }),
            },
            final(self).chunks == old(self).chunks,
            final(self).links == old(self).links,
            final(self).viewers == old(self).viewers,
            final(self).next_chunk_id == old(self).next_chunk_id,
    {
        proof {
            lemma_page_at(self.pages@, meta.page_id, 0);
        }
        match self.position(meta.page_id) {
            Some(i) => {
                let acl: Option<AclStamp> = self.pages[i].acl;
                self.pages.set(i, StoredPage { meta, acl });
            },
            None => {
                self.pages.push(StoredPage { meta, acl: None });
            },
        }
    }

    /// Removes a page with its chunks and every link from or to it.
    pub fn delete_page(&mut self, page_id: i64)
        requires
            old(self).well_formed(),
        ensures
            final(self).well_formed(),
            final(self).pages@ == old(self).pages@.filter(
                |p: StoredPage| p.meta.page_id != page_id,
            ),
            final(self).chunks@ == old(self).chunks@.filter(
                |c: StoredChunk| c.page_id != page_id,
            ),
            final(self).links@ == old(self).links@.filter(
                |l: Link| l.source != page_id && l.target != page_id,
            ),
            final(self).viewers == old(self).viewers,
            final(self).next_chunk_id == old(self).next_chunk_id,
    {
        let ghost fits_chunk = |c: StoredChunk| c.page_id != page_id;
        let keep_chunk = |c: &StoredChunk| -> (b: bool)
            ensures
                b == (c.page_id != page_id),
        {
            c.page_id != page_id
        };
        retain_rows(&mut self.chunks, keep_chunk, Ghost(fits_chunk));
        let ghost fits_link = |l: Link| l.source != page_id && l.target != page_id;
        let keep_link = |l: &Link| -> (b: bool)
            ensures
                b == (l.source != page_id && l.target != page_id),
        {
            l.source != page_id && l.target != page_id
        };
        retain_rows(&mut self.links, keep_link, Ghost(fits_link));
        let ghost fits_page = |p: StoredPage| p.meta.page_id != page_id;
        let keep_page = |p: &StoredPage| -> (b: bool)
            ensures
                b == (p.meta.page_id != page_id),
        {
            p.meta.page_id != page_id
        };
        let ghost before = self.pages@;
        retain_rows(&mut self.pages, keep_page, Ghost(fits_page));
        proof {
            lemma_filter_keeps_ids_apart(before, fits_page);
        }
    }

    /// Removes all pages, chunks and links.
    pub fn clear_all_embeddings(&mut self)
        ensures
            final(self).well_formed(),
            final(self).pages@ == Seq::<StoredPage>::empty(),
            final(self).chunks@ == Seq::<StoredChunk>::empty(),
            final(self).links@ == Seq::<Link>::empty(),
            final(self).viewers == old(self).viewers,
            final(self).next_chunk_id == old(self).next_chunk_id,
    {
        self.links = Vec::new();
        self.chunks = Vec::new();
        self.pages = Vec::new();
    }

    /// The row of a page.
    pub fn get_page_meta(&self, page_id: i64) -> (r: Option<PageMeta>)
        ensures
            match r {
                Some(m) => page_with(self.pages@, page_id) matches Some(page)
                    && pipeline::meta_model(m) == pipeline::meta_model(page.meta),
                None => page_with(self.pages@, page_id) is None,
            },
    {
        match self.position(page_id) {
            Some(i) => Some(copy_meta(&self.pages[i].meta)),
            None => None,
        }
    }

    /// The stored digest of a page.
    pub fn get_page_content_hash(&self, page_id: i64) -> (r: Option<String>)
        ensures
            text::opt_text(r) == match page_with(self.pages@, page_id) {
                Some(page) => Some(page.meta.content_hash@),
                None => None,
            },
    {
        match self.position(page_id) {
            Some(i) => Some(self.pages[i].meta.content_hash.as_str().to_owned()),
            None => None,
        }
    }

    /// The page with a slug.
    pub fn resolve_page_slug(&self, slug: &str) -> (r: Option<i64>)
        ensures
            r == page_with_slug(self.pages@, slug@, 0),
    {
        let mut i: usize = 0;
        while i < self.pages.len()
            invariant
                i <= self.pages@.len(),
                page_with_slug(self.pages@, slug@, 0) == page_with_slug(
                    self.pages@,
                    slug@,
                    i as int,
                ),
            decreases self.pages@.len() - i,
        {
            if same_text(self.pages[i].meta.slug.as_str(), slug) {
                return Some(self.pages[i].meta.page_id);
            }
            i += 1;
        }
        None
    }

    /// The rows of the pages that are asked for and stored.
    pub fn get_page_metas(&self, page_ids: &[i64]) -> (r: Vec<PageMeta>)
        ensures
            meta_models(r@) == metas_among(self.pages@, page_ids@, self.pages@.len() as int),
    {
        let mut out: Vec<PageMeta> = Vec::new();
        let mut i: usize = 0;
        assert(meta_models(out@) =~= metas_among(self.pages@, page_ids@, 0));
        while i < self.pages.len()
            invariant
                i <= self.pages@.len(),
                meta_models(out@) == metas_among(self.pages@, page_ids@, i as int),
            decreases self.pages@.len() - i,
        {
            if holds_id(page_ids, self.pages[i].meta.page_id) {
                out.push(copy_meta(&self.pages[i].meta));
            }
            assert(meta_models(out@) =~= metas_among(self.pages@, page_ids@, i + 1));
            i += 1;
        }
        out
    }

    /// The books of the pages that are asked for and stored.
    pub fn get_page_book_ids(&self, page_ids: &[i64]) -> (r: Vec<(i64, i64)>)
        ensures
            r@ == books_among(self.pages@, page_ids@, self.pages@.len() as int),
    {
        let mut out: Vec<(i64, i64)> = Vec::new();
        let mut i: usize = 0;
        while i < self.pages.len()
            invariant
                i <= self.pages@.len(),
                out@ == books_among(self.pages@, page_ids@, i as int),
            decreases self.pages@.len() - i,
        {
            if holds_id(page_ids, self.pages[i].meta.page_id) {
                out.push((self.pages[i].meta.page_id, self.pages[i].meta.book_id));
            }
            i += 1;
        }
        out
    }

    /// Whether a chunk of a page with an index is stored.
    fn has_chunk(&self, page_id: i64, index: usize) -> (r: bool)
        ensures
            r == model_has_chunk(chunk_rows(self.chunks@), page_id, index),
    {
        let mut i: usize = 0;
        while i < self.chunks.len()
            invariant
                i <= self.chunks@.len(),
                forall|j: int|
                    0 <= j < i ==> !((#[trigger] chunk_rows(self.chunks@)[j]).page_id == page_id
                        && chunk_rows(self.chunks@)[j].chunk_index == index),
            decreases self.chunks@.len() - i,
        {
            if self.chunks[i].page_id == page_id && self.chunks[i].chunk_index == index {
                assert(chunk_rows(self.chunks@)[i as int].page_id == page_id);
                return true;
            }
            i += 1;
        }
        false
    }

    /// Stores the chunks of a page in place of those it had. Chunks of a page
    /// that is not stored are left out.
    pub fn insert_chunks(&mut self, page_id: i64, chunks: &Vec<Chunk>)
        requires
            old(self).well_formed(),
            old(self).next_chunk_id + chunks@.len() <= i64::MAX,
        ensures
            final(self).well_formed(),
            final(self).pages == old(self).pages,
            final(self).links == old(self).links,
            final(self).viewers == old(self).viewers,
            (chunk_rows(final(self).chunks@), final(self).next_chunk_id) == with_chunks(
                chunk_rows(
                    old(self).chunks@.filter(|c: StoredChunk| c.page_id != page_id),
                ),
                old(self).next_chunk_id,
                page_id,
                chunks@,
                if page_with(old(self).pages@, page_id) is Some {
                    chunks@.len() as int
                } else {
                    0
                },
            ),
    {
        let ghost fits_chunk = |c: StoredChunk| c.page_id != page_id;
        let keep_chunk = |c: &StoredChunk| -> (b: bool)
            ensures
                b == (c.page_id != page_id),
        {
            c.page_id != page_id
        };
        retain_rows(&mut self.chunks, keep_chunk, Ghost(fits_chunk));
        if self.position(page_id).is_none() {
            return;
        }
        let ghost start = chunk_rows(self.chunks@);
        let total: usize = chunks.len();
        let mut i: usize = 0;
        while i < total
            invariant
                i <= total,
                total == chunks@.len(),
                self.pages == old(self).pages,
                self.links == old(self).links,
                self.viewers == old(self).viewers,
                old(self).next_chunk_id + chunks@.len() <= i64::MAX,
                self.next_chunk_id <= old(self).next_chunk_id + i,
                (chunk_rows(self.chunks@), self.next_chunk_id) == with_chunks(
                    start,
                    old(self).next_chunk_id,
                    page_id,
                    chunks@,
                    i as int,
                ),
            decreases total - i,
        {
            let ghost before = chunk_rows(self.chunks@);
            let c = &chunks[i];
            if !self.has_chunk(page_id, c.index) {
                let id: i64 = self.next_chunk_id;
                self.chunks.push(
                    StoredChunk {
                        id,
                        page_id,
                        chunk_index: c.index,
                        heading_path: c.heading_path.as_str().to_owned(),
                        content: c.content.as_str().to_owned(),
                        content_hash: c.content_hash.as_str().to_owned(),
                    },
                );
                self.next_chunk_id = id + 1;
                assert(chunk_rows(self.chunks@) =~= before.push(
                    ChunkRowModel {
                        id,
                        page_id,
                        chunk_index: c.index,
                        heading_path: c.heading_path@,
                        content: c.content@,
                        content_hash: c.content_hash@,
                    },
                ));
            }
            i += 1;
        }
    }

    /// The details of the chunks that are asked for and stored.
    pub fn get_chunk_details(&self, chunk_ids: &[i64]) -> (r: Vec<ChunkDetail>)
        ensures
            detail_models(r@) == details_among(
                self.pages@,
                self.chunks@,
                chunk_ids@,
                self.chunks@.len() as int,
            ),
    {
        let mut out: Vec<ChunkDetail> = Vec::new();
        let mut i: usize = 0;
        assert(detail_models(out@) =~= details_among(self.pages@, self.chunks@, chunk_ids@, 0));
        while i < self.chunks.len()
            invariant
                i <= self.chunks@.len(),
                detail_models(out@) == details_among(
                    self.pages@,
                    self.chunks@,
                    chunk_ids@,
                    i as int,
                ),
            decreases self.chunks@.len() - i,
        {
            let c = &self.chunks[i];
            if holds_id(chunk_ids, c.id) {
                if let Some(p) = self.position(c.page_id) {
                    out.push(
                        ChunkDetail {
                            chunk_id: c.id,
                            page_id: c.page_id,
                            heading_path: c.heading_path.as_str().to_owned(),
                            content: c.content.as_str().to_owned(),
                            page_name: self.pages[p].meta.name.as_str().to_owned(),
                        },
                    );
                }
            }
            assert(detail_models(out@) =~= details_among(
                self.pages@,
                self.chunks@,
                chunk_ids@,
                i + 1,
            ));
            i += 1;
        }
        out
    }

    /// Adds a link, unless it is there.
    fn add_link(&mut self, link: Link)
        ensures
            final(self).links@ == with_link(old(self).links@, link),
            final(self).pages == old(self).pages,
            final(self).chunks == old(self).chunks,
            final(self).viewers == old(self).viewers,
            final(self).next_chunk_id == old(self).next_chunk_id,
    {
        let mut i: usize = 0;
        while i < self.links.len()
            invariant
                i <= self.links@.len(),
                *self == *old(self),
                forall|j: int| 0 <= j < i ==> self.links@[j] != link,
            decreases self.links@.len() - i,
        {
            if self.links[i] == link {
                return;
            }
            i += 1;
        }
        self.links.push(link);
    }

    /// Stores the pages that a page links to in place of those before. Similar
    /// pages stay.
    pub fn replace_relationships(&mut self, source: i64, targets: &Vec<i64>)
        requires
            old(self).well_formed(),
        ensures
            final(self).well_formed(),
            final(self).links@ == with_links(
                without_links_of(old(self).links@, source),
                source,
                targets@,
                LinkKind::Link,
                targets@.len() as int,
            ),
            final(self).pages == old(self).pages,
            final(self).chunks == old(self).chunks,
            final(self).viewers == old(self).viewers,
            final(self).next_chunk_id == old(self).next_chunk_id,
    {
        let ghost fits = |l: Link| !(l.source == source && l.kind == LinkKind::Link);
        let keep = |l: &Link| -> (b: bool)
            ensures
                b == !(l.source == source && l.kind == LinkKind::Link),
        {
            !(l.source == source && l.kind == LinkKind::Link)
        };
        retain_rows(&mut self.links, keep, Ghost(fits));
        let ghost start = self.links@;
        let mut i: usize = 0;
        while i < targets.len()
            invariant
                i <= targets@.len(),
                self.links@ == with_links(start, source, targets@, LinkKind::Link, i as int),
                self.pages == old(self).pages,
                self.chunks == old(self).chunks,
                self.viewers == old(self).viewers,
                self.next_chunk_id == old(self).next_chunk_id,
            decreases targets@.len() - i,
        {
            self.add_link(Link { source, target: targets[i], kind: LinkKind::Link });
            i += 1;
        }
    }

    /// Stores the pairs of similar pages in place of those before. Links stay.
    pub fn replace_similar(&mut self, pairs: &Vec<(i64, i64)>)
        requires
            old(self).well_formed(),
        ensures
            final(self).well_formed(),
            final(self).links@ == with_similar(
                old(self).links@.filter(|l: Link| l.kind != LinkKind::Similar),
                pairs@,
                pairs@.len() as int,
            ),
            final(self).pages == old(self).pages,
            final(self).chunks == old(self).chunks,
            final(self).viewers == old(self).viewers,
            final(self).next_chunk_id == old(self).next_chunk_id,
    {
        let ghost fits = |l: Link| l.kind != LinkKind::Similar;
        let keep = |l: &Link| -> (b: bool)
            ensures
                b == (l.kind != LinkKind::Similar),
        {
            l.kind != LinkKind::Similar
        };
        retain_rows(&mut self.links, keep, Ghost(fits));
        let ghost start = self.links@;
        let mut i: usize = 0;
        while i < pairs.len()
            invariant
                i <= pairs@.len(),
                self.links@ == with_similar(start, pairs@, i as int),
                self.pages == old(self).pages,
                self.chunks == old(self).chunks,
                self.viewers == old(self).viewers,
                self.next_chunk_id == old(self).next_chunk_id,
            decreases pairs@.len() - i,
        {
            self.add_link(
                Link { source: pairs[i].0, target: pairs[i].1, kind: LinkKind::Similar },
            );
            i += 1;
        }
    }

    /// The page with its name, where it is stored.
    fn name_page(&self, id: i64) -> (r: Option<RelatedPage>)
        ensures
            match r {
                Some(p) => named(self.pages@, id) == seq![(p.page_id, p.name@)],
                None => named(self.pages@, id).len() == 0,
            },
    {
        match self.position(id) {
            Some(i) => Some(
                RelatedPage { page_id: id, name: self.pages[i].meta.name.as_str().to_owned() },
            ),
            None => None,
        }
    }

    /// The pages that link to a page.
    fn linked_from(&self, id: i64) -> (r: Vec<RelatedPage>)
        ensures
            related(r@) == sources_of(self.pages@, self.links@, id, self.links@.len() as int),
    {
        let mut out: Vec<RelatedPage> = Vec::new();
        let mut i: usize = 0;
        assert(related(out@) =~= sources_of(self.pages@, self.links@, id, 0));
        while i < self.links.len()
            invariant
                i <= self.links@.len(),
                related(out@) == sources_of(self.pages@, self.links@, id, i as int),
            decreases self.links@.len() - i,
        {
            if self.links[i].target == id {
                if let Some(p) = self.name_page(self.links[i].source) {
                    out.push(p);
                }
            }
            assert(related(out@) =~= sources_of(self.pages@, self.links@, id, i + 1));
            i += 1;
        }
        out
    }

    /// The pages that a page links to.
    fn links_to(&self, id: i64) -> (r: Vec<RelatedPage>)
        ensures
            related(r@) == targets_of(self.pages@, self.links@, id, self.links@.len() as int),
    {
        let mut out: Vec<RelatedPage> = Vec::new();
        let mut i: usize = 0;
        assert(related(out@) =~= targets_of(self.pages@, self.links@, id, 0));
        while i < self.links.len()
            invariant
                i <= self.links@.len(),
                related(out@) == targets_of(self.pages@, self.links@, id, i as int),
            decreases self.links@.len() - i,
        {
            if self.links[i].source == id {
                if let Some(p) = self.name_page(self.links[i].target) {
                    out.push(p);
                }
            }
            assert(related(out@) =~= targets_of(self.pages@, self.links@, id, i + 1));
            i += 1;
        }
        out
    }

    /// Adds the other pages that link to a target.
    fn push_sharing(&self, id: i64, target: i64, out: &mut Vec<RelatedPage>)
        ensures
            related(final(out)@) == sharing_target(
                self.pages@,
                self.links@,
                id,
                target,
                related(old(out)@),
                self.links@.len() as int,
            ),
    {
        let ghost start = related(out@);
        let mut i: usize = 0;
        while i < self.links.len()
            invariant
                i <= self.links@.len(),
                related(out@) == sharing_target(
                    self.pages@,
                    self.links@,
                    id,
                    target,
                    start,
                    i as int,
                ),
            decreases self.links@.len() - i,
        {
            if self.links[i].target == target && self.links[i].source != id {
                if let Some(p) = self.name_page(self.links[i].source) {
                    let ghost before = related(out@);
                    let ghost item = (p.page_id, p.name@);
                    if !is_related(out, &p) {
                        out.push(p);
                        assert(related(out@) =~= before.push(item));
                    }
                }
            }
            i += 1;
        }
    }

    /// The other pages that link to what a page links to.
    fn co_linked_pages(&self, id: i64) -> (r: Vec<RelatedPage>)
        ensures
            related(r@) == co_linked(self.pages@, self.links@, id, self.links@.len() as int),
    {
        let mut out: Vec<RelatedPage> = Vec::new();
        let mut i: usize = 0;
        assert(related(out@) =~= co_linked(self.pages@, self.links@, id, 0));
        while i < self.links.len()
            invariant
                i <= self.links@.len(),
                related(out@) == co_linked(self.pages@, self.links@, id, i as int),
            decreases self.links@.len() - i,
        {
            if self.links[i].source == id {
                self.push_sharing(id, self.links[i].target, &mut out);
            }
            i += 1;
        }
        out
    }

    /// The other pages that stand in the same place.
    fn pages_in(&self, id: i64, parent: Parent) -> (r: Vec<RelatedPage>)
        ensures
            related(r@) == neighbours(self.pages@, id, parent, self.pages@.len() as int),
    {
        let mut out: Vec<RelatedPage> = Vec::new();
        let mut i: usize = 0;
        assert(related(out@) =~= neighbours(self.pages@, id, parent, 0));
        while i < self.pages.len()
            invariant
                i <= self.pages@.len(),
                related(out@) == neighbours(self.pages@, id, parent, i as int),
            decreases self.pages@.len() - i,
        {
            let p = &self.pages[i];
            let here: bool = match parent {
                Parent::Chapter(c) => match p.meta.chapter_id {
                    Some(own) => own == c,
                    None => false,
                },
                Parent::Book(b) => p.meta.book_id == b,
            };
            if p.meta.page_id != id && here {
                out.push(
                    RelatedPage {
                        page_id: p.meta.page_id,
                        name: p.meta.name.as_str().to_owned(),
                    },
                );
            }
            assert(related(out@) =~= neighbours(self.pages@, id, parent, i + 1));
            i += 1;
        }
        out
    }

    /// The pages next to a page.
    fn siblings(&self, id: i64) -> (r: Vec<RelatedPage>)
        ensures
            related(r@) == siblings_of(self.pages@, id),
    {
        match self.position(id) {
            None => {
                let out: Vec<RelatedPage> = Vec::new();
                assert(related(out@) =~= Seq::<(i64, Seq<char>)>::empty());
                out
            },
            Some(i) => {
                if let Some(c) = self.pages[i].meta.chapter_id {
                    let in_chapter = self.pages_in(id, Parent::Chapter(c));
                    assert(related(in_chapter@).len() == in_chapter@.len());
                    if in_chapter.len() > 0 {
                        return first_related(in_chapter, 20);
                    }
                }
                let in_book = self.pages_in(id, Parent::Book(self.pages[i].meta.book_id));
                first_related(in_book, 20)
            },
        }
    }

    /// The pages that belong to a page: those that link to it and that it links
    /// to, at most twenty each; at most ten others that link to what it links
    /// to; and the pages next to it.
    pub fn get_markov_blanket(&self, page_id: i64) -> (r: MarkovBlanket)
        ensures
            related(r.linked_from@) == queue::at_most(
                sources_of(self.pages@, self.links@, page_id, self.links@.len() as int),
                20,
            ),
            related(r.links_to@) == queue::at_most(
                targets_of(self.pages@, self.links@, page_id, self.links@.len() as int),
                20,
            ),
            related(r.co_linked@) == queue::at_most(
                co_linked(self.pages@, self.links@, page_id, self.links@.len() as int),
                10,
            ),
            related(r.siblings@) == siblings_of(self.pages@, page_id),
            is_blanket(r, self.pages@, self.links@, page_id),
    {
        MarkovBlanket {
            linked_from: first_related(self.linked_from(page_id), 20),
            links_to: first_related(self.links_to(page_id), 20),
            co_linked: first_related(self.co_linked_pages(page_id), 10),
            siblings: self.siblings(page_id),
        }
    }

    /// The chunks that a search looks at, each with its page.
    pub fn search_candidates(&self, filter: Option<&ScopeFilter>) -> (r: Vec<(i64, i64)>)
        ensures
            r@ == candidates(
                self.pages@,
                self.chunks@,
                filter_value(filter),
                self.chunks@.len() as int,
            ),
    {
        let mut out: Vec<(i64, i64)> = Vec::new();
        let mut i: usize = 0;
        while i < self.chunks.len()
            invariant
                i <= self.chunks@.len(),
                out@ == candidates(self.pages@, self.chunks@, filter_value(filter), i as int),
            decreases self.chunks@.len() - i,
        {
            let chosen: bool = match filter {
                None => true,
                Some(f) => f.is_empty() || match self.position(self.chunks[i].page_id) {
                    Some(p) => scope_selects(f, &self.pages[p].meta),
                    None => false,
                },
            };
            if chosen {
                out.push((self.chunks[i].id, self.chunks[i].page_id));
            }
            i += 1;
        }
        out
    }

    /// Stores who may view a page, in place of what was known. The stamp goes to
    /// the page's row, where it is stored.
    pub fn upsert_page_acl(&mut self, acl: &PageAcl)
        requires
            old(self).well_formed(),
        ensures
            final(self).well_formed(),
            final(self).viewers@ == with_viewers(
                viewers_of_others(old(self).viewers@, acl.page_id),
                acl.page_id,
                acl.view_roles@,
                acl.view_roles@.len() as int,
            ),
            pages_stamped(
                old(self).pages@,
                final(self).pages@,
                acl.page_id,
                AclStamp { default_open: acl.default_open, computed_at: acl.computed_at },
            ),
            final(self).chunks == old(self).chunks,
            final(self).links == old(self).links,
            final(self).next_chunk_id == old(self).next_chunk_id,
    {
        let page_id: i64 = acl.page_id;
        self.drop_viewers_of(page_id);
        let ghost start = self.viewers@;
        let mut i: usize = 0;
        while i < acl.view_roles.len()
            invariant
                i <= acl.view_roles@.len(),
                self.viewers@ == with_viewers(start, page_id, acl.view_roles@, i as int),
                self.pages == old(self).pages,
                self.chunks == old(self).chunks,
                self.links == old(self).links,
                self.next_chunk_id == old(self).next_chunk_id,
            decreases acl.view_roles@.len() - i,
        {
            self.add_viewer(Viewer { page_id, role_id: acl.view_roles[i] });
            i += 1;
        }
        proof {
            lemma_page_at(self.pages@, page_id, 0);
        }
        if let Some(p) = self.position(page_id) {
            let meta = copy_meta(&self.pages[p].meta);
            let stamp = AclStamp { default_open: acl.default_open, computed_at: acl.computed_at };
            self.pages.set(p, StoredPage { meta, acl: Some(stamp) });
        }
    }

    /// Adds a role that may view a page, unless it is there.
    fn add_viewer(&mut self, viewer: Viewer)
        ensures
            final(self).viewers@ == with_viewer(old(self).viewers@, viewer),
            final(self).pages == old(self).pages,
            final(self).chunks == old(self).chunks,
            final(self).links == old(self).links,
            final(self).next_chunk_id == old(self).next_chunk_id,
    {
        let mut i: usize = 0;
        while i < self.viewers.len()
            invariant
                i <= self.viewers@.len(),
                *self == *old(self),
                forall|j: int| 0 <= j < i ==> self.viewers@[j] != viewer,
            decreases self.viewers@.len() - i,
        {
            if self.viewers[i] == viewer {
                return;
            }
            i += 1;
        }
        self.viewers.push(viewer);
    }

    /// Removes the roles that may view a page.
    fn drop_viewers_of(&mut self, page_id: i64)
        ensures
            final(self).viewers@ == viewers_of_others(old(self).viewers@, page_id),
            final(self).pages == old(self).pages,
            final(self).chunks == old(self).chunks,
            final(self).links == old(self).links,
            final(self).next_chunk_id == old(self).next_chunk_id,
    {
        let ghost fits = |v: Viewer| v.page_id != page_id;
        let keep = |v: &Viewer| -> (b: bool)
            ensures
                b == (v.page_id != page_id),
        {
            v.page_id != page_id
        };
        retain_rows(&mut self.viewers, keep, Ghost(fits));
    }

    /// Forgets which roles may view a page.
    pub fn delete_page_acl(&mut self, page_id: i64)
        ensures
            final(self).viewers@ == viewers_of_others(old(self).viewers@, page_id),
            final(self).pages == old(self).pages,
            final(self).chunks == old(self).chunks,
            final(self).links == old(self).links,
            final(self).next_chunk_id == old(self).next_chunk_id,
    {
        self.drop_viewers_of(page_id);
    }

    /// Forgets a role: it may view no page.
    pub fn delete_role_from_acl(&mut self, role_id: i64)
        ensures
            final(self).viewers@ == viewers_but(old(self).viewers@, role_id),
            final(self).pages == old(self).pages,
            final(self).chunks == old(self).chunks,
            final(self).links == old(self).links,
            final(self).next_chunk_id == old(self).next_chunk_id,
    {
        let ghost fits = |v: Viewer| v.role_id != role_id;
        let keep = |v: &Viewer| -> (b: bool)
            ensures
                b == (v.role_id != role_id),
        {
            v.role_id != role_id
        };
        retain_rows(&mut self.viewers, keep, Ghost(fits));
    }

    /// The pages of which it was found out who may view them.
    pub fn list_acl_page_ids(&self) -> (r: Vec<i64>)
        ensures
            r@ == stamped_ids(self.pages@, self.pages@.len() as int),
    {
        let mut out: Vec<i64> = Vec::new();
        let mut i: usize = 0;
        while i < self.pages.len()
            invariant
                i <= self.pages@.len(),
                out@ == stamped_ids(self.pages@, i as int),
            decreases self.pages@.len() - i,
        {
            if self.pages[i].acl.is_some() {
                out.push(self.pages[i].meta.page_id);
            }
            i += 1;
        }
        out
    }

    /// Whether one of the roles may view a page.
    fn has_viewer(&self, page_id: i64, role_ids: &[i64]) -> (r: bool)
        ensures
            r == is_viewable(self.viewers@, page_id, role_ids@),
    {
        let mut i: usize = 0;
        while i < self.viewers.len()
            invariant
                i <= self.viewers@.len(),
                forall|j: int|
                    0 <= j < i ==> !((#[trigger] self.viewers@[j]).page_id == page_id
                        && role_ids@.contains(self.viewers@[j].role_id)),
            decreases self.viewers@.len() - i,
        {
            if self.viewers[i].page_id == page_id && holds_id(role_ids, self.viewers[i].role_id) {
                assert(self.viewers@[i as int].page_id == page_id);
                return true;
            }
            i += 1;
        }
        false
    }

    /// Tells for each page that is asked for and stored what its access list
    /// says of the roles.
    pub fn prefilter_pages_by_roles(&self, page_ids: &[i64], role_ids: &[i64]) -> (r: Vec<
        (i64, AclPrefilter),
    >)
        ensures
            r@ == verdicts(
                self.pages@,
                self.viewers@,
                page_ids@,
                role_ids@,
                self.pages@.len() as int,
            ),
    {
        let mut out: Vec<(i64, AclPrefilter)> = Vec::new();
        let mut i: usize = 0;
        while i < self.pages.len()
            invariant
                i <= self.pages@.len(),
                out@ == verdicts(self.pages@, self.viewers@, page_ids@, role_ids@, i as int),
            decreases self.pages@.len() - i,
        {
            let id: i64 = self.pages[i].meta.page_id;
            if holds_id(page_ids, id) {
                let verdict = match self.pages[i].acl {
                    None => AclPrefilter::Uncomputed,
                    Some(stamp) => if stamp.default_open {
                        AclPrefilter::DefaultOpen
                    } else if self.has_viewer(id, role_ids) {
                        AclPrefilter::Allow
                    } else {
                        AclPrefilter::Deny
                    },
                };
                out.push((id, verdict));
            }
            i += 1;
        }
        out
    }
}

/// What a page's access list says of roles.
#[derive(Clone, Copy, Debug, PartialEq, Eq, Structural)]
pub enum AclPrefilter {
    /// It was not found out who may view the page.
    Uncomputed,
    /// No level has permissions of its own.
    DefaultOpen,
    /// One of the roles may view the page.
    Allow,
    /// None of the roles may.
    Deny,
}

/// One of the roles may view the page.
pub open spec fn is_viewable(viewers: Seq<Viewer>, page_id: i64, roles: Seq<i64>) -> bool {
    exists|i: int|
        0 <= i < viewers.len() && (#[trigger] viewers[i]).page_id == page_id && roles.contains(
            viewers[i].role_id,
        )
}

/// What a page's access list says of roles.
pub open spec fn verdict_for(page: StoredPage, viewers: Seq<Viewer>, roles: Seq<i64>) -> AclPrefilter {
    match page.acl {
        None => AclPrefilter::Uncomputed,
        Some(stamp) => if stamp.default_open {
            AclPrefilter::DefaultOpen
        } else if is_viewable(viewers, page.meta.page_id, roles) {
            AclPrefilter::Allow
        } else {
            AclPrefilter::Deny
        },
    }
}

/// What the access lists of the first `n` pages say, as far as they are asked
/// for.
pub open spec fn verdicts(
    pages: Seq<StoredPage>,
    viewers: Seq<Viewer>,
    ids: Seq<i64>,
    roles: Seq<i64>,
    n: int,
) -> Seq<(i64, AclPrefilter)>
    decreases n,
{
    if n <= 0 {
        Seq::empty()
    } else {
        let before = verdicts(pages, viewers, ids, roles, n - 1);
        let page = pages[n - 1];
        if ids.contains(page.meta.page_id) {
            before.push((page.meta.page_id, verdict_for(page, viewers, roles)))
        } else {
            before
        }
    }
}

/// The ids of the stamped pages among the first `n`.
pub open spec fn stamped_ids(pages: Seq<StoredPage>, n: int) -> Seq<i64>
    decreases n,
{
    if n <= 0 {
        Seq::empty()
    } else {
        let before = stamped_ids(pages, n - 1);
        if pages[n - 1].acl is Some {
            before.push(pages[n - 1].meta.page_id)
        } else {
            before
        }
    }
}

/// The viewers of the pages other than the given one.
pub open spec fn viewers_of_others(viewers: Seq<Viewer>, page_id: i64) -> Seq<Viewer> {
    viewers.filter(|v: Viewer| v.page_id != page_id)
}

/// The viewers other than the given role.
pub open spec fn viewers_but(viewers: Seq<Viewer>, role_id: i64) -> Seq<Viewer> {
    viewers.filter(|v: Viewer| v.role_id != role_id)
}

/// The viewers after one was added, unless it was there.
pub open spec fn with_viewer(viewers: Seq<Viewer>, viewer: Viewer) -> Seq<Viewer> {
    if viewers.contains(viewer) {
        viewers
    } else {
        viewers.push(viewer)
    }
}

/// The viewers after the first `n` roles were added for a page.
pub open spec fn with_viewers(
    viewers: Seq<Viewer>,
    page_id: i64,
    roles: Seq<i64>,
    n: int,
) -> Seq<Viewer>
    decreases n,
{
    if n <= 0 {
        viewers
    } else {
        with_viewer(
            with_viewers(viewers, page_id, roles, n - 1),
            Viewer { page_id, role_id: roles[n - 1] },
        )
    }
}

/// The page's row got the stamp, where it is stored, and nothing else changed.
pub open spec fn pages_stamped(
    before: Seq<StoredPage>,
    after: Seq<StoredPage>,
    page_id: i64,
    stamp: AclStamp,
) -> bool {
    &&& after.len() == before.len()
    &&& forall|i: int|
        0 <= i < before.len() ==> if before[i].meta.page_id == page_id {
            pipeline::meta_model((#[trigger] after[i]).meta) == pipeline::meta_model(
                before[i].meta,
            ) && after[i].acl == Some(stamp)
        } else {
            after[i] == before[i]
        }
}

/// Removing rows keeps the others' ids apart.
proof fn lemma_filter_keeps_ids_apart(pages: Seq<StoredPage>, fits: spec_fn(StoredPage) -> bool)
    requires
        ids_differ(pages),
    ensures
        ids_differ(pages.filter(fits)),
        forall|i: int|
            0 <= i < pages.filter(fits).len() ==> pages.contains(
                #[trigger] pages.filter(fits)[i],
            ),
    decreases pages.len(),
{
    reveal(Seq::filter);
    if pages.len() > 0 {
        let init = pages.drop_last();
        let last = pages.last();
        lemma_filter_keeps_ids_apart(init, fits);
        let kept = init.filter(fits);
        assert forall|i: int| 0 <= i < pages.filter(fits).len() implies pages.contains(
            #[trigger] pages.filter(fits)[i],
        ) by {
            if i < kept.len() {
                assert(pages.filter(fits)[i] == kept[i]);
                assert(init.contains(kept[i]));
                let k = choose|k: int| 0 <= k < init.len() && init[k] == kept[i];
                assert(pages[k] == kept[i]);
            } else {
                assert(pages[pages.len() - 1] == last);
            }
        }
        if fits(last) {
            assert(pages.filter(fits) =~= kept.push(last));
            assert forall|i: int, j: int| 0 <= i < j < pages.filter(fits).len() implies (
            #[trigger] pages.filter(fits)[i]).meta.page_id != (#[trigger] pages.filter(
                fits,
            )[j]).meta.page_id by {
                if j == kept.len() {
                    assert(init.contains(kept[i]));
                    let k = choose|k: int| 0 <= k < init.len() && init[k] == kept[i];
                    assert(pages[k].meta.page_id != pages[pages.len() - 1].meta.page_id);
                }
            }
        }
    } else {
        assert(pages.filter(fits) =~= pages);
    }
}

/// Whether a page is in a list, by its id and name.
fn is_related(pages: &Vec<RelatedPage>, page: &RelatedPage) -> (r: bool)
    ensures
        r == related(pages@).contains((page.page_id, page.name@)),
{
    let mut i: usize = 0;
    while i < pages.len()
        invariant
            i <= pages@.len(),
            forall|j: int|
                0 <= j < i ==> (#[trigger] related(pages@)[j]) != (page.page_id, page.name@),
        decreases pages@.len() - i,
    {
        if pages[i].page_id == page.page_id && same_text(
            pages[i].name.as_str(),
            page.name.as_str(),
        ) {
            assert(related(pages@)[i as int] == (page.page_id, page.name@));
            return true;
        }
        i += 1;
    }
    false
}

/// At most the first so many pages.
fn first_related(pages: Vec<RelatedPage>, limit: usize) -> (r: Vec<RelatedPage>)
    ensures
        related(r@) == queue::at_most(related(pages@), limit as int),
{
    let mut pages = pages;
    let ghost all = pages@;
    if pages.len() > limit {
        pages.truncate(limit);
    }
    assert(related(pages@) =~= queue::at_most(related(all), limit as int));
    pages
}

// --- Search ---

/// One condition of a search: a column of the page is in a list that is handed
/// over as the parameter with the number.
pub open spec fn condition(column: Seq<char>, number: nat) -> Seq<char> {
    "p."@ + column + " = ANY($"@ + text::decimal(number) + ")"@
}

/// The conditions that a filter stands for: one for each list that is not empty.
/// The parameters are numbered from four on.
pub open spec fn conditions(filter: ScopeFilter) -> Seq<Seq<char>> {
    let books = if filter.book_ids@.len() > 0 {
        seq![condition("book_id"@, 4)]
    } else {
        Seq::empty()
    };
    let chapters = if filter.chapter_ids@.len() > 0 {
        books.push(condition("chapter_id"@, 4 + books.len()))
    } else {
        books
    };
    if filter.page_ids@.len() > 0 {
        chapters.push(condition("page_id"@, 4 + chapters.len()))
    } else {
        chapters
    }
}

/// Writes one condition.
fn show_condition(column: &str, number: usize) -> (r: Vec<char>)
    ensures
        r@ == condition(column@, number as nat),
{
    let mut c = String::new();
    c.append("p.");
    c.append(column);
    c.append(" = ANY($");
    c.append(decimal_string(number as u64).as_str());
    c.append(")");
    assert(c@ =~= condition(column@, number as nat));
    chars_of(c.as_str())
}

/// The condition of a search for a filter: the page is in one of its lists. A
/// filter that names shelves alone has none, and finds nothing.
pub fn search_condition(filter: &ScopeFilter) -> (r: Option<String>)
    ensures
        match r {
            Some(c) => conditions(*filter).len() > 0 && c@ == text::join_with(
                conditions(*filter),
                " OR "@,
            ),
            None => conditions(*filter).len() == 0,
        },
{
    let mut parts: Vec<Vec<char>> = Vec::new();
    assert(text::texts(parts@) =~= Seq::<Seq<char>>::empty());
    if filter.book_ids.len() > 0 {
        let ghost before = text::texts(parts@);
        parts.push(show_condition("book_id", 4));
        assert(text::texts(parts@) =~= seq![condition("book_id"@, 4)]);
    }
    if filter.chapter_ids.len() > 0 {
        let ghost before = text::texts(parts@);
        let number: usize = 4 + parts.len();
        parts.push(show_condition("chapter_id", number));
        assert(text::texts(parts@) =~= before.push(condition("chapter_id"@, number as nat)));
    }
    if filter.page_ids.len() > 0 {
        let ghost before = text::texts(parts@);
        let number: usize = 4 + parts.len();
        parts.push(show_condition("page_id", number));
        assert(text::texts(parts@) =~= before.push(condition("page_id"@, number as nat)));
    }
    assert(text::texts(parts@) =~= conditions(*filter));
    if parts.len() == 0 {
        return None;
    }
    let separator = chars_of(" OR ");
    let all = join_chars(parts.as_slice(), separator.as_slice());
    Some(string_of(all.as_slice()))
}

/// Candidates for the pages similar to one: the other pages, each with a key
/// that grows with its similarity.
pub open spec fn similarity_hits(page_id: i64, keys: Seq<(i64, i64)>, n: int) -> Seq<RankedHit>
    decreases n,
{
    if n <= 0 {
        Seq::empty()
    } else {
        let before = similarity_hits(page_id, keys, n - 1);
        if keys[n - 1].0 != page_id {
            before.push(RankedHit { chunk_id: 0, page_id: keys[n - 1].0, key: keys[n - 1].1 })
        } else {
            before
        }
    }
}

/// The pages of hits.
pub open spec fn hit_pages(hits: Seq<RankedHit>) -> Seq<i64> {
    Seq::new(hits.len(), |i: int| hits[i].page_id)
}

/// The pages most similar to one, at most `top_k` of them, each with a key above
/// the threshold, from the most similar on.
pub fn similar_pages(page_id: i64, keys: &Vec<(i64, i64)>, top_k: usize, threshold: i64) -> (r: Vec<
    i64,
>)
    requires
        threshold < i64::MAX,
    ensures
        r@ == hit_pages(
            queue::at_most(
                vector::ranked(
                    similarity_hits(page_id, keys@, keys@.len() as int),
                    (threshold + 1) as i64,
                ),
                top_k as int,
            ),
        ),
{
    let mut hits: Vec<RankedHit> = Vec::new();
    let mut i: usize = 0;
    while i < keys.len()
        invariant
            i <= keys@.len(),
            hits@ == similarity_hits(page_id, keys@, i as int),
        decreases keys@.len() - i,
    {
        if keys[i].0 != page_id {
            hits.push(RankedHit { chunk_id: 0, page_id: keys[i].0, key: keys[i].1 });
        }
        i += 1;
    }
    let ranked = search_embeddings(hits.as_slice(), top_k, threshold + 1);
    let mut out: Vec<i64> = Vec::new();
    let mut j: usize = 0;
    while j < ranked.len()
        invariant
            j <= ranked@.len(),
            out@ == hit_pages(ranked@.take(j as int)),
        decreases ranked@.len() - j,
    {
        out.push(ranked[j].page_id);
        assert(out@ =~= hit_pages(ranked@.take(j + 1)));
        j += 1;
    }
    assert(ranked@.take(j as int) =~= ranked@);
    out
}

// --- Verdicts that were remembered ---

/// What was found out about a token's access to a page.
#[derive(Debug)]
pub struct PermissionEntry {
    /// The digest of the token's id.
    pub token_hash: String,
    pub page_id: i64,
    pub viewable: bool,
    /// When it was found out, in Unix seconds.
    pub cached_at: i64,
}

/// What was found out about access to pages.
pub struct PermissionCache {
    pub entries: Vec<PermissionEntry>,
}

/// The entry is about the token and the page.
pub open spec fn is_about(e: PermissionEntry, token_hash: Seq<char>, page_id: i64) -> bool {
    e.token_hash@ == token_hash && e.page_id == page_id
}

/// What an entry says.
#[verifier::ext_equal]
pub struct PermissionModel {
    pub token_hash: Seq<char>,
    pub page_id: i64,
    pub viewable: bool,
    pub cached_at: i64,
}

/// What entries say.
pub open spec fn permissions(v: Seq<PermissionEntry>) -> Seq<PermissionModel> {
    Seq::new(
        v.len(),
        |i: int|
            PermissionModel {
                token_hash: v[i].token_hash@,
                page_id: v[i].page_id,
                viewable: v[i].viewable,
                cached_at: v[i].cached_at,
            },
    )
}

/// The entries after one was replaced or added.
pub open spec fn with_permission(s: Seq<PermissionModel>, e: PermissionModel) -> Seq<
    PermissionModel,
> {
    s.filter(
        |m: PermissionModel| !(m.token_hash == e.token_hash && m.page_id == e.page_id),
    ).push(e)
}

/// The entries after the first `n` verdicts were stored for a token.
pub open spec fn with_permissions(
    s: Seq<PermissionModel>,
    token_hash: Seq<char>,
    verdicts: Seq<(i64, bool)>,
    cached_at: i64,
    n: int,
) -> Seq<PermissionModel>
    decreases n,
{
    if n <= 0 {
        s
    } else {
        with_permission(
            with_permissions(s, token_hash, verdicts, cached_at, n - 1),
            PermissionModel {
                token_hash,
                page_id: verdicts[n - 1].0,
                viewable: verdicts[n - 1].1,
                cached_at,
            },
        )
    }
}

/// The verdicts among the first `n` entries that are for the token, asked for
/// and no older than the given time.
pub open spec fn fresh_verdicts(
    s: Seq<PermissionModel>,
    token_hash: Seq<char>,
    ids: Seq<i64>,
    min_cached_at: i64,
    n: int,
) -> Seq<(i64, bool)>
    decreases n,
{
    if n <= 0 {
        Seq::empty()
    } else {
        let before = fresh_verdicts(s, token_hash, ids, min_cached_at, n - 1);
        let e = s[n - 1];
        if e.token_hash == token_hash && ids.contains(e.page_id) && e.cached_at >= min_cached_at {
            before.push((e.page_id, e.viewable))
        } else {
            before
        }
    }
}

/// The entries that are no older than the given time.
pub open spec fn entries_since(v: Seq<PermissionEntry>, time: i64) -> Seq<PermissionEntry> {
    v.filter(|e: PermissionEntry| e.cached_at >= time)
}

pub(crate) proof fn lemma_permissions_filter(
    v: Seq<PermissionEntry>,
    f: spec_fn(PermissionEntry) -> bool,
    g: spec_fn(PermissionModel) -> bool,
)
    requires
        forall|e: PermissionEntry|
            #[trigger] f(e) == g(
                PermissionModel {
                    token_hash: e.token_hash@,
                    page_id: e.page_id,
                    viewable: e.viewable,
                    cached_at: e.cached_at,
                },
            ),
    ensures
        permissions(v.filter(f)) == permissions(v).filter(g),
    decreases v.len(),
{
    reveal(Seq::filter);
    if v.len() > 0 {
        let init = v.drop_last();
        lemma_permissions_filter(init, f, g);
        assert(permissions(v).drop_last() =~= permissions(init));
        assert(f(v.last()) == g(permissions(v).last()));
        if f(v.last()) {
            assert(permissions(init.filter(f).push(v.last())) =~= permissions(
                init.filter(f),
            ).push(permissions(v).last()));
        }
    }
    assert(permissions(v.filter(f)) =~= permissions(v).filter(g));
}

impl PermissionCache {
    /// Nothing is remembered.
    pub fn new() -> (r: Self)
        ensures
            permissions(r.entries@) == Seq::<PermissionModel>::empty(),
    {
        let r = PermissionCache { entries: Vec::new() };
        assert(permissions(r.entries@) =~= Seq::<PermissionModel>::empty());
        r
    }

    /// The remembered verdicts for a token on the pages that are asked for, as
    /// far as they are no older than the given time.
    pub fn get_permission_cache_batch(
        &self,
        token_hash: &str,
        page_ids: &[i64],
        min_cached_at: i64,
    ) -> (r: Vec<(i64, bool)>)
        ensures
            r@ == fresh_verdicts(
                permissions(self.entries@),
                token_hash@,
                page_ids@,
                min_cached_at,
                self.entries@.len() as int,
            ),
    {
        let mut out: Vec<(i64, bool)> = Vec::new();
        let mut i: usize = 0;
        while i < self.entries.len()
            invariant
                i <= self.entries@.len(),
                out@ == fresh_verdicts(
                    permissions(self.entries@),
                    token_hash@,
                    page_ids@,
                    min_cached_at,
                    i as int,
                ),
            decreases self.entries@.len() - i,
        {
            let e = &self.entries[i];
            if same_text(e.token_hash.as_str(), token_hash) && holds_id(page_ids, e.page_id)
                && e.cached_at >= min_cached_at {
                out.push((e.page_id, e.viewable));
            }
            i += 1;
        }
        out
    }

    /// Remembers a verdict in place of the one before.
    fn put(&mut self, token_hash: &str, page_id: i64, viewable: bool, cached_at: i64)
        ensures
            permissions(final(self).entries@) == with_permission(
                permissions(old(self).entries@),
                PermissionModel { token_hash: token_hash@, page_id, viewable, cached_at },
            ),
    {
        let ghost fits = |e: PermissionEntry| !is_about(e, token_hash@, page_id);
        let ghost model_fits = |m: PermissionModel|
            !(m.token_hash == token_hash@ && m.page_id == page_id);
        let keep = |e: &PermissionEntry| -> (b: bool)
            ensures
                b == !is_about(*e, token_hash@, page_id),
        {
            !(e.page_id == page_id && same_text(e.token_hash.as_str(), token_hash))
        };
        let ghost start = self.entries@;
        retain_rows(&mut self.entries, keep, Ghost(fits));
        proof {
            lemma_permissions_filter(start, fits, model_fits);
        }
        let ghost before = permissions(self.entries@);
        self.entries.push(
            PermissionEntry { token_hash: token_hash.to_owned(), page_id, viewable, cached_at },
        );
        let ghost added = PermissionModel { token_hash: token_hash@, page_id, viewable, cached_at };
        assert(permissions(self.entries@) =~= before.push(added));
        assert(model_fits =~= (|m: PermissionModel|
            !(m.token_hash == added.token_hash && m.page_id == added.page_id)));
    }

    /// Remembers verdicts for a token.
    pub fn upsert_permission_cache_batch(
        &mut self,
        token_hash: &str,
        verdicts: &Vec<(i64, bool)>,
        cached_at: i64,
    )
        ensures
            permissions(final(self).entries@) == with_permissions(
                permissions(old(self).entries@),
                token_hash@,
                verdicts@,
                cached_at,
                verdicts@.len() as int,
            ),
    {
        let ghost start = permissions(self.entries@);
        let mut i: usize = 0;
        while i < verdicts.len()
            invariant
                i <= verdicts@.len(),
                permissions(self.entries@) == with_permissions(
                    start,
                    token_hash@,
                    verdicts@,
                    cached_at,
                    i as int,
                ),
            decreases verdicts@.len() - i,
        {
            self.put(token_hash, verdicts[i].0, verdicts[i].1, cached_at);
            i += 1;
        }
    }

    /// Forgets the verdicts older than the given time and tells how many.
    pub fn evict_stale_permission_cache(&mut self, older_than: i64) -> (count: usize)
        ensures
            final(self).entries@ == entries_since(old(self).entries@, older_than),
            count == old(self).entries@.len() - final(self).entries@.len(),
    {
        let ghost fits = |e: PermissionEntry| e.cached_at >= older_than;
        let keep = |e: &PermissionEntry| -> (b: bool)
            ensures
                b == (e.cached_at >= older_than),
        {
            e.cached_at >= older_than
        };
        let before: usize = self.entries.len();
        proof {
            self.entries@.lemma_filter_len(fits);
        }
        retain_rows(&mut self.entries, keep, Ghost(fits));
        before - self.entries.len()
    }
}

// --- Laws ---

proof fn lemma_co_linked_step(
    pages: Seq<StoredPage>,
    links: Seq<Link>,
    id: i64,
    target: i64,
    found: Seq<(i64, Seq<char>)>,
    n: int,
)
    requires
        found.no_duplicates(),
        forall|i: int| 0 <= i < found.len() ==> (#[trigger] found[i]).0 != id,
        0 <= n <= links.len(),
    ensures
        ({
            let r = sharing_target(pages, links, id, target, found, n);
            r.no_duplicates() && (forall|i: int|
                0 <= i < r.len() ==> (#[trigger] r[i]).0 != id)
        }),
    decreases n,
{
    if n > 0 {
        lemma_co_linked_step(pages, links, id, target, found, n - 1);
    }
}

/// The pages that share a target with a page are each listed once, and neither
/// they nor the pages next to it are the page itself.
pub proof fn law_relatives_are_others(pages: Seq<StoredPage>, links: Seq<Link>, id: i64, n: int)
    requires
        0 <= n <= links.len(),
    ensures
        co_linked(pages, links, id, n).no_duplicates(),
        forall|i: int|
            0 <= i < co_linked(pages, links, id, n).len() ==> (#[trigger] co_linked(
                pages,
                links,
                id,
                n,
            )[i]).0 != id,
        forall|i: int|
            0 <= i < siblings_of(pages, id).len() ==> (#[trigger] siblings_of(pages, id)[i]).0
                != id,
    decreases n,
{
    if n > 0 {
        law_relatives_are_others(pages, links, id, n - 1);
        if links[n - 1].source == id {
            lemma_co_linked_step(
                pages,
                links,
                id,
                links[n - 1].target,
                co_linked(pages, links, id, n - 1),
                links.len() as int,
            );
        }
    }
    match page_with(pages, id) {
        None => {},
        Some(page) => {
            lemma_neighbours_are_others(
                pages,
                id,
                Parent::Book(page.meta.book_id),
                pages.len() as int,
            );
            match page.meta.chapter_id {
                Some(c) => lemma_neighbours_are_others(
                    pages,
                    id,
                    Parent::Chapter(c),
                    pages.len() as int,
                ),
                None => {},
            }
        },
    }
}

proof fn lemma_neighbours_are_others(pages: Seq<StoredPage>, id: i64, parent: Parent, n: int)
    ensures
        forall|i: int|
            0 <= i < neighbours(pages, id, parent, n).len() ==> (#[trigger] neighbours(
                pages,
                id,
                parent,
                n,
            )[i]).0 != id,
    decreases n,
{
    if n > 0 {
        lemma_neighbours_are_others(pages, id, parent, n - 1);
        let before = neighbours(pages, id, parent, n - 1);
        let after = neighbours(pages, id, parent, n);
        assert forall|i: int| 0 <= i < after.len() implies (#[trigger] after[i]).0 != id by {
            if i < before.len() {
                assert(after[i] == before[i]);
            }
        }
    }
}

/// Once a page is removed, no row, chunk or link speaks of it.
pub proof fn law_deleted_page_is_gone(
    pages: Seq<StoredPage>,
    chunks: Seq<StoredChunk>,
    links: Seq<Link>,
    page_id: i64,
)
    ensures
        ({
            let left = pages.filter(|p: StoredPage| p.meta.page_id != page_id);
            forall|i: int| 0 <= i < left.len() ==> (#[trigger] left[i]).meta.page_id != page_id
        }),
        ({
            let left = chunks.filter(|c: StoredChunk| c.page_id != page_id);
            forall|i: int| 0 <= i < left.len() ==> (#[trigger] left[i]).page_id != page_id
        }),
        ({
            let left = links.filter(|l: Link| l.source != page_id && l.target != page_id);
            forall|i: int|
                0 <= i < left.len() ==> (#[trigger] left[i]).source != page_id && left[i].target
                    != page_id
        }),
{
    broadcast use vstd::seq_lib::group_filter_ensures;

}

proof fn lemma_added_links(
    links: Seq<Link>,
    source: i64,
    targets: Seq<i64>,
    kind: LinkKind,
    n: int,
    link: Link,
)
    requires
        0 <= n <= targets.len(),
    ensures
        with_links(links, source, targets, kind, n).contains(link) <==> links.contains(link) || (
        link.source == source && link.kind == kind && targets.take(n).contains(link.target)),
    decreases n,
{
    if n > 0 {
        lemma_added_links(links, source, targets, kind, n - 1, link);
        let before = with_links(links, source, targets, kind, n - 1);
        let added = Link { source, target: targets[n - 1], kind };
        let t = targets.take(n);
        let u = targets.take(n - 1);
        assert(t =~= u.push(targets[n - 1]));
        if u.contains(link.target) {
            let k = choose|k: int| 0 <= k < u.len() && u[k] == link.target;
            assert(t[k] == link.target);
        }
        if t.contains(link.target) && link.target != targets[n - 1] {
            let k = choose|k: int| 0 <= k < t.len() && t[k] == link.target;
            assert(u[k] == link.target);
        }
        assert(t[n - 1] == targets[n - 1]);
        if !before.contains(added) {
            let after = before.push(added);
            assert(after[before.len() as int] == added);
            if before.contains(link) {
                let k = choose|k: int| 0 <= k < before.len() && before[k] == link;
                assert(after[k] == link);
            }
            if after.contains(link) && link != added {
                let k = choose|k: int| 0 <= k < after.len() && after[k] == link;
                assert(before[k] == link);
            }
        }
    } else {
        assert(targets.take(0) =~= Seq::<i64>::empty());
    }
}

/// After a page's links were replaced, it links to the new targets and to
/// nothing else; similar pages and the links of other pages are as before.
pub proof fn law_links_are_replaced(links: Seq<Link>, source: i64, targets: Seq<i64>, link: Link)
    ensures
        with_links(
            without_links_of(links, source),
            source,
            targets,
            LinkKind::Link,
            targets.len() as int,
        ).contains(link) <==> if link.source == source && link.kind == LinkKind::Link {
            targets.contains(link.target)
        } else {
            links.contains(link)
        },
{
    let left = without_links_of(links, source);
    lemma_added_links(left, source, targets, LinkKind::Link, targets.len() as int, link);
    assert(targets.take(targets.len() as int) =~= targets);
    broadcast use vstd::seq_lib::group_filter_ensures;

    if left.contains(link) {
        let k = choose|k: int| 0 <= k < left.len() && left[k] == link;
        assert(!(left[k].source == source && left[k].kind == LinkKind::Link));
        lemma_filter_contains_rev(links, source, link);
    }
    if links.contains(link) && !(link.source == source && link.kind == LinkKind::Link) {
        let k = choose|k: int| 0 <= k < links.len() && links[k] == link;
        assert(left.contains(links[k]));
    }
}

proof fn lemma_filter_contains_rev(links: Seq<Link>, source: i64, link: Link)
    requires
        without_links_of(links, source).contains(link),
    ensures
        links.contains(link),
{
    links.lemma_filter_contains_rev(
        |l: Link| !(l.source == source && l.kind == LinkKind::Link),
        link,
    );
}

/// A merged filter selects what either of its parts does.
pub proof fn law_merged_filter_selects_union(
    a: ScopeFilter,
    b: ScopeFilter,
    merged: ScopeFilter,
    meta: PageMeta,
)
    requires
        merged.book_ids@ == a.book_ids@ + b.book_ids@,
        merged.chapter_ids@ == a.chapter_ids@ + b.chapter_ids@,
        merged.page_ids@ == a.page_ids@ + b.page_ids@,
    ensures
        in_scope(merged, meta) <==> in_scope(a, meta) || in_scope(b, meta),
{
    types::law_merge_is_union(a.book_ids@, b.book_ids@, meta.book_id);
    types::law_merge_is_union(a.page_ids@, b.page_ids@, meta.page_id);
    match meta.chapter_id {
        Some(c) => types::law_merge_is_union(a.chapter_ids@, b.chapter_ids@, c),
        None => {},
    }
}

/// Sorting a filter's lists and dropping repeated ids selects the same pages.
pub proof fn law_tidy_filter_selects_the_same(a: ScopeFilter, tidy: ScopeFilter, meta: PageMeta)
    requires
        types::sorted_ids(a.book_ids@, tidy.book_ids@),
        types::sorted_ids(a.chapter_ids@, tidy.chapter_ids@),
        types::sorted_ids(a.page_ids@, tidy.page_ids@),
    ensures
        in_scope(tidy, meta) <==> in_scope(a, meta),
{
}

/// A filter has a condition exactly if it names a book, a chapter or a page.
pub proof fn law_shelves_alone_find_nothing(filter: ScopeFilter, meta: PageMeta)
    requires
        conditions(filter).len() == 0,
    ensures
        !in_scope(filter, meta),
{
    assert(filter.book_ids@.len() == 0);
    assert(filter.chapter_ids@.len() == 0);
    assert(filter.page_ids@.len() == 0);
}

} // verus!
