//! What holds of embedding pages, told by the pages, links and outcomes themselves.

use crate::chunking;
use crate::crypto;
use crate::embed_run;
use crate::embed_run::PipelineResult;
use crate::jobs;
use crate::jobs::JobModel;
use crate::json;
use crate::json::Json;
use crate::pipeline;
use crate::pipeline::{EmbedScope, MetaModel, PagePlan, TargetModel, WriteModel};
use crate::queue;
use crate::queue_laws;
use crate::rows;
use crate::text;
use crate::text_laws;
use vstd::prelude::*;

verus! {

// --- Scopes ---

/// A job for a book or a page names it by its number, a reconciliation is named in
/// full, and every other text covers everything.
pub proof fn law_scope_is_read(id: i64, scope: Seq<char>)
    ensures
        pipeline::scope_of("book:"@ + text::decimal_int(id as int)) == EmbedScope::Book(id),
        pipeline::scope_of("page:"@ + text::decimal_int(id as int)) == EmbedScope::Page(id),
        pipeline::scope_of("acl_reconcile"@) == EmbedScope::AclReconcile,
        pipeline::scope_of(scope) is AclReconcile ==> scope == "acl_reconcile"@,
        !text_laws::stands_at(scope, "book:"@, 0) && !text_laws::stands_at(scope, "page:"@, 0)
            && scope != "acl_reconcile"@ ==> pipeline::scope_of(scope) is Everything,
        pipeline::scope_of(scope) matches EmbedScope::Book(b) ==> text_laws::stands_at(
            scope,
            "book:"@,
            0,
        ) && text::parsed_i64(scope.skip(5)) == Some(b as int),
        pipeline::scope_of(scope) matches EmbedScope::Page(p) ==> text_laws::stands_at(
            scope,
            "page:"@,
            0,
        ) && text::parsed_i64(scope.skip(5)) == Some(p as int),
{
    reveal_strlit("book:");
    reveal_strlit("page:");
    reveal_strlit("acl_reconcile");
    let n = text::decimal_int(id as int);
    text::law_decimal_round_trip(id);
    text_laws::law_front_and_back("book:"@, n, "book:"@ + n);
    text_laws::law_front_and_back("page:"@, n, "page:"@ + n);
    text_laws::law_front_and_back("book:"@, n, "page:"@ + n);
    assert(("page:"@ + n)[0] == 'p' && ("book:"@ + n)[0] == 'b' && "acl_reconcile"@[0] == 'a');
    assert("book:"@[0] == 'b');
    assert(("book:"@ + n).skip(5) =~= n);
    assert(("page:"@ + n).skip(5) =~= n);
    text_laws::law_front_and_back("book:"@, n, scope);
    text_laws::law_front_and_back("page:"@, n, scope);
    if text::starts_with(scope, "book:"@) {
        lemma_parsed_range(scope.skip(5));
    }
    if text::starts_with(scope, "page:"@) {
        lemma_parsed_range(scope.skip(5));
    }
}

proof fn lemma_parsed_range(s: Seq<char>)
    ensures
        text::parsed_i64(s) matches Some(n) ==> i64::MIN <= n <= i64::MAX,
{
}

/// A page is covered exactly if it has an id and stands in the scope: in the book, or
/// as the page itself, or anywhere. A page without a book counts as in book zero.
pub open spec fn is_covered(scope: EmbedScope, page: Json) -> Option<i64> {
    match json::int_of(json::member(page, "id"@)) {
        Some(id) => {
            let book = json::int_of(json::member(page, "book_id"@));
            if id != 0 && (scope matches EmbedScope::Book(b) ==> book == Some(b) || (book is None
                && b == 0)) && (scope matches EmbedScope::Page(p) ==> id == p) {
                Some(id)
            } else {
                None
            }
        },
        None => None,
    }
}

/// A scan collects the ids of all covered pages, in the order of the list.
pub proof fn law_covered_pages_are_collected(scope: EmbedScope, list: Seq<Json>)
    ensures
        rows::is_selection(
            list,
            |page: Json| is_covered(scope, page),
            pipeline::covered_ids(scope, list, list.len() as int),
        ),
{
    rows::lemma_selected(
        list,
        |page: Json| is_covered(scope, page),
        |k: int| pipeline::covered_ids(scope, list, k),
    );
}

/// A list has the rows under its data, and as many in all as it states, or no end
/// where it states none.
pub proof fn law_lists_state_their_total(list: Json)
    ensures
        json::member(list, "data"@) matches Some(Json::List(v)) ==> pipeline::listed(list) == v@,
        !(json::member(list, "data"@) matches Some(Json::List(_))) ==> pipeline::listed(list).len()
            == 0,
        json::member(list, "total"@) matches Some(Json::Int(n)) ==> pipeline::stated_total(list)
            == n,
        !(json::member(list, "total"@) matches Some(Json::Int(_))) ==> pipeline::stated_total(list)
            == i64::MAX,
{
}

/// The shelves that are listed are those with an id and a name, in their order.
pub proof fn law_named_shelves_are_listed(list: Seq<Json>)
    ensures
        rows::is_selection(
            list,
            |shelf: Json|
                match (
                    json::int_of(json::member(shelf, "id"@)),
                    json::text_of(json::member(shelf, "name"@)),
                ) {
                    (Some(id), Some(name)) => if id != 0 && name.len() > 0 {
                        Some((id, name))
                    } else {
                        None
                    },
                    _ => None,
                },
            pipeline::named_shelves(list, list.len() as int),
        ),
{
    rows::lemma_selected(
        list,
        |shelf: Json|
            match (
                json::int_of(json::member(shelf, "id"@)),
                json::text_of(json::member(shelf, "name"@)),
            ) {
                (Some(id), Some(name)) => if id != 0 && name.len() > 0 {
                    Some((id, name))
                } else {
                    None
                },
                _ => None,
            },
        |k: int| pipeline::named_shelves(list, k),
    );
}

/// A book that a shelf holds gets the shelf's name, every other book keeps what it
/// had.
pub proof fn law_shelf_names_what_it_holds(
    names: Map<i64, Seq<char>>,
    books: Seq<Json>,
    shelf: Seq<char>,
    book: i64,
)
    requires
        book > 0,
    ensures
        (exists|i: int|
            0 <= i < books.len() && json::int_of(json::member(#[trigger] books[i], "id"@)) == Some(
                book,
            )) ==> pipeline::shelf_name(
            pipeline::with_books(names, books, books.len() as int, shelf),
            book,
        ) == shelf,
        (forall|i: int|
            0 <= i < books.len() ==> json::int_of(json::member(#[trigger] books[i], "id"@)) != Some(
                book,
            )) ==> pipeline::shelf_name(
            pipeline::with_books(names, books, books.len() as int, shelf),
            book,
        ) == pipeline::shelf_name(names, book),
{
    pipeline::law_shelf_names_its_books(names, books, books.len() as int, shelf, book);
    if exists|i: int|
        0 <= i < books.len() && json::int_of(json::member(#[trigger] books[i], "id"@)) == Some(
            book,
        ) {
        let i = choose|i: int|
            0 <= i < books.len() && json::int_of(json::member(#[trigger] books[i], "id"@)) == Some(
                book,
            );
        assert(pipeline::id_or_zero(books[i], "id"@) == book);
    }
}

// --- What is embedded ---

/// A name in front of the page's own, set off from what follows; nothing where it is
/// empty.
pub open spec fn set_off(name: Seq<char>) -> Seq<char> {
    if name.len() == 0 {
        Seq::empty()
    } else {
        name + " > "@
    }
}

/// The context names the shelf, the book, the chapter and the page, in this order,
/// and leaves out those of the first three that have no name.
pub proof fn law_context_names_the_place(
    shelf: Seq<char>,
    book: Seq<char>,
    chapter: Seq<char>,
    page: Seq<char>,
)
    ensures
        pipeline::context_of(shelf, book, chapter, page) == "["@ + set_off(shelf) + set_off(book)
            + set_off(chapter) + page + "]\n\n"@,
{
    let parts = seq![shelf, book, chapter];
    let fits = |p: Seq<char>| p.len() > 0;
    let one = parts.take(1);
    let two = parts.take(2);
    reveal(Seq::filter);
    assert(parts.take(0) =~= Seq::empty());
    assert(one.drop_last() =~= parts.take(0) && one.last() == shelf);
    assert(two.drop_last() =~= one && two.last() == book);
    assert(parts.drop_last() =~= two && parts.last() == chapter);
    assert(parts.take(0).filter(fits) =~= Seq::empty());
    lemma_joined(Seq::empty(), shelf);
    let after_one = one.filter(fits);
    lemma_joined(after_one, book);
    let after_two = two.filter(fits);
    lemma_joined(after_two, chapter);
    let all = parts.filter(fits);
    assert(front_of(all) =~= set_off(shelf) + set_off(book) + set_off(chapter));
    lemma_pushed_part(all, page);
    assert(pipeline::context_of(shelf, book, chapter, page) =~= "["@ + set_off(shelf) + set_off(
        book,
    ) + set_off(chapter) + page + "]\n\n"@);
}

/// The parts, each set off.
spec fn front_of(parts: Seq<Seq<char>>) -> Seq<char>
    decreases parts.len(),
{
    if parts.len() == 0 {
        Seq::empty()
    } else {
        front_of(parts.drop_last()) + set_off(parts.last())
    }
}

proof fn lemma_pushed_part(parts: Seq<Seq<char>>, page: Seq<char>)
    requires
        forall|i: int| 0 <= i < parts.len() ==> (#[trigger] parts[i]).len() > 0,
    ensures
        text::join_with(parts.push(page), " > "@) == front_of(parts) + page,
    decreases parts.len(),
{
    assert(parts.push(page).drop_last() =~= parts);
    if parts.len() == 0 {
        assert(front_of(parts) + page =~= page);
    } else {
        let init = parts.drop_last();
        lemma_pushed_part(init, parts.last());
        assert(init.push(parts.last()) =~= parts);
        assert(text::join_with(parts.push(page), " > "@) =~= front_of(parts) + page);
    }
}

proof fn lemma_joined(parts: Seq<Seq<char>>, next: Seq<char>)
    ensures
        front_of(
            if next.len() > 0 {
                parts.push(next)
            } else {
                parts
            },
        ) == front_of(parts) + set_off(next),
{
    if next.len() > 0 {
        assert(parts.push(next).drop_last() =~= parts);
    } else {
        assert(front_of(parts) + set_off(next) =~= front_of(parts));
    }
}

/// Each chunk is embedded with the context in front of it, in the order of the
/// chunks.
pub proof fn law_every_chunk_is_embedded(context: Seq<char>, chunks: Seq<chunking::ChunkModel>)
    ensures
        pipeline::embedded_texts(context, chunks).len() == chunks.len(),
        forall|i: int|
            0 <= i < chunks.len() ==> pipeline::embedded_texts(context, chunks)[i] == context + (
            #[trigger] chunks[i]).content,
{
}

/// A page's row holds what the page states: its book, its chapter where it has one,
/// and its name, slug and time of update.
pub proof fn law_row_of_a_page(page_id: i64, page: Json)
    ensures
        ({
            let m = pipeline::meta_of(page_id, page);
            let book = json::int_of(json::member(page, "book_id"@));
            let chapter = json::int_of(json::member(page, "chapter_id"@));
            let name = json::text_of(json::member(page, "name"@));
            let slug = json::text_of(json::member(page, "slug"@));
            &&& m.page_id == page_id
            &&& book is Some ==> m.book_id == book->0
            &&& book is None ==> m.book_id == 0
            &&& chapter is Some && chapter->0 > 0 ==> m.chapter_id == chapter
            &&& !(chapter is Some && chapter->0 > 0) ==> m.chapter_id is None
            &&& name is Some ==> m.name == name->0
            &&& name is None ==> m.name.len() == 0
            &&& slug is Some ==> m.slug == slug->0
            &&& slug is None ==> m.slug.len() == 0
            &&& m.updated_at == json::text_of(json::member(page, "updated_at"@))
        }),
{
}

/// A page is stored in four writes: a row without a hash, the chunks, the links, and
/// last the row with the hash.
pub proof fn law_page_is_written_in_order(meta: MetaModel)
    ensures
        ({
            let w = pipeline::writes_for(meta);
            &&& w.len() == 4
            &&& w[0] matches WriteModel::Row(m) && m.content_hash.len() == 0 && m.page_id
                == meta.page_id && m.book_id == meta.book_id && m.chapter_id == meta.chapter_id
                && m.name == meta.name && m.slug == meta.slug && m.updated_at == meta.updated_at
            &&& w[1] is Chunks
            &&& w[2] is Links
            &&& w[3] == WriteModel::Row(meta)
        }),
{
}

/// What is planned for a page: its row, its chunks, one text for each chunk that
/// names the page's place in front of the chunk's content, and its links.
pub proof fn law_page_is_planned(plan: PagePlan, page_id: i64, page: Json, shelf: Seq<char>)
    requires
        pipeline::is_plan_for(plan, page_id, page, shelf),
    ensures
        ({
            let html = json::text_of(json::member(page, "html"@));
            let name = json::text_of(json::member(page, "name"@));
            let shown = match name {
                Some(n) => n,
                None => Seq::empty(),
            };
            let book = name_within(page, "book"@);
            let chapter = name_within(page, "chapter"@);
            &&& pipeline::meta_model(plan.meta) == pipeline::meta_of(page_id, page)
            &&& html is Some ==> chunking::chunk_models(plan.chunks@) == chunking::page_chunks(
                html->0,
                Some(shown),
            )
            &&& plan.texts@.len() == plan.chunks@.len()
            &&& forall|i: int|
                0 <= i < plan.texts@.len() ==> (#[trigger] plan.texts@[i])@ == "["@ + set_off(shelf)
                    + set_off(book) + set_off(chapter) + shown + "]\n\n"@
                    + plan.chunks@[i].content@
            &&& html is Some ==> rows::is_selection(
                chunking::links_from(html->0, 0),
                |link: Seq<char>| pipeline::target_of(link),
                pipeline::target_models(plan.links@),
            )
        }),
{
    let name = match json::text_of(json::member(page, "name"@)) {
        Some(n) => n,
        None => Seq::empty(),
    };
    let book = name_within(page, "book"@);
    let chapter = name_within(page, "chapter"@);
    let context = pipeline::context_of(shelf, book, chapter, name);
    law_context_names_the_place(shelf, book, chapter, name);
    let chunks = chunking::chunk_models(plan.chunks@);
    let texts = text::string_texts(plan.texts@);
    assert(texts == pipeline::embedded_texts(context, chunks));
    assert(texts.len() == plan.texts@.len() && chunks.len() == plan.chunks@.len());
    assert forall|i: int| 0 <= i < plan.texts@.len() implies (#[trigger] plan.texts@[i])@ == "["@
        + set_off(shelf) + set_off(book) + set_off(chapter) + name + "]\n\n"@
        + plan.chunks@[i].content@ by {
        assert(texts[i] == plan.texts@[i]@);
        assert(texts[i] == context + chunks[i].content);
        assert(chunks[i].content == plan.chunks@[i].content@);
    }
    if let Some(html) = json::text_of(json::member(page, "html"@)) {
        law_every_link_is_followed(chunking::links_from(html, 0));
    }
}

/// The name of a part of the page; empty where it has none.
pub open spec fn name_within(page: Json, part: Seq<char>) -> Seq<char> {
    match json::member(page, part) {
        Some(p) => match json::text_of(json::member(p, "name"@)) {
            Some(n) => n,
            None => Seq::empty(),
        },
        None => Seq::empty(),
    }
}

/// A page is done again exactly unless its content is what was embedded.
pub proof fn law_unchanged_pages(stored: Option<Seq<char>>, page_id: i64, page: Json)
    ensures
        stored is None ==> !pipeline::up_to_date(stored, pipeline::meta_of(page_id, page)),
        json::text_of(json::member(page, "html"@)) matches Some(html) ==> (pipeline::up_to_date(
            stored,
            pipeline::meta_of(page_id, page),
        ) <==> (stored matches Some(h) && h == crypto::sha256_text(html))),
{
}

// --- Links ---

/// A link into a page of a book is kept from the place where the book is named; one
/// that names a book and no page is none; a permanent link is kept from its own
/// start; every other link is none.
pub proof fn law_page_links(href: Seq<char>)
    ensures
        forall|i: int| #[trigger]
            text_laws::stands_at(href, "/books/"@, i) && (forall|k: int|
                0 <= k < i ==> !#[trigger] text_laws::stands_at(href, "/books/"@, k))
                ==> chunking::page_link(href) == if text::contains(href.skip(i), "/page/"@) {
                Some(href.skip(i))
            } else {
                None
            },
        (forall|i: int| !#[trigger] text_laws::stands_at(href, "/books/"@, i)) ==> {
            &&& forall|i: int| #[trigger]
                text_laws::stands_at(href, "/link/"@, i) && (forall|k: int|
                    0 <= k < i ==> !#[trigger] text_laws::stands_at(href, "/link/"@, k))
                    ==> chunking::page_link(href) == Some(href.skip(i))
            &&& (forall|i: int| !#[trigger] text_laws::stands_at(href, "/link/"@, i))
                ==> chunking::page_link(href) is None
        },
{
    text_laws::law_first_place_is_found(href, "/books/"@, 0);
    text_laws::law_first_place_is_found(href, "/link/"@, 0);
    assert forall|i: int| #[trigger]
        text_laws::stands_at(href, "/books/"@, i) && (forall|k: int|
            0 <= k < i ==> !#[trigger] text_laws::stands_at(href, "/books/"@, k)) implies
        text::find_from(href, "/books/"@, 0) == Some(i) by {
        let f = text::find_from(href, "/books/"@, 0)->0;
        assert(text_laws::stands_at(href, "/books/"@, f));
    }
    assert forall|i: int| #[trigger]
        text_laws::stands_at(href, "/link/"@, i) && (forall|k: int|
            0 <= k < i ==> !#[trigger] text_laws::stands_at(href, "/link/"@, k)) implies
        text::find_from(href, "/link/"@, 0) == Some(i) by {
        let f = text::find_from(href, "/link/"@, 0)->0;
        assert(text_laws::stands_at(href, "/link/"@, f));
    }
}

/// A page without a reference has no links.
pub proof fn law_no_reference_no_link(html: Seq<char>)
    requires
        forall|k: int| !#[trigger] text_laws::stands_at(html, "href=\""@, k),
    ensures
        chunking::links_from(html, 0) == Seq::<Seq<char>>::empty(),
{
    text_laws::law_first_place_is_found(html, "href=\""@, 0);
}

/// The links of a page are that of its first reference, where it is a link, and then
/// those of all that stands behind the reference.
pub proof fn law_links_are_read_in_order(before: Seq<char>, value: Seq<char>, rest: Seq<char>)
    requires
        forall|k: int|
            0 <= k < before.len() ==> !#[trigger] text_laws::stands_at(
                before + "href=\""@ + value + "\""@ + rest,
                "href=\""@,
                k,
            ),
        forall|k: int| 0 <= k < value.len() ==> #[trigger] value[k] != '"',
    ensures
        chunking::links_from(before + "href=\""@ + value + "\""@ + rest, 0) == (
        match chunking::page_link(value) {
            Some(link) => seq![link],
            None => Seq::empty(),
        }) + chunking::links_from(rest, 0),
{
    reveal_strlit("href=\"");
    reveal_strlit("\"");
    let html = before + "href=\""@ + value + "\""@ + rest;
    let i = before.len() as int;
    let e = i + 6 + value.len();
    text_laws::law_first_place_is_found(html, "href=\""@, 0);
    assert(text_laws::stands_at(html, "href=\""@, i));
    assert(text::find_from(html, "href=\""@, 0) == Some(i)) by {
        let f = text::find_from(html, "href=\""@, 0)->0;
        assert(text_laws::stands_at(html, "href=\""@, f));
    }
    text_laws::law_first_place_is_found(html, "\""@, i + 6);
    assert(text_laws::stands_at(html, "\""@, e));
    assert(text::find_from(html, "\""@, i + 6) == Some(e)) by {
        let f = text::find_from(html, "\""@, i + 6)->0;
        assert(text_laws::stands_at(html, "\""@, f));
        if f < e {
            assert(html[f + 0] == "\""@[0]);
            assert(html[f] == value[f - i - 6]);
        }
    }
    assert(html.subrange(i + 6, e) =~= value);
    assert(html.skip(e + 1) =~= rest);
    lemma_links_shift(html, e + 1, 0);
    match chunking::page_link(value) {
        Some(link) => {},
        None => {
            assert(Seq::<Seq<char>>::empty() + chunking::links_from(rest, 0)
                =~= chunking::links_from(rest, 0));
        },
    }
}

proof fn lemma_find_shift(hay: Seq<char>, needle: Seq<char>, p: int, from: int)
    requires
        0 <= p <= hay.len(),
        0 <= from,
    ensures
        text::find_from(hay, needle, p + from) == match text::find_from(hay.skip(p), needle, from) {
            Some(i) => Some(p + i),
            None => None,
        },
    decreases hay.len() + 1 - from,
{
    let rest = hay.skip(p);
    if p + from + needle.len() <= hay.len() {
        assert(hay.subrange(p + from, p + from + needle.len()) =~= rest.subrange(
            from,
            from + needle.len(),
        ));
        if !text::occurs_at(rest, needle, from) {
            lemma_find_shift(hay, needle, p, from + 1);
        }
    }
}

proof fn lemma_links_shift(html: Seq<char>, p: int, from: int)
    requires
        0 <= p <= html.len(),
        0 <= from,
    ensures
        chunking::links_from(html, p + from) == chunking::links_from(html.skip(p), from),
    decreases html.len() - from,
{
    let rest = html.skip(p);
    lemma_find_shift(html, "href=\""@, p, from);
    text_laws::law_first_place_is_found(rest, "href=\""@, from);
    match text::find_from(rest, "href=\""@, from) {
        Some(i) => {
            lemma_find_shift(html, "\""@, p, i + 6);
            text_laws::law_first_place_is_found(rest, "\""@, i + 6);
            match text::find_from(rest, "\""@, i + 6) {
                Some(e) => {
                    reveal_strlit("\"");
                    assert(rest.subrange(i + 6, e) =~= html.subrange(p + i + 6, p + e));
                    lemma_links_shift(html, p, e + 1);
                },
                None => {},
            }
        },
        None => {},
    }
}

/// A link into a page leads to the page with the slug behind its last marker; a
/// permanent link leads to the page with its number; other links lead nowhere.
pub proof fn law_links_lead_to_pages(link: Seq<char>, id: i64)
    ensures
        forall|i: int| #[trigger]
            text_laws::stands_at(link, "/page/"@, i) && (forall|k: int|
                i < k ==> !#[trigger] text_laws::stands_at(link, "/page/"@, k))
                ==> pipeline::target_of(link) == Some(TargetModel::Slug(link.skip(i + 6))),
        (forall|i: int| !#[trigger] text_laws::stands_at(link, "/page/"@, i)) ==> {
            &&& pipeline::target_of(link) matches Some(t) ==> text_laws::stands_at(
                link,
                "/link/"@,
                0,
            ) && t is Page && text::parsed_i64(link.skip(6)) == Some(t->Page_0 as int)
            &&& link == "/link/"@ + text::decimal_int(id as int) ==> pipeline::target_of(link)
                == Some(TargetModel::Page(id))
        },
{
    reveal_strlit("/page/");
    reveal_strlit("/link/");
    text_laws::law_text_contains_its_middle(Seq::empty(), "/page/"@, Seq::empty(), link);
    text_laws::law_rest_is_behind_the_last(link, "/page/"@);
    let n = text::decimal_int(id as int);
    text::law_decimal_round_trip(id);
    text_laws::law_front_and_back("/link/"@, n, link);
    assert(("/link/"@ + n).skip(6) =~= n);
    lemma_parsed_range(link.skip(6));
}

/// The targets of a page are those of all its links that lead to a page, in order.
pub proof fn law_every_link_is_followed(links: Seq<Seq<char>>)
    ensures
        rows::is_selection(
            links,
            |link: Seq<char>| pipeline::target_of(link),
            pipeline::targets_of(links, links.len() as int),
        ),
{
    rows::lemma_selected(
        links,
        |link: Seq<char>| pipeline::target_of(link),
        |k: int| pipeline::targets_of(links, k),
    );
}

/// A target with what was looked up for it.
pub open spec fn looked_up(targets: Seq<TargetModel>, found: Seq<Option<i64>>) -> Seq<
    (TargetModel, Option<i64>),
> {
    Seq::new(
        targets.len(),
        |i: int|
            (
                targets[i],
                if i < found.len() {
                    found[i]
                } else {
                    None
                },
            ),
    )
}

/// A page by its number is linked in any case, a page by its slug where it was found,
/// and the links keep their order.
pub proof fn law_targets_are_resolved(targets: Seq<TargetModel>, found: Seq<Option<i64>>)
    ensures
        rows::is_selection(
            looked_up(targets, found),
            |t: (TargetModel, Option<i64>)|
                match t.0 {
                    TargetModel::Page(id) => Some(id),
                    TargetModel::Slug(_) => t.1,
                },
            pipeline::resolved_targets(targets, found, targets.len() as int),
        ),
{
    rows::lemma_selected(
        looked_up(targets, found),
        |t: (TargetModel, Option<i64>)|
            match t.0 {
                TargetModel::Page(id) => Some(id),
                TargetModel::Slug(_) => t.1,
            },
        |k: int| pipeline::resolved_targets(targets, found, k),
    );
}

// --- Runs ---

/// The failures of a run are the pages that failed, each with its error, in order.
pub proof fn law_failures_are_the_failed_pages(
    pages: Seq<i64>,
    outcomes: Seq<Option<Seq<char>>>,
    n: int,
)
    requires
        0 <= n <= pages.len(),
        n <= outcomes.len(),
    ensures
        rows::is_selection(
            Seq::new(n as nat, |i: int| (pages[i], outcomes[i])),
            |o: (i64, Option<Seq<char>>)|
                match o.1 {
                    Some(error) => Some((o.0, error)),
                    None => None,
                },
            embed_run::failures(pages, outcomes, n),
        ),
{
    rows::lemma_selected(
        Seq::new(n as nat, |i: int| (pages[i], outcomes[i])),
        |o: (i64, Option<Seq<char>>)|
            match o.1 {
                Some(error) => Some((o.0, error)),
                None => None,
            },
        |k: int| embed_run::failures(pages, outcomes, k),
    );
}

/// The failures that count towards giving up are those since the last page that was
/// embedded.
pub proof fn law_trailing_failures(outcomes: Seq<Option<Seq<char>>>, n: int)
    requires
        0 <= n <= outcomes.len(),
    ensures
        ({
            let t = embed_run::trailing_failures(outcomes, n);
            &&& 0 <= t <= n
            &&& forall|i: int| n - t <= i < n ==> (#[trigger] outcomes[i]) is Some
            &&& t < n ==> outcomes[n - t - 1] is None
        }),
    decreases n,
{
    if n > 0 && outcomes[n - 1] is Some {
        law_trailing_failures(outcomes, n - 1);
    }
}

/// The sample shows the first failures, three at most, each with its page and error.
pub proof fn law_sample_shows_the_first(failed: Seq<(i64, Seq<char>)>)
    ensures
        embed_run::sample(failed).len() == if failed.len() < 3 {
            failed.len() as int
        } else {
            3
        },
        forall|i: int|
            0 <= i < failed.len() && i < 3 ==> embed_run::sample(failed)[i] == "page "@
                + text::decimal_int((#[trigger] failed[i]).0 as int) + ": "@ + failed[i].1,
{
}

/// The job is a new one for one of the failed pages.
pub open spec fn retries_page(m: JobModel, failed: Seq<(i64, Seq<char>)>, now: i64) -> bool {
    &&& m.status == "pending"@
    &&& m.started_at == Some(now)
    &&& m.retry_of is None
    &&& exists|k: int|
        0 <= k < failed.len() && m.scope == "page:"@ + text::decimal_int(
            (#[trigger] failed[k]).0 as int,
        )
}

/// Queueing retries leaves the jobs as they are and adds new jobs for failed pages
/// behind them, no more than one for each.
pub proof fn law_retries_are_added(
    s: Seq<JobModel>,
    next_id: i64,
    failed: Seq<(i64, Seq<char>)>,
    n: int,
    now: i64,
)
    requires
        0 <= n <= failed.len(),
        next_id + n <= i64::MAX,
    ensures
        ({
            let (t, next) = embed_run::queued_retries(s, next_id, failed, n, now);
            &&& s.len() <= t.len() <= s.len() + n
            &&& next == next_id + (t.len() - s.len())
            &&& forall|i: int| 0 <= i < s.len() ==> #[trigger] t[i] == s[i]
            &&& forall|i: int|
                s.len() <= i < t.len() ==> retries_page(#[trigger] t[i], failed, now) && t[i].id
                    == next_id + (i - s.len())
        }),
    decreases n,
{
    if n > 0 {
        law_retries_are_added(s, next_id, failed, n - 1, now);
        let (t, next) = embed_run::queued_retries(s, next_id, failed, n - 1, now);
        let scope = embed_run::page_scope(failed[n - 1].0);
        if queue::newest_live(t, t.len() as int, scope) is None {
            let job = queue::new_embed_job(next, scope, Some(now), None);
            assert(job.scope == "page:"@ + text::decimal_int(failed[n - 1].0 as int));
            assert(retries_page(job, failed, now));
            let (u, after) = embed_run::queued_retries(s, next_id, failed, n, now);
            assert(u == t.push(job));
        }
    }
}

/// No job is queued for a scope that a job stands for already, and else exactly one.
pub proof fn law_scope_is_queued_once(s: Seq<JobModel>, next_id: i64, scope: Seq<char>, now: i64)
    requires
        next_id < i64::MAX,
    ensures
        ({
            let (t, next) = embed_run::queued(s, next_id, scope, now);
            let taken = exists|i: int|
                0 <= i < s.len() && queue_laws::stands_for(#[trigger] s[i], scope);
            &&& taken ==> t == s && next == next_id
            &&& !taken ==> t.len() == s.len() + 1 && t.drop_last() == s && next == next_id + 1
                && t.last().id == next_id && t.last().scope == scope && t.last().status
                == "pending"@ && t.last().started_at == Some(now)
        }),
{
    let (t, next) = embed_run::queued(s, next_id, scope, now);
    queue_laws::law_newest_job_stands_for_scope(s, scope);
    if exists|i: int| 0 <= i < s.len() && queue_laws::stands_for(#[trigger] s[i], scope) {
        let i = choose|i: int| 0 <= i < s.len() && queue_laws::stands_for(#[trigger] s[i], scope);
        lemma_last_standing(s, scope, i);
    } else {
        assert(t.drop_last() =~= s);
    }
}

proof fn lemma_last_standing(s: Seq<JobModel>, scope: Seq<char>, i: int)
    requires
        0 <= i < s.len(),
        queue_laws::stands_for(s[i], scope),
    ensures
        queue::newest_live(s, s.len() as int, scope) is Some,
    decreases s.len() - i,
{
    if exists|j: int| i < j < s.len() && queue_laws::stands_for(#[trigger] s[j], scope) {
        let j = choose|j: int| i < j < s.len() && queue_laws::stands_for(#[trigger] s[j], scope);
        lemma_last_standing(s, scope, j);
    } else {
        queue_laws::law_newest_job_stands_for_scope(s, scope);
    }
}

/// The error of a run tells how many pages failed, whether it was given up, and the
/// first failures.
pub proof fn law_error_of_a_run(failed: Seq<(i64, Seq<char>)>)
    ensures
        embed_run::job_error(failed, true) == text::decimal(failed.len())
            + " pages failed (aborted="@ + "true"@ + "). Sample errors: "@ + text::join_with(
            embed_run::sample(failed),
            "; "@,
        ),
        embed_run::job_error(failed, false) == text::decimal(failed.len())
            + " pages failed (aborted="@ + "false"@ + "). Sample errors: "@ + text::join_with(
            embed_run::sample(failed),
            "; "@,
        ),
{
}

/// A run that broke off fails its job with the error; one that was given up or has
/// as many failures as the limit fails it too, and queues nothing; any other
/// completes it and queues failed pages anew. Jobs of other ids stay as they are.
pub proof fn law_job_is_settled(
    s: Seq<JobModel>,
    next_id: i64,
    job_id: i64,
    result: Result<PipelineResult, String>,
    threshold: int,
    now: i64,
    i: int,
)
    requires
        0 <= i < s.len(),
        result matches Ok(pr) ==> next_id + pr.failed_pages@.len() <= i64::MAX,
    ensures
        ({
            let (t, next) = embed_run::settled(s, next_id, job_id, result, threshold, now);
            let open = s[i].status == "pending"@ || s[i].status == "running"@;
            &&& s.len() <= t.len()
            &&& s[i].id != job_id || !open ==> t[i] == s[i]
            &&& s[i].id == job_id && open ==> match result {
                Err(error) => t[i].status == "failed"@ && t[i].error == Some(error@),
                Ok(pr) => if pr.aborted || pr.failed_pages@.len() >= threshold {
                    t[i].status == "failed"@ && t[i].error is Some
                } else {
                    t[i].status == "succeeded"@ && t[i].error is None
                },
            }
            &&& result is Err ==> t.len() == s.len() && next == next_id
            &&& result matches Ok(pr) ==> pr.aborted || pr.failed_pages@.len() >= threshold
                ==> t.len() == s.len() && next == next_id
            &&& result matches Ok(pr) ==> forall|k: int|
                s.len() <= k < t.len() ==> retries_page(
                    #[trigger] t[k],
                    pipeline::labelled(pr.failed_pages@),
                    now,
                )
        }),
{
    match result {
        Err(_) => {},
        Ok(pr) => {
            let failed = pipeline::labelled(pr.failed_pages@);
            if !(pr.aborted || failed.len() >= threshold) {
                let done = queue::changed(
                    s,
                    job_id,
                    |m: JobModel| jobs::completed(m, now, None),
                );
                law_retries_are_added(done, next_id, failed, failed.len() as int, now);
                assert(embed_run::settled(s, next_id, job_id, result, threshold, now)
                    == embed_run::queued_retries(
                    done,
                    next_id,
                    failed,
                    failed.len() as int,
                    now,
                ));
                assert(embed_run::queued_retries(
                    done,
                    next_id,
                    failed,
                    failed.len() as int,
                    now,
                ).0[i] == done[i]);
            }
        },
    }
}

/// Similarities are computed anew where the run was no failure and either all pages
/// or at least one was embedded.
pub proof fn law_similarity_follows_success(
    result: Result<PipelineResult, String>,
    threshold: int,
)
    ensures
        embed_run::needs_similarity(result, threshold) <==> (result matches Ok(pr) && !pr.aborted
            && pr.failed_pages@.len() < threshold && (pr.failed_pages@.len() == 0 || pr.succeeded
            > 0)),
{
}

} // verus!
