//! What holds of the headings, sections and chunks of a page, told by its HTML.

use crate::chunk_laws;
use crate::chunking;
use crate::chunking::{Block, Heading, Outline, Piece, Section};
use crate::content_laws;
use crate::crypto;
use crate::text;
use vstd::prelude::*;

verus! {

// --- Tags ---

/// A stretch of the HTML from `<` to the next `>`, with neither in between, is a
/// tag: what is read as its text is what stands between them, and all of that is
/// inside the tag.
pub proof fn law_tag_is_read(html: Seq<char>, i: int, j: int)
    requires
        0 <= i < j < html.len(),
        html[i] == '<',
        forall|k: int| i < k < j ==> #[trigger] html[k] != '<' && html[k] != '>',
    ensures
        chunking::last_tag(html, j) == html.subrange(i + 1, j),
        forall|k: int| i < k <= j ==> #[trigger] chunking::inside_tag(html, k),
    decreases j - i,
{
    if j == i + 1 {
        assert(html.subrange(i + 1, j) =~= Seq::<char>::empty());
        assert(chunking::inside_tag(html, i + 1));
    } else {
        law_tag_is_read(html, i, j - 1);
        assert(html[j - 1] != '<' && html[j - 1] != '>');
        assert(chunking::inside_tag(html, j - 1));
        assert(html.subrange(i + 1, j) =~= html.subrange(i + 1, j - 1).push(html[j - 1]));
        assert forall|k: int| i < k <= j implies #[trigger] chunking::inside_tag(html, k) by {
            if k == j {
                assert(chunking::inside_tag(html, j));
            }
        }
    }
}

/// Behind a `>`, and at the beginning, the HTML is text up to the next `<`.
pub proof fn law_text_is_outside_tags(html: Seq<char>, i: int, j: int)
    requires
        0 <= i <= j <= html.len(),
        i == 0 || html[i - 1] == '>',
        forall|k: int| i <= k < j ==> #[trigger] html[k] != '<',
    ensures
        !chunking::inside_tag(html, j),
    decreases j - i,
{
    if i < j {
        law_text_is_outside_tags(html, i, j - 1);
        assert(html[j - 1] != '<');
    }
}

/// The tag opens a heading of a level: it begins with `h` and the level's digit,
/// in either case, and whitespace or nothing comes next.
pub open spec fn names_heading(tag: Seq<char>, digit: char) -> bool {
    &&& tag.len() >= 2
    &&& tag[0] == 'h' || tag[0] == 'H'
    &&& tag[1] == digit
    &&& tag.len() == 2 || text::is_space(tag[2])
}

proof fn lemma_word_end(s: Seq<char>, i: int)
    requires
        0 <= i <= s.len(),
    ensures
        i <= chunking::word_end(s, i) <= s.len(),
        forall|k: int| i <= k < chunking::word_end(s, i) ==> !text::is_space(#[trigger] s[k]),
        chunking::word_end(s, i) < s.len() ==> text::is_space(s[chunking::word_end(s, i)]),
    decreases s.len() - i,
{
    if i < s.len() && !text::is_space(s[i]) {
        lemma_word_end(s, i + 1);
    }
}

proof fn lemma_names(tag: Seq<char>, digit: char, name: Seq<char>)
    requires
        name == seq!['h', digit],
        '1' <= digit <= '3',
    ensures
        text::eq_ignoring_ascii_case(tag.take(chunking::word_end(tag, 0)), name) <==> names_heading(
            tag,
            digit,
        ),
{
    lemma_word_end(tag, 0);
    let e = chunking::word_end(tag, 0);
    let w = tag.take(e);
    if names_heading(tag, digit) {
        assert(!text::is_space(tag[0]) && !text::is_space(tag[1]));
        if e < 2 {
            assert(text::is_space(tag[e]));
        }
        if e > 2 {
            assert(!text::is_space(tag[2]));
        }
        assert(w.len() == 2 && w[0] == tag[0] && w[1] == tag[1]);
    }
    if text::eq_ignoring_ascii_case(w, name) {
        assert(w.len() == 2);
        assert(text::ascii_lower(w[0]) == text::ascii_lower(name[0]));
        assert(text::ascii_lower(w[1]) == text::ascii_lower(name[1]));
        assert(w[0] == tag[0] && w[1] == tag[1]);
    }
}

/// Exactly the tags `h1`, `h2` and `h3`, in either case and with or without
/// attributes, open a heading, of the level that they name.
pub proof fn law_heading_tags(tag: Seq<char>)
    ensures
        chunking::opened_level(tag) == Some(1int) <==> names_heading(tag, '1'),
        chunking::opened_level(tag) == Some(2int) <==> names_heading(tag, '2'),
        chunking::opened_level(tag) == Some(3int) <==> names_heading(tag, '3'),
        chunking::opened_level(tag) matches Some(l) ==> 1 <= l <= 3,
{
    reveal_strlit("h1");
    reveal_strlit("h2");
    reveal_strlit("h3");
    assert("h1"@ =~= seq!['h', '1']);
    assert("h2"@ =~= seq!['h', '2']);
    assert("h3"@ =~= seq!['h', '3']);
    lemma_names(tag, '1', "h1"@);
    lemma_names(tag, '2', "h2"@);
    lemma_names(tag, '3', "h3"@);
}

/// Exactly the tags `/h1`, `/h2` and `/h3`, in either case, end a heading.
pub proof fn law_closing_tags(tag: Seq<char>)
    ensures
        chunking::closes_heading(tag) <==> tag.len() == 3 && tag[0] == '/' && (tag[1] == 'h'
            || tag[1] == 'H') && '1' <= tag[2] <= '3',
{
    reveal_strlit("/h1");
    reveal_strlit("/h2");
    reveal_strlit("/h3");
    if chunking::closes_heading(tag) {
        assert(tag.len() == 3);
        assert(text::ascii_lower(tag[0]) == '/' && text::ascii_lower(tag[1]) == 'h');
        assert('1' <= text::ascii_lower(tag[2]) <= '3');
    } else if tag.len() == 3 && tag[0] == '/' && (tag[1] == 'h' || tag[1] == 'H') && '1' <= tag[2]
        <= '3' {
        assert(tag[2] == '1' || tag[2] == '2' || tag[2] == '3');
        if tag[2] == '1' {
            assert(text::eq_ignoring_ascii_case(tag, "/h1"@));
        } else if tag[2] == '2' {
            assert(text::eq_ignoring_ascii_case(tag, "/h2"@));
        } else {
            assert(text::eq_ignoring_ascii_case(tag, "/h3"@));
        }
    }
}

// --- Headings ---

proof fn lemma_enclosing_is_selection(stack: Seq<Heading>, level: int)
    requires
        chunk_laws::nested(stack),
    ensures
        chunking::enclosing(stack, level) == stack.filter(|h: Heading| h.level < level),
        chunking::enclosing(stack, level).len() <= stack.len(),
        chunking::enclosing(stack, level) == stack.take(
            chunking::enclosing(stack, level).len() as int,
        ),
    decreases stack.len(),
{
    reveal(Seq::filter);
    let below = |h: Heading| h.level < level;
    if stack.len() > 0 {
        let init = stack.drop_last();
        assert(chunk_laws::nested(init));
        lemma_enclosing_is_selection(init, level);
        if stack.last().level >= level {
            let m = chunking::enclosing(init, level).len() as int;
            assert(stack.take(m) =~= init.take(m));
        } else {
            assert forall|i: int| 0 <= i < init.len() implies below(#[trigger] init[i]) by {
                assert(stack[i].level < stack[stack.len() - 1].level);
            }
            lemma_all_fit(init, below);
            assert(init.push(stack.last()) =~= stack);
            assert(stack.take(stack.len() as int) =~= stack);
        }
    } else {
        assert(stack.filter(below) =~= stack);
        assert(stack.take(0) =~= stack);
    }
}

proof fn lemma_all_fit<A>(s: Seq<A>, fits: spec_fn(A) -> bool)
    requires
        forall|i: int| 0 <= i < s.len() ==> fits(#[trigger] s[i]),
    ensures
        s.filter(fits) == s,
    decreases s.len(),
{
    reveal(Seq::filter);
    if s.len() > 0 {
        let init = s.drop_last();
        assert forall|i: int| 0 <= i < init.len() implies fits(#[trigger] init[i]) by {
            assert(init[i] == s[i]);
        }
        lemma_all_fit(init, fits);
        assert(fits(s[s.len() - 1]));
        assert(init.push(s.last()) =~= s);
    }
}

/// The heading that ended is left out: it is the first of the top level, and
/// repeats the page's name.
pub open spec fn is_left_out(
    before: Outline,
    h: Heading,
    page_name: Option<Seq<char>>,
) -> bool {
    !before.h1_seen && h.level == 1 && (page_name matches Some(name) && content_laws::same_letters(
        text::trim(h.title),
        text::trim(name),
    ))
}

/// A heading that ends, and is not left out, keeps every open heading above its
/// level on the path, all of them and in order, closes all others, and comes last
/// itself. The other headings have nothing to do with it.
pub proof fn law_heading_keeps_the_outer_ones(
    html: Seq<char>,
    n: int,
    page_name: Option<Seq<char>>,
    h: Heading,
)
    requires
        0 <= n < html.len(),
        chunking::outline(html, n, page_name).heading == Some(h),
        chunking::outline(html, n + 1, page_name).heading is None,
    ensures
        ({
            let before = chunking::outline(html, n, page_name);
            let after = chunking::outline(html, n + 1, page_name);
            let new = Heading { level: h.level, title: text::trim(h.title) };
            &&& is_left_out(before, h, page_name) ==> after.stack == before.stack
            &&& !is_left_out(before, h, page_name) ==> after.stack == before.stack.filter(
                |x: Heading| x.level < h.level,
            ).push(new)
            &&& !is_left_out(before, h, page_name) ==> forall|i: int|
                0 <= i < before.stack.len() ==> (after.stack.contains(#[trigger] before.stack[i])
                    <==> before.stack[i].level < h.level || before.stack[i] == new)
            &&& after.sections == before.sections && after.body == before.body
            &&& after.h1_seen == (before.h1_seen || h.level == 1)
        }),
{
    broadcast use vstd::seq_lib::group_filter_ensures;

    let before = chunking::outline(html, n, page_name);
    let after = chunking::outline(html, n + 1, page_name);
    let below = |x: Heading| x.level < h.level;
    let new = Heading { level: h.level, title: text::trim(h.title) };
    chunk_laws::law_headings_nest(html, n, page_name);
    lemma_enclosing_is_selection(before.stack, h.level);
    if !is_left_out(before, h, page_name) {
        let kept = before.stack.filter(below);
        assert(after.stack == kept.push(new));
        assert forall|i: int| 0 <= i < before.stack.len() implies (after.stack.contains(
            #[trigger] before.stack[i],
        ) <==> before.stack[i].level < h.level || before.stack[i] == new) by {
            let x = before.stack[i];
            if below(x) {
                assert(kept.contains(x));
                let k = choose|k: int| 0 <= k < kept.len() && kept[k] == x;
                assert(after.stack[k] == x);
            }
            assert(after.stack[kept.len() as int] == new);
            if after.stack.contains(x) && x != new {
                let k = choose|k: int| 0 <= k < after.stack.len() && after.stack[k] == x;
                assert(kept[k] == x);
                assert(below(kept[k]));
            }
        }
    }
}

/// The headings that have ended in the first `n` characters and were not left
/// out, in order.
pub open spec fn ended_headings(html: Seq<char>, n: int, page_name: Option<Seq<char>>) -> Seq<
    Heading,
>
    decreases n,
{
    if n <= 0 {
        Seq::empty()
    } else {
        let earlier = ended_headings(html, n - 1, page_name);
        let before = chunking::outline(html, n - 1, page_name);
        let after = chunking::outline(html, n, page_name);
        if after.heading is None && (before.heading matches Some(h) && !is_left_out(
            before,
            h,
            page_name,
        )) {
            earlier.push(
                Heading { level: before.heading->0.level, title: text::trim(before.heading->0.title) },
            )
        } else {
            earlier
        }
    }
}

/// No later heading is of the level of the `i`th one or above it.
pub open spec fn is_open(ended: Seq<Heading>, i: int) -> bool {
    &&& 0 <= i < ended.len()
    &&& forall|j: int| i < j < ended.len() ==> (#[trigger] ended[j]).level > ended[i].level
}

/// `at` has the places of the open headings, in order, and the stack has them.
pub open spec fn is_stack_of(ended: Seq<Heading>, stack: Seq<Heading>, at: Seq<int>) -> bool {
    &&& at.len() == stack.len()
    &&& forall|k: int| 0 <= k < at.len() ==> 0 <= #[trigger] at[k] < ended.len() && stack[k] == ended[at[k]]
    &&& forall|k: int, l: int| 0 <= k < l < at.len() ==> #[trigger] at[k] < #[trigger] at[l]
    &&& forall|i: int| at.contains(i) <==> #[trigger] is_open(ended, i)
}

proof fn lemma_stack_step(
    ended: Seq<Heading>,
    stack: Seq<Heading>,
    at: Seq<int>,
    new: Heading,
) -> (more: Seq<int>)
    requires
        is_stack_of(ended, stack, at),
        chunk_laws::nested(stack),
    ensures
        is_stack_of(
            ended.push(new),
            chunking::enclosing(stack, new.level).push(new),
            more,
        ),
{
    lemma_enclosing_is_selection(stack, new.level);
    let kept = chunking::enclosing(stack, new.level);
    let m = kept.len() as int;
    let all = ended.push(new);
    let more = at.take(m).push(ended.len() as int);
    let longer = kept.push(new);
    lemma_kept_are_below(stack, new.level);
    assert forall|i: int| more.contains(i) <==> #[trigger] is_open(all, i) by {
        if more.contains(i) {
            let k = choose|k: int| 0 <= k < more.len() && more[k] == i;
            if k < m {
                assert(at[k] == i);
                assert(at.contains(i));
                assert(is_open(ended, i));
                assert(stack[k] == ended[i]);
                assert(stack[k].level < new.level);
                assert forall|j: int| i < j < all.len() implies (#[trigger] all[j]).level
                    > all[i].level by {
                    if j < ended.len() {
                        assert(all[j] == ended[j]);
                    }
                }
            }
        }
        if is_open(all, i) {
            if i == ended.len() {
                assert(more[m] == i);
            } else {
                assert forall|j: int| i < j < ended.len() implies (#[trigger] ended[j]).level
                    > ended[i].level by {
                    assert(all[j] == ended[j]);
                }
                assert(is_open(ended, i));
                assert(at.contains(i));
                let k = choose|k: int| 0 <= k < at.len() && at[k] == i;
                assert(stack[k] == ended[i]);
                assert(all[ended.len() as int].level > all[i].level);
                assert(stack[k].level < new.level);
                assert(k < m);
                assert(more[k] == i);
            }
        }
    }
    assert forall|k: int| 0 <= k < more.len() implies 0 <= #[trigger] more[k] < all.len()
        && longer[k] == all[more[k]] by {
        if k < m {
            assert(more[k] == at[k]);
            assert(kept[k] == stack.take(m)[k]);
        }
    }
    assert forall|k: int, l: int| 0 <= k < l < more.len() implies #[trigger] more[k]
        < #[trigger] more[l] by {
        assert(more[k] == at[k]);
        if l < m {
            assert(more[l] == at[l]);
        }
    }
    more
}

proof fn lemma_kept_are_below(stack: Seq<Heading>, level: int)
    requires
        chunk_laws::nested(stack),
    ensures
        forall|k: int|
            0 <= k < stack.len() ==> ((#[trigger] stack[k]).level < level <==> k
                < chunking::enclosing(stack, level).len()),
    decreases stack.len(),
{
    if stack.len() > 0 {
        let init = stack.drop_last();
        assert(chunk_laws::nested(init));
        lemma_kept_are_below(init, level);
        lemma_enclosing_is_selection(init, level);
        assert forall|k: int| 0 <= k < stack.len() implies ((#[trigger] stack[k]).level < level
            <==> k < chunking::enclosing(stack, level).len()) by {
            if k < init.len() {
                assert(init[k] == stack[k]);
                assert(stack[k].level < stack[stack.len() - 1].level);
            }
        }
    }
}

/// The open headings are those of the headings that have ended after which none
/// of their level or above has ended, all of them and in order.
pub proof fn law_open_headings(html: Seq<char>, n: int, page_name: Option<Seq<char>>)
    requires
        0 <= n <= html.len(),
    ensures
        exists|at: Seq<int>|
            is_stack_of(
                ended_headings(html, n, page_name),
                chunking::outline(html, n, page_name).stack,
                at,
            ),
{
    let _ = lemma_open_headings(html, n, page_name);
}

proof fn lemma_open_headings(html: Seq<char>, n: int, page_name: Option<Seq<char>>) -> (at: Seq<int>)
    requires
        0 <= n <= html.len(),
    ensures
        is_stack_of(
            ended_headings(html, n, page_name),
            chunking::outline(html, n, page_name).stack,
            at,
        ),
    decreases n,
{
    let stack = chunking::outline(html, n, page_name).stack;
    if n == 0 {
        let at = Seq::<int>::empty();
        assert(is_stack_of(ended_headings(html, 0, page_name), stack, at));
        at
    } else {
        let at = lemma_open_headings(html, n - 1, page_name);
        let before = chunking::outline(html, n - 1, page_name);
        let after = chunking::outline(html, n, page_name);
        chunk_laws::law_headings_nest(html, n - 1, page_name);
        if after.heading is None && before.heading is Some {
            let h = before.heading->0;
            law_heading_keeps_the_outer_ones(html, n - 1, page_name, h);
            lemma_enclosing_is_selection(before.stack, h.level);
            if is_left_out(before, h, page_name) {
                at
            } else {
                let new = Heading { level: h.level, title: text::trim(h.title) };
                lemma_stack_step(
                    ended_headings(html, n - 1, page_name),
                    before.stack,
                    at,
                    new,
                )
            }
        } else {
            assert(after.stack == before.stack);
            at
        }
    }
}

/// A heading's title is the text between its tags: a character outside a tag is
/// added to it while a heading is read, and to the section's text otherwise, and
/// nothing else changes.
pub proof fn law_text_is_collected(html: Seq<char>, n: int, page_name: Option<Seq<char>>)
    requires
        0 <= n < html.len(),
        html[n] != '<',
        html[n] != '>',
        !chunking::inside_tag(html, n),
    ensures
        ({
            let before = chunking::outline(html, n, page_name);
            let after = chunking::outline(html, n + 1, page_name);
            &&& before.heading matches Some(h) ==> after.heading == Some(
                Heading { level: h.level, title: h.title + seq![html[n]] },
            ) && after.body == before.body
            &&& before.heading is None ==> after.heading is None && after.body == before.body
                + seq![html[n]]
            &&& after.stack == before.stack && after.sections == before.sections && after.h1_seen
                == before.h1_seen
        }),
{
    let before = chunking::outline(html, n, page_name);
    assert(before.body.push(html[n]) =~= before.body + seq![html[n]]);
    if let Some(h) = before.heading {
        assert(h.title.push(html[n]) =~= h.title + seq![html[n]]);
    }
}

/// A tag that is no heading's puts one space where it stands if it closes an element
/// or is self-closing, so that words on its two sides stay apart, and nothing if it
/// opens one. The characters of a tag are no text.
pub proof fn law_tags_keep_words_apart(html: Seq<char>, n: int, page_name: Option<Seq<char>>)
    requires
        0 <= n < html.len(),
    ensures
        ({
            let before = chunking::outline(html, n, page_name);
            let after = chunking::outline(html, n + 1, page_name);
            let tag = text::trim(chunking::last_tag(html, n));
            let heading = names_heading(tag, '1') || names_heading(tag, '2') || names_heading(
                tag,
                '3',
            ) || chunking::closes_heading(tag);
            let apart = tag.len() > 0 && (tag[0] == '/' || tag.last() == '/');
            &&& html[n] == '<' ==> after == before
            &&& html[n] != '>' && chunking::inside_tag(html, n) ==> after == before
            &&& html[n] == '>' && !heading && !apart ==> after == before
            &&& html[n] == '>' && !heading && apart ==> {
                &&& before.heading matches Some(h) ==> after.heading == Some(
                    Heading { level: h.level, title: h.title + seq![' '] },
                ) && after.body == before.body
                &&& before.heading is None ==> after.heading is None && after.body == before.body
                    + seq![' ']
                &&& after.stack == before.stack && after.sections == before.sections
                    && after.h1_seen == before.h1_seen
            }
        }),
{
    let before = chunking::outline(html, n, page_name);
    law_heading_tags(text::trim(chunking::last_tag(html, n)));
    assert(before.body.push(' ') =~= before.body + seq![' ']);
    if let Some(h) = before.heading {
        assert(h.title.push(' ') =~= h.title + seq![' ']);
    }
}

/// The tag that ends at `n` opens a heading of the level.
pub open spec fn opens_at(html: Seq<char>, n: int, digit: char) -> bool {
    html[n] == '>' && names_heading(text::trim(chunking::last_tag(html, n)), digit)
}

/// The path has the titles of the headings, in order.
pub open spec fn is_path_of(path: Seq<Seq<char>>, stack: Seq<Heading>) -> bool {
    &&& path.len() == stack.len()
    &&& forall|k: int| 0 <= k < stack.len() ==> path[k] == (#[trigger] stack[k]).title
}

/// A section ends exactly where a heading begins, under the path of the headings
/// that are open there, with the text that was read since the last one ended; a
/// blank beginning of the page is no section of its own. Nothing else makes or
/// changes a section.
pub proof fn law_sections_end_at_headings(html: Seq<char>, n: int, page_name: Option<Seq<char>>)
    requires
        0 <= n < html.len(),
    ensures
        ({
            let before = chunking::outline(html, n, page_name);
            let after = chunking::outline(html, n + 1, page_name);
            let opens = opens_at(html, n, '1') || opens_at(html, n, '2') || opens_at(html, n, '3');
            let cut = opens && (text::trim(before.body).len() > 0 || before.sections.len() > 0);
            &&& cut ==> after.sections.len() == before.sections.len() + 1 && after.sections.take(
                before.sections.len() as int,
            ) == before.sections && after.sections.last().body == before.body && is_path_of(
                after.sections.last().path,
                before.stack,
            ) && after.body.len() == 0
            &&& !cut ==> after.sections == before.sections
            &&& opens_at(html, n, '1') ==> after.heading == Some(
                Heading { level: 1, title: Seq::empty() },
            )
            &&& opens_at(html, n, '2') ==> after.heading == Some(
                Heading { level: 2, title: Seq::empty() },
            )
            &&& opens_at(html, n, '3') ==> after.heading == Some(
                Heading { level: 3, title: Seq::empty() },
            )
            &&& opens ==> after.stack == before.stack
        }),
{
    let before = chunking::outline(html, n, page_name);
    let after = chunking::outline(html, n + 1, page_name);
    let tag = text::trim(chunking::last_tag(html, n));
    law_heading_tags(tag);
    if after.sections.len() > before.sections.len() {
        assert(after.sections.take(before.sections.len() as int) =~= before.sections);
    }
}

/// The last section of a page is what is left at its end, under the headings that
/// are open there.
pub proof fn law_last_section(html: Seq<char>, page_name: Option<Seq<char>>)
    ensures
        ({
            let end = chunking::outline(html, html.len() as int, page_name);
            let all = chunking::sections(html, page_name);
            &&& all.len() == end.sections.len() + 1
            &&& all.take(end.sections.len() as int) == end.sections
            &&& all.last().body == end.body
            &&& is_path_of(all.last().path, end.stack)
        }),
{
    let end = chunking::outline(html, html.len() as int, page_name);
    let all = chunking::sections(html, page_name);
    assert(all.take(end.sections.len() as int) =~= end.sections);
}

// --- Blocks ---

/// The text of a section.
pub open spec fn text_at(sections: Seq<Section>, k: int) -> Seq<char> {
    chunking::normalized(text::trim(sections[k].body))
}

/// The section begins a block: it has text, and is not tiny or is the first with
/// text.
pub open spec fn begins_block(sections: Seq<Section>, k: int) -> bool {
    &&& text_at(sections, k).len() > 0
    &&& text::utf8_len(text_at(sections, k)) >= 50 || forall|j: int|
        0 <= j < k ==> (#[trigger] text_at(sections, j)).len() == 0
}

/// The texts of the sections `lo..hi` that have one, with a blank line between
/// each two.
pub open spec fn texts_joined(sections: Seq<Section>, lo: int, hi: int) -> Seq<char>
    decreases hi - lo,
{
    if lo >= hi {
        Seq::empty()
    } else {
        let before = texts_joined(sections, lo, hi - 1);
        let t = text_at(sections, hi - 1);
        if t.len() == 0 {
            before
        } else if before.len() == 0 {
            t
        } else {
            before + "\n\n"@ + t
        }
    }
}

/// The paragraphs of the sections `lo..hi` that have a text.
pub open spec fn paragraphs_joined(sections: Seq<Section>, lo: int, hi: int) -> Seq<Seq<char>>
    decreases hi - lo,
{
    if lo >= hi {
        Seq::empty()
    } else {
        let before = paragraphs_joined(sections, lo, hi - 1);
        if text_at(sections, hi - 1).len() == 0 {
            before
        } else {
            before + chunking::section_paragraphs(sections[hi - 1])
        }
    }
}

/// Where the sections of block `b` end.
pub open spec fn block_end(starts: Seq<int>, b: int, n: int) -> int {
    if b + 1 < starts.len() {
        starts[b + 1]
    } else {
        n
    }
}

/// Block `b` is made of the sections from `starts[b]` up to the next start, under
/// the path of the first of them.
pub open spec fn is_layout(
    sections: Seq<Section>,
    n: int,
    blocks: Seq<Block>,
    starts: Seq<int>,
) -> bool {
    &&& starts.len() == blocks.len()
    &&& forall|b: int| 0 <= b < starts.len() ==> 0 <= #[trigger] starts[b] < n
    &&& forall|b: int, c: int| 0 <= b < c < starts.len() ==> #[trigger] starts[b] < #[trigger] starts[c]
    &&& forall|k: int| 0 <= k < n ==> (starts.contains(k) <==> #[trigger] begins_block(sections, k))
    &&& forall|b: int|
        0 <= b < starts.len() ==> {
            let block = #[trigger] blocks[b];
            let end = block_end(starts, b, n);
            &&& block.path == text::join_with(sections[starts[b]].path, " > "@)
            &&& block.text == texts_joined(sections, starts[b], end)
            &&& block.paragraphs == paragraphs_joined(sections, starts[b], end)
            &&& block.text.len() > 0
        }
}

proof fn lemma_layout(sections: Seq<Section>, n: int) -> (starts: Seq<int>)
    requires
        0 <= n <= sections.len(),
    ensures
        is_layout(sections, n, chunking::merged(sections, n), starts),
        chunking::merged(sections, n).len() == 0 <==> forall|j: int|
            0 <= j < n ==> (#[trigger] text_at(sections, j)).len() == 0,
    decreases n,
{
    if n == 0 {
        let starts = Seq::<int>::empty();
        assert(is_layout(sections, 0, chunking::merged(sections, 0), starts));
        starts
    } else {
        let earlier = lemma_layout(sections, n - 1);
        let before = chunking::merged(sections, n - 1);
        let after = chunking::merged(sections, n);
        let t = text_at(sections, n - 1);
        let last = before.len() - 1;
        assert(t == chunking::section_text(sections[n - 1]));
        let fresh = t.len() > 0 && (text::utf8_len(t) >= 50 || before.len() == 0);
        assert(fresh <==> begins_block(sections, n - 1));
        let starts = if fresh {
            earlier.push(n - 1)
        } else {
            earlier
        };
        assert forall|k: int| 0 <= k < n implies (starts.contains(k) <==> #[trigger] begins_block(
            sections,
            k,
        )) by {
            if earlier.contains(k) {
                let i = choose|i: int| 0 <= i < earlier.len() && earlier[i] == k;
                assert(starts[i] == k);
            }
            if starts.contains(k) {
                let i = choose|i: int| 0 <= i < starts.len() && starts[i] == k;
                if i < earlier.len() {
                    assert(earlier[i] == k);
                }
            }
            if fresh && k == n - 1 {
                assert(starts[earlier.len() as int] == k);
            }
            if k == n - 1 && earlier.contains(k) {
                let i = choose|i: int| 0 <= i < earlier.len() && earlier[i] == k;
                assert(earlier[i] < n - 1);
            }
        }
        assert forall|b: int| 0 <= b < starts.len() implies {
            let block = #[trigger] after[b];
            let end = block_end(starts, b, n);
            &&& block.path == text::join_with(sections[starts[b]].path, " > "@)
            &&& block.text == texts_joined(sections, starts[b], end)
            &&& block.paragraphs == paragraphs_joined(sections, starts[b], end)
            &&& block.text.len() > 0
        } by {
            if b < before.len() {
                let old_end = block_end(earlier, b, n - 1);
                assert(before[b].text == texts_joined(sections, earlier[b], old_end));
                if b < last {
                    assert(after[b] == before[b]);
                    assert(block_end(starts, b, n) == old_end);
                } else if fresh {
                    assert(after[b] == before[b]);
                    assert(block_end(starts, b, n) == n - 1);
                } else {
                    assert(block_end(starts, b, n) == n);
                    assert(earlier[b] < n - 1);
                }
            } else {
                assert(texts_joined(sections, n - 1, n - 1) == Seq::<char>::empty());
                assert(paragraphs_joined(sections, n - 1, n - 1) == Seq::<Seq<char>>::empty());
                assert(Seq::<Seq<char>>::empty() + chunking::section_paragraphs(sections[n - 1])
                    =~= chunking::section_paragraphs(sections[n - 1]));
                assert(block_end(starts, b, n) == n);
            }
        }
        if forall|j: int| 0 <= j < n ==> (#[trigger] text_at(sections, j)).len() == 0 {
            assert(text_at(sections, n - 1).len() == 0);
        }
        starts
    }
}

/// Sections are merged into blocks by their size alone. A section with text begins
/// a block of its own, under its own path, unless it is shorter than fifty bytes
/// and another one with text came before it: then it is added to the block before
/// it, behind a blank line. No section with text is left out.
pub proof fn law_tiny_sections_are_merged(html: Seq<char>, page_name: Option<Seq<char>>)
    ensures
        exists|starts: Seq<int>|
            is_layout(
                chunking::sections(html, page_name),
                chunking::sections(html, page_name).len() as int,
                chunking::page_blocks(html, page_name),
                starts,
            ),
{
    let all = chunking::sections(html, page_name);
    let starts = lemma_layout(all, all.len() as int);
    assert(is_layout(all, all.len() as int, chunking::page_blocks(html, page_name), starts));
}

/// The paragraphs of a section are what blank lines set apart in it, trimmed and
/// with its whitespace collapsed, without the blank ones, in order.
pub proof fn law_paragraphs_are_set_apart(section: Section)
    ensures
        crate::rows::is_selection(
            text::split_on(section.body, "\n\n"@),
            |p: Seq<char>|
                if chunking::normalized(text::trim(p)).len() > 0 {
                    Some(chunking::normalized(text::trim(p)))
                } else {
                    None
                },
            chunking::section_paragraphs(section),
        ),
{
    let found = text::split_on(section.body, "\n\n"@);
    let value = |p: Seq<char>|
        if chunking::normalized(text::trim(p)).len() > 0 {
            Some(chunking::normalized(text::trim(p)))
        } else {
            None
        };
    let built = |k: int| chunking::tidied_all(found.take(k));
    assert forall|k: int| 0 <= k < found.len() implies built(k + 1) == match value(
        #[trigger] found[k],
    ) {
        Some(b) => built(k).push(b),
        None => built(k),
    } by {
        assert(found.take(k + 1).drop_last() =~= found.take(k));
        assert(found.take(k + 1).last() == found[k]);
    }
    assert(found.take(0) =~= Seq::<Seq<char>>::empty());
    crate::rows::lemma_selected(found, value, built);
    assert(found.take(found.len() as int) =~= found);
}

// --- Chunks ---

/// The parts of a block: its text where that is within the limit, else its
/// paragraphs gathered.
pub open spec fn parts_of(block: Block) -> Seq<Seq<char>> {
    if text::utf8_len(block.text) <= 1200 {
        seq![block.text]
    } else {
        chunking::gathered(block.paragraphs, 1200, 150)
    }
}

/// The chunks of block `b` stand from `first[b]` up to `first[b + 1]`, one for each
/// part, under the block's path and with the path in front of the part.
pub open spec fn is_numbering(blocks: Seq<Block>, pieces: Seq<Piece>, first: Seq<int>) -> bool {
    &&& first.len() == blocks.len() + 1
    &&& first[0] == 0
    &&& first.last() == pieces.len()
    &&& forall|b: int| 0 <= b < blocks.len() ==> #[trigger] holds_block(blocks, pieces, first, b)
}

/// The pieces from `first[b]` up to `first[b + 1]` are those of block `b`.
pub open spec fn holds_block(
    blocks: Seq<Block>,
    pieces: Seq<Piece>,
    first: Seq<int>,
    b: int,
) -> bool {
    &&& 0 <= first[b]
    &&& first[b + 1] == first[b] + parts_of(blocks[b]).len()
    &&& first[b + 1] <= pieces.len()
    &&& forall|j: int|
        0 <= j < parts_of(blocks[b]).len() ==> is_piece_of(
            pieces[first[b] + j],
            blocks[b].path,
            #[trigger] parts_of(blocks[b])[j],
        )
}

/// The piece has the path, and the part with the path in front, where there is
/// one, as its text.
pub open spec fn is_piece_of(piece: Piece, path: Seq<char>, part: Seq<char>) -> bool {
    &&& piece.path == path
    &&& piece.text == if path.len() == 0 {
        part
    } else {
        path + "\n\n"@ + part
    }
}

proof fn lemma_numbering(blocks: Seq<Block>, n: int) -> (first: Seq<int>)
    requires
        0 <= n <= blocks.len(),
    ensures
        is_numbering(blocks.take(n), chunking::pieces(blocks, n), first),
    decreases n,
{
    if n == 0 {
        let first = seq![0int];
        assert(is_numbering(blocks.take(0), chunking::pieces(blocks, 0), first));
        first
    } else {
        let earlier = lemma_numbering(blocks, n - 1);
        let before = chunking::pieces(blocks, n - 1);
        let after = chunking::pieces(blocks, n);
        let here = chunking::block_pieces(blocks[n - 1]);
        let first = earlier.push(after.len() as int);
        let some = blocks.take(n);
        let fewer = blocks.take(n - 1);
        assert(parts_of(blocks[n - 1]) == chunking::block_parts(blocks[n - 1]));
        assert(earlier.last() == before.len());
        assert forall|b: int| 0 <= b < some.len() implies #[trigger] holds_block(
            some,
            after,
            first,
            b,
        ) by {
            if b < n - 1 {
                assert(fewer[b] == some[b]);
                assert(holds_block(fewer, before, earlier, b));
                assert forall|j: int| 0 <= j < parts_of(some[b]).len() implies is_piece_of(
                    after[first[b] + j],
                    some[b].path,
                    #[trigger] parts_of(some[b])[j],
                ) by {
                    assert(is_piece_of(
                        before[earlier[b] + j],
                        fewer[b].path,
                        parts_of(fewer[b])[j],
                    ));
                    assert(after[first[b] + j] == before[earlier[b] + j]);
                }
            } else {
                assert forall|j: int| 0 <= j < parts_of(some[b]).len() implies is_piece_of(
                    after[first[b] + j],
                    some[b].path,
                    #[trigger] parts_of(some[b])[j],
                ) by {
                    assert(after[before.len() + j] == here[j]);
                }
            }
        }
        assert(first.len() == some.len() + 1);
        assert(first[0] == 0);
        assert(first.last() == after.len());
        assert(is_numbering(some, after, first));
        first
    }
}

/// The chunks of a page are the parts of its blocks, block by block and in order,
/// one chunk for each part, numbered from zero. A block within twelve hundred
/// bytes is one chunk with its text; a larger one is split. Each chunk stands
/// under its block's path, which is in front of its content where there is one.
pub proof fn law_chunks_are_the_parts(html: Seq<char>, page_name: Option<Seq<char>>)
    ensures
        exists|first: Seq<int>|
            is_numbering(
                chunking::page_blocks(html, page_name),
                chunking::pieces(
                    chunking::page_blocks(html, page_name),
                    chunking::page_blocks(html, page_name).len() as int,
                ),
                first,
            ),
        ({
            let blocks = chunking::page_blocks(html, page_name);
            let pieces = chunking::pieces(blocks, blocks.len() as int);
            let chunks = chunking::page_chunks(html, page_name);
            &&& chunks.len() == pieces.len()
            &&& forall|i: int|
                0 <= i < chunks.len() ==> (#[trigger] chunks[i]).index == i
                    && chunks[i].heading_path == pieces[i].path && chunks[i].content
                    == pieces[i].text && chunks[i].content_hash == crypto::sha256_text(
                    pieces[i].text,
                )
        }),
{
    let blocks = chunking::page_blocks(html, page_name);
    let first = lemma_numbering(blocks, blocks.len() as int);
    assert(blocks.take(blocks.len() as int) =~= blocks);
    assert(is_numbering(blocks, chunking::pieces(blocks, blocks.len() as int), first));
}

// --- Overlaps ---

/// The paragraphs `lo..hi` with a blank line between each two, from the last one
/// backwards.
pub open spec fn joined_back(paragraphs: Seq<Seq<char>>, lo: int, hi: int) -> Seq<char>
    decreases hi - lo,
{
    if lo >= hi {
        Seq::empty()
    } else {
        let rest = joined_back(paragraphs, lo + 1, hi);
        if rest.len() == 0 {
            paragraphs[lo]
        } else {
            paragraphs[lo] + "\n\n"@ + rest
        }
    }
}

proof fn lemma_overlap(
    paragraphs: Seq<Seq<char>>,
    lo: int,
    k: int,
    hi: int,
    overlap: nat,
) -> (m: int)
    requires
        0 <= lo <= k <= hi <= paragraphs.len(),
    ensures
        lo <= m <= k,
        chunking::overlap_tail(
            paragraphs,
            lo,
            k,
            joined_back(paragraphs, k, hi),
            overlap,
        ) == joined_back(paragraphs, m, hi),
        forall|i: int|
            m <= i < k ==> text::utf8_len(#[trigger] joined_back(paragraphs, i, hi)) <= overlap,
        m > lo ==> text::utf8_len(joined_back(paragraphs, m - 1, hi)) > overlap,
    decreases k - lo,
{
    if lo >= k {
        k
    } else {
        let acc = joined_back(paragraphs, k, hi);
        let candidate = joined_back(paragraphs, k - 1, hi);
        assert(candidate == if acc.len() == 0 {
            paragraphs[k - 1]
        } else {
            paragraphs[k - 1] + "\n\n"@ + acc
        });
        if text::utf8_len(candidate) > overlap {
            k
        } else {
            lemma_overlap(paragraphs, lo, k - 1, hi, overlap)
        }
    }
}

/// What a part repeats of the one before is its last paragraphs, as many as stay
/// within the overlap together: one more would not have.
pub proof fn law_overlap_is_the_longest(
    paragraphs: Seq<Seq<char>>,
    lo: int,
    hi: int,
    overlap: nat,
) -> (m: int)
    requires
        0 <= lo <= hi <= paragraphs.len(),
    ensures
        lo <= m <= hi,
        chunking::overlap_tail(paragraphs, lo, hi, Seq::empty(), overlap) == joined_back(
            paragraphs,
            m,
            hi,
        ),
        forall|i: int|
            m <= i < hi ==> text::utf8_len(#[trigger] joined_back(paragraphs, i, hi)) <= overlap,
        m > lo ==> text::utf8_len(joined_back(paragraphs, m - 1, hi)) > overlap,
{
    lemma_overlap(paragraphs, lo, hi, hi, overlap)
}

// --- Whitespace ---

/// Collapsing whitespace puts one character in place of each run of it, a newline
/// where the run begins with one and a space elsewhere, and changes nothing else:
/// what stands before the run and what stands behind it are collapsed by
/// themselves.
pub proof fn law_runs_are_collapsed(a: Seq<char>, run: Seq<char>, b: Seq<char>)
    requires
        a.len() == 0 || !text::is_space(a.last()),
        b.len() == 0 || !text::is_space(b[0]),
        run.len() > 0,
        forall|i: int| 0 <= i < run.len() ==> text::is_space(#[trigger] run[i]),
    ensures
        chunking::normalized(a + run + b) == chunking::normalized(a) + seq![
            if run[0] == '\n' {
                '\n'
            } else {
                ' '
            },
        ] + chunking::normalized(b),
{
    chunk_laws::lemma_normalized_concat(a + run, b);
    chunk_laws::lemma_normalized_concat(a, run);
    lemma_run(run);
}

proof fn lemma_run(run: Seq<char>)
    requires
        run.len() > 0,
        forall|i: int| 0 <= i < run.len() ==> text::is_space(#[trigger] run[i]),
    ensures
        chunking::normalized(run) == seq![
            if run[0] == '\n' {
                '\n'
            } else {
                ' '
            },
        ],
    decreases run.len(),
{
    assert(text::is_space(run[run.len() - 1]));
    if run.len() > 1 {
        let init = run.drop_last();
        assert forall|i: int| 0 <= i < init.len() implies text::is_space(#[trigger] init[i]) by {
            assert(init[i] == run[i]);
        }
        lemma_run(init);
        assert(text::is_space(run[run.len() - 2]));
    } else {
        assert(chunking::normalized(run.drop_last()) =~= Seq::<char>::empty());
        assert(chunking::normalized(run) =~= seq![chunking::space_char(run[0])]);
    }
}

/// A text without whitespace stays as it is.
pub proof fn law_words_stay(s: Seq<char>)
    requires
        forall|i: int| 0 <= i < s.len() ==> !text::is_space(#[trigger] s[i]),
    ensures
        chunking::normalized(s) == s,
    decreases s.len(),
{
    if s.len() > 0 {
        let init = s.drop_last();
        assert forall|i: int| 0 <= i < init.len() implies !text::is_space(#[trigger] init[i]) by {
            assert(init[i] == s[i]);
        }
        law_words_stay(init);
        assert(!text::is_space(s[s.len() - 1]));
        assert(init.push(s.last()) =~= s);
    } else {
        assert(chunking::normalized(s) =~= s);
    }
}

} // verus!
