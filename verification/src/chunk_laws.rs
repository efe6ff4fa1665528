//! What holds of every page that is cut into chunks.

use crate::chunking;
use crate::chunking::{Block, Heading, Outline, Piece, Section, Splitting};
use crate::crypto;
use crate::text;
use vstd::prelude::*;

verus! {

/// `part` stands somewhere in `whole`.
pub open spec fn holds(whole: Seq<char>, part: Seq<char>) -> bool {
    exists|a: Seq<char>, b: Seq<char>| whole == #[trigger] (a + part + b)
}

proof fn lemma_holds_self(s: Seq<char>)
    ensures
        holds(s, s),
{
    let e = Seq::<char>::empty();
    assert(s =~= e + s + e);
}

proof fn lemma_holds_extended(whole: Seq<char>, part: Seq<char>, front: Seq<char>, back: Seq<char>)
    requires
        holds(whole, part),
    ensures
        holds(front + whole + back, part),
{
    let (a, b) = choose|a: Seq<char>, b: Seq<char>| whole == #[trigger] (a + part + b);
    assert(front + (a + part + b) + back =~= (front + a) + part + (b + back));
}

proof fn lemma_holds_within(whole: Seq<char>, part: Seq<char>, inner: Seq<char>)
    requires
        holds(whole, part),
        holds(part, inner),
    ensures
        holds(whole, inner),
{
    let (a, b) = choose|a: Seq<char>, b: Seq<char>| whole == #[trigger] (a + part + b);
    lemma_holds_extended(part, inner, a, b);
}

// --- Splitting ---

/// What a part repeats of the part before is at most `overlap` bytes long.
pub proof fn law_overlap_is_bounded(
    paragraphs: Seq<Seq<char>>,
    lo: int,
    hi: int,
    acc: Seq<char>,
    overlap: nat,
)
    requires
        text::utf8_len(acc) <= overlap,
    ensures
        text::utf8_len(chunking::overlap_tail(paragraphs, lo, hi, acc, overlap)) <= overlap,
    decreases hi - lo,
{
    if lo < hi {
        let candidate = if acc.len() == 0 {
            paragraphs[hi - 1]
        } else {
            paragraphs[hi - 1] + "\n\n"@ + acc
        };
        if text::utf8_len(candidate) <= overlap {
            law_overlap_is_bounded(paragraphs, lo, hi - 1, candidate, overlap);
        }
    }
}

/// A part fits: it is within `max_len` bytes, or it is one paragraph with an
/// overlap in front.
pub open spec fn fits(part: Seq<char>, paragraphs: Seq<Seq<char>>, max_len: nat, overlap: nat) -> bool {
    ||| text::utf8_len(part) <= max_len
    ||| exists|k: int|
        0 <= k < paragraphs.len() && text::utf8_len(part) <= overlap + 2 + text::utf8_len(
            #[trigger] paragraphs[k],
        )
}

proof fn lemma_blank_line_len()
    ensures
        text::utf8_len("\n\n"@) == 2,
{
    reveal_strlit("\n\n");
    reveal_with_fuel(text::utf8_len, 3);
}

proof fn lemma_splitting_fits(paragraphs: Seq<Seq<char>>, n: int, max_len: nat, overlap: nat)
    requires
        0 <= n <= paragraphs.len(),
    ensures
        ({
            let s = chunking::splitting(paragraphs, n, max_len, overlap);
            &&& fits(s.current, paragraphs, max_len, overlap)
            &&& forall|j: int|
                0 <= j < s.parts.len() ==> fits(
                    #[trigger] s.parts[j],
                    paragraphs,
                    max_len,
                    overlap,
                ) && s.parts[j].len() > 0
        }),
    decreases n,
{
    if n > 0 {
        lemma_splitting_fits(paragraphs, n - 1, max_len, overlap);
        lemma_blank_line_len();
        let before = chunking::splitting(paragraphs, n - 1, max_len, overlap);
        let after = chunking::splitting(paragraphs, n, max_len, overlap);
        let p = paragraphs[n - 1];
        let full = text::utf8_len(before.current) + text::utf8_len(p) + 2 > max_len
            && before.current.len() > 0;
        let start = if full {
            chunking::overlap_tail(paragraphs, before.first, n - 1, Seq::empty(), overlap)
        } else {
            before.current
        };
        if full {
            law_overlap_is_bounded(paragraphs, before.first, n - 1, Seq::empty(), overlap);
        }
        if start.len() > 0 {
            text::lemma_utf8_len_concat(start, "\n\n"@);
            text::lemma_utf8_len_concat(start + "\n\n"@, p);
            assert(text::utf8_len(after.current) == text::utf8_len(start) + 2 + text::utf8_len(p));
        }
        assert(text::utf8_len(after.current) <= overlap + 2 + text::utf8_len(paragraphs[n - 1])
            || text::utf8_len(after.current) <= max_len);
        assert(fits(after.current, paragraphs, max_len, overlap));
    }
}

proof fn lemma_gathered_fit(paragraphs: Seq<Seq<char>>, max_len: nat, overlap: nat)
    ensures
        forall|j: int|
            0 <= j < chunking::gathered(paragraphs, max_len, overlap).len() ==> fits(
                #[trigger] chunking::gathered(paragraphs, max_len, overlap)[j],
                paragraphs,
                max_len,
                overlap,
            ) && chunking::gathered(paragraphs, max_len, overlap)[j].len() > 0,
{
    lemma_splitting_fits(paragraphs, paragraphs.len() as int, max_len, overlap);
}

/// No part is longer than `max_len` bytes, except where a single paragraph is:
/// such a part is that paragraph with at most an overlap in front. No part is
/// empty.
pub proof fn law_parts_fit(s: Seq<char>, max_len: nat, overlap: nat)
    ensures
        forall|j: int|
            0 <= j < chunking::split_parts(s, max_len, overlap).len() ==> fits(
                #[trigger] chunking::split_parts(s, max_len, overlap)[j],
                text::split_on(s, "\n\n"@),
                max_len,
                overlap,
            ) && chunking::split_parts(s, max_len, overlap)[j].len() > 0,
{
    lemma_gathered_fit(text::split_on(s, "\n\n"@), max_len, overlap);
}

/// Some finished part, or the part being filled, holds the paragraph.
pub open spec fn kept(s: Splitting, p: Seq<char>) -> bool {
    ||| holds(s.current, p)
    ||| exists|j: int| 0 <= j < s.parts.len() && holds(#[trigger] s.parts[j], p)
}

proof fn lemma_splitting_keeps(
    paragraphs: Seq<Seq<char>>,
    n: int,
    max_len: nat,
    overlap: nat,
    k: int,
)
    requires
        0 <= k < n <= paragraphs.len(),
    ensures
        kept(chunking::splitting(paragraphs, n, max_len, overlap), paragraphs[k]),
    decreases n,
{
    let before = chunking::splitting(paragraphs, n - 1, max_len, overlap);
    let after = chunking::splitting(paragraphs, n, max_len, overlap);
    let p = paragraphs[n - 1];
    let empty = Seq::<char>::empty();
    let full = text::utf8_len(before.current) + text::utf8_len(p) + 2 > max_len
        && before.current.len() > 0;
    let start = if full {
        chunking::overlap_tail(paragraphs, before.first, n - 1, Seq::empty(), overlap)
    } else {
        before.current
    };
    if k == n - 1 {
        lemma_holds_self(p);
        lemma_holds_extended(p, p, start + "\n\n"@, empty);
        assert(start + "\n\n"@ + p + empty =~= start + "\n\n"@ + p);
        assert(holds(after.current, p));
    } else {
        lemma_splitting_keeps(paragraphs, n - 1, max_len, overlap, k);
        let q = paragraphs[k];
        if holds(before.current, q) {
            if full {
                assert(after.parts[before.parts.len() as int] == before.current);
            } else if before.current.len() > 0 {
                lemma_holds_extended(before.current, q, empty, "\n\n"@ + p);
                assert(empty + before.current + ("\n\n"@ + p) =~= before.current + "\n\n"@ + p);
            } else {
                let (a, b) = choose|a: Seq<char>, b: Seq<char>|
                    before.current == #[trigger] (a + q + b);
                assert((a + q + b).len() == a.len() + q.len() + b.len());
                assert(q =~= empty);
                assert(after.current =~= empty + q + after.current);
            }
        } else {
            let j = choose|j: int| 0 <= j < before.parts.len() && holds(before.parts[j], q);
            assert(after.parts[j] == before.parts[j]);
        }
    }
}

proof fn lemma_gathered_keeps(paragraphs: Seq<Seq<char>>, max_len: nat, overlap: nat, k: int)
    requires
        0 <= k < paragraphs.len(),
        paragraphs[k].len() > 0,
    ensures
        exists|j: int|
            0 <= j < chunking::gathered(paragraphs, max_len, overlap).len() && holds(
                #[trigger] chunking::gathered(paragraphs, max_len, overlap)[j],
                paragraphs[k],
            ),
{
    let end = chunking::splitting(paragraphs, paragraphs.len() as int, max_len, overlap);
    lemma_splitting_keeps(paragraphs, paragraphs.len() as int, max_len, overlap, k);
    let parts = chunking::gathered(paragraphs, max_len, overlap);
    if holds(end.current, paragraphs[k]) {
        let (a, b) = choose|a: Seq<char>, b: Seq<char>|
            end.current == #[trigger] (a + paragraphs[k] + b);
        assert((a + paragraphs[k] + b).len() == a.len() + paragraphs[k].len() + b.len());
        assert(parts[end.parts.len() as int] == end.current);
    } else {
        let j = choose|j: int| 0 <= j < end.parts.len() && holds(end.parts[j], paragraphs[k]);
        assert(parts[j] == end.parts[j]);
    }
}

/// Splitting loses nothing: every paragraph that is not empty stands in one of
/// the parts.
pub proof fn law_split_keeps_paragraphs(s: Seq<char>, max_len: nat, overlap: nat, k: int)
    requires
        0 <= k < text::split_on(s, "\n\n"@).len(),
        text::split_on(s, "\n\n"@)[k].len() > 0,
    ensures
        exists|j: int|
            0 <= j < chunking::split_parts(s, max_len, overlap).len() && holds(
                #[trigger] chunking::split_parts(s, max_len, overlap)[j],
                text::split_on(s, "\n\n"@)[k],
            ),
{
    let paragraphs = text::split_on(s, "\n\n"@);
    lemma_gathered_keeps(paragraphs, max_len, overlap, k);
    let j = choose|j: int|
        0 <= j < chunking::gathered(paragraphs, max_len, overlap).len() && holds(
            #[trigger] chunking::gathered(paragraphs, max_len, overlap)[j],
            paragraphs[k],
        );
    assert(holds(chunking::split_parts(s, max_len, overlap)[j], paragraphs[k]));
}

/// `start` with the paragraphs `lo..hi` behind it, each set off by a blank
/// line from what stands before it.
pub open spec fn followed(start: Seq<char>, paragraphs: Seq<Seq<char>>, lo: int, hi: int) -> Seq<
    char,
>
    decreases hi - lo,
{
    if lo >= hi {
        start
    } else {
        let before = followed(start, paragraphs, lo, hi - 1);
        if before.len() > 0 {
            before + "\n\n"@ + paragraphs[hi - 1]
        } else {
            paragraphs[hi - 1]
        }
    }
}

/// What part `j` begins with, where part `i` gathers the paragraphs from
/// `cuts[i]` up to `cuts[i + 1]`: nothing in the first part, and in each later
/// one the overlap with the part before.
pub open spec fn part_start(
    paragraphs: Seq<Seq<char>>,
    cuts: Seq<int>,
    j: int,
    overlap: nat,
) -> Seq<char> {
    if j <= 0 {
        Seq::empty()
    } else {
        chunking::overlap_tail(paragraphs, cuts[j - 1], cuts[j], Seq::empty(), overlap)
    }
}

/// The cuts run upwards from the first paragraph, and part `j` is its start
/// followed by the paragraphs from `cuts[j]` up to `cuts[j + 1]`. A part ends only
/// where the paragraph that comes next would not have fit into it.
pub open spec fn cut_at(
    parts: Seq<Seq<char>>,
    paragraphs: Seq<Seq<char>>,
    cuts: Seq<int>,
    max_len: nat,
    overlap: nat,
) -> bool {
    &&& cuts.len() == parts.len() + 1
    &&& cuts[0] == 0
    &&& cuts.last() <= paragraphs.len()
    &&& forall|j: int| 0 <= j < parts.len() ==> #[trigger] cuts[j] < cuts[j + 1]
    &&& forall|j: int|
        0 <= j < parts.len() ==> #[trigger] parts[j] == followed(
            part_start(paragraphs, cuts, j, overlap),
            paragraphs,
            cuts[j],
            cuts[j + 1],
        )
    &&& forall|j: int|
        0 <= j < parts.len() && cuts[j + 1] < paragraphs.len() ==> text::utf8_len(
            #[trigger] parts[j],
        ) + text::utf8_len(paragraphs[cuts[j + 1]]) + 2 > max_len
}

proof fn lemma_splitting_cuts(
    paragraphs: Seq<Seq<char>>,
    n: int,
    max_len: nat,
    overlap: nat,
) -> (cuts: Seq<int>)
    requires
        0 <= n <= paragraphs.len(),
    ensures
        ({
            let s = chunking::splitting(paragraphs, n, max_len, overlap);
            &&& cut_at(s.parts, paragraphs, cuts, max_len, overlap)
            &&& cuts.last() == s.first
            &&& 0 <= s.first <= n
            &&& n > 0 ==> s.first < n
            &&& s.current == followed(
                part_start(paragraphs, cuts, s.parts.len() as int, overlap),
                paragraphs,
                s.first,
                n,
            )
        }),
    decreases n,
{
    if n == 0 {
        seq![0]
    } else {
        let earlier = lemma_splitting_cuts(paragraphs, n - 1, max_len, overlap);
        let before = chunking::splitting(paragraphs, n - 1, max_len, overlap);
        let after = chunking::splitting(paragraphs, n, max_len, overlap);
        let p = paragraphs[n - 1];
        let full = text::utf8_len(before.current) + text::utf8_len(p) + 2 > max_len
            && before.current.len() > 0;
        let m = before.parts.len() as int;
        if full {
            let cuts = earlier.push(n - 1);
            assert forall|j: int| 0 <= j <= m implies part_start(paragraphs, cuts, j, overlap)
                == #[trigger] part_start(paragraphs, earlier, j, overlap) by {
            }
            assert(before.first < n - 1) by {
                if n == 1 {
                    assert(before.current.len() == 0);
                }
            }
            assert forall|j: int| 0 <= j < after.parts.len() implies #[trigger] cuts[j] < cuts[j
                + 1] by {
                if j < m {
                    assert(earlier[j] < earlier[j + 1]);
                }
            }
            assert forall|j: int| 0 <= j < after.parts.len() implies #[trigger] after.parts[j]
                == followed(
                part_start(paragraphs, cuts, j, overlap),
                paragraphs,
                cuts[j],
                cuts[j + 1],
            ) by {
                assert(part_start(paragraphs, cuts, j, overlap) == part_start(
                    paragraphs,
                    earlier,
                    j,
                    overlap,
                ));
                if j < m {
                    assert(after.parts[j] == before.parts[j]);
                }
            }
            assert forall|j: int|
                0 <= j < after.parts.len() && cuts[j + 1] < paragraphs.len() implies text::utf8_len(
                #[trigger] after.parts[j],
            ) + text::utf8_len(paragraphs[cuts[j + 1]]) + 2 > max_len by {
                if j < m {
                    assert(after.parts[j] == before.parts[j]);
                    assert(cuts[j + 1] == earlier[j + 1]);
                }
            }
            let start = chunking::overlap_tail(
                paragraphs,
                before.first,
                n - 1,
                Seq::empty(),
                overlap,
            );
            assert(part_start(paragraphs, cuts, m + 1, overlap) == start);
            assert(followed(start, paragraphs, n - 1, n - 1) == start);
            cuts
        } else {
            earlier
        }
    }
}

/// A split can be undone. The text is cut between paragraphs: the first part
/// holds the first paragraphs, and each later part is its overlap with the part
/// before followed by the paragraphs that come next, in order, as many as fit.
/// Nothing but
/// empty paragraphs comes after the last part, and the paragraphs with blank
/// lines between them are the text.
pub proof fn law_parts_give_the_text_back(s: Seq<char>, max_len: nat, overlap: nat)
    ensures
        exists|cuts: Seq<int>|
            #[trigger] cut_at(
                chunking::split_parts(s, max_len, overlap),
                text::split_on(s, "\n\n"@),
                cuts,
                max_len,
                overlap,
            ) && forall|k: int|
                cuts.last() <= k < text::split_on(s, "\n\n"@).len() ==> (
                #[trigger] text::split_on(s, "\n\n"@)[k]).len() == 0,
        text::join_with(text::split_on(s, "\n\n"@), "\n\n"@) == s,
{
    reveal_strlit("\n\n");
    text::law_join_split(s, "\n\n"@);
    let paragraphs = text::split_on(s, "\n\n"@);
    let n = paragraphs.len() as int;
    let earlier = lemma_splitting_cuts(paragraphs, n, max_len, overlap);
    let end = chunking::splitting(paragraphs, n, max_len, overlap);
    let parts = chunking::split_parts(s, max_len, overlap);
    let m = end.parts.len() as int;
    if end.current.len() > 0 {
        let cuts = earlier.push(n);
        assert forall|j: int| 0 <= j < parts.len() implies #[trigger] cuts[j] < cuts[j + 1] by {
            if j < m {
                assert(earlier[j] < earlier[j + 1]);
            }
        }
        assert forall|j: int| 0 <= j < parts.len() implies #[trigger] parts[j] == followed(
            part_start(paragraphs, cuts, j, overlap),
            paragraphs,
            cuts[j],
            cuts[j + 1],
        ) by {
            assert(part_start(paragraphs, cuts, j, overlap) == part_start(
                paragraphs,
                earlier,
                j,
                overlap,
            ));
            if j < m {
                assert(parts[j] == end.parts[j]);
            }
        }
        assert forall|j: int|
            0 <= j < parts.len() && cuts[j + 1] < paragraphs.len() implies text::utf8_len(
            #[trigger] parts[j],
        ) + text::utf8_len(paragraphs[cuts[j + 1]]) + 2 > max_len by {
            if j < m {
                assert(parts[j] == end.parts[j]);
                assert(cuts[j + 1] == earlier[j + 1]);
            }
        }
        assert(cut_at(parts, paragraphs, cuts, max_len, overlap));
    } else {
        lemma_followed_holds(
            part_start(paragraphs, earlier, m, overlap),
            paragraphs,
            end.first,
            n,
        );
        assert(cut_at(parts, paragraphs, earlier, max_len, overlap));
    }
}

proof fn lemma_followed_holds(start: Seq<char>, paragraphs: Seq<Seq<char>>, lo: int, hi: int)
    requires
        0 <= lo <= hi <= paragraphs.len(),
    ensures
        followed(start, paragraphs, lo, hi).len() == 0 ==> forall|k: int|
            lo <= k < hi ==> (#[trigger] paragraphs[k]).len() == 0,
    decreases hi - lo,
{
    if lo < hi {
        lemma_followed_holds(start, paragraphs, lo, hi - 1);
    }
}

// --- Whitespace ---

/// No two whitespace characters stand side by side, and each is a newline or a
/// space.
pub open spec fn is_collapsed(s: Seq<char>) -> bool {
    &&& forall|i: int| 0 <= i < s.len() && text::is_space(#[trigger] s[i]) ==> s[i]
        == chunking::space_char(s[i])
    &&& forall|i: int, j: int|
        0 <= i && j == i + 1 && j < s.len() && text::is_space(#[trigger] s[i])
            ==> !text::is_space(#[trigger] s[j])
}

proof fn lemma_normalized_collapsed(s: Seq<char>)
    ensures
        is_collapsed(chunking::normalized(s)),
        s.len() > 0 ==> chunking::normalized(s).len() > 0,
        s.len() > 0 ==> (text::is_space(chunking::normalized(s).last()) <==> text::is_space(
            s.last(),
        )),
    decreases s.len(),
{
    if s.len() > 0 {
        lemma_normalized_collapsed(s.drop_last());
        if s.len() > 1 {
            assert(s.drop_last().last() == s[s.len() - 2]);
        }
    }
}

proof fn lemma_collapsed_stays(s: Seq<char>)
    requires
        is_collapsed(s),
    ensures
        chunking::normalized(s) == s,
    decreases s.len(),
{
    if s.len() > 0 {
        assert(is_collapsed(s.drop_last()));
        lemma_collapsed_stays(s.drop_last());
        assert(s[s.len() - 1] == s.last());
        assert(s.drop_last().push(s.last()) =~= s);
        if s.len() > 1 && text::is_space(s[s.len() - 2]) {
            assert(!text::is_space(s[s.len() - 1]));
        }
    } else {
        assert(chunking::normalized(s) =~= s);
    }
}

/// Collapsing whitespace a second time changes nothing.
pub proof fn law_normalizing_twice(s: Seq<char>)
    ensures
        chunking::normalized(chunking::normalized(s)) == chunking::normalized(s),
        is_collapsed(chunking::normalized(s)),
{
    lemma_normalized_collapsed(s);
    lemma_collapsed_stays(chunking::normalized(s));
}

// --- Headings ---

/// Headings nest: their levels run strictly upwards between 1 and 3.
pub open spec fn nested(stack: Seq<Heading>) -> bool {
    &&& forall|i: int| 0 <= i < stack.len() ==> 1 <= (#[trigger] stack[i]).level <= 3
    &&& forall|i: int, j: int|
        0 <= i < j < stack.len() ==> (#[trigger] stack[i]).level < (#[trigger] stack[j]).level
}

/// The outline is well formed: headings nest, and no section has more than
/// three of them above it.
pub open spec fn well_nested(o: Outline) -> bool {
    &&& nested(o.stack)
    &&& o.heading matches Some(h) ==> 1 <= h.level <= 3
    &&& forall|i: int| 0 <= i < o.sections.len() ==> (#[trigger] o.sections[i]).path.len() <= 3
}

proof fn lemma_enclosing_nested(stack: Seq<Heading>, level: int)
    requires
        nested(stack),
    ensures
        nested(chunking::enclosing(stack, level)),
        forall|i: int|
            0 <= i < chunking::enclosing(stack, level).len() ==> (#[trigger] chunking::enclosing(
                stack,
                level,
            )[i]).level < level,
    decreases stack.len(),
{
    if stack.len() > 0 && stack.last().level >= level {
        assert(nested(stack.drop_last()));
        lemma_enclosing_nested(stack.drop_last(), level);
    } else if stack.len() > 0 {
        assert forall|i: int| 0 <= i < stack.len() implies (#[trigger] stack[i]).level < level by {
            if i < stack.len() - 1 {
                assert(stack[i].level < stack[stack.len() - 1].level);
            }
        }
    }
}

proof fn lemma_nested_len(stack: Seq<Heading>)
    requires
        nested(stack),
    ensures
        stack.len() <= 3,
{
    if stack.len() > 3 {
        assert(stack[0].level < stack[1].level);
        assert(stack[1].level < stack[2].level);
        assert(stack[2].level < stack[3].level);
    }
}

proof fn lemma_after_tag_nested(o: Outline, tag_text: Seq<char>, page_name: Option<Seq<char>>)
    requires
        well_nested(o),
    ensures
        well_nested(chunking::after_tag(o, tag_text, page_name)),
{
    lemma_nested_len(o.stack);
    let tag = text::trim(tag_text);
    match chunking::opened_level(tag) {
        Some(level) => {},
        None => if chunking::closes_heading(tag) {
            if let Some(h) = o.heading {
                lemma_enclosing_nested(o.stack, h.level);
            }
        } else {
        },
    }
}

/// Headings nest wherever reading stops, whatever the HTML holds.
pub proof fn law_headings_nest(html: Seq<char>, n: int, page_name: Option<Seq<char>>)
    requires
        0 <= n <= html.len(),
    ensures
        well_nested(chunking::outline(html, n, page_name)),
    decreases n,
{
    if n > 0 {
        law_headings_nest(html, n - 1, page_name);
        let before = chunking::outline(html, n - 1, page_name);
        if html[n - 1] == '>' {
            lemma_after_tag_nested(before, chunking::last_tag(html, n - 1), page_name);
        }
    }
}

/// A heading that ends is put on the path, unless it is the first top-level one
/// and repeats the page name. Once a top-level heading has ended, no later one
/// is left out.
pub proof fn law_only_the_first_h1_is_left_out(
    html: Seq<char>,
    n: int,
    page_name: Option<Seq<char>>,
    h: Heading,
)
    requires
        0 <= n < html.len(),
        chunking::outline(html, n, page_name).heading == Some(h),
        chunking::outline(html, n + 1, page_name).heading is None,
    ensures
        ({
            let before = chunking::outline(html, n, page_name);
            let after = chunking::outline(html, n + 1, page_name);
            let title = text::trim(h.title);
            let left_out = !before.h1_seen && h.level == 1 && (page_name matches Some(name)
                && text::eq_ignoring_ascii_case(title, text::trim(name)));
            &&& after.stack == if left_out {
                before.stack
            } else {
                chunking::enclosing(before.stack, h.level).push(Heading { level: h.level, title })
            }
            &&& after.h1_seen == (before.h1_seen || h.level == 1)
        }),
{
}

/// Once a top-level heading was read, that is never forgotten.
pub proof fn law_h1_stays_seen(html: Seq<char>, n: int, m: int, page_name: Option<Seq<char>>)
    requires
        0 <= n <= m <= html.len(),
        chunking::outline(html, n, page_name).h1_seen,
    ensures
        chunking::outline(html, m, page_name).h1_seen,
    decreases m - n,
{
    if n < m {
        law_h1_stays_seen(html, n, m - 1, page_name);
    }
}

/// Every section stands under at most three headings.
pub proof fn law_paths_are_short(html: Seq<char>, page_name: Option<Seq<char>>)
    ensures
        forall|i: int|
            0 <= i < chunking::sections(html, page_name).len() ==> (#[trigger] chunking::sections(
                html,
                page_name,
            )[i]).path.len() <= 3,
{
    let n = html.len() as int;
    law_headings_nest(html, n, page_name);
    lemma_nested_len(chunking::outline(html, n, page_name).stack);
}

// --- Blocks and chunks ---

/// The characters of a text that are not whitespace.
pub open spec fn visible(s: Seq<char>) -> Seq<char>
    decreases s.len(),
{
    if s.len() == 0 {
        Seq::empty()
    } else if text::is_space(s.last()) {
        visible(s.drop_last())
    } else {
        visible(s.drop_last()).push(s.last())
    }
}

/// The visible characters of some texts, in order.
pub open spec fn visible_in_all(texts: Seq<Seq<char>>) -> Seq<char>
    decreases texts.len(),
{
    if texts.len() == 0 {
        Seq::empty()
    } else {
        visible_in_all(texts.drop_last()) + visible(texts.last())
    }
}

/// The visible characters of some blocks, in order.
pub open spec fn visible_in_blocks(blocks: Seq<Block>) -> Seq<char>
    decreases blocks.len(),
{
    if blocks.len() == 0 {
        Seq::empty()
    } else {
        visible_in_blocks(blocks.drop_last()) + visible_in_all(blocks.last().paragraphs)
    }
}

/// The bodies of the first `n` sections, one after the other.
pub open spec fn bodies(sections: Seq<Section>, n: int) -> Seq<char>
    decreases n,
{
    if n <= 0 {
        Seq::empty()
    } else {
        bodies(sections, n - 1) + sections[n - 1].body
    }
}

/// The last heading tag before position `i` opens a heading.
pub open spec fn inside_heading(html: Seq<char>, i: int) -> bool
    decreases i,
{
    if i <= 0 {
        false
    } else if html[i - 1] == '>' {
        let tag = text::trim(chunking::last_tag(html, i - 1));
        chunking::opened_level(tag) is Some || (!chunking::closes_heading(tag) && inside_heading(
            html,
            i - 1,
        ))
    } else {
        inside_heading(html, i - 1)
    }
}

/// The text in the first `n` characters of the HTML that stands outside tags
/// and headings, with a space for each closing or self-closing tag.
pub open spec fn body_text(html: Seq<char>, n: int) -> Seq<char>
    decreases n,
{
    if n <= 0 {
        Seq::empty()
    } else {
        let before = body_text(html, n - 1);
        let c = html[n - 1];
        let tag = text::trim(chunking::last_tag(html, n - 1));
        if c == '<' || inside_heading(html, n - 1) {
            before
        } else if c == '>' {
            if chunking::opened_level(tag) is None && !chunking::closes_heading(tag)
                && chunking::separates_words(tag) {
                before.push(' ')
            } else {
                before
            }
        } else if chunking::inside_tag(html, n - 1) {
            before
        } else {
            before.push(c)
        }
    }
}

proof fn lemma_visible_concat(a: Seq<char>, b: Seq<char>)
    ensures
        visible(a + b) == visible(a) + visible(b),
    decreases b.len(),
{
    if b.len() == 0 {
        assert(a + b =~= a);
        assert(visible(a) + visible(b) =~= visible(a));
    } else {
        assert((a + b).drop_last() =~= a + b.drop_last());
        lemma_visible_concat(a, b.drop_last());
        assert(visible(a + b) =~= visible(a) + visible(b));
    }
}

proof fn lemma_visible_push(s: Seq<char>, c: char)
    ensures
        visible(s.push(c)) == if text::is_space(c) {
            visible(s)
        } else {
            visible(s).push(c)
        },
{
    assert(s.push(c).drop_last() =~= s);
}

proof fn lemma_visible_trim_start(s: Seq<char>)
    ensures
        visible(text::trim_start(s)) == visible(s),
    decreases s.len(),
{
    if s.len() > 0 && text::is_space(s[0]) {
        let rest = s.subrange(1, s.len() as int);
        let one = Seq::<char>::empty().push(s[0]);
        lemma_visible_trim_start(rest);
        assert(s =~= one + rest);
        lemma_visible_concat(one, rest);
        lemma_visible_push(Seq::empty(), s[0]);
        assert(visible(one) + visible(rest) =~= visible(rest));
    }
}

proof fn lemma_visible_trim_end(s: Seq<char>)
    ensures
        visible(text::trim_end(s)) == visible(s),
    decreases s.len(),
{
    if s.len() > 0 && text::is_space(s.last()) {
        lemma_visible_trim_end(s.drop_last());
    }
}

proof fn lemma_visible_normalized(s: Seq<char>)
    ensures
        visible(chunking::normalized(s)) == visible(s),
    decreases s.len(),
{
    if s.len() > 0 {
        lemma_visible_normalized(s.drop_last());
        let before = chunking::normalized(s.drop_last());
        lemma_visible_push(before, s.last());
        lemma_visible_push(before, chunking::space_char(s.last()));
    }
}

proof fn lemma_visible_in_push(texts: Seq<Seq<char>>, t: Seq<char>)
    ensures
        visible_in_all(texts.push(t)) == visible_in_all(texts) + visible(t),
{
    assert(texts.push(t).drop_last() =~= texts);
}

proof fn lemma_visible_in_concat(a: Seq<Seq<char>>, b: Seq<Seq<char>>)
    ensures
        visible_in_all(a + b) == visible_in_all(a) + visible_in_all(b),
    decreases b.len(),
{
    if b.len() == 0 {
        assert(a + b =~= a);
        assert(visible_in_all(a) + visible_in_all(b) =~= visible_in_all(a));
    } else {
        assert((a + b).drop_last() =~= a + b.drop_last());
        lemma_visible_in_concat(a, b.drop_last());
        assert(visible_in_all(a + b) =~= visible_in_all(a) + visible_in_all(b));
    }
}

proof fn lemma_tidied_visible(s: Seq<char>)
    ensures
        visible(chunking::tidied(s)) == visible(s),
        chunking::tidied(s).len() > 0 <==> visible(s).len() > 0,
{
    lemma_visible_trim_start(s);
    lemma_visible_trim_end(text::trim_start(s));
    lemma_visible_normalized(text::trim(s));
    text::law_trimmed_ends(s);
}

proof fn lemma_visible_tidied(paragraphs: Seq<Seq<char>>)
    ensures
        visible_in_all(chunking::tidied_all(paragraphs)) == visible_in_all(paragraphs),
        forall|k: int|
            0 <= k < chunking::tidied_all(paragraphs).len() ==> (#[trigger] chunking::tidied_all(
                paragraphs,
            )[k]).len() > 0,
        chunking::tidied_all(paragraphs).len() > 0 ==> visible_in_all(paragraphs).len() > 0,
    decreases paragraphs.len(),
{
    if paragraphs.len() > 0 {
        lemma_visible_tidied(paragraphs.drop_last());
        let before = chunking::tidied_all(paragraphs.drop_last());
        let p = paragraphs.last();
        lemma_tidied_visible(p);
        if chunking::tidied(p).len() == 0 {
            assert(visible(p) =~= Seq::<char>::empty());
            assert(visible_in_all(before) + visible(p) =~= visible_in_all(before));
        } else {
            lemma_visible_in_push(before, chunking::tidied(p));
        }
    }
}

proof fn lemma_visible_joined(texts: Seq<Seq<char>>)
    ensures
        visible(text::join_with(texts, "\n\n"@)) == visible_in_all(texts),
    decreases texts.len(),
{
    let sep = "\n\n"@;
    if texts.len() == 1 {
        assert(visible_in_all(texts.drop_last()) =~= Seq::<char>::empty());
        assert(visible_in_all(texts) =~= visible(texts[0]));
    } else if texts.len() > 1 {
        lemma_visible_joined(texts.drop_last());
        let before = text::join_with(texts.drop_last(), sep);
        lemma_visible_concat(before + sep, texts.last());
        lemma_visible_concat(before, sep);
        reveal_strlit("\n\n");
        assert(sep =~= Seq::<char>::empty().push('\n').push('\n'));
        lemma_visible_push(Seq::<char>::empty(), '\n');
        lemma_visible_push(Seq::<char>::empty().push('\n'), '\n');
        assert(visible(sep) =~= Seq::<char>::empty());
        assert(visible(before) + visible(sep) =~= visible(before));
    }
}

/// The visible characters of a section's body are those of its paragraphs, and
/// none of its paragraphs is empty.
proof fn lemma_section_visible(section: Section)
    ensures
        visible_in_all(chunking::section_paragraphs(section)) == visible(section.body),
        forall|k: int|
            0 <= k < chunking::section_paragraphs(section).len() ==> (
            #[trigger] chunking::section_paragraphs(section)[k]).len() > 0,
        chunking::section_paragraphs(section).len() > 0 ==> visible(section.body).len() > 0,
{
    reveal_strlit("\n\n");
    let found = text::split_on(section.body, "\n\n"@);
    text::law_join_split(section.body, "\n\n"@);
    lemma_visible_joined(found);
    lemma_visible_tidied(found);
}

/// The block has a text and at least one paragraph, and its text holds every
/// paragraph, none of which is empty.
pub open spec fn has_text(block: Block) -> bool {
    &&& block.text.len() > 0
    &&& block.paragraphs.len() > 0
    &&& forall|k: int|
        0 <= k < block.paragraphs.len() ==> (#[trigger] block.paragraphs[k]).len() > 0 && holds(
            block.text,
            block.paragraphs[k],
        )
}

pub(crate) proof fn lemma_normalized_concat(a: Seq<char>, b: Seq<char>)
    requires
        a.len() == 0 || b.len() == 0 || !text::is_space(a.last()) || !text::is_space(b[0]),
    ensures
        chunking::normalized(a + b) == chunking::normalized(a) + chunking::normalized(b),
    decreases b.len(),
{
    if b.len() == 0 {
        assert(a + b =~= a);
        assert(chunking::normalized(a) + chunking::normalized(b) =~= chunking::normalized(a));
    } else {
        assert((a + b).drop_last() =~= a + b.drop_last());
        lemma_normalized_concat(a, b.drop_last());
        if b.len() > 1 {
            assert((a + b)[(a + b).len() - 2] == b[b.len() - 2]);
        } else if a.len() > 0 {
            assert((a + b)[(a + b).len() - 2] == a.last());
        }
        assert(chunking::normalized(a + b) =~= chunking::normalized(a) + chunking::normalized(b));
    }
}

proof fn lemma_trim_start_keeps(a: Seq<char>, t: Seq<char>) -> (rest: Seq<char>)
    requires
        t.len() > 0,
        !text::is_space(t[0]),
    ensures
        text::trim_start(a + t) == rest + t,
    decreases a.len(),
{
    if a.len() > 0 && text::is_space(a[0]) {
        let tail = a.subrange(1, a.len() as int);
        assert((a + t).subrange(1, (a + t).len() as int) =~= tail + t);
        lemma_trim_start_keeps(tail, t)
    } else {
        if a.len() == 0 {
            assert(a + t =~= t);
        }
        a
    }
}

proof fn lemma_trim_end_keeps(t: Seq<char>, b: Seq<char>) -> (rest: Seq<char>)
    requires
        t.len() > 0,
        !text::is_space(t.last()),
    ensures
        text::trim_end(t + b) == t + rest,
    decreases b.len(),
{
    if b.len() > 0 && text::is_space(b.last()) {
        assert((t + b).drop_last() =~= t + b.drop_last());
        lemma_trim_end_keeps(t, b.drop_last())
    } else {
        if b.len() == 0 {
            assert(t + b =~= t);
        }
        b
    }
}

proof fn lemma_holds_trimmed(s: Seq<char>)
    ensures
        holds(s, text::trim(s)),
{
    lemma_holds_trim_start(s);
    lemma_holds_trim_end(text::trim_start(s));
    lemma_holds_within(s, text::trim_start(s), text::trim(s));
}

proof fn lemma_holds_trim_start(s: Seq<char>)
    ensures
        holds(s, text::trim_start(s)),
    decreases s.len(),
{
    if s.len() > 0 && text::is_space(s[0]) {
        let rest = s.subrange(1, s.len() as int);
        lemma_holds_trim_start(rest);
        lemma_holds_extended(rest, text::trim_start(s), s.take(1), Seq::empty());
        assert(s.take(1) + rest + Seq::empty() =~= s);
    } else {
        lemma_holds_self(s);
    }
}

proof fn lemma_holds_trim_end(s: Seq<char>)
    ensures
        holds(s, text::trim_end(s)),
    decreases s.len(),
{
    if s.len() > 0 && text::is_space(s.last()) {
        lemma_holds_trim_end(s.drop_last());
        lemma_holds_extended(s.drop_last(), text::trim_end(s), Seq::empty(), seq![s.last()]);
        assert(Seq::empty() + s.drop_last() + seq![s.last()] =~= s);
    } else {
        lemma_holds_self(s);
    }
}

/// What a text holds is, once both are tidied, still held.
proof fn lemma_tidied_holds(whole: Seq<char>, part: Seq<char>)
    requires
        holds(whole, part),
        chunking::tidied(part).len() > 0,
    ensures
        holds(chunking::tidied(whole), chunking::tidied(part)),
{
    let t = text::trim(part);
    text::law_trimmed_ends(part);
    lemma_holds_trimmed(part);
    lemma_holds_within(whole, part, t);
    let (a, b) = choose|a: Seq<char>, b: Seq<char>| whole == #[trigger] (a + t + b);
    if t.len() == 0 {
        assert(chunking::normalized(t).len() == 0);
    }
    assert(whole =~= a + (t + b));
    assert((t + b)[0] == t[0]);
    let front = lemma_trim_start_keeps(a, t + b);
    assert(front + (t + b) =~= (front + t) + b);
    assert((front + t).last() == t.last());
    let back = lemma_trim_end_keeps(front + t, b);
    assert(text::trim(whole) == front + t + back);
    lemma_normalized_concat(front + t, back);
    lemma_normalized_concat(front, t);
    let u = chunking::normalized(front);
    let v = chunking::normalized(back);
    assert(chunking::tidied(whole) == u + chunking::tidied(part) + v);
}

proof fn lemma_tidied_from(paragraphs: Seq<Seq<char>>, k: int) -> (j: int)
    requires
        0 <= k < chunking::tidied_all(paragraphs).len(),
    ensures
        0 <= j < paragraphs.len(),
        chunking::tidied_all(paragraphs)[k] == chunking::tidied(paragraphs[j]),
    decreases paragraphs.len(),
{
    let before = chunking::tidied_all(paragraphs.drop_last());
    if k < before.len() {
        lemma_tidied_from(paragraphs.drop_last(), k)
    } else {
        paragraphs.len() - 1
    }
}

/// The text of a section holds each of its paragraphs, and a section with a text
/// has one.
proof fn lemma_section_text(section: Section)
    ensures
        forall|k: int|
            0 <= k < chunking::section_paragraphs(section).len() ==> (
            #[trigger] chunking::section_paragraphs(section)[k]).len() > 0 && holds(
                chunking::section_text(section),
                chunking::section_paragraphs(section)[k],
            ),
        chunking::section_text(section).len() > 0 ==> chunking::section_paragraphs(section).len()
            > 0,
        chunking::section_text(section).len() > 0 <==> visible(section.body).len() > 0,
{
    reveal_strlit("\n\n");
    let found = text::split_on(section.body, "\n\n"@);
    text::law_join_split(section.body, "\n\n"@);
    lemma_section_visible(section);
    lemma_tidied_visible(section.body);
    if chunking::section_paragraphs(section).len() == 0 {
        assert(visible_in_all(chunking::section_paragraphs(section)) =~= Seq::<char>::empty());
    }
    assert forall|k: int| 0 <= k < chunking::section_paragraphs(section).len() implies (
    #[trigger] chunking::section_paragraphs(section)[k]).len() > 0 && holds(
        chunking::section_text(section),
        chunking::section_paragraphs(section)[k],
    ) by {
        let j = lemma_tidied_from(found, k);
        lemma_joined_holds(found, "\n\n"@, j);
        lemma_tidied_holds(section.body, found[j]);
    }
}

proof fn lemma_merged(sections: Seq<Section>, n: int)
    requires
        0 <= n <= sections.len(),
    ensures
        forall|b: int|
            0 <= b < chunking::merged(sections, n).len() ==> has_text(
                #[trigger] chunking::merged(sections, n)[b],
            ),
        visible_in_blocks(chunking::merged(sections, n)) == visible(bodies(sections, n)),
        chunking::merged(sections, n).len() > 0 ==> visible(bodies(sections, n)).len() > 0,
    decreases n,
{
    if n > 0 {
        lemma_merged(sections, n - 1);
        let before = chunking::merged(sections, n - 1);
        let after = chunking::merged(sections, n);
        let section = sections[n - 1];
        let t = chunking::section_text(section);
        let here = chunking::section_paragraphs(section);
        let empty = Seq::<char>::empty();
        lemma_section_visible(section);
        lemma_section_text(section);
        lemma_visible_concat(bodies(sections, n - 1), section.body);
        if t.len() == 0 {
            assert(visible(section.body) =~= empty);
            assert(visible(bodies(sections, n)) =~= visible(bodies(sections, n - 1)));
        } else if text::utf8_len(t) < chunking::TINY_LEN && before.len() > 0 {
            let last = before.last();
            let longer = after.last();
            assert(has_text(before[before.len() - 1]));
            lemma_visible_in_concat(last.paragraphs, here);
            assert(after.drop_last() =~= before.drop_last());
            assert(visible_in_blocks(after) =~= visible_in_blocks(before) + visible_in_all(here));
            assert forall|k: int| 0 <= k < longer.paragraphs.len() implies (
            #[trigger] longer.paragraphs[k]).len() > 0 && holds(
                longer.text,
                longer.paragraphs[k],
            ) by {
                let old_count = last.paragraphs.len();
                if k < old_count {
                    assert(longer.paragraphs[k] == last.paragraphs[k]);
                    lemma_holds_extended(last.text, last.paragraphs[k], empty, "\n\n"@ + t);
                    assert(empty + last.text + ("\n\n"@ + t) =~= longer.text);
                } else {
                    assert(longer.paragraphs[k] == here[k - old_count]);
                    lemma_holds_extended(t, here[k - old_count], last.text + "\n\n"@, empty);
                    assert(last.text + "\n\n"@ + t + empty =~= longer.text);
                }
            }
            assert(has_text(after.last()));
            assert forall|b: int| 0 <= b < after.len() implies has_text(#[trigger] after[b]) by {
                if b < before.len() - 1 {
                    assert(has_text(before[b]));
                }
            }
        } else {
            assert(after.drop_last() =~= before);
            assert(has_text(after.last()));
            assert forall|b: int| 0 <= b < after.len() implies has_text(#[trigger] after[b]) by {
                if b < before.len() {
                    assert(has_text(before[b]));
                }
            }
        }
    } else {
        assert(visible_in_blocks(chunking::merged(sections, n)) =~= visible(bodies(sections, n)));
    }
}

proof fn lemma_joined_holds(texts: Seq<Seq<char>>, sep: Seq<char>, k: int)
    requires
        0 <= k < texts.len(),
    ensures
        holds(text::join_with(texts, sep), texts[k]),
    decreases texts.len(),
{
    let empty = Seq::<char>::empty();
    lemma_holds_self(texts[k]);
    if texts.len() > 1 {
        let before = text::join_with(texts.drop_last(), sep);
        if k == texts.len() - 1 {
            lemma_holds_extended(texts[k], texts[k], before + sep, empty);
            assert(before + sep + texts[k] + empty =~= before + sep + texts[k]);
        } else {
            lemma_joined_holds(texts.drop_last(), sep, k);
            lemma_holds_extended(before, texts[k], empty, sep + texts.last());
            assert(empty + before + (sep + texts.last()) =~= before + sep + texts.last());
        }
    }
}

proof fn lemma_block_parts(block: Block)
    requires
        has_text(block),
    ensures
        chunking::block_parts(block).len() > 0,
        forall|j: int|
            0 <= j < chunking::block_parts(block).len() ==> (#[trigger] chunking::block_parts(
                block,
            )[j]).len() > 0,
        forall|k: int|
            0 <= k < block.paragraphs.len() ==> in_parts(
                chunking::block_parts(block),
                #[trigger] block.paragraphs[k],
            ),
{
    let ps = block.paragraphs;
    let parts = chunking::block_parts(block);
    let max_len = chunking::MAX_CHUNK_LEN as nat;
    let overlap = chunking::OVERLAP_LEN as nat;
    let split = text::utf8_len(block.text) > chunking::MAX_CHUNK_LEN;
    lemma_gathered_fit(ps, max_len, overlap);
    assert forall|k: int| 0 <= k < ps.len() implies in_parts(parts, #[trigger] ps[k]) by {
        if split {
            lemma_gathered_keeps(ps, max_len, overlap, k);
            let j = choose|j: int|
                0 <= j < chunking::gathered(ps, max_len, overlap).len() && holds(
                    #[trigger] chunking::gathered(ps, max_len, overlap)[j],
                    ps[k],
                );
            assert(holds(parts[j], ps[k]));
        } else {
            assert(holds(parts[0], ps[k]));
        }
    }
    assert(in_parts(parts, ps[0]));
}

/// Some part holds the text.
pub open spec fn in_parts(parts: Seq<Seq<char>>, t: Seq<char>) -> bool {
    exists|j: int| 0 <= j < parts.len() && holds(#[trigger] parts[j], t)
}

/// Some piece under the path holds the text.
pub open spec fn in_pieces(pieces: Seq<Piece>, path: Seq<char>, t: Seq<char>) -> bool {
    exists|i: int|
        0 <= i < pieces.len() && (#[trigger] pieces[i]).path == path && holds(pieces[i].text, t)
}

/// The text is some further text with the path, if there is one, in front.
pub open spec fn has_path_in_front(piece: Piece) -> bool {
    exists|part: Seq<char>|
        part.len() > 0 && piece.text == #[trigger] chunking::with_path(piece.path, part)
}

proof fn lemma_pieces(blocks: Seq<Block>, n: int)
    requires
        0 <= n <= blocks.len(),
        forall|b: int| 0 <= b < blocks.len() ==> has_text(#[trigger] blocks[b]),
    ensures
        chunking::pieces(blocks, n).len() >= n,
        forall|i: int|
            0 <= i < chunking::pieces(blocks, n).len() ==> has_path_in_front(
                #[trigger] chunking::pieces(blocks, n)[i],
            ),
        forall|b: int, k: int|
            0 <= b < n && 0 <= k < blocks[b].paragraphs.len() ==> in_pieces(
                chunking::pieces(blocks, n),
                blocks[b].path,
                #[trigger] blocks[b].paragraphs[k],
            ),
    decreases n,
{
    if n > 0 {
        lemma_pieces(blocks, n - 1);
        assert(has_text(blocks[n - 1]));
        lemma_block_parts(blocks[n - 1]);
        let block = blocks[n - 1];
        let before = chunking::pieces(blocks, n - 1);
        let after = chunking::pieces(blocks, n);
        let here = chunking::block_pieces(block);
        let parts = chunking::block_parts(block);
        let empty = Seq::<char>::empty();
        assert forall|j: int| 0 <= j < here.len() implies has_path_in_front(#[trigger] here[j]) by {
            assert(parts[j].len() > 0);
            assert(here[j].text == chunking::with_path(here[j].path, parts[j]));
        }
        assert forall|b: int, k: int|
            0 <= b < n && 0 <= k < blocks[b].paragraphs.len() implies in_pieces(
            after,
            blocks[b].path,
            #[trigger] blocks[b].paragraphs[k],
        ) by {
            let t = blocks[b].paragraphs[k];
            if b < n - 1 {
                assert(in_pieces(before, blocks[b].path, t));
                let i = choose|i: int|
                    0 <= i < before.len() && (#[trigger] before[i]).path == blocks[b].path
                        && holds(before[i].text, t);
                assert(after[i] == before[i]);
            } else {
                assert(in_parts(parts, block.paragraphs[k]));
                let j = choose|j: int| 0 <= j < parts.len() && holds(#[trigger] parts[j], t);
                let i = before.len() + j;
                assert(after[i] == here[j]);
                if block.path.len() > 0 {
                    lemma_holds_extended(parts[j], t, block.path + "\n\n"@, empty);
                    assert(block.path + "\n\n"@ + parts[j] + empty =~= after[i].text);
                }
                assert(holds(after[i].text, t));
            }
        }
    }
}

proof fn lemma_outline_keeps_text(html: Seq<char>, n: int, page_name: Option<Seq<char>>)
    requires
        0 <= n <= html.len(),
    ensures
        ({
            let o = chunking::outline(html, n, page_name);
            &&& o.heading is Some <==> inside_heading(html, n)
            &&& bodies(o.sections, o.sections.len() as int) + o.body == body_text(html, n)
        }),
    decreases n,
{
    let o = chunking::outline(html, n, page_name);
    if n > 0 {
        lemma_outline_keeps_text(html, n - 1, page_name);
        let before = chunking::outline(html, n - 1, page_name);
        let earlier = bodies(before.sections, before.sections.len() as int);
        let m = o.sections.len() as int;
        if m > before.sections.len() {
            lemma_bodies_take(o.sections, before.sections, m - 1);
            assert(bodies(o.sections, m) =~= earlier + before.body);
            assert(bodies(o.sections, m) + o.body =~= bodies(o.sections, m));
        } else {
            assert(o.sections == before.sections);
            assert(forall|c: char| #![auto] earlier + before.body.push(c) =~= (earlier + before.body).push(c));
        }
    } else {
        assert(bodies(o.sections, 0) + o.body =~= body_text(html, n));
    }
}

proof fn lemma_bodies_take(a: Seq<Section>, b: Seq<Section>, n: int)
    requires
        0 <= n <= a.len(),
        n <= b.len(),
        forall|i: int| 0 <= i < n ==> #[trigger] a[i] == b[i],
    ensures
        bodies(a, n) == bodies(b, n),
    decreases n,
{
    if n > 0 {
        lemma_bodies_take(a, b, n - 1);
        assert(a[n - 1] == b[n - 1]);
    }
}

proof fn lemma_sections_keep_text(html: Seq<char>, page_name: Option<Seq<char>>)
    ensures
        ({
            let all = chunking::sections(html, page_name);
            bodies(all, all.len() as int) == body_text(html, html.len() as int)
        }),
{
    let n = html.len() as int;
    lemma_outline_keeps_text(html, n, page_name);
    let o = chunking::outline(html, n, page_name);
    let all = chunking::sections(html, page_name);
    lemma_bodies_take(all, o.sections, o.sections.len() as int);
}

/// Some chunk under the path holds the text.
pub open spec fn in_chunks(
    html: Seq<char>,
    page_name: Option<Seq<char>>,
    path: Seq<char>,
    t: Seq<char>,
) -> bool {
    exists|i: int|
        0 <= i < chunking::page_chunks(html, page_name).len() && (#[trigger] chunking::page_chunks(
            html,
            page_name,
        )[i]).heading_path == path && holds(chunking::page_chunks(html, page_name)[i].content, t)
}

/// No body text is lost on the way from the HTML to the chunks. The visible
/// characters outside tags and headings are, in order, those of the paragraphs
/// of the page's blocks, and every one of these paragraphs stands in a chunk
/// under its block's heading path.
pub proof fn law_no_text_is_lost(html: Seq<char>, page_name: Option<Seq<char>>)
    ensures
        visible_in_blocks(chunking::page_blocks(html, page_name)) == visible(
            body_text(html, html.len() as int),
        ),
        forall|b: int, k: int|
            0 <= b < chunking::page_blocks(html, page_name).len() && 0 <= k
                < chunking::page_blocks(html, page_name)[b].paragraphs.len() ==> in_chunks(
                html,
                page_name,
                chunking::page_blocks(html, page_name)[b].path,
                #[trigger] chunking::page_blocks(html, page_name)[b].paragraphs[k],
            ),
{
    let all = chunking::sections(html, page_name);
    let blocks = chunking::page_blocks(html, page_name);
    lemma_merged(all, all.len() as int);
    lemma_sections_keep_text(html, page_name);
    lemma_pieces(blocks, blocks.len() as int);
    let pieces = chunking::pieces(blocks, blocks.len() as int);
    let chunks = chunking::page_chunks(html, page_name);
    assert forall|b: int, k: int|
        0 <= b < blocks.len() && 0 <= k < blocks[b].paragraphs.len() implies in_chunks(
        html,
        page_name,
        blocks[b].path,
        #[trigger] blocks[b].paragraphs[k],
    ) by {
        let t = blocks[b].paragraphs[k];
        assert(in_pieces(pieces, blocks[b].path, t));
        let i = choose|i: int|
            0 <= i < pieces.len() && (#[trigger] pieces[i]).path == blocks[b].path && holds(
                pieces[i].text,
                t,
            );
        assert(chunks[i].heading_path == blocks[b].path && holds(chunks[i].content, t));
    }
}

/// The chunks of a page are numbered from zero in order; each holds text under
/// its heading path, and its hash is the SHA-256 digest of that content.
pub proof fn law_chunks_are_sound(html: Seq<char>, page_name: Option<Seq<char>>, i: int)
    requires
        0 <= i < chunking::page_chunks(html, page_name).len(),
    ensures
        ({
            let c = chunking::page_chunks(html, page_name)[i];
            &&& c.index == i
            &&& c.content.len() > 0
            &&& c.content_hash == crypto::sha256_text(c.content)
            &&& exists|part: Seq<char>|
                part.len() > 0 && c.content == #[trigger] chunking::with_path(c.heading_path, part)
        }),
{
    let all = chunking::sections(html, page_name);
    let blocks = chunking::page_blocks(html, page_name);
    lemma_merged(all, all.len() as int);
    lemma_pieces(blocks, blocks.len() as int);
    let piece = chunking::pieces(blocks, blocks.len() as int)[i];
    assert(has_path_in_front(piece));
    let part = choose|part: Seq<char>|
        part.len() > 0 && piece.text == #[trigger] chunking::with_path(piece.path, part);
    let c = chunking::page_chunks(html, page_name)[i];
    assert(c.content == chunking::with_path(c.heading_path, part));
    assert(c.content.len() >= part.len());
}

/// A page has chunks exactly where its body text is not blank.
pub proof fn law_text_gives_chunks(html: Seq<char>, page_name: Option<Seq<char>>)
    ensures
        chunking::page_chunks(html, page_name).len() > 0 <==> visible(
            body_text(html, html.len() as int),
        ).len() > 0,
{
    let all = chunking::sections(html, page_name);
    let blocks = chunking::page_blocks(html, page_name);
    lemma_merged(all, all.len() as int);
    lemma_sections_keep_text(html, page_name);
    lemma_pieces(blocks, blocks.len() as int);
}

} // verus!
