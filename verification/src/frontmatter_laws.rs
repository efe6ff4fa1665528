//! What holds of frontmatter, told by the lines of a page.

use crate::frontmatter;
use crate::text;
use crate::text_laws;
use vstd::prelude::*;

verus! {

/// A line ends behind its first line break, or where the text ends.
pub proof fn law_line_ends_at_its_break(s: Seq<char>, i: int)
    requires
        0 <= i <= s.len(),
    ensures
        ({
            let e = frontmatter::line_end(s, i);
            &&& i <= e <= s.len()
            &&& i < s.len() ==> i < e
            &&& e < s.len() ==> s[e - 1] == '\n'
            &&& forall|k: int| i <= k < e - 1 ==> #[trigger] s[k] != '\n'
        }),
    decreases s.len() - i,
{
    if i < s.len() && s[i] != '\n' {
        law_line_ends_at_its_break(s, i + 1);
    }
}

/// Every character is a line break or a carriage return.
pub open spec fn is_break(s: Seq<char>) -> bool {
    forall|i: int| 0 <= i < s.len() ==> (#[trigger] s[i] == '\r' || s[i] == '\n')
}

/// A line without its break is the line up to the breaks at its end.
pub proof fn law_line_without_its_break(s: Seq<char>)
    ensures
        ({
            let w = frontmatter::without_line_break(s);
            &&& w.len() <= s.len()
            &&& s.take(w.len() as int) == w
            &&& is_break(s.skip(w.len() as int))
            &&& w.len() > 0 ==> w.last() != '\r' && w.last() != '\n'
        }),
    decreases s.len(),
{
    let w = frontmatter::without_line_break(s);
    if s.len() > 0 && (s.last() == '\r' || s.last() == '\n') {
        let init = s.drop_last();
        law_line_without_its_break(init);
        assert(s.take(w.len() as int) =~= init.take(w.len() as int));
        assert forall|i: int| 0 <= i < s.skip(w.len() as int).len() implies (#[trigger] s.skip(
            w.len() as int,
        )[i] == '\r' || s.skip(w.len() as int)[i] == '\n') by {
            if i < s.len() - w.len() - 1 {
                assert(init.skip(w.len() as int)[i] == s[w.len() + i]);
            }
        }
    } else {
        assert(s.take(w.len() as int) =~= w);
    }
}

proof fn lemma_line_end_unique(s: Seq<char>, i: int, e: int)
    requires
        0 <= i < e <= s.len(),
        e == s.len() || s[e - 1] == '\n',
        forall|k: int| i <= k < e - 1 ==> #[trigger] s[k] != '\n',
    ensures
        frontmatter::line_end(s, i) == e,
    decreases e - i,
{
    if i < e - 1 {
        assert(s[i] != '\n');
        lemma_line_end_unique(s, i + 1, e);
    } else if s[i] != '\n' {
        assert(e == s.len());
        assert(frontmatter::line_end(s, i + 1) == i + 1);
    }
}

/// A line of the text starts at the place.
pub open spec fn starts_line(s: Seq<char>, p: int) -> bool {
    0 <= p < s.len() && (p == 0 || s[p - 1] == '\n')
}

/// The line that starts at the place, without its break.
pub open spec fn line_at(s: Seq<char>, p: int) -> Seq<char> {
    frontmatter::without_line_break(s.subrange(p, frontmatter::line_end(s, p)))
}

/// The text is made of whole lines.
pub open spec fn is_whole(s: Seq<char>) -> bool {
    s.len() == 0 || s.last() == '\n'
}

/// The line that ends frontmatter, with its break.
pub open spec fn is_rule(s: Seq<char>) -> bool {
    s == "---\n"@ || s == "---\r\n"@
}

/// Frontmatter between two rules is taken off, with the blank text before and behind
/// it: what is left is the text behind the second rule. The second rule is the first
/// line that has the three dashes alone.
pub proof fn law_frontmatter_is_taken_off(
    blank: Seq<char>,
    opening: Seq<char>,
    front: Seq<char>,
    closing: Seq<char>,
    rest: Seq<char>,
)
    requires
        text_laws::blank(blank),
        is_rule(opening),
        is_rule(closing),
        is_whole(front),
        forall|p: int| #[trigger] starts_line(front, p) ==> line_at(front, p) != "---"@,
    ensures
        frontmatter::body_of(blank + opening + front + closing + rest) == text::trim_start(rest),
{
    reveal_strlit("---\n");
    reveal_strlit("---\r\n");
    reveal_strlit("---");
    reveal_strlit("\n");
    reveal_strlit("\r\n");
    let md = blank + opening + front + closing + rest;
    let t = opening + front + closing + rest;
    assert(md =~= blank + t);
    lemma_blank_front(blank, t);
    assert(t.take(3) =~= "---"@);
    let inner = front + closing + rest;
    if opening == "---\n"@ {
        assert(t.skip(3)[0] == '\n');
        assert(t.skip(3).take(1) =~= "\n"@);
        if text::starts_with(t.skip(3), "\r\n"@) {
            assert(t.skip(3).take(2)[0] == '\r');
        }
        assert(t.skip(3).skip(1) =~= inner);
    } else {
        assert(t.skip(3).take(2) =~= "\r\n"@);
        assert(t.skip(3).skip(2) =~= inner);
    }
    lemma_closing_is_found(front, closing, rest, 0);
    assert(inner.skip((front.len() + closing.len()) as int) =~= rest);
}

proof fn lemma_blank_front(blank: Seq<char>, t: Seq<char>)
    requires
        text_laws::blank(blank),
        t.len() > 0,
        !text::is_space(t[0]),
    ensures
        text::trim_start(blank + t) == t,
    decreases blank.len(),
{
    if blank.len() == 0 {
        assert(blank + t =~= t);
    } else {
        assert(text::is_space(blank[0]));
        let rest = blank.skip(1);
        assert((blank + t).subrange(1, (blank + t).len() as int) =~= rest + t);
        lemma_blank_front(rest, t);
    }
}

proof fn lemma_closing_is_found(
    front: Seq<char>,
    closing: Seq<char>,
    rest: Seq<char>,
    p: int,
)
    requires
        is_rule(closing),
        is_whole(front),
        forall|q: int| #[trigger] starts_line(front, q) ==> line_at(front, q) != "---"@,
        0 <= p <= front.len(),
        p == 0 || p == front.len() || front[p - 1] == '\n',
    ensures
        frontmatter::after_closing(front + closing + rest, p) == Some(
            (front.len() + closing.len()) as int,
        ),
    decreases front.len() - p,
{
    let s = front + closing + rest;
    reveal_strlit("---\n");
    reveal_strlit("---\r\n");
    reveal_strlit("---");
    if p < front.len() {
        lemma_line_of_front(front, closing + rest, p);
        assert(s =~= front + (closing + rest));
        assert(starts_line(front, p));
        lemma_closing_is_found(front, closing, rest, frontmatter::line_end(front, p));
    } else {
        let e = (front.len() + closing.len()) as int;
        assert forall|k: int| p <= k < e - 1 implies #[trigger] s[k] != '\n' by {
            assert(s[k] == closing[k - p]);
        }
        assert(s[e - 1] == closing[closing.len() - 1]);
        lemma_line_end_unique(s, p, e);
        assert(s.subrange(p, e) =~= closing);
        reveal_with_fuel(frontmatter::without_line_break, 3);
        if closing == "---\n"@ {
            assert(closing.drop_last() =~= "---"@);
        } else {
            assert(closing.drop_last().drop_last() =~= "---"@);
        }
        assert("---"@.last() == '-');
        assert(frontmatter::without_line_break(closing) == "---"@);
    }
}

proof fn lemma_line_of_front(front: Seq<char>, more: Seq<char>, p: int)
    requires
        is_whole(front),
        0 <= p < front.len(),
    ensures
        frontmatter::line_end(front + more, p) == frontmatter::line_end(front, p),
        p < frontmatter::line_end(front, p) <= front.len(),
        front[frontmatter::line_end(front, p) - 1] == '\n',
        (front + more).subrange(p, frontmatter::line_end(front, p)) == front.subrange(
            p,
            frontmatter::line_end(front, p),
        ),
{
    let s = front + more;
    law_line_ends_at_its_break(front, p);
    let e = frontmatter::line_end(front, p);
    assert(front[e - 1] == '\n');
    assert(s[e - 1] == '\n');
    assert forall|k: int| p <= k < e - 1 implies #[trigger] s[k] != '\n' by {
        assert(s[k] == front[k]);
    }
    lemma_line_end_unique(s, p, e);
    assert(s.subrange(p, e) =~= front.subrange(p, e));
}

/// A page that does not start with dashes, and one whose frontmatter is never closed,
/// stay as they are.
pub proof fn law_page_without_frontmatter_stays(md: Seq<char>)
    ensures
        !text_laws::stands_at(text::trim_start(md), "---"@, 0) ==> frontmatter::body_of(md) == md,
        frontmatter::after_closing(frontmatter::after_opening(text::trim_start(md)), 0) is None
            ==> frontmatter::body_of(md) == md,
{
    text_laws::law_front_and_back("---"@, Seq::empty(), text::trim_start(md));
}

/// Frontmatter is never closed exactly where no line of it has the dashes alone.
pub proof fn law_unclosed_frontmatter(s: Seq<char>, p: int)
    requires
        0 <= p <= s.len(),
        p == s.len() || starts_line(s, p),
    ensures
        match frontmatter::after_closing(s, p) {
            Some(e) => exists|q: int|
                p <= q && #[trigger] starts_line(s, q) && line_at(s, q) == "---"@ && e
                    == frontmatter::line_end(s, q),
            None => forall|q: int| p <= q && #[trigger] starts_line(s, q) ==> line_at(s, q) != "---"@,
        },
    decreases s.len() - p,
{
    if p < s.len() {
        law_line_ends_at_its_break(s, p);
        let e = frontmatter::line_end(s, p);
        if line_at(s, p) != "---"@ {
            law_unclosed_frontmatter(s, e);
            if frontmatter::after_closing(s, p) is None {
                assert forall|q: int| p <= q && #[trigger] starts_line(s, q) implies line_at(s, q)
                    != "---"@ by {
                    if p < q < e {
                        assert(s[q - 1] != '\n');
                    }
                }
            }
        } else {
            assert(starts_line(s, p));
        }
    }
}

// --- Identities ---

/// Every character is a quote.
pub open spec fn is_quotes(s: Seq<char>) -> bool {
    forall|i: int| 0 <= i < s.len() ==> #[trigger] s[i] == '"'
}

/// The two pieces that unquoting takes off.
pub open spec fn is_unquoting(s: Seq<char>, before: Seq<char>, after: Seq<char>) -> bool {
    is_quotes(before) && is_quotes(after) && s == before + frontmatter::unquoted(s) + after
}

/// Unquoting takes off quotes at both ends, all of them, and nothing else.
pub proof fn law_unquoting_takes_off_quotes(s: Seq<char>)
    ensures
        exists|before: Seq<char>, after: Seq<char>| #[trigger] is_unquoting(s, before, after),
        frontmatter::unquoted(s).len() > 0 ==> frontmatter::unquoted(s)[0] != '"'
            && frontmatter::unquoted(s).last() != '"',
    decreases s.len(),
{
    if s.len() > 0 && s[0] == '"' {
        let rest = s.skip(1);
        law_unquoting_takes_off_quotes(rest);
        let (before, after) = choose|before: Seq<char>, after: Seq<char>| #[trigger]
            is_unquoting(rest, before, after);
        let more = seq!['"'] + before;
        assert(s =~= seq!['"'] + rest);
        assert(s =~= more + frontmatter::unquoted(s) + after);
        assert(is_unquoting(s, more, after));
    } else if s.len() > 0 && s.last() == '"' {
        let rest = s.drop_last();
        law_unquoting_takes_off_quotes(rest);
        let (before, after) = choose|before: Seq<char>, after: Seq<char>| #[trigger]
            is_unquoting(rest, before, after);
        let more = after.push('"');
        assert(s =~= rest.push('"'));
        assert(s =~= before + frontmatter::unquoted(s) + more);
        assert(is_unquoting(s, before, more));
    } else {
        assert(s =~= Seq::<char>::empty() + s + Seq::<char>::empty());
        assert(is_unquoting(s, Seq::empty(), Seq::empty()));
    }
}

/// A line states an identity in either of two ways, and no other line states one.
pub proof fn law_identity_is_stated(value: Seq<char>, line: Seq<char>)
    ensures
        frontmatter::stated_ouid("ouid:"@ + value) == Some(
            frontmatter::unquoted(text::trim(value)),
        ),
        frontmatter::stated_ouid("ai_identity_ouid:"@ + value) == Some(
            frontmatter::unquoted(text::trim(value)),
        ),
        frontmatter::stated_ouid(line) is Some <==> text_laws::stands_at(line, "ouid:"@, 0)
            || text_laws::stands_at(line, "ai_identity_ouid:"@, 0),
{
    reveal_strlit("ouid:");
    reveal_strlit("ai_identity_ouid:");
    let short = "ouid:"@ + value;
    let long = "ai_identity_ouid:"@ + value;
    text_laws::law_front_and_back("ouid:"@, value, line);
    text_laws::law_front_and_back("ai_identity_ouid:"@, value, line);
    if text::starts_with(short, "ai_identity_ouid:"@) {
        assert(short.take("ai_identity_ouid:"@.len() as int)[0] == 'o');
    }
    assert(short.skip("ouid:"@.len() as int) =~= value);
    assert(long.skip("ai_identity_ouid:"@.len() as int) =~= value);
}

/// The line that starts at the place, without blank text at its ends.
pub open spec fn trimmed_line(s: Seq<char>, p: int) -> Seq<char> {
    text::trim(s.subrange(p, frontmatter::line_end(s, p)))
}

/// The identity of a page is stated by the first line of the frontmatter that states
/// one. Lines behind the closing rule state none.
pub proof fn law_first_stated_identity_counts(s: Seq<char>, p: int)
    requires
        0 <= p <= s.len(),
        p == s.len() || starts_line(s, p),
    ensures
        match frontmatter::ouid_from(s, p) {
            Some(id) => exists|q: int|
                p <= q && #[trigger] starts_line(s, q) && is_stating(s, p, q)
                    && frontmatter::stated_ouid(trimmed_line(s, q)) == Some(id),
            None => forall|q: int| p <= q && #[trigger] starts_line(s, q) ==> !is_stating(s, p, q),
        },
    decreases s.len() - p,
{
    if p < s.len() {
        law_line_ends_at_its_break(s, p);
        let e = frontmatter::line_end(s, p);
        let line = trimmed_line(s, p);
        assert(starts_line(s, p));
        if line == "---"@ {
            assert forall|q: int| p <= q && #[trigger] starts_line(s, q) implies !is_stating(
                s,
                p,
                q,
            ) by {
                reveal_strlit("---");
                reveal_strlit("ouid:");
                reveal_strlit("ai_identity_ouid:");
                law_identity_is_stated(Seq::empty(), "---"@);
                assert(trimmed_line(s, p) == "---"@);
                if q == p {
                    assert(frontmatter::stated_ouid("---"@) is None) by {
                        assert("---"@[0] != "ouid:"@[0]);
                        if text::starts_with("---"@, "ouid:"@) {
                            assert("---"@.len() == 3);
                        }
                    }
                }
            }
        } else {
            match frontmatter::stated_ouid(line) {
                Some(id) => {
                    assert(is_stating(s, p, p));
                },
                None => {
                    law_first_stated_identity_counts(s, e);
                    assert forall|q: int| #![trigger is_stating(s, e, q)]
                        e <= q && starts_line(s, q) implies is_stating(s, e, q) == is_stating(
                        s,
                        p,
                        q,
                    ) by {
                        if is_stating(s, e, q) {
                            assert forall|r: int| p <= r < q && #[trigger] starts_line(
                                s,
                                r,
                            ) implies is_passed(s, r) by {
                                if r == p {
                                } else if r < e {
                                    assert(s[r - 1] != '\n');
                                }
                            }
                        }
                    }
                    assert(!is_stating(s, p, p));
                    match frontmatter::ouid_from(s, p) {
                        Some(id) => {
                            let q = choose|q: int|
                                e <= q && #[trigger] starts_line(s, q) && is_stating(s, e, q)
                                    && frontmatter::stated_ouid(trimmed_line(s, q)) == Some(id);
                            assert(is_stating(s, p, q));
                        },
                        None => {
                            assert forall|q: int| p <= q && #[trigger] starts_line(
                                s,
                                q,
                            ) implies !is_stating(s, p, q) by {
                                if q == p {
                                } else if q < e {
                                    assert(s[q - 1] != '\n');
                                } else {
                                    assert(!is_stating(s, e, q));
                                }
                            }
                        },
                    }
                },
            }
        }
    }
}

/// The line neither closes the frontmatter nor states an identity.
pub open spec fn is_passed(s: Seq<char>, r: int) -> bool {
    trimmed_line(s, r) != "---"@ && frontmatter::stated_ouid(trimmed_line(s, r)) is None
}

/// The line states an identity, and no line from the place on closes the frontmatter
/// or states one before it.
pub open spec fn is_stating(s: Seq<char>, p: int, q: int) -> bool {
    frontmatter::stated_ouid(trimmed_line(s, q)) is Some && forall|r: int|
        p <= r < q && #[trigger] starts_line(s, r) ==> is_passed(s, r)
}

/// A page has an identity only in frontmatter, and the opening line states none.
pub proof fn law_identity_stands_in_frontmatter(md: Seq<char>)
    ensures
        ({
            let t = text::trim_start(md);
            &&& !text_laws::stands_at(t, "---"@, 0) ==> frontmatter::page_ouid(md) is None
            &&& text_laws::stands_at(t, "---"@, 0) ==> frontmatter::page_ouid(md)
                == frontmatter::ouid_from(t, frontmatter::line_end(t, 0))
        }),
{
    text_laws::law_front_and_back("---"@, Seq::empty(), text::trim_start(md));
}

} // verus!
