//! The YAML block in front of a Markdown page.

use crate::text;
use crate::text::{chars_of, same_chars, starts_with_chars, string_of, trim_chars, trim_start_chars};
use vstd::prelude::*;
use vstd::slice::slice_subrange;

verus! {

/// The end of the line that starts at `i`, behind its newline where it has one.
pub open spec fn line_end(s: Seq<char>, i: int) -> int
    decreases s.len() - i,
{
    if i >= s.len() {
        i
    } else if s[i] == '\n' {
        i + 1
    } else {
        line_end(s, i + 1)
    }
}

proof fn lemma_line_end(s: Seq<char>, i: int)
    requires
        0 <= i < s.len(),
    ensures
        i < line_end(s, i) <= s.len(),
    decreases s.len() - i,
{
    if s[i] != '\n' {
        if i + 1 < s.len() {
            lemma_line_end(s, i + 1);
        } else {
            assert(line_end(s, i + 1) == i + 1);
        }
    }
}

/// Finds the end of the line that starts at `i`.
fn find_line_end(s: &[char], i: usize) -> (e: usize)
    requires
        i < s@.len(),
    ensures
        e == line_end(s@, i as int),
        i < e <= s@.len(),
{
    let mut k: usize = i;
    while k < s.len() && s[k] != '\n'
        invariant
            i <= k <= s@.len(),
            line_end(s@, i as int) == line_end(s@, k as int),
        decreases s@.len() - k,
    {
        k += 1;
    }
    proof {
        lemma_line_end(s@, i as int);
    }
    if k < s.len() {
        k + 1
    } else {
        k
    }
}

/// `s` without the carriage returns and newlines at its end.
pub open spec fn without_line_break(s: Seq<char>) -> Seq<char>
    decreases s.len(),
{
    if s.len() > 0 && (s.last() == '\r' || s.last() == '\n') {
        without_line_break(s.drop_last())
    } else {
        s
    }
}

/// Drops the carriage returns and newlines at the end.
fn trim_line_break<'a>(s: &'a [char]) -> (r: &'a [char])
    ensures
        r@ == without_line_break(s@),
{
    let mut n: usize = s.len();
    assert(s@.take(n as int) =~= s@);
    while n > 0 && (s[n - 1] == '\r' || s[n - 1] == '\n')
        invariant
            n <= s@.len(),
            without_line_break(s@) == without_line_break(s@.take(n as int)),
        decreases n,
    {
        assert(s@.take(n as int).drop_last() =~= s@.take(n - 1));
        n -= 1;
    }
    assert(s@.subrange(0, n as int) =~= s@.take(n as int));
    slice_subrange(s, 0, n)
}

/// Where the text behind the closing line begins, looking from the line that
/// starts at `i` on: behind the first line that is `---`.
pub open spec fn after_closing(s: Seq<char>, i: int) -> Option<int>
    decreases s.len() - i,
    when 0 <= i
    via after_closing_decreases
{
    if i >= s.len() {
        None
    } else if without_line_break(s.subrange(i, line_end(s, i))) == "---"@ {
        Some(line_end(s, i))
    } else {
        after_closing(s, line_end(s, i))
    }
}

#[via_fn]
proof fn after_closing_decreases(s: Seq<char>, i: int) {
    if i < s.len() {
        lemma_line_end(s, i);
    }
}

/// What follows the opening `---`, without the line break behind it.
pub open spec fn after_opening(s: Seq<char>) -> Seq<char> {
    let rest = s.skip(3);
    if text::starts_with(rest, "\r\n"@) {
        rest.skip(2)
    } else if text::starts_with(rest, "\n"@) {
        rest.skip(1)
    } else {
        rest
    }
}

/// The page without its frontmatter: what follows the block, trimmed at the
/// start. A page without a closed block is left as it is.
pub open spec fn body_of(md: Seq<char>) -> Seq<char> {
    let t = text::trim_start(md);
    if !text::starts_with(t, "---"@) {
        md
    } else {
        let inner = after_opening(t);
        match after_closing(inner, 0) {
            Some(e) => text::trim_start(inner.skip(e)),
            None => md,
        }
    }
}

/// Removes the frontmatter block of a page, if it has one.
pub fn strip_frontmatter(md: &str) -> (r: String)
    ensures
        r@ == body_of(md@),
{
    let chars = chars_of(md);
    let t = trim_start_chars(chars.as_slice());
    let fence = chars_of("---");
    proof {
        reveal_strlit("---");
        reveal_strlit("\r\n");
        reveal_strlit("\n");
    }
    if !starts_with_chars(t, fence.as_slice()) {
        return md.to_owned();
    }
    let rest = slice_subrange(t, 3, t.len());
    assert(rest@ =~= t@.skip(3));
    let crlf = chars_of("\r\n");
    let lf = chars_of("\n");
    let skip: usize = if starts_with_chars(rest, crlf.as_slice()) {
        2
    } else if starts_with_chars(rest, lf.as_slice()) {
        1
    } else {
        0
    };
    let inner = slice_subrange(rest, skip, rest.len());
    assert(inner@ =~= after_opening(t@));
    let mut pos: usize = 0;
    while pos < inner.len()
        invariant
            pos <= inner@.len(),
            fence@ == "---"@,
            inner@ == after_opening(t@),
            t@ == text::trim_start(md@),
            text::starts_with(t@, "---"@),
            after_closing(inner@, 0) == after_closing(inner@, pos as int),
        decreases inner@.len() - pos,
    {
        let end: usize = find_line_end(inner, pos);
        let line = slice_subrange(inner, pos, end);
        if same_chars(trim_line_break(line), fence.as_slice()) {
            let tail = slice_subrange(inner, end, inner.len());
            assert(tail@ =~= inner@.skip(end as int));
            return string_of(trim_start_chars(tail));
        }
        pos = end;
    }
    md.to_owned()
}

/// `s` without the double quotes at both ends.
pub open spec fn unquoted(s: Seq<char>) -> Seq<char>
    decreases s.len(),
{
    if s.len() > 0 && s[0] == '"' {
        unquoted(s.skip(1))
    } else if s.len() > 0 && s.last() == '"' {
        unquoted(s.drop_last())
    } else {
        s
    }
}

/// Drops the double quotes at both ends.
fn trim_quotes<'a>(s: &'a [char]) -> (r: &'a [char])
    ensures
        r@ == unquoted(s@),
{
    let mut i: usize = 0;
    let mut n: usize = s.len();
    assert(s@.subrange(0, n as int) =~= s@);
    while i < n && s[i] == '"'
        invariant
            i <= n <= s@.len(),
            unquoted(s@) == unquoted(s@.subrange(i as int, n as int)),
        decreases n - i,
    {
        assert(s@.subrange(i as int, n as int).skip(1) =~= s@.subrange(i + 1, n as int));
        i += 1;
    }
    while i < n && s[n - 1] == '"'
        invariant
            i <= n <= s@.len(),
            i < n ==> s@[i as int] != '"',
            unquoted(s@) == unquoted(s@.subrange(i as int, n as int)),
        decreases n - i,
    {
        assert(s@.subrange(i as int, n as int).drop_last() =~= s@.subrange(i as int, n - 1));
        n -= 1;
    }
    slice_subrange(s, i, n)
}

/// The identity that one line of frontmatter states.
pub open spec fn stated_ouid(line: Seq<char>) -> Option<Seq<char>> {
    if text::starts_with(line, "ai_identity_ouid:"@) {
        Some(unquoted(text::trim(line.skip("ai_identity_ouid:"@.len() as int))))
    } else if text::starts_with(line, "ouid:"@) {
        Some(unquoted(text::trim(line.skip("ouid:"@.len() as int))))
    } else {
        None
    }
}

/// The identity that the lines from position `i` on state, up to the closing
/// line.
pub open spec fn ouid_from(s: Seq<char>, i: int) -> Option<Seq<char>>
    decreases s.len() - i,
    when 0 <= i
    via ouid_from_decreases
{
    if i >= s.len() {
        None
    } else {
        let line = text::trim(s.subrange(i, line_end(s, i)));
        if line == "---"@ {
            None
        } else {
            match stated_ouid(line) {
                Some(id) => Some(id),
                None => ouid_from(s, line_end(s, i)),
            }
        }
    }
}

#[via_fn]
proof fn ouid_from_decreases(s: Seq<char>, i: int) {
    if i < s.len() {
        lemma_line_end(s, i);
    }
}

/// The identity that a page's frontmatter states.
pub open spec fn page_ouid(md: Seq<char>) -> Option<Seq<char>> {
    let t = text::trim_start(md);
    if text::starts_with(t, "---"@) {
        ouid_from(t, line_end(t, 0))
    } else {
        None
    }
}

/// Reads the identity that one line states.
fn read_ouid(line: &[char]) -> (r: Option<String>)
    ensures
        text::opt_text(r) == stated_ouid(line@),
{
    let long = chars_of("ai_identity_ouid:");
    let short = chars_of("ouid:");
    if starts_with_chars(line, long.as_slice()) {
        let rest = slice_subrange(line, long.len(), line.len());
        assert(rest@ =~= line@.skip(long@.len() as int));
        Some(string_of(trim_quotes(trim_chars(rest))))
    } else if starts_with_chars(line, short.as_slice()) {
        let rest = slice_subrange(line, short.len(), line.len());
        assert(rest@ =~= line@.skip(short@.len() as int));
        Some(string_of(trim_quotes(trim_chars(rest))))
    } else {
        None
    }
}

/// Reads the identity from a page's frontmatter.
pub fn extract_ouid_from_frontmatter(md: &str) -> (r: Option<String>)
    ensures
        text::opt_text(r) == page_ouid(md@),
{
    let chars = chars_of(md);
    let t = trim_start_chars(chars.as_slice());
    let fence = chars_of("---");
    proof {
        reveal_strlit("---");
    }
    if !starts_with_chars(t, fence.as_slice()) {
        return None;
    }
    let mut pos: usize = find_line_end(t, 0);
    while pos < t.len()
        invariant
            pos <= t@.len(),
            fence@ == "---"@,
            t@ == text::trim_start(md@),
            text::starts_with(t@, "---"@),
            page_ouid(md@) == ouid_from(t@, pos as int),
        decreases t@.len() - pos,
    {
        let end: usize = find_line_end(t, pos);
        let line = trim_chars(slice_subrange(t, pos, end));
        if same_chars(line, fence.as_slice()) {
            return None;
        }
        match read_ouid(line) {
            Some(id) => {
                return Some(id);
            },
            None => {},
        }
        pos = end;
    }
    None
}

} // verus!
