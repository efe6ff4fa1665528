//! Heading-based HTML chunking for semantic search.
//!
//! Page HTML is cut into sections at its headings; tiny sections are merged
//! into the one before, and oversized ones are split at paragraph boundaries
//! with some overlap.

use crate::crypto;
use crate::text;
use crate::text::{
    byte_len, chars_of, contains_chars, eq_ignore_ascii_case, extend_chars,
    find_chars, is_whitespace, join_chars, split_chars, string_of, trim_chars,
};
use vstd::prelude::*;
use vstd::slice::{slice_subrange, slice_to_vec};

verus! {

/// Chunk format version. A change of the chunking rules raises it, so that
/// stored chunks are made anew.
pub const CHUNK_VERSION: u32 = 5;

/// Longest chunk text, in UTF-8 bytes, that is kept in one piece.
pub const MAX_CHUNK_LEN: usize = 1200;

/// Most text, in UTF-8 bytes, that a part repeats from the part before.
pub const OVERLAP_LEN: usize = 150;

/// Sections shorter than this many UTF-8 bytes are merged into the one before.
pub const TINY_LEN: usize = 50;

/// One piece of a page, ready to be embedded.
#[derive(Debug)]
pub struct Chunk {
    pub index: usize,
    pub heading_path: String,
    pub content: String,
    pub content_hash: String,
}

// --- Whitespace ---

/// What one character of a whitespace run becomes.
pub open spec fn space_char(c: char) -> char {
    if c == '\n' {
        '\n'
    } else {
        ' '
    }
}

/// Every run of whitespace collapsed to one character: a newline where the run
/// begins with one, else a space.
pub open spec fn normalized(s: Seq<char>) -> Seq<char>
    decreases s.len(),
{
    if s.len() == 0 {
        Seq::empty()
    } else {
        let before = normalized(s.drop_last());
        let c = s.last();
        if !text::is_space(c) {
            before.push(c)
        } else if s.len() == 1 || !text::is_space(s[s.len() - 2]) {
            before.push(space_char(c))
        } else {
            before
        }
    }
}

/// Collapses whitespace in a character slice.
fn normalize_chars(s: &[char]) -> (r: Vec<char>)
    ensures
        r@ == normalized(s@),
{
    let mut out: Vec<char> = Vec::new();
    let mut prev_was_space = false;
    let mut i: usize = 0;
    while i < s.len()
        invariant
            i <= s@.len(),
            out@ == normalized(s@.take(i as int)),
            prev_was_space == (i > 0 && text::is_space(s@[i - 1])),
        decreases s@.len() - i,
    {
        let c: char = s[i];
        assert(s@.take(i + 1).drop_last() =~= s@.take(i as int));
        if is_whitespace(c) {
            if !prev_was_space {
                out.push(if c == '\n' { '\n' } else { ' ' });
            }
            prev_was_space = true;
        } else {
            out.push(c);
            prev_was_space = false;
        }
        i += 1;
    }
    assert(s@.take(i as int) =~= s@);
    out
}

/// Collapses every run of whitespace to one character.
pub fn normalize_whitespace(s: &str) -> (r: String)
    ensures
        r@ == normalized(s@),
{
    let chars = chars_of(s);
    let out = normalize_chars(chars.as_slice());
    string_of(out.as_slice())
}

// --- Splitting ---

/// The state of a split after some paragraphs: the parts that are finished,
/// the part being filled, and the first paragraph that was added to it in full.
#[verifier::ext_equal]
pub struct Splitting {
    pub parts: Seq<Seq<char>>,
    pub current: Seq<char>,
    pub first: int,
}

/// What a new part repeats of the paragraphs `lo..hi`, which end the part
/// before: as many of them, from the last one backwards, as stay within
/// `overlap` bytes together. `acc` holds what is already taken.
pub open spec fn overlap_tail(
    paragraphs: Seq<Seq<char>>,
    lo: int,
    hi: int,
    acc: Seq<char>,
    overlap: nat,
) -> Seq<char>
    decreases hi - lo,
{
    if lo >= hi {
        acc
    } else {
        let candidate = if acc.len() == 0 {
            paragraphs[hi - 1]
        } else {
            paragraphs[hi - 1] + "\n\n"@ + acc
        };
        if text::utf8_len(candidate) > overlap {
            acc
        } else {
            overlap_tail(paragraphs, lo, hi - 1, candidate, overlap)
        }
    }
}

/// The split after the first `n` paragraphs: a paragraph that would take the
/// current part beyond `max_len` bytes starts a new one, which begins with the
/// overlap.
pub open spec fn splitting(
    paragraphs: Seq<Seq<char>>,
    n: int,
    max_len: nat,
    overlap: nat,
) -> Splitting
    decreases n,
{
    if n <= 0 {
        Splitting { parts: Seq::empty(), current: Seq::empty(), first: 0 }
    } else {
        let before = splitting(paragraphs, n - 1, max_len, overlap);
        let p = paragraphs[n - 1];
        let full = text::utf8_len(before.current) + text::utf8_len(p) + 2 > max_len
            && before.current.len() > 0;
        let parts = if full {
            before.parts.push(before.current)
        } else {
            before.parts
        };
        let start = if full {
            overlap_tail(paragraphs, before.first, n - 1, Seq::empty(), overlap)
        } else {
            before.current
        };
        let first = if full {
            n - 1
        } else {
            before.first
        };
        let current = if start.len() > 0 {
            start + "\n\n"@ + p
        } else {
            p
        };
        Splitting { parts, current, first }
    }
}

/// The parts that paragraphs are gathered into.
pub open spec fn gathered(paragraphs: Seq<Seq<char>>, max_len: nat, overlap: nat) -> Seq<
    Seq<char>,
> {
    let end = splitting(paragraphs, paragraphs.len() as int, max_len, overlap);
    if end.current.len() > 0 {
        end.parts.push(end.current)
    } else {
        end.parts
    }
}

/// The parts of a text that is split at paragraph boundaries.
pub open spec fn split_parts(s: Seq<char>, max_len: nat, overlap: nat) -> Seq<Seq<char>> {
    gathered(text::split_on(s, "\n\n"@), max_len, overlap)
}

/// Takes the overlap from the paragraphs `lo..hi`.
fn take_overlap(paragraphs: &Vec<Vec<char>>, lo: usize, hi: usize, overlap: usize) -> (r: Vec<char>)
    requires
        lo <= hi <= paragraphs@.len(),
    ensures
        r@ == overlap_tail(
            text::texts(paragraphs@),
            lo as int,
            hi as int,
            Seq::empty(),
            overlap as nat,
        ),
{
    let sep = chars_of("\n\n");
    let ghost all = text::texts(paragraphs@);
    let mut acc: Vec<char> = Vec::new();
    let mut k: usize = hi;
    while k > lo
        invariant
            lo <= k <= hi <= paragraphs@.len(),
            all == text::texts(paragraphs@),
            sep@ == "\n\n"@,
            overlap_tail(all, lo as int, hi as int, Seq::empty(), overlap as nat) == overlap_tail(
                all,
                lo as int,
                k as int,
                acc@,
                overlap as nat,
            ),
        decreases k,
    {
        let mut candidate = slice_to_vec(paragraphs[k - 1].as_slice());
        assert(candidate@ == all[k - 1]);
        if acc.len() > 0 {
            extend_chars(&mut candidate, sep.as_slice());
            extend_chars(&mut candidate, acc.as_slice());
        }
        if byte_len(candidate.as_slice()) > overlap as u128 {
            return acc;
        }
        acc = candidate;
        k -= 1;
    }
    acc
}

/// Gathers paragraphs into parts.
fn gather_paragraphs(paragraphs: &Vec<Vec<char>>, max_len: usize, overlap: usize) -> (r: Vec<
    Vec<char>,
>)
    ensures
        text::texts(r@) == gathered(text::texts(paragraphs@), max_len as nat, overlap as nat),
{
    let sep = chars_of("\n\n");
    let ghost all = text::texts(paragraphs@);
    let mut parts: Vec<Vec<char>> = Vec::new();
    let mut current: Vec<char> = Vec::new();
    let mut first: usize = 0;
    let mut i: usize = 0;
    assert(text::texts(parts@) =~= Seq::<Seq<char>>::empty());
    while i < paragraphs.len()
        invariant
            first <= i <= paragraphs@.len(),
            all == text::texts(paragraphs@),
            sep@ == "\n\n"@,
            (Splitting { parts: text::texts(parts@), current: current@, first: first as int })
                == splitting(all, i as int, max_len as nat, overlap as nat),
        decreases paragraphs@.len() - i,
    {
        let ghost before = splitting(all, i as int, max_len as nat, overlap as nat);
        let p = &paragraphs[i];
        assert(p@ == all[i as int]);
        let wanted: u128 = byte_len(current.as_slice()) + byte_len(p.as_slice()) + 2;
        if wanted > max_len as u128 && current.len() > 0 {
            let start = take_overlap(paragraphs, first, i, overlap);
            let ghost old_parts = parts@;
            parts.push(current);
            proof {
                assert(text::texts(parts@) =~= text::texts(old_parts).push(before.current));
            }
            current = start;
            first = i;
        }
        if current.len() > 0 {
            extend_chars(&mut current, sep.as_slice());
            extend_chars(&mut current, p.as_slice());
        } else {
            current = slice_to_vec(p.as_slice());
        }
        i += 1;
    }
    if current.len() > 0 {
        let ghost old_parts = parts@;
        let ghost last = current@;
        parts.push(current);
        assert(text::texts(parts@) =~= text::texts(old_parts).push(last));
    }
    parts
}

/// Splits text at paragraph boundaries (blank lines) into parts of at most
/// `max_len` bytes where the paragraphs allow it. Each part after the first
/// begins with up to `overlap` bytes of whole paragraphs from the end of the
/// part before.
pub fn split_with_overlap(text: &str, max_len: usize, overlap: usize) -> (r: Vec<String>)
    ensures
        text::string_texts(r@) == split_parts(text@, max_len as nat, overlap as nat),
{
    let chars = chars_of(text);
    let sep = chars_of("\n\n");
    proof {
        reveal_strlit("\n\n");
    }
    let paragraphs = split_chars(chars.as_slice(), sep.as_slice());
    let parts = gather_paragraphs(&paragraphs, max_len, overlap);
    let mut out: Vec<String> = Vec::new();
    let mut i: usize = 0;
    while i < parts.len()
        invariant
            i <= parts@.len(),
            out@.len() == i,
            forall|j: int| 0 <= j < i ==> (#[trigger] out@[j])@ == parts@[j]@,
        decreases parts@.len() - i,
    {
        out.push(string_of(parts[i].as_slice()));
        i += 1;
    }
    assert(text::string_texts(out@) =~= text::texts(parts@));
    out
}

// --- Scanning ---

/// A heading with its level (1 to 3) and its text.
#[verifier::ext_equal]
pub struct Heading {
    pub level: int,
    pub title: Seq<char>,
}

/// Text under a path of headings.
#[verifier::ext_equal]
pub struct Section {
    pub path: Seq<Seq<char>>,
    pub body: Seq<char>,
}

/// What is known of a page after a part of its HTML: the finished sections,
/// the open headings from the outside in, whether a top-level heading was read,
/// the text of the section being read, and the heading being read.
#[verifier::ext_equal]
pub struct Outline {
    pub sections: Seq<Section>,
    pub stack: Seq<Heading>,
    pub h1_seen: bool,
    pub body: Seq<char>,
    pub heading: Option<Heading>,
}

/// The outline before anything is read.
pub open spec fn empty_outline() -> Outline {
    Outline {
        sections: Seq::empty(),
        stack: Seq::empty(),
        h1_seen: false,
        body: Seq::empty(),
        heading: None,
    }
}

/// The titles of the open headings, from the outside in.
pub open spec fn titles(stack: Seq<Heading>) -> Seq<Seq<char>> {
    Seq::new(stack.len(), |i: int| stack[i].title)
}

/// The headings that stay open when a heading of `level` follows.
pub open spec fn enclosing(stack: Seq<Heading>, level: int) -> Seq<Heading>
    decreases stack.len(),
{
    if stack.len() > 0 && stack.last().level >= level {
        enclosing(stack.drop_last(), level)
    } else {
        stack
    }
}

/// The end of the word that starts at `i`.
pub open spec fn word_end(s: Seq<char>, i: int) -> int
    decreases s.len() - i,
{
    if i >= s.len() || text::is_space(s[i]) {
        i
    } else {
        word_end(s, i + 1)
    }
}

/// The heading level that a tag name stands for.
pub open spec fn heading_level(name: Seq<char>) -> Option<int> {
    if text::eq_ignoring_ascii_case(name, "h1"@) {
        Some(1)
    } else if text::eq_ignoring_ascii_case(name, "h2"@) {
        Some(2)
    } else if text::eq_ignoring_ascii_case(name, "h3"@) {
        Some(3)
    } else {
        None
    }
}

/// The heading level that a tag opens, if any: its name is what stands before
/// the first whitespace.
pub open spec fn opened_level(tag: Seq<char>) -> Option<int> {
    heading_level(tag.take(word_end(tag, 0)))
}

/// The tag closes a heading of some level.
pub open spec fn closes_heading(tag: Seq<char>) -> bool {
    ||| text::eq_ignoring_ascii_case(tag, "/h1"@)
    ||| text::eq_ignoring_ascii_case(tag, "/h2"@)
    ||| text::eq_ignoring_ascii_case(tag, "/h3"@)
}

/// The tag closes an element or is self-closing.
pub open spec fn separates_words(tag: Seq<char>) -> bool {
    tag.len() > 0 && (tag[0] == '/' || tag.last() == '/')
}

/// One more character of text: it belongs to the heading being read, or else
/// to the section.
pub open spec fn after_char(o: Outline, c: char) -> Outline {
    match o.heading {
        Some(h) => Outline {
            heading: Some(Heading { level: h.level, title: h.title.push(c) }),
            ..o
        },
        None => Outline { body: o.body.push(c), ..o },
    }
}

/// A heading begins: the section read so far is finished, unless it is blank
/// and nothing came before it.
pub open spec fn after_open(o: Outline, level: int) -> Outline {
    let heading = Some(Heading { level, title: Seq::<char>::empty() });
    if text::trim(o.body).len() > 0 || o.sections.len() > 0 {
        Outline {
            sections: o.sections.push(Section { path: titles(o.stack), body: o.body }),
            body: Seq::empty(),
            heading,
            ..o
        }
    } else {
        Outline { heading, ..o }
    }
}

/// The heading is the first top-level one of the page, and repeats its name.
pub open spec fn repeats_title(o: Outline, h: Heading, page_name: Option<Seq<char>>) -> bool {
    &&& !o.h1_seen
    &&& h.level == 1
    &&& page_name matches Some(name) && text::eq_ignoring_ascii_case(
        text::trim(h.title),
        text::trim(name),
    )
}

/// A heading ends: it closes the headings of its level and deeper ones, and
/// the sections that follow stand under it. The first top-level heading is
/// dropped where it repeats the page name.
pub open spec fn after_close(o: Outline, page_name: Option<Seq<char>>) -> Outline {
    match o.heading {
        Some(h) => if repeats_title(o, h, page_name) {
            Outline { h1_seen: true, heading: None, ..o }
        } else {
            Outline {
                stack: enclosing(o.stack, h.level).push(
                    Heading { level: h.level, title: text::trim(h.title) },
                ),
                h1_seen: o.h1_seen || h.level == 1,
                heading: None,
                ..o
            }
        },
        None => o,
    }
}

/// The outline after a tag, given by the text between its angle brackets.
pub open spec fn after_tag(o: Outline, tag_text: Seq<char>, page_name: Option<Seq<char>>) -> Outline {
    let tag = text::trim(tag_text);
    match opened_level(tag) {
        Some(level) => after_open(o, level),
        None => if closes_heading(tag) {
            after_close(o, page_name)
        } else if separates_words(tag) {
            after_char(o, ' ')
        } else {
            o
        },
    }
}

/// The last angle bracket before position `i` is an opening one.
pub open spec fn inside_tag(html: Seq<char>, i: int) -> bool
    decreases i,
{
    i > 0 && (html[i - 1] == '<' || (html[i - 1] != '>' && inside_tag(html, i - 1)))
}

/// The text of the most recent tag before position `i`: what follows its `<`,
/// up to its `>`.
pub open spec fn last_tag(html: Seq<char>, i: int) -> Seq<char>
    decreases i,
{
    if i <= 0 || html[i - 1] == '<' {
        Seq::empty()
    } else if html[i - 1] != '>' && inside_tag(html, i - 1) {
        last_tag(html, i - 1).push(html[i - 1])
    } else {
        last_tag(html, i - 1)
    }
}

/// The outline after the first `n` characters of the HTML.
pub open spec fn outline(html: Seq<char>, n: int, page_name: Option<Seq<char>>) -> Outline
    decreases n,
{
    if n <= 0 {
        empty_outline()
    } else {
        let before = outline(html, n - 1, page_name);
        let c = html[n - 1];
        if c == '<' {
            before
        } else if c == '>' {
            after_tag(before, last_tag(html, n - 1), page_name)
        } else if inside_tag(html, n - 1) {
            before
        } else {
            after_char(before, c)
        }
    }
}

/// The sections of a page, in order.
pub open spec fn sections(html: Seq<char>, page_name: Option<Seq<char>>) -> Seq<Section> {
    let end = outline(html, html.len() as int, page_name);
    end.sections.push(Section { path: titles(end.stack), body: end.body })
}

/// An open heading.
struct OpenHeading {
    level: u8,
    title: Vec<char>,
}

impl OpenHeading {
    spec fn model(self) -> Heading {
        Heading { level: self.level as int, title: self.title@ }
    }
}

/// A finished section.
struct RawSection {
    path: Vec<Vec<char>>,
    body: Vec<char>,
}

impl RawSection {
    spec fn model(self) -> Section {
        Section { path: text::texts(self.path@), body: self.body@ }
    }
}

spec fn models(v: Seq<RawSection>) -> Seq<Section> {
    Seq::new(v.len(), |i: int| v[i].model())
}

spec fn stack_models(v: Seq<OpenHeading>) -> Seq<Heading> {
    Seq::new(v.len(), |i: int| v[i].model())
}

/// The outline of a page while its HTML is read.
struct Reader {
    sections: Vec<RawSection>,
    stack: Vec<OpenHeading>,
    h1_seen: bool,
    body: Vec<char>,
    heading: Option<OpenHeading>,
}

impl Reader {
    spec fn model(self) -> Outline {
        Outline {
            sections: models(self.sections@),
            stack: stack_models(self.stack@),
            h1_seen: self.h1_seen,
            body: self.body@,
            heading: match self.heading {
                Some(h) => Some(h.model()),
                None => None,
            },
        }
    }

    fn new() -> (r: Self)
        ensures
            r.model() == empty_outline(),
    {
        let r = Reader {
            sections: Vec::new(),
            stack: Vec::new(),
            h1_seen: false,
            body: Vec::new(),
            heading: None,
        };
        assert(r.model() =~= empty_outline());
        r
    }

    /// The titles of the open headings.
    fn path(&self) -> (r: Vec<Vec<char>>)
        ensures
            text::texts(r@) == titles(self.model().stack),
    {
        let mut out: Vec<Vec<char>> = Vec::new();
        let mut i: usize = 0;
        while i < self.stack.len()
            invariant
                i <= self.stack@.len(),
                out@.len() == i,
                forall|j: int| 0 <= j < i ==> (#[trigger] out@[j])@ == self.stack@[j].title@,
            decreases self.stack@.len() - i,
        {
            out.push(slice_to_vec(self.stack[i].title.as_slice()));
            i += 1;
        }
        assert(text::texts(out@) =~= titles(self.model().stack));
        out
    }

    fn on_char(&mut self, c: char)
        ensures
            final(self).model() == after_char(old(self).model(), c),
    {
        match self.heading.take() {
            Some(h) => {
                let mut h = h;
                h.title.push(c);
                self.heading = Some(h);
            },
            None => {
                self.body.push(c);
            },
        }
        assert(self.model() =~= after_char(old(self).model(), c));
    }

    fn on_open(&mut self, level: u8)
        ensures
            final(self).model() == after_open(old(self).model(), level as int),
    {
        if trim_chars(self.body.as_slice()).len() > 0 || self.sections.len() > 0 {
            let path = self.path();
            let mut body: Vec<char> = Vec::new();
            core::mem::swap(&mut body, &mut self.body);
            self.sections.push(RawSection { path, body });
            assert(models(self.sections@) =~= after_open(
                old(self).model(),
                level as int,
            ).sections);
        }
        self.heading = Some(OpenHeading { level, title: Vec::new() });
        assert(self.model() =~= after_open(old(self).model(), level as int));
    }

    fn on_close(&mut self, page_name: Option<&[char]>)
        ensures
            final(self).model() == after_close(old(self).model(), name_model(page_name)),
    {
        let ghost start = self.model();
        if let Some(h) = self.heading.take() {
            let ghost opened = h.model();
            let title = slice_to_vec(trim_chars(h.title.as_slice()));
            let first_h1 = !self.h1_seen && h.level == 1;
            if h.level == 1 {
                self.h1_seen = true;
            }
            if first_h1 {
                if let Some(name) = page_name {
                    if eq_ignore_ascii_case(title.as_slice(), trim_chars(name)) {
                        assert(self.model() =~= after_close(start, name_model(page_name)));
                        return ;
                    }
                }
            }
            assert(!repeats_title(start, opened, name_model(page_name)));
            let ghost full = stack_models(self.stack@);
            let ghost sections = self.sections@;
            let ghost body = self.body@;
            while self.stack.len() > 0 && self.stack[self.stack.len() - 1].level >= h.level
                invariant
                    enclosing(full, h.level as int) == enclosing(
                        stack_models(self.stack@),
                        h.level as int,
                    ),
                    self.sections@ == sections,
                    self.body@ == body,
                    self.h1_seen == (start.h1_seen || h.level == 1),
                    self.heading is None,
                decreases self.stack@.len(),
            {
                let ghost st = self.stack@;
                let _ = self.stack.pop();
                assert(stack_models(st).drop_last() =~= stack_models(self.stack@));
            }
            let ghost st = self.stack@;
            assert(enclosing(full, h.level as int) == stack_models(st));
            self.stack.push(OpenHeading { level: h.level, title });
            assert(stack_models(self.stack@) =~= stack_models(st).push(
                Heading { level: h.level as int, title: title@ },
            ));
        }
        assert(self.model() =~= after_close(start, name_model(page_name)));
    }

    fn on_tag(&mut self, tag_text: &[char], page_name: Option<&[char]>)
        ensures
            final(self).model() == after_tag(
                old(self).model(),
                tag_text@,
                name_model(page_name),
            ),
    {
        let tag = trim_chars(tag_text);
        let name = first_word(tag);
        let h1 = chars_of("h1");
        let h2 = chars_of("h2");
        let h3 = chars_of("h3");
        if eq_ignore_ascii_case(name, h1.as_slice()) {
            self.on_open(1);
        } else if eq_ignore_ascii_case(name, h2.as_slice()) {
            self.on_open(2);
        } else if eq_ignore_ascii_case(name, h3.as_slice()) {
            self.on_open(3);
        } else {
            let c1 = chars_of("/h1");
            let c2 = chars_of("/h2");
            let c3 = chars_of("/h3");
            if eq_ignore_ascii_case(tag, c1.as_slice()) || eq_ignore_ascii_case(
                tag,
                c2.as_slice(),
            ) || eq_ignore_ascii_case(tag, c3.as_slice()) {
                self.on_close(page_name);
            } else if tag.len() > 0 && (tag[0] == '/' || tag[tag.len() - 1] == '/') {
                self.on_char(' ');
            }
        }
    }
}

/// The page name as a text.
spec fn name_model(name: Option<&[char]>) -> Option<Seq<char>> {
    match name {
        Some(n) => Some(n@),
        None => None,
    }
}

/// The text before the first whitespace.
fn first_word<'a>(s: &'a [char]) -> (r: &'a [char])
    ensures
        r@ == s@.take(word_end(s@, 0)),
{
    let mut i: usize = 0;
    while i < s.len() && !is_whitespace(s[i])
        invariant
            i <= s@.len(),
            word_end(s@, 0) == word_end(s@, i as int),
        decreases s@.len() - i,
    {
        i += 1;
    }
    assert(s@.take(i as int) =~= s@.subrange(0, i as int));
    slice_subrange(s, 0, i)
}

/// Reads the sections of a page.
fn read_sections(html: &[char], page_name: Option<&[char]>) -> (r: Vec<RawSection>)
    ensures
        models(r@) == sections(html@, name_model(page_name)),
{
    let mut reader = Reader::new();
    let mut in_tag = false;
    let mut tag: Vec<char> = Vec::new();
    let mut i: usize = 0;
    while i < html.len()
        invariant
            i <= html@.len(),
            reader.model() == outline(html@, i as int, name_model(page_name)),
            in_tag == inside_tag(html@, i as int),
            tag@ == last_tag(html@, i as int),
        decreases html@.len() - i,
    {
        let c: char = html[i];
        if c == '<' {
            in_tag = true;
            tag = Vec::new();
        } else if c == '>' {
            in_tag = false;
            reader.on_tag(tag.as_slice(), page_name);
        } else if in_tag {
            tag.push(c);
        } else {
            reader.on_char(c);
        }
        i += 1;
    }
    let path = reader.path();
    let Reader { sections: found, body, .. } = reader;
    let mut out = found;
    out.push(RawSection { path, body });
    assert(models(out@) =~= sections(html@, name_model(page_name)));
    out
}

// --- Assembly ---

/// What stands under a joined heading path: its text with the whitespace
/// collapsed, and the paragraphs of it.
#[verifier::ext_equal]
pub struct Block {
    pub path: Seq<char>,
    pub text: Seq<char>,
    pub paragraphs: Seq<Seq<char>>,
}

/// A piece of page text with the heading path that it stands under.
#[verifier::ext_equal]
pub struct Piece {
    pub path: Seq<char>,
    pub text: Seq<char>,
}

/// A text without whitespace at its ends, and with every other run of whitespace
/// collapsed.
pub open spec fn tidied(s: Seq<char>) -> Seq<char> {
    normalized(text::trim(s))
}

/// The paragraphs tidied, without those that are blank.
pub open spec fn tidied_all(paragraphs: Seq<Seq<char>>) -> Seq<Seq<char>>
    decreases paragraphs.len(),
{
    if paragraphs.len() == 0 {
        Seq::empty()
    } else {
        let before = tidied_all(paragraphs.drop_last());
        let p = tidied(paragraphs.last());
        if p.len() == 0 {
            before
        } else {
            before.push(p)
        }
    }
}

/// The paragraphs of a section: what its blank lines set apart.
pub open spec fn section_paragraphs(section: Section) -> Seq<Seq<char>> {
    tidied_all(text::split_on(section.body, "\n\n"@))
}

/// The text of a section.
pub open spec fn section_text(section: Section) -> Seq<char> {
    tidied(section.body)
}

/// The blocks of the first `n` sections: blank sections are dropped, and a
/// tiny one is appended to the block before it.
pub open spec fn merged(sections: Seq<Section>, n: int) -> Seq<Block>
    decreases n,
{
    if n <= 0 {
        Seq::empty()
    } else {
        let before = merged(sections, n - 1);
        let t = section_text(sections[n - 1]);
        let paragraphs = section_paragraphs(sections[n - 1]);
        if t.len() == 0 {
            before
        } else if text::utf8_len(t) < TINY_LEN && before.len() > 0 {
            before.drop_last().push(
                Block {
                    path: before.last().path,
                    text: before.last().text + "\n\n"@ + t,
                    paragraphs: before.last().paragraphs + paragraphs,
                },
            )
        } else {
            before.push(
                Block { path: text::join_with(sections[n - 1].path, " > "@), text: t, paragraphs },
            )
        }
    }
}

/// The parts of one block: an oversized one is split between its paragraphs.
pub open spec fn block_parts(block: Block) -> Seq<Seq<char>> {
    if text::utf8_len(block.text) > MAX_CHUNK_LEN {
        gathered(block.paragraphs, MAX_CHUNK_LEN as nat, OVERLAP_LEN as nat)
    } else {
        seq![block.text]
    }
}

/// A part with its heading path in front.
pub open spec fn with_path(path: Seq<char>, part: Seq<char>) -> Seq<char> {
    if path.len() == 0 {
        part
    } else {
        path + "\n\n"@ + part
    }
}

/// The parts of one block, each with the heading path in front.
pub open spec fn block_pieces(block: Block) -> Seq<Piece> {
    let parts = block_parts(block);
    Seq::new(
        parts.len(),
        |i: int| Piece { path: block.path, text: with_path(block.path, parts[i]) },
    )
}

/// The pieces of the first `n` blocks, in order.
pub open spec fn pieces(blocks: Seq<Block>, n: int) -> Seq<Piece>
    decreases n,
{
    if n <= 0 {
        Seq::empty()
    } else {
        pieces(blocks, n - 1) + block_pieces(blocks[n - 1])
    }
}

/// What a chunk holds.
#[verifier::ext_equal]
pub struct ChunkModel {
    pub index: int,
    pub heading_path: Seq<char>,
    pub content: Seq<char>,
    pub content_hash: Seq<char>,
}

impl Chunk {
    /// What the chunk holds.
    pub open spec fn model(self) -> ChunkModel {
        ChunkModel {
            index: self.index as int,
            heading_path: self.heading_path@,
            content: self.content@,
            content_hash: self.content_hash@,
        }
    }
}

/// What a list of chunks holds.
pub open spec fn chunk_models(v: Seq<Chunk>) -> Seq<ChunkModel> {
    Seq::new(v.len(), |i: int| v[i].model())
}

/// The pieces numbered from zero, each with the digest of its text.
pub open spec fn numbered(pieces: Seq<Piece>) -> Seq<ChunkModel> {
    Seq::new(
        pieces.len(),
        |i: int|
            ChunkModel {
                index: i,
                heading_path: pieces[i].path,
                content: pieces[i].text,
                content_hash: crypto::sha256_text(pieces[i].text),
            },
    )
}

/// The blocks of a page.
pub open spec fn page_blocks(html: Seq<char>, page_name: Option<Seq<char>>) -> Seq<Block> {
    let all = sections(html, page_name);
    merged(all, all.len() as int)
}

/// The chunks of a page.
pub open spec fn page_chunks(html: Seq<char>, page_name: Option<Seq<char>>) -> Seq<ChunkModel> {
    let blocks = page_blocks(html, page_name);
    numbered(pieces(blocks, blocks.len() as int))
}

/// A block while it is built.
struct RawBlock {
    path: Vec<char>,
    text: Vec<char>,
    paragraphs: Vec<Vec<char>>,
}

spec fn block_models(v: Seq<RawBlock>) -> Seq<Block> {
    Seq::new(
        v.len(),
        |i: int|
            Block {
                path: v[i].path@,
                text: v[i].text@,
                paragraphs: text::texts(v[i].paragraphs@),
            },
    )
}

/// Reads the paragraphs of a section.
fn read_paragraphs(body: &[char]) -> (r: Vec<Vec<char>>)
    ensures
        text::texts(r@) == tidied_all(text::split_on(body@, "\n\n"@)),
{
    let sep = chars_of("\n\n");
    proof {
        reveal_strlit("\n\n");
    }
    let found = split_chars(body, sep.as_slice());
    let ghost all = text::texts(found@);
    let mut out: Vec<Vec<char>> = Vec::new();
    let mut i: usize = 0;
    assert(text::texts(out@) =~= tidied_all(all.take(0)));
    while i < found.len()
        invariant
            i <= found@.len(),
            all == text::texts(found@),
            text::texts(out@) == tidied_all(all.take(i as int)),
        decreases found@.len() - i,
    {
        let p = normalize_chars(trim_chars(found[i].as_slice()));
        assert(p@ == tidied(all[i as int]));
        assert(all.take(i + 1).drop_last() =~= all.take(i as int));
        if p.len() > 0 {
            let ghost before = out@;
            let ghost last = p@;
            out.push(p);
            assert(text::texts(out@) =~= text::texts(before).push(last));
        }
        i += 1;
    }
    assert(all.take(i as int) =~= all);
    out
}

/// Merges the sections into blocks.
fn merge_sections(found: &Vec<RawSection>) -> (r: Vec<RawBlock>)
    ensures
        block_models(r@) == merged(models(found@), found@.len() as int),
{
    let arrow = chars_of(" > ");
    let blank = chars_of("\n\n");
    let ghost all = models(found@);
    let mut out: Vec<RawBlock> = Vec::new();
    let mut i: usize = 0;
    assert(block_models(out@) =~= Seq::<Block>::empty());
    while i < found.len()
        invariant
            i <= found@.len(),
            all == models(found@),
            arrow@ == " > "@,
            blank@ == "\n\n"@,
            block_models(out@) == merged(all, i as int),
        decreases found@.len() - i,
    {
        let section = &found[i];
        let t = normalize_chars(trim_chars(section.body.as_slice()));
        assert(t@ == section_text(all[i as int]));
        if t.len() > 0 {
            let found_here = read_paragraphs(section.body.as_slice());
            let ghost here = text::texts(found_here@);
            assert(here == section_paragraphs(all[i as int]));
            if byte_len(t.as_slice()) < TINY_LEN as u128 && out.len() > 0 {
                let RawBlock { path, text, paragraphs } = out.pop().unwrap();
                let mut longer = text;
                extend_chars(&mut longer, blank.as_slice());
                extend_chars(&mut longer, t.as_slice());
                let ghost before = text::texts(paragraphs@);
                let mut more = paragraphs;
                let mut added = found_here;
                more.append(&mut added);
                assert(text::texts(more@) =~= before + here);
                out.push(RawBlock { path, text: longer, paragraphs: more });
                assert(block_models(out@) =~= merged(all, i + 1));
            } else {
                let path = join_chars(section.path.as_slice(), arrow.as_slice());
                out.push(RawBlock { path, text: t, paragraphs: found_here });
                assert(block_models(out@) =~= merged(all, i + 1));
            }
        }
        i += 1;
    }
    out
}

/// Adds the chunk for one part of a block.
fn push_chunk(out: &mut Vec<Chunk>, path: &[char], part: &[char])
    ensures
        chunk_models(final(out)@) == chunk_models(old(out)@).push(
            ChunkModel {
                index: old(out)@.len() as int,
                heading_path: path@,
                content: with_path(path@, part@),
                content_hash: crypto::sha256_text(with_path(path@, part@)),
            },
        ),
{
    let blank = chars_of("\n\n");
    let mut full: Vec<char> = slice_to_vec(path);
    if path.len() > 0 {
        extend_chars(&mut full, blank.as_slice());
    }
    extend_chars(&mut full, part);
    assert(full@ =~= with_path(path@, part@));
    let content = string_of(full.as_slice());
    let content_hash = crypto::sha256_hex(content.as_str());
    let index: usize = out.len();
    out.push(Chunk { index, heading_path: string_of(path), content, content_hash });
    assert(chunk_models(out@) =~= chunk_models(old(out)@).push(
        ChunkModel {
            index: old(out)@.len() as int,
            heading_path: path@,
            content: with_path(path@, part@),
            content_hash: crypto::sha256_text(with_path(path@, part@)),
        },
    ));
}

/// Turns blocks into numbered chunks.
fn number_chunks(blocks: &Vec<RawBlock>) -> (r: Vec<Chunk>)
    ensures
        chunk_models(r@) == numbered(pieces(block_models(blocks@), blocks@.len() as int)),
{
    let ghost all = block_models(blocks@);
    let mut out: Vec<Chunk> = Vec::new();
    let mut i: usize = 0;
    assert(chunk_models(out@) =~= numbered(Seq::<Piece>::empty()));
    while i < blocks.len()
        invariant
            i <= blocks@.len(),
            all == block_models(blocks@),
            chunk_models(out@) == numbered(pieces(all, i as int)),
        decreases blocks@.len() - i,
    {
        let block = &blocks[i];
        let ghost model = all[i as int];
        let parts: Vec<Vec<char>> = if byte_len(block.text.as_slice()) > MAX_CHUNK_LEN as u128 {
            gather_paragraphs(&block.paragraphs, MAX_CHUNK_LEN, OVERLAP_LEN)
        } else {
            let mut one: Vec<Vec<char>> = Vec::new();
            one.push(slice_to_vec(block.text.as_slice()));
            assert(text::texts(one@) =~= seq![block.text@]);
            one
        };
        let ghost before = pieces(all, i as int);
        let ghost here = block_pieces(model);
        assert(text::texts(parts@) == block_parts(model));
        assert(here.len() == parts@.len());
        let mut j: usize = 0;
        assert(before + here.take(0) =~= before);
        while j < parts.len()
            invariant
                j <= parts@.len(),
                here.len() == parts@.len(),
                text::texts(parts@) == block_parts(model),
                here == block_pieces(model),
                model.path == block.path@,
                chunk_models(out@) == numbered(before + here.take(j as int)),
            decreases parts@.len() - j,
        {
            let ghost so_far = before + here.take(j as int);
            assert(chunk_models(out@).len() == so_far.len());
            assert(parts@[j as int]@ == text::texts(parts@)[j as int]);
            push_chunk(&mut out, block.path.as_slice(), parts[j].as_slice());
            assert(before + here.take(j + 1) =~= so_far.push(here[j as int]));
            assert(chunk_models(out@) =~= numbered(before + here.take(j + 1)));
            j += 1;
        }
        assert(here.take(j as int) =~= here);
        i += 1;
    }
    out
}

/// Cuts page HTML into chunks at its `h1` to `h3` headings.
///
/// Each heading starts a new section, and the open headings make up its path.
/// Tiny sections are merged into the one before, oversized ones are split. With
/// a `page_name`, the first `h1` is left out of the paths where it repeats it.
pub fn chunk_html_with_name(html: &str, page_name: Option<&str>) -> (r: Vec<Chunk>)
    ensures
        chunk_models(r@) == page_chunks(
            html@,
            match page_name {
                Some(n) => Some(n@),
                None => None,
            },
        ),
{
    let chars = chars_of(html);
    let found = match page_name {
        Some(name) => {
            let name = chars_of(name);
            read_sections(chars.as_slice(), Some(name.as_slice()))
        },
        None => read_sections(chars.as_slice(), None),
    };
    let blocks = merge_sections(&found);
    number_chunks(&blocks)
}

/// Cuts page HTML into chunks without regard to the page name.
pub fn chunk_html(html: &str) -> (r: Vec<Chunk>)
    ensures
        chunk_models(r@) == page_chunks(html@, None),
{
    chunk_html_with_name(html, None)
}

// --- Links ---

/// The internal page link that an `href` value holds, without scheme and host:
/// `/books/{slug}/page/{slug}`, or else `/link/{id}`.
pub open spec fn page_link(href: Seq<char>) -> Option<Seq<char>> {
    match text::find_from(href, "/books/"@, 0) {
        Some(i) => if text::contains(href.skip(i), "/page/"@) {
            Some(href.skip(i))
        } else {
            None
        },
        None => match text::find_from(href, "/link/"@, 0) {
            Some(i) => Some(href.skip(i)),
            None => None,
        },
    }
}

/// The internal page links in the `href` attributes from position `pos` on.
pub open spec fn links_from(html: Seq<char>, pos: int) -> Seq<Seq<char>>
    decreases html.len() - pos,
{
    match text::find_from(html, "href=\""@, pos) {
        Some(i) => match text::find_from(html, "\""@, i + 6) {
            Some(e) => if pos <= i && i + 6 <= e < html.len() {
                let rest = links_from(html, e + 1);
                match page_link(html.subrange(i + 6, e)) {
                    Some(link) => seq![link] + rest,
                    None => rest,
                }
            } else {
                Seq::empty()
            },
            None => Seq::empty(),
        },
        None => Seq::empty(),
    }
}

/// Reads the internal page link from an `href` value.
fn read_page_link(href: &[char]) -> (r: Option<Vec<char>>)
    ensures
        match r {
            Some(v) => page_link(href@) == Some(v@),
            None => page_link(href@) is None,
        },
{
    let books = chars_of("/books/");
    let page = chars_of("/page/");
    let link = chars_of("/link/");
    match find_chars(href, books.as_slice(), 0) {
        Some(i) => {
            let path = slice_subrange(href, i, href.len());
            assert(path@ =~= href@.skip(i as int));
            if contains_chars(path, page.as_slice()) {
                Some(slice_to_vec(path))
            } else {
                None
            }
        },
        None => match find_chars(href, link.as_slice(), 0) {
            Some(i) => {
                let path = slice_subrange(href, i, href.len());
                assert(path@ =~= href@.skip(i as int));
                Some(slice_to_vec(path))
            },
            None => None,
        },
    }
}

/// Finds the links to other pages of the wiki: `href` values that hold
/// `/books/{slug}/page/{slug}` or `/link/{id}`, relative or with a host.
pub fn extract_links(html: &str) -> (r: Vec<String>)
    ensures
        text::string_texts(r@) == links_from(html@, 0),
{
    proof {
        reveal_strlit("href=\"");
        reveal_strlit("\"");
    }
    let chars = chars_of(html);
    let attr = chars_of("href=\"");
    let quote = chars_of("\"");
    let mut links: Vec<String> = Vec::new();
    let total: usize = chars.len();
    let mut pos: usize = 0;
    assert(text::string_texts(links@) + links_from(html@, 0) =~= links_from(html@, 0));
    loop
        invariant
            chars@ == html@,
            attr@ == "href=\""@,
            quote@ == "\""@,
            attr@.len() == 6,
            quote@.len() == 1,
            total == chars@.len(),
            pos <= total,
            text::string_texts(links@) + links_from(html@, pos as int) == links_from(html@, 0),
        decreases chars@.len() - pos,
    {
        let start: usize = match find_chars(chars.as_slice(), attr.as_slice(), pos) {
            Some(i) => i + 6,
            None => {
                assert(links_from(html@, pos as int) =~= Seq::<Seq<char>>::empty());
                assert(text::string_texts(links@) =~= links_from(html@, 0));
                return links;
            },
        };
        let end: usize = match find_chars(chars.as_slice(), quote.as_slice(), start) {
            Some(e) => e,
            None => {
                assert(links_from(html@, pos as int) =~= Seq::<Seq<char>>::empty());
                assert(text::string_texts(links@) =~= links_from(html@, 0));
                return links;
            },
        };
        let href = slice_subrange(chars.as_slice(), start, end);
        let ghost before = links@;
        match read_page_link(href) {
            Some(link) => {
                let found = string_of(link.as_slice());
                links.push(found);
                proof {
                    let rest = links_from(html@, end + 1);
                    assert(links_from(html@, pos as int) == seq![link@] + rest);
                    assert(text::string_texts(links@) =~= text::string_texts(before).push(link@));
                    assert(text::string_texts(before) + (seq![link@] + rest) =~= text::string_texts(links@)
                        + rest);
                }
            },
            None => {},
        }
        pos = end + 1;
    }
}

} // verus!
