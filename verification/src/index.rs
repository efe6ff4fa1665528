//! The structural index of wiki content: what shelves, books, chapters and
//! pages are, and how they are classified from their names and parents.

use crate::text;
use crate::text::{
    chars_of, contains_chars, ends_with_chars, same_chars, same_text, starts_with_chars, string_of,
    trim_chars, trim_start_chars,
};
use std::str::FromStr;
use vstd::prelude::*;
use vstd::slice::slice_subrange;

verus! {

// --- Kinds ---

/// What role a shelf plays.
#[derive(Clone, Copy, Debug, PartialEq, Eq, Structural)]
pub enum ShelfKind {
    /// Holds the identity books and collages, and the shared collage.
    Hive,
    /// Holds the identity and journal of each human user.
    UserJournals,
    Unclassified,
}

impl ShelfKind {
    /// The stored name of the kind.
    pub open spec fn stored_name(self) -> Seq<char> {
        match self {
            ShelfKind::Hive => "hive"@,
            ShelfKind::UserJournals => "user_journals"@,
            ShelfKind::Unclassified => "unclassified"@,
        }
    }

    /// The kind with the given stored name.
    pub open spec fn named(s: Seq<char>) -> Option<ShelfKind> {
        if s == "hive"@ {
            Some(ShelfKind::Hive)
        } else if s == "user_journals"@ {
            Some(ShelfKind::UserJournals)
        } else if s == "unclassified"@ {
            Some(ShelfKind::Unclassified)
        } else {
            None
        }
    }

    /// The name under which the kind is stored.
    pub fn as_str(self) -> (r: &'static str)
        ensures
            r@ == self.stored_name(),
    {
        match self {
            ShelfKind::Hive => "hive",
            ShelfKind::UserJournals => "user_journals",
            ShelfKind::Unclassified => "unclassified",
        }
    }

    /// Reads a stored name; `None` where no kind has it.
    pub fn parse(s: &str) -> (r: Option<ShelfKind>)
        ensures
            r == ShelfKind::named(s@),
    {
        if same_text(s, "hive") {
            Some(ShelfKind::Hive)
        } else if same_text(s, "user_journals") {
            Some(ShelfKind::UserJournals)
        } else if same_text(s, "unclassified") {
            Some(ShelfKind::Unclassified)
        } else {
            None
        }
    }
}

impl FromStr for ShelfKind {
    type Err = ();

    fn from_str(s: &str) -> (r: Result<Self, ()>)
        ensures
            match r {
                Ok(kind) => ShelfKind::named(s@) == Some(kind),
                Err(_) => ShelfKind::named(s@) is None,
            },
    {
        match ShelfKind::parse(s) {
            Some(kind) => Ok(kind),
            None => Err(()),
        }
    }
}

/// A kind is read back from its stored name, and from no other.
pub proof fn law_shelf_kind_round_trip(kind: ShelfKind, s: Seq<char>)
    ensures
        ShelfKind::named(kind.stored_name()) == Some(kind),
        ShelfKind::named(s) == Some(kind) ==> s == kind.stored_name(),
{
    reveal_strlit("hive");
    reveal_strlit("user_journals");
    reveal_strlit("unclassified");
    assert("user_journals"@.len() != "hive"@.len());
    assert("unclassified"@.len() != "hive"@.len());
    assert("unclassified"@.len() != "user_journals"@.len());
}

/// What role a book plays. `Identity`, `Collage` and `SharedCollage` stand on the
/// hive shelf, `UserIdentity` and `UserJournal` on the user journals shelf.
#[derive(Clone, Copy, Debug, PartialEq, Eq, Structural)]
pub enum BookKind {
    Identity,
    Collage,
    SharedCollage,
    UserIdentity,
    UserJournal,
    Unclassified,
}

impl BookKind {
    /// The stored name of the kind.
    pub open spec fn stored_name(self) -> Seq<char> {
        match self {
            BookKind::Identity => "identity"@,
            BookKind::Collage => "collage"@,
            BookKind::SharedCollage => "shared_collage"@,
            BookKind::UserIdentity => "user_identity"@,
            BookKind::UserJournal => "user_journal"@,
            BookKind::Unclassified => "unclassified"@,
        }
    }

    /// The kind with the given stored name.
    pub open spec fn named(s: Seq<char>) -> Option<BookKind> {
        if s == "identity"@ {
            Some(BookKind::Identity)
        } else if s == "collage"@ {
            Some(BookKind::Collage)
        } else if s == "shared_collage"@ {
            Some(BookKind::SharedCollage)
        } else if s == "user_identity"@ {
            Some(BookKind::UserIdentity)
        } else if s == "user_journal"@ {
            Some(BookKind::UserJournal)
        } else if s == "unclassified"@ {
            Some(BookKind::Unclassified)
        } else {
            None
        }
    }

    /// The name under which the kind is stored.
    pub fn as_str(self) -> (r: &'static str)
        ensures
            r@ == self.stored_name(),
    {
        match self {
            BookKind::Identity => "identity",
            BookKind::Collage => "collage",
            BookKind::SharedCollage => "shared_collage",
            BookKind::UserIdentity => "user_identity",
            BookKind::UserJournal => "user_journal",
            BookKind::Unclassified => "unclassified",
        }
    }

    /// Reads a stored name; `None` where no kind has it.
    pub fn parse(s: &str) -> (r: Option<BookKind>)
        ensures
            r == BookKind::named(s@),
    {
        if same_text(s, "identity") {
            Some(BookKind::Identity)
        } else if same_text(s, "collage") {
            Some(BookKind::Collage)
        } else if same_text(s, "shared_collage") {
            Some(BookKind::SharedCollage)
        } else if same_text(s, "user_identity") {
            Some(BookKind::UserIdentity)
        } else if same_text(s, "user_journal") {
            Some(BookKind::UserJournal)
        } else if same_text(s, "unclassified") {
            Some(BookKind::Unclassified)
        } else {
            None
        }
    }
}

impl FromStr for BookKind {
    type Err = ();

    fn from_str(s: &str) -> (r: Result<Self, ()>)
        ensures
            match r {
                Ok(kind) => BookKind::named(s@) == Some(kind),
                Err(_) => BookKind::named(s@) is None,
            },
    {
        match BookKind::parse(s) {
            Some(kind) => Ok(kind),
            None => Err(()),
        }
    }
}

/// A kind is read back from its stored name, and from no other.
pub proof fn law_book_kind_round_trip(kind: BookKind, s: Seq<char>)
    ensures
        BookKind::named(kind.stored_name()) == Some(kind),
        BookKind::named(s) == Some(kind) ==> s == kind.stored_name(),
{
    reveal_strlit("identity");
    reveal_strlit("collage");
    reveal_strlit("shared_collage");
    reveal_strlit("user_identity");
    reveal_strlit("user_journal");
    reveal_strlit("unclassified");
    assert("collage"@.len() != "identity"@.len());
    assert("shared_collage"@.len() != "identity"@.len());
    assert("shared_collage"@.len() != "collage"@.len());
    assert("user_identity"@.len() != "identity"@.len());
    assert("user_identity"@.len() != "collage"@.len());
    assert("user_identity"@.len() != "shared_collage"@.len());
    assert("user_journal"@.len() != "identity"@.len());
    assert("user_journal"@.len() != "collage"@.len());
    assert("user_journal"@.len() != "shared_collage"@.len());
    assert("user_journal"@.len() != "user_identity"@.len());
    assert("unclassified"@.len() != "identity"@.len());
    assert("unclassified"@.len() != "collage"@.len());
    assert("unclassified"@.len() != "shared_collage"@.len());
    assert("unclassified"@.len() != "user_identity"@.len());
    assert("unclassified"@[1] != "user_journal"@[1]);
}

/// What role a chapter plays inside an identity book.
#[derive(Clone, Copy, Debug, PartialEq, Eq, Structural)]
pub enum ChapterKind {
    Agents,
    SubagentConversations,
    JournalActive,
    JournalArchive,
    Unclassified,
}

impl ChapterKind {
    /// The stored name of the kind.
    pub open spec fn stored_name(self) -> Seq<char> {
        match self {
            ChapterKind::Agents => "agents"@,
            ChapterKind::SubagentConversations => "subagent_conversations"@,
            ChapterKind::JournalActive => "journal_active"@,
            ChapterKind::JournalArchive => "journal_archive"@,
            ChapterKind::Unclassified => "unclassified"@,
        }
    }

    /// The kind with the given stored name.
    pub open spec fn named(s: Seq<char>) -> Option<ChapterKind> {
        if s == "agents"@ {
            Some(ChapterKind::Agents)
        } else if s == "subagent_conversations"@ {
            Some(ChapterKind::SubagentConversations)
        } else if s == "journal_active"@ {
            Some(ChapterKind::JournalActive)
        } else if s == "journal_archive"@ {
            Some(ChapterKind::JournalArchive)
        } else if s == "unclassified"@ {
            Some(ChapterKind::Unclassified)
        } else {
            None
        }
    }

    /// The name under which the kind is stored.
    pub fn as_str(self) -> (r: &'static str)
        ensures
            r@ == self.stored_name(),
    {
        match self {
            ChapterKind::Agents => "agents",
            ChapterKind::SubagentConversations => "subagent_conversations",
            ChapterKind::JournalActive => "journal_active",
            ChapterKind::JournalArchive => "journal_archive",
            ChapterKind::Unclassified => "unclassified",
        }
    }

    /// Reads a stored name; `None` where no kind has it.
    pub fn parse(s: &str) -> (r: Option<ChapterKind>)
        ensures
            r == ChapterKind::named(s@),
    {
        if same_text(s, "agents") {
            Some(ChapterKind::Agents)
        } else if same_text(s, "subagent_conversations") {
            Some(ChapterKind::SubagentConversations)
        } else if same_text(s, "journal_active") {
            Some(ChapterKind::JournalActive)
        } else if same_text(s, "journal_archive") {
            Some(ChapterKind::JournalArchive)
        } else if same_text(s, "unclassified") {
            Some(ChapterKind::Unclassified)
        } else {
            None
        }
    }
}

impl FromStr for ChapterKind {
    type Err = ();

    fn from_str(s: &str) -> (r: Result<Self, ()>)
        ensures
            match r {
                Ok(kind) => ChapterKind::named(s@) == Some(kind),
                Err(_) => ChapterKind::named(s@) is None,
            },
    {
        match ChapterKind::parse(s) {
            Some(kind) => Ok(kind),
            None => Err(()),
        }
    }
}

/// A kind is read back from its stored name, and from no other.
pub proof fn law_chapter_kind_round_trip(kind: ChapterKind, s: Seq<char>)
    ensures
        ChapterKind::named(kind.stored_name()) == Some(kind),
        ChapterKind::named(s) == Some(kind) ==> s == kind.stored_name(),
{
    reveal_strlit("agents");
    reveal_strlit("subagent_conversations");
    reveal_strlit("journal_active");
    reveal_strlit("journal_archive");
    reveal_strlit("unclassified");
    assert("subagent_conversations"@.len() != "agents"@.len());
    assert("journal_active"@.len() != "agents"@.len());
    assert("journal_active"@.len() != "subagent_conversations"@.len());
    assert("journal_archive"@.len() != "agents"@.len());
    assert("journal_archive"@.len() != "subagent_conversations"@.len());
    assert("journal_archive"@.len() != "journal_active"@.len());
    assert("unclassified"@.len() != "agents"@.len());
    assert("unclassified"@.len() != "subagent_conversations"@.len());
    assert("unclassified"@.len() != "journal_active"@.len());
    assert("unclassified"@.len() != "journal_archive"@.len());
}

/// What role a page plays, determined by its parents and its name.
#[derive(Clone, Copy, Debug, PartialEq, Eq, Structural)]
pub enum PageKind {
    Manifest,
    Agent,
    JournalEntry,
    CollageTopic,
    SubagentConversation,
    Unclassified,
}

impl PageKind {
    /// The stored name of the kind.
    pub open spec fn stored_name(self) -> Seq<char> {
        match self {
            PageKind::Manifest => "manifest"@,
            PageKind::Agent => "agent"@,
            PageKind::JournalEntry => "journal_entry"@,
            PageKind::CollageTopic => "collage_topic"@,
            PageKind::SubagentConversation => "subagent_conversation"@,
            PageKind::Unclassified => "unclassified"@,
        }
    }

    /// The kind with the given stored name.
    pub open spec fn named(s: Seq<char>) -> Option<PageKind> {
        if s == "manifest"@ {
            Some(PageKind::Manifest)
        } else if s == "agent"@ {
            Some(PageKind::Agent)
        } else if s == "journal_entry"@ {
            Some(PageKind::JournalEntry)
        } else if s == "collage_topic"@ {
            Some(PageKind::CollageTopic)
        } else if s == "subagent_conversation"@ {
            Some(PageKind::SubagentConversation)
        } else if s == "unclassified"@ {
            Some(PageKind::Unclassified)
        } else {
            None
        }
    }

    /// The name under which the kind is stored.
    pub fn as_str(self) -> (r: &'static str)
        ensures
            r@ == self.stored_name(),
    {
        match self {
            PageKind::Manifest => "manifest",
            PageKind::Agent => "agent",
            PageKind::JournalEntry => "journal_entry",
            PageKind::CollageTopic => "collage_topic",
            PageKind::SubagentConversation => "subagent_conversation",
            PageKind::Unclassified => "unclassified",
        }
    }

    /// Reads a stored name; `None` where no kind has it.
    pub fn parse(s: &str) -> (r: Option<PageKind>)
        ensures
            r == PageKind::named(s@),
    {
        if same_text(s, "manifest") {
            Some(PageKind::Manifest)
        } else if same_text(s, "agent") {
            Some(PageKind::Agent)
        } else if same_text(s, "journal_entry") {
            Some(PageKind::JournalEntry)
        } else if same_text(s, "collage_topic") {
            Some(PageKind::CollageTopic)
        } else if same_text(s, "subagent_conversation") {
            Some(PageKind::SubagentConversation)
        } else if same_text(s, "unclassified") {
            Some(PageKind::Unclassified)
        } else {
            None
        }
    }
}

impl FromStr for PageKind {
    type Err = ();

    fn from_str(s: &str) -> (r: Result<Self, ()>)
        ensures
            match r {
                Ok(kind) => PageKind::named(s@) == Some(kind),
                Err(_) => PageKind::named(s@) is None,
            },
    {
        match PageKind::parse(s) {
            Some(kind) => Ok(kind),
            None => Err(()),
        }
    }
}

/// A kind is read back from its stored name, and from no other.
pub proof fn law_page_kind_round_trip(kind: PageKind, s: Seq<char>)
    ensures
        PageKind::named(kind.stored_name()) == Some(kind),
        PageKind::named(s) == Some(kind) ==> s == kind.stored_name(),
{
    reveal_strlit("manifest");
    reveal_strlit("agent");
    reveal_strlit("journal_entry");
    reveal_strlit("collage_topic");
    reveal_strlit("subagent_conversation");
    reveal_strlit("unclassified");
    assert("agent"@.len() != "manifest"@.len());
    assert("journal_entry"@.len() != "manifest"@.len());
    assert("journal_entry"@.len() != "agent"@.len());
    assert("collage_topic"@.len() != "manifest"@.len());
    assert("collage_topic"@.len() != "agent"@.len());
    assert("collage_topic"@[0] != "journal_entry"@[0]);
    assert("subagent_conversation"@.len() != "manifest"@.len());
    assert("subagent_conversation"@.len() != "agent"@.len());
    assert("subagent_conversation"@.len() != "journal_entry"@.len());
    assert("subagent_conversation"@.len() != "collage_topic"@.len());
    assert("unclassified"@.len() != "manifest"@.len());
    assert("unclassified"@.len() != "agent"@.len());
    assert("unclassified"@.len() != "journal_entry"@.len());
    assert("unclassified"@.len() != "collage_topic"@.len());
    assert("unclassified"@.len() != "subagent_conversation"@.len());
}

// --- Rows ---

/// A shelf as it is indexed.
#[derive(Clone, Debug)]
pub struct IndexedShelf {
    pub shelf_id: i64,
    pub name: String,
    pub slug: String,
    pub shelf_kind: ShelfKind,
    pub indexed_at: i64,
    pub deleted: bool,
}

/// A book as it is indexed.
#[derive(Clone, Debug)]
pub struct IndexedBook {
    pub book_id: i64,
    pub name: String,
    pub slug: String,
    pub shelf_id: Option<i64>,
    pub identity_ouid: Option<String>,
    pub book_kind: BookKind,
    pub indexed_at: i64,
    pub deleted: bool,
}

/// A chapter as it is indexed.
#[derive(Clone, Debug)]
pub struct IndexedChapter {
    pub chapter_id: i64,
    pub book_id: i64,
    pub name: String,
    pub slug: String,
    pub identity_ouid: Option<String>,
    pub chapter_kind: ChapterKind,
    pub archive_year: Option<i32>,
    pub indexed_at: i64,
    pub deleted: bool,
}

/// A page as it is indexed.
#[derive(Clone, Debug)]
pub struct IndexedPage {
    pub page_id: i64,
    pub book_id: i64,
    pub chapter_id: Option<i64>,
    pub name: String,
    pub slug: String,
    pub url: Option<String>,
    pub page_created_at: Option<String>,
    pub page_updated_at: Option<String>,
    pub identity_ouid: Option<String>,
    pub page_kind: PageKind,
    pub page_key: Option<String>,
    pub archive_year: Option<i32>,
    pub indexed_at: i64,
    pub deleted: bool,
}

/// The cached body of a page. It is fresh while its `page_updated_at` equals
/// that of the indexed page.
#[derive(Clone, Debug)]
pub struct PageCache {
    pub page_id: i64,
    pub markdown: Option<String>,
    pub raw_markdown: Option<String>,
    pub html: Option<String>,
    pub cached_at: i64,
    pub page_updated_at: Option<String>,
}

// --- Classification ---

/// Classifies a shelf. No shelf has a role of its own any more, so every one
/// is unclassified; stored rows may still carry the older kinds.
pub fn classify_shelf(_shelf_id: i64) -> (r: ShelfKind)
    ensures
        r == ShelfKind::Unclassified,
{
    ShelfKind::Unclassified
}

/// The kind of a book with the given name on a shelf of the given kind.
pub open spec fn book_kind(name: Seq<char>, shelf: ShelfKind) -> BookKind {
    let t = text::trim(name);
    match shelf {
        ShelfKind::Hive => if text::ends_with(t, " Identity"@) {
            BookKind::Identity
        } else if t == "Cross-Identity Collage"@ {
            BookKind::SharedCollage
        } else if text::ends_with(t, " Collage"@) {
            BookKind::Collage
        } else {
            BookKind::Unclassified
        },
        ShelfKind::UserJournals => if text::contains(t, " \u{2014} Identity"@) || text::contains(
            t,
            " - Identity"@,
        ) {
            BookKind::UserIdentity
        } else if t == "Journal"@ || text::ends_with(t, " Journal"@) {
            BookKind::UserJournal
        } else {
            BookKind::Unclassified
        },
        ShelfKind::Unclassified => BookKind::Unclassified,
    }
}

/// Classifies a book by its name and the kind of its shelf.
pub fn classify_book(name: &str, parent_shelf_kind: ShelfKind) -> (r: BookKind)
    ensures
        r == book_kind(name@, parent_shelf_kind),
{
    let chars = chars_of(name);
    let t = trim_chars(chars.as_slice());
    match parent_shelf_kind {
        ShelfKind::Hive => {
            let identity = chars_of(" Identity");
            let shared = chars_of("Cross-Identity Collage");
            let collage = chars_of(" Collage");
            if ends_with_chars(t, identity.as_slice()) {
                BookKind::Identity
            } else if same_chars(t, shared.as_slice()) {
                BookKind::SharedCollage
            } else if ends_with_chars(t, collage.as_slice()) {
                BookKind::Collage
            } else {
                BookKind::Unclassified
            }
        },
        ShelfKind::UserJournals => {
            let dashed = chars_of(" \u{2014} Identity");
            let hyphened = chars_of(" - Identity");
            let journal = chars_of("Journal");
            let journal_of = chars_of(" Journal");
            if contains_chars(t, dashed.as_slice()) || contains_chars(t, hyphened.as_slice()) {
                BookKind::UserIdentity
            } else if same_chars(t, journal.as_slice()) || ends_with_chars(
                t,
                journal_of.as_slice(),
            ) {
                BookKind::UserJournal
            } else {
                BookKind::Unclassified
            }
        },
        ShelfKind::Unclassified => BookKind::Unclassified,
    }
}

/// The year in `Journal Archive - {year}`: four digits, from 1900 on, with any
/// whitespace around the hyphen and at the ends.
pub open spec fn archive_year(name: Seq<char>) -> Option<i32> {
    let t = text::trim(name);
    if !text::starts_with(t, "Journal Archive"@) {
        None
    } else {
        let rest = text::trim_start(t.skip("Journal Archive"@.len() as int));
        if rest.len() == 0 || rest[0] != '-' {
            None
        } else {
            let year = text::trim(rest.skip(1));
            if year.len() == 4 && text::all_digits(year) && text::digits_value(year) >= 1900 {
                Some(text::digits_value(year) as i32)
            } else {
                None
            }
        }
    }
}

/// Reads the year of a journal archive chapter from its name.
pub fn parse_archive_year(name: &str) -> (r: Option<i32>)
    ensures
        r == archive_year(name@),
{
    let chars = chars_of(name);
    let t = trim_chars(chars.as_slice());
    let prefix = chars_of("Journal Archive");
    if !starts_with_chars(t, prefix.as_slice()) {
        return None;
    }
    let tail = slice_subrange(t, prefix.len(), t.len());
    assert(tail@ =~= t@.skip(prefix@.len() as int));
    let rest = trim_start_chars(tail);
    if rest.len() == 0 || rest[0] != '-' {
        return None;
    }
    let after = slice_subrange(rest, 1, rest.len());
    assert(after@ =~= rest@.skip(1));
    let year = trim_chars(after);
    if year.len() != 4 || year[0] == '+' {
        proof {
            if year@.len() == 4 && year@[0] == '+' {
                assert(!text::is_digit(year@[0]));
            }
        }
        return None;
    }
    match text::parse_uint(year, 9999) {
        Some(y) => if y >= 1900 {
            Some(y as i32)
        } else {
            None
        },
        None => {
            proof {
                if text::all_digits(year@) {
                    lemma_four_digits(year@);
                }
            }
            None
        },
    }
}

/// Four digits denote a number below ten thousand.
proof fn lemma_four_digits(s: Seq<char>)
    requires
        s.len() == 4,
        text::all_digits(s),
    ensures
        text::digits_value(s) <= 9999,
{
    assert(text::is_digit(s[0]) && text::is_digit(s[1]) && text::is_digit(s[2]) && text::is_digit(
        s[3],
    ));
    reveal_with_fuel(text::digits_value, 5);
}

/// `s` has the shape `YYYY-MM-DD`.
pub open spec fn is_iso_date(s: Seq<char>) -> bool {
    &&& s.len() == 10
    &&& s[4] == '-'
    &&& s[7] == '-'
    &&& text::all_digits(s.subrange(0, 4))
    &&& text::all_digits(s.subrange(5, 7))
    &&& text::all_digits(s.subrange(8, 10))
}

/// Tells whether every character is an ASCII digit.
fn digits_only(s: &[char]) -> (r: bool)
    ensures
        r == text::all_digits(s@),
{
    let mut i: usize = 0;
    while i < s.len()
        invariant
            i <= s@.len(),
            forall|j: int| 0 <= j < i ==> text::is_digit(#[trigger] s@[j]),
        decreases s@.len() - i,
    {
        if !('0' <= s[i] && s[i] <= '9') {
            assert(!text::is_digit(s@[i as int]));
            return false;
        }
        i += 1;
    }
    true
}

/// Matches `YYYY-MM-DD` after trimming and returns the date. Only the shape is
/// looked at: the thirtieth of February passes.
pub fn match_iso_date(s: &str) -> (r: Option<String>)
    ensures
        match r {
            Some(d) => is_iso_date(text::trim(s@)) && d@ == text::trim(s@),
            None => !is_iso_date(text::trim(s@)),
        },
{
    let chars = chars_of(s);
    let t = trim_chars(chars.as_slice());
    if t.len() != 10 || t[4] != '-' || t[7] != '-' {
        return None;
    }
    if digits_only(slice_subrange(t, 0, 4)) && digits_only(slice_subrange(t, 5, 7)) && digits_only(
        slice_subrange(t, 8, 10),
    ) {
        Some(string_of(t))
    } else {
        None
    }
}

/// The kind of a chapter, and its year where it is a journal archive.
pub open spec fn chapter_class(name: Seq<char>, book: BookKind) -> (ChapterKind, Option<i32>) {
    let t = text::trim(name);
    if book != BookKind::Identity {
        (ChapterKind::Unclassified, None)
    } else if t == "Agents"@ {
        (ChapterKind::Agents, None)
    } else if t == "Subagent Conversations"@ {
        (ChapterKind::SubagentConversations, None)
    } else if t == "Journal"@ {
        (ChapterKind::JournalActive, None)
    } else {
        match archive_year(name) {
            Some(year) => (ChapterKind::JournalArchive, Some(year)),
            None => (ChapterKind::Unclassified, None),
        }
    }
}

/// Classifies a chapter by its name and the kind of its book. Only identity
/// books have classified chapters.
pub fn classify_chapter(name: &str, parent_book_kind: BookKind) -> (r: (ChapterKind, Option<i32>))
    ensures
        r == chapter_class(name@, parent_book_kind),
{
    if parent_book_kind != BookKind::Identity {
        return (ChapterKind::Unclassified, None);
    }
    let chars = chars_of(name);
    let t = trim_chars(chars.as_slice());
    let agents = chars_of("Agents");
    let conversations = chars_of("Subagent Conversations");
    let journal = chars_of("Journal");
    if same_chars(t, agents.as_slice()) {
        (ChapterKind::Agents, None)
    } else if same_chars(t, conversations.as_slice()) {
        (ChapterKind::SubagentConversations, None)
    } else if same_chars(t, journal.as_slice()) {
        (ChapterKind::JournalActive, None)
    } else {
        match parse_archive_year(name) {
            Some(year) => (ChapterKind::JournalArchive, Some(year)),
            None => (ChapterKind::Unclassified, None),
        }
    }
}

/// The text where it is not empty.
pub open spec fn non_empty(s: Seq<char>) -> Option<Seq<char>> {
    if s.len() > 0 {
        Some(s)
    } else {
        None
    }
}

/// The key of an agent page: what follows `Agent: ` in its name.
pub open spec fn agent_key(t: Seq<char>) -> Option<Seq<char>> {
    if text::starts_with(t, "Agent: "@) {
        non_empty(text::trim(t.skip("Agent: "@.len() as int)))
    } else {
        None
    }
}

/// The kind, key and archive year of a page. The chapter decides where it is
/// classified, else the book.
pub open spec fn page_class(
    name: Seq<char>,
    book: BookKind,
    chapter: Option<ChapterKind>,
    chapter_year: Option<i32>,
) -> (PageKind, Option<Seq<char>>, Option<i32>) {
    let t = text::trim(name);
    match chapter {
        Some(ChapterKind::Agents) => (PageKind::Agent, agent_key(t), None),
        Some(ChapterKind::SubagentConversations) => (
            PageKind::SubagentConversation,
            non_empty(t),
            None,
        ),
        Some(ChapterKind::JournalActive) => if is_iso_date(t) {
            (PageKind::JournalEntry, Some(t), None)
        } else {
            (PageKind::Unclassified, None, None)
        },
        Some(ChapterKind::JournalArchive) => if is_iso_date(t) {
            (PageKind::JournalEntry, Some(t), chapter_year)
        } else {
            (PageKind::Unclassified, None, None)
        },
        _ => match book {
            BookKind::Identity | BookKind::UserIdentity => if t == "Identity"@ {
                (PageKind::Manifest, None, None)
            } else {
                (PageKind::Unclassified, None, None)
            },
            BookKind::Collage | BookKind::SharedCollage => (
                PageKind::CollageTopic,
                non_empty(t),
                None,
            ),
            BookKind::UserJournal => if is_iso_date(t) {
                (PageKind::JournalEntry, Some(t), None)
            } else {
                (PageKind::Unclassified, None, None)
            },
            BookKind::Unclassified => (PageKind::Unclassified, None, None),
        },
    }
}

/// The string where it is not empty.
fn string_if_any(s: &[char]) -> (r: Option<String>)
    ensures
        text::opt_text(r) == non_empty(s@),
{
    if s.len() > 0 {
        Some(string_of(s))
    } else {
        None
    }
}

/// Reads the key of an agent page.
fn read_agent_key(t: &[char]) -> (r: Option<String>)
    ensures
        text::opt_text(r) == agent_key(t@),
{
    let prefix = chars_of("Agent: ");
    if starts_with_chars(t, prefix.as_slice()) {
        let tail = slice_subrange(t, prefix.len(), t.len());
        assert(tail@ =~= t@.skip(prefix@.len() as int));
        string_if_any(trim_chars(tail))
    } else {
        None
    }
}

/// Classifies a page by its name and its parents. The key is what identifies
/// the page among its kind: the date of a journal entry, the name of an agent,
/// the title of a topic.
pub fn classify_page(
    name: &str,
    parent_book_kind: BookKind,
    parent_chapter_kind: Option<ChapterKind>,
    parent_chapter_archive_year: Option<i32>,
) -> (r: (PageKind, Option<String>, Option<i32>))
    ensures
        (r.0, text::opt_text(r.1), r.2) == page_class(
            name@,
            parent_book_kind,
            parent_chapter_kind,
            parent_chapter_archive_year,
        ),
{
    let chars = chars_of(name);
    let t = trim_chars(chars.as_slice());
    match parent_chapter_kind {
        Some(ChapterKind::Agents) => {
            return (PageKind::Agent, read_agent_key(t), None);
        },
        Some(ChapterKind::SubagentConversations) => {
            return (PageKind::SubagentConversation, string_if_any(t), None);
        },
        Some(ChapterKind::JournalActive) => {
            return match match_iso_date(name) {
                Some(date) => (PageKind::JournalEntry, Some(date), None),
                None => (PageKind::Unclassified, None, None),
            };
        },
        Some(ChapterKind::JournalArchive) => {
            return match match_iso_date(name) {
                Some(date) => (PageKind::JournalEntry, Some(date), parent_chapter_archive_year),
                None => (PageKind::Unclassified, None, None),
            };
        },
        Some(ChapterKind::Unclassified) | None => {},
    }
    match parent_book_kind {
        BookKind::Identity | BookKind::UserIdentity => {
            let manifest = chars_of("Identity");
            if same_chars(t, manifest.as_slice()) {
                (PageKind::Manifest, None, None)
            } else {
                (PageKind::Unclassified, None, None)
            }
        },
        BookKind::Collage | BookKind::SharedCollage => (
            PageKind::CollageTopic,
            string_if_any(t),
            None,
        ),
        BookKind::UserJournal => match match_iso_date(name) {
            Some(date) => (PageKind::JournalEntry, Some(date), None),
            None => (PageKind::Unclassified, None, None),
        },
        BookKind::Unclassified => (PageKind::Unclassified, None, None),
    }
}

// --- Laws of classification ---

/// Whitespace around a name never changes how anything is classified.
pub proof fn law_classes_ignore_outer_space(
    name: Seq<char>,
    shelf: ShelfKind,
    book: BookKind,
    chapter: Option<ChapterKind>,
    year: Option<i32>,
)
    ensures
        book_kind(text::trim(name), shelf) == book_kind(name, shelf),
        chapter_class(text::trim(name), book) == chapter_class(name, book),
        page_class(text::trim(name), book, chapter, year) == page_class(name, book, chapter, year),
{
    text::law_trim_idempotent(name);
}

/// Chapters are classified in identity books only, and exactly the journal
/// archives have a year, which has four digits.
pub proof fn law_chapter_class(name: Seq<char>, book: BookKind)
    ensures
        book != BookKind::Identity ==> chapter_class(name, book) == (
            ChapterKind::Unclassified,
            None::<i32>,
        ),
        chapter_class(name, book).1 is Some <==> chapter_class(name, book).0
            == ChapterKind::JournalArchive,
        chapter_class(name, book).1 matches Some(y) ==> 1900 <= y <= 9999,
{
    if let Some(y) = archive_year(name) {
        let t = text::trim(name);
        let rest = text::trim_start(t.skip("Journal Archive"@.len() as int));
        lemma_four_digits(text::trim(rest.skip(1)));
    }
}

/// What every page class obeys: a key is never empty; an unclassified page and
/// a manifest have none; a journal entry has its date as the key; and an
/// archive year comes only from the archive chapter of a journal entry.
pub proof fn law_page_class(
    name: Seq<char>,
    book: BookKind,
    chapter: Option<ChapterKind>,
    year: Option<i32>,
)
    ensures
        ({
            let (kind, key, archive) = page_class(name, book, chapter, year);
            &&& key matches Some(k) ==> k.len() > 0
            &&& kind == PageKind::Unclassified || kind == PageKind::Manifest ==> key is None
            &&& kind == PageKind::JournalEntry ==> (key matches Some(k) && is_iso_date(k))
            &&& archive is Some ==> kind == PageKind::JournalEntry && chapter == Some(
                ChapterKind::JournalArchive,
            ) && archive == year
        }),
{
}

/// A page of an unclassified book is classified by its chapter alone: without
/// a classified chapter it stays unclassified.
pub proof fn law_unclassified_book(name: Seq<char>, chapter: Option<ChapterKind>, year: Option<i32>)
    requires
        chapter is None || chapter == Some(ChapterKind::Unclassified),
    ensures
        page_class(name, BookKind::Unclassified, chapter, year) == (
            PageKind::Unclassified,
            None::<Seq<char>>,
            None::<i32>,
        ),
        chapter_class(name, BookKind::Unclassified).0 == ChapterKind::Unclassified,
        book_kind(name, ShelfKind::Unclassified) == BookKind::Unclassified,
{
}

} // verus!
