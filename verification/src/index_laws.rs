//! What holds of the classes of books, chapters and pages, told class by class.

use crate::index;
use crate::index::{BookKind, ChapterKind, PageKind, ShelfKind};
use crate::text;
use crate::text_laws;
use vstd::prelude::*;

verus! {

/// The text ends with the ending.
pub open spec fn ends_in(s: Seq<char>, ending: Seq<char>) -> bool {
    text_laws::stands_at(s, ending, s.len() - ending.len())
}

/// The text has the piece somewhere.
pub open spec fn has_piece(s: Seq<char>, piece: Seq<char>) -> bool {
    exists|i: int| #[trigger] text_laws::stands_at(s, piece, i)
}

/// When a book is of which kind. Names count without the spaces around them, and
/// books on other shelves have no kind.
pub proof fn law_kinds_of_books(name: Seq<char>, shelf: ShelfKind)
    ensures
        ({
            let t = text::trim(name);
            let kind = index::book_kind(name, shelf);
            let hive = shelf == ShelfKind::Hive;
            let journals = shelf == ShelfKind::UserJournals;
            let own = has_piece(t, " \u{2014} Identity"@) || has_piece(t, " - Identity"@);
            &&& kind == BookKind::Identity <==> hive && ends_in(t, " Identity"@)
            &&& kind == BookKind::SharedCollage <==> hive && t == "Cross-Identity Collage"@
            &&& kind == BookKind::Collage <==> hive && ends_in(t, " Collage"@) && t
                != "Cross-Identity Collage"@
            &&& kind == BookKind::UserIdentity <==> journals && own
            &&& kind == BookKind::UserJournal <==> journals && !own && (t == "Journal"@ || ends_in(
                t,
                " Journal"@,
            ))
        }),
{
    let t = text::trim(name);
    let none = Seq::<char>::empty();
    text_laws::law_front_and_back(none, " Identity"@, t);
    text_laws::law_front_and_back(none, " Collage"@, t);
    text_laws::law_front_and_back(none, " Journal"@, t);
    text_laws::law_text_contains_its_middle(none, " \u{2014} Identity"@, none, t);
    text_laws::law_text_contains_its_middle(none, " - Identity"@, none, t);
    reveal_strlit(" Identity");
    reveal_strlit(" Collage");
    reveal_strlit("Cross-Identity Collage");
    if ends_in(t, " Identity"@) {
        assert(t[t.len() - 9 + 8] == " Identity"@[8]);
        if ends_in(t, " Collage"@) {
            assert(t[t.len() - 8 + 7] == " Collage"@[7]);
        }
        if t == "Cross-Identity Collage"@ {
            assert(t[t.len() - 1] == 'e');
        }
    }
}

/// A text that starts and ends without a space is its own trimming.
proof fn lemma_trimmed(s: Seq<char>)
    requires
        s.len() > 0,
        !text::is_space(s[0]),
        !text::is_space(s.last()),
    ensures
        text::trim(s) == s,
        text::trim_start(s) == s,
{
}

proof fn lemma_leading_blank(blank: Seq<char>, s: Seq<char>)
    requires
        text_laws::blank(blank),
        s.len() > 0,
        !text::is_space(s[0]),
    ensures
        text::trim_start(blank + s) == s,
    decreases blank.len(),
{
    if blank.len() == 0 {
        assert(blank + s =~= s);
    } else {
        assert(text::is_space(blank[0]));
        assert((blank + s).subrange(1, (blank + s).len() as int) =~= blank.skip(1) + s);
        lemma_leading_blank(blank.skip(1), s);
    }
}

/// An archive is named by its year, behind a dash with spaces around it or without.
pub proof fn law_archives_name_their_year(year: int, before: Seq<char>, after: Seq<char>)
    requires
        1900 <= year <= 9999,
        text_laws::blank(before),
        text_laws::blank(after),
    ensures
        index::archive_year("Journal Archive"@ + before + "-"@ + after + text::decimal(year as nat))
            == Some(year as i32),
{
    reveal_strlit("Journal Archive");
    reveal_strlit("-");
    let y = text::decimal(year as nat);
    text_laws::law_number_is_written_shortest(year as nat);
    lemma_four_long(year);
    assert(text::is_digit(y[0]) && text::is_digit(y[3]));
    let name = "Journal Archive"@ + before + "-"@ + after + y;
    assert(name[0] == 'J');
    assert(name.last() == y[3]);
    lemma_trimmed(name);
    let rest = "-"@ + after + y;
    assert(name.take(15) =~= "Journal Archive"@);
    assert(name.skip(15) =~= before + rest);
    lemma_leading_blank(before, rest);
    assert(rest.skip(1) =~= after + y);
    lemma_leading_blank(after, y);
    lemma_trimmed(y);
    lemma_trimmed_behind(after, y);
}

proof fn lemma_trimmed_behind(blank: Seq<char>, s: Seq<char>)
    requires
        text_laws::blank(blank),
        s.len() > 0,
        !text::is_space(s[0]),
        !text::is_space(s.last()),
    ensures
        text::trim(blank + s) == s,
{
    lemma_leading_blank(blank, s);
    lemma_trimmed(s);
}

proof fn lemma_four_long(year: int)
    requires
        1900 <= year <= 9999,
    ensures
        text::decimal(year as nat).len() == 4,
{
    let n = year as nat;
    reveal_with_fuel(text::decimal, 5);
    assert(text::decimal(n / 1000).len() == 1);
    assert(n / 10 / 10 == n / 100 && n / 10 / 10 / 10 == n / 1000);
    assert(text::decimal(n / 100).len() == 2);
    assert(text::decimal(n / 10).len() == 3);
}

/// Only a name that starts as an archive's does names a year, and the year is one of
/// four digits that is not before 1900.
pub proof fn law_only_archives_name_a_year(name: Seq<char>)
    ensures
        index::archive_year(name) matches Some(y) ==> {
            let t = text::trim(name);
            &&& text_laws::stands_at(t, "Journal Archive"@, 0)
            &&& 1900 <= y <= 9999
        },
{
    let t = text::trim(name);
    text_laws::law_front_and_back("Journal Archive"@, Seq::empty(), t);
    index::law_chapter_class(name, BookKind::Identity);
    if index::archive_year(name) is Some {
        reveal_strlit("Journal Archive");
        let rest = text::trim_start(t.skip(15));
        let year = text::trim(rest.skip(1));
        lemma_value_of_four(year);
    }
}

proof fn lemma_value_of_four(s: Seq<char>)
    requires
        s.len() == 4,
        text::all_digits(s),
    ensures
        text::digits_value(s) <= 9999,
{
    reveal_with_fuel(text::digits_value, 5);
    assert(text::is_digit(s[0]) && text::is_digit(s[1]) && text::is_digit(s[2]) && text::is_digit(
        s[3],
    ));
    let a = s.drop_last();
    let b = a.drop_last();
    let c = b.drop_last();
    assert(a.last() == s[2] && b.last() == s[1] && c.last() == s[0]);
    assert(c.drop_last().len() == 0);
}

/// When a chapter is of which kind: only in a book of an identity.
pub proof fn law_kinds_of_chapters(name: Seq<char>, book: BookKind)
    ensures
        ({
            let t = text::trim(name);
            let kind = index::chapter_class(name, book).0;
            let own = book == BookKind::Identity;
            &&& kind == ChapterKind::Agents <==> own && t == "Agents"@
            &&& kind == ChapterKind::SubagentConversations <==> own && t
                == "Subagent Conversations"@
            &&& kind == ChapterKind::JournalActive <==> own && t == "Journal"@
            &&& kind == ChapterKind::JournalArchive <==> own && index::archive_year(name) is Some
            &&& kind == ChapterKind::JournalArchive ==> index::chapter_class(name, book).1
                == index::archive_year(name)
        }),
{
    let t = text::trim(name);
    reveal_strlit("Agents");
    reveal_strlit("Subagent Conversations");
    reveal_strlit("Journal");
    reveal_strlit("Journal Archive");
    assert("Agents"@[0] == 'A' && "Subagent Conversations"@[0] == 'S' && "Journal"@[0] == 'J');
    if index::archive_year(name) is Some {
        assert(t.take(15)[0] == 'J');
        assert(t.len() >= 15);
    }
}

/// A date is written as four, two and two digits with dashes between.
pub proof fn law_dates_have_their_form(s: Seq<char>)
    ensures
        index::is_iso_date(s) <==> s.len() == 10 && forall|i: int|
            0 <= i < 10 ==> if i == 4 || i == 7 {
                #[trigger] s[i] == '-'
            } else {
                text::is_digit(s[i])
            },
{
    if index::is_iso_date(s) {
        assert forall|i: int| 0 <= i < 10 implies if i == 4 || i == 7 {
            #[trigger] s[i] == '-'
        } else {
            text::is_digit(s[i])
        } by {
            if i < 4 {
                assert(s.subrange(0, 4)[i] == s[i]);
            } else if 4 < i < 7 {
                assert(s.subrange(5, 7)[i - 5] == s[i]);
            } else if i > 7 {
                assert(s.subrange(8, 10)[i - 8] == s[i]);
            }
        }
    }
}

/// When a page is of which kind, by the chapter it is in or, outside the chapters
/// that have a kind, by its book.
pub proof fn law_kinds_of_pages(
    name: Seq<char>,
    book: BookKind,
    chapter: Option<ChapterKind>,
    year: Option<i32>,
)
    ensures
        ({
            let t = text::trim(name);
            let kind = index::page_class(name, book, chapter, year).0;
            let loose = chapter is None || chapter == Some(ChapterKind::Unclassified);
            let journal = chapter == Some(ChapterKind::JournalActive) || chapter == Some(
                ChapterKind::JournalArchive,
            ) || (loose && book == BookKind::UserJournal);
            &&& kind == PageKind::Agent <==> chapter == Some(ChapterKind::Agents)
            &&& kind == PageKind::SubagentConversation <==> chapter == Some(
                ChapterKind::SubagentConversations,
            )
            &&& kind == PageKind::JournalEntry <==> journal && index::is_iso_date(t)
            &&& kind == PageKind::Manifest <==> loose && (book == BookKind::Identity || book
                == BookKind::UserIdentity) && t == "Identity"@
            &&& kind == PageKind::CollageTopic <==> loose && (book == BookKind::Collage || book
                == BookKind::SharedCollage)
        }),
{
}

/// The key of a page: its date, its topic or its conversation as it is named, or the
/// name of its agent. An empty key is none. A year is kept for an archived entry.
pub proof fn law_keys_of_pages(
    name: Seq<char>,
    book: BookKind,
    chapter: Option<ChapterKind>,
    year: Option<i32>,
    agent: Seq<char>,
)
    ensures
        ({
            let t = text::trim(name);
            let (kind, key, archive) = index::page_class(name, book, chapter, year);
            &&& kind == PageKind::JournalEntry ==> key == Some(t)
            &&& kind == PageKind::SubagentConversation || kind == PageKind::CollageTopic ==> if t.len()
                == 0 {
                key is None
            } else {
                key == Some(t)
            }
            &&& kind == PageKind::Agent && t == "Agent: "@ + agent && text::trim(agent).len() > 0
                ==> key == Some(text::trim(agent))
            &&& kind == PageKind::Agent && (!text_laws::stands_at(t, "Agent: "@, 0) || (t
                == "Agent: "@ + agent && text::trim(agent).len() == 0)) ==> key is None
            &&& archive is Some ==> archive == year
            &&& kind == PageKind::JournalEntry && chapter == Some(ChapterKind::JournalArchive)
                ==> archive == year
        }),
{
    let t = text::trim(name);
    reveal_strlit("Agent: ");
    text_laws::law_front_and_back("Agent: "@, agent, t);
    assert(("Agent: "@ + agent).skip(7) =~= agent);
}

} // verus!
