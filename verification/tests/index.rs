use bsmcp::index::{
    classify_book, classify_chapter, classify_page, classify_shelf, match_iso_date,
    parse_archive_year, BookKind, ChapterKind, PageKind, ShelfKind,
};
use std::str::FromStr;

/// Every shelf is unclassified; stored rows may still carry the older kinds.
#[test]
fn shelf_classification_is_always_unclassified() {
    assert_eq!(classify_shelf(927), ShelfKind::Unclassified);
    assert_eq!(classify_shelf(2023), ShelfKind::Unclassified);
    assert_eq!(classify_shelf(0), ShelfKind::Unclassified);
}

#[test]
fn book_classification_on_hive_shelf() {
    let h = ShelfKind::Hive;
    assert_eq!(classify_book("Pia Identity", h), BookKind::Identity);
    assert_eq!(classify_book("Apis's Identity", h), BookKind::Identity);
    assert_eq!(classify_book("  Pia Identity  ", h), BookKind::Identity); // trims
    assert_eq!(classify_book("Pia's Collage", h), BookKind::Collage);
    assert_eq!(
        classify_book("Cross-Identity Collage", h),
        BookKind::SharedCollage
    );
    assert_eq!(classify_book("Some Random Book", h), BookKind::Unclassified);
}

#[test]
fn book_classification_on_user_journals_shelf() {
    let u = ShelfKind::UserJournals;
    assert_eq!(
        classify_book("nate@example.com — Identity", u),
        BookKind::UserIdentity
    );
    assert_eq!(
        classify_book("nate@example.com - Identity", u),
        BookKind::UserIdentity
    );
    assert_eq!(classify_book("Journal", u), BookKind::UserJournal);
    assert_eq!(classify_book("Nate's Journal", u), BookKind::UserJournal);
    assert_eq!(classify_book("Random Notes", u), BookKind::Unclassified);
}

#[test]
fn book_classification_on_unclassified_shelf_is_always_unclassified() {
    let s = ShelfKind::Unclassified;
    assert_eq!(classify_book("Pia Identity", s), BookKind::Unclassified);
    assert_eq!(
        classify_book("Cross-Identity Collage", s),
        BookKind::Unclassified
    );
}

#[test]
fn chapter_classification() {
    assert_eq!(
        classify_chapter("Agents", BookKind::Identity),
        (ChapterKind::Agents, None)
    );
    assert_eq!(
        classify_chapter("Subagent Conversations", BookKind::Identity),
        (ChapterKind::SubagentConversations, None)
    );
    assert_eq!(
        classify_chapter("Journal", BookKind::Identity),
        (ChapterKind::JournalActive, None)
    );
    assert_eq!(
        classify_chapter("Journal Archive - 2025", BookKind::Identity),
        (ChapterKind::JournalArchive, Some(2025))
    );
    assert_eq!(
        classify_chapter("Journal Archive - 2024", BookKind::Identity),
        (ChapterKind::JournalArchive, Some(2024))
    );
    // Tolerates whitespace.
    assert_eq!(
        classify_chapter("  Journal Archive - 2026  ", BookKind::Identity),
        (ChapterKind::JournalArchive, Some(2026))
    );
    assert_eq!(
        classify_chapter("Random Chapter", BookKind::Identity),
        (ChapterKind::Unclassified, None)
    );
}

#[test]
fn chapter_classification_outside_identity_is_always_unclassified() {
    assert_eq!(
        classify_chapter("Agents", BookKind::Collage),
        (ChapterKind::Unclassified, None)
    );
    assert_eq!(
        classify_chapter("Journal", BookKind::UserJournal),
        (ChapterKind::Unclassified, None)
    );
}

#[test]
fn page_classification_inside_agents_chapter() {
    let (k, key, year) = classify_page(
        "Agent: pia-journal-agent",
        BookKind::Identity,
        Some(ChapterKind::Agents),
        None,
    );
    assert_eq!(k, PageKind::Agent);
    assert_eq!(key.as_deref(), Some("pia-journal-agent"));
    assert_eq!(year, None);
}

#[test]
fn page_classification_inside_journal_active() {
    let (k, key, year) = classify_page(
        "2026-04-27",
        BookKind::Identity,
        Some(ChapterKind::JournalActive),
        None,
    );
    assert_eq!(k, PageKind::JournalEntry);
    assert_eq!(key.as_deref(), Some("2026-04-27"));
    assert_eq!(year, None);
}

#[test]
fn page_classification_inside_journal_archive_includes_year() {
    let (k, key, year) = classify_page(
        "2025-12-31",
        BookKind::Identity,
        Some(ChapterKind::JournalArchive),
        Some(2025),
    );
    assert_eq!(k, PageKind::JournalEntry);
    assert_eq!(key.as_deref(), Some("2025-12-31"));
    assert_eq!(year, Some(2025));
}

#[test]
fn page_classification_non_iso_in_journal_chapter_is_unclassified() {
    let (k, key, _) = classify_page(
        "Random Note",
        BookKind::Identity,
        Some(ChapterKind::JournalActive),
        None,
    );
    assert_eq!(k, PageKind::Unclassified);
    assert!(key.is_none());
}

#[test]
fn page_classification_loose_at_identity_root() {
    // "Identity" at book root → manifest.
    let (k, key, _) = classify_page("Identity", BookKind::Identity, None, None);
    assert_eq!(k, PageKind::Manifest);
    assert!(key.is_none());

    // Anything else at the identity book root is a stray page.
    let (k, _, _) = classify_page("Some Stray Page", BookKind::Identity, None, None);
    assert_eq!(k, PageKind::Unclassified);
}

#[test]
fn page_classification_in_collage_book() {
    let (k, key, _) = classify_page("The Practice", BookKind::Collage, None, None);
    assert_eq!(k, PageKind::CollageTopic);
    assert_eq!(key.as_deref(), Some("The Practice"));
}

#[test]
fn page_classification_legacy_user_journal_at_book_root() {
    // Older journals have their entries at the root of the book.
    let (k, key, _) = classify_page("2026-04-27", BookKind::UserJournal, None, None);
    assert_eq!(k, PageKind::JournalEntry);
    assert_eq!(key.as_deref(), Some("2026-04-27"));
}

#[test]
fn iso_date_parser_rejects_garbage() {
    assert!(match_iso_date("2026-04-27").is_some());
    assert!(match_iso_date("2026/04/27").is_none()); // slashes not hyphens
    assert!(match_iso_date("2026-4-27").is_none()); // single-digit month
    assert!(match_iso_date("Random").is_none());
    assert!(match_iso_date("").is_none());
}

#[test]
fn archive_year_parser_rejects_garbage() {
    assert_eq!(parse_archive_year("Journal Archive - 2025"), Some(2025));
    assert_eq!(parse_archive_year("Journal Archive  -  2025"), Some(2025));
    assert_eq!(parse_archive_year("Journal Archive - 25"), None); // too short
    assert_eq!(parse_archive_year("Archive - 2025"), None); // wrong prefix
    assert_eq!(parse_archive_year("Journal - 2025"), None); // wrong prefix
    assert_eq!(parse_archive_year("Journal Archive - abcd"), None);
}

#[test]
fn kind_str_roundtrip() {
    for k in [
        ShelfKind::Hive,
        ShelfKind::UserJournals,
        ShelfKind::Unclassified,
    ] {
        assert_eq!(ShelfKind::from_str(k.as_str()), Ok(k));
    }
    for k in [
        BookKind::Identity,
        BookKind::Collage,
        BookKind::SharedCollage,
        BookKind::UserIdentity,
        BookKind::UserJournal,
        BookKind::Unclassified,
    ] {
        assert_eq!(BookKind::from_str(k.as_str()), Ok(k));
    }
    for k in [
        ChapterKind::Agents,
        ChapterKind::SubagentConversations,
        ChapterKind::JournalActive,
        ChapterKind::JournalArchive,
        ChapterKind::Unclassified,
    ] {
        assert_eq!(ChapterKind::from_str(k.as_str()), Ok(k));
    }
    for k in [
        PageKind::Manifest,
        PageKind::Agent,
        PageKind::JournalEntry,
        PageKind::CollageTopic,
        PageKind::SubagentConversation,
        PageKind::Unclassified,
    ] {
        assert_eq!(PageKind::from_str(k.as_str()), Ok(k));
    }
}
