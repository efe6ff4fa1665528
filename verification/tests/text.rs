use bsmcp::text::{
    after_last_chars, chars_of, find_last_chars, join_chars, lowers_to_word, parse_i64,
    parse_uint, split_chars, string_of, text_before, trim_chars,
};
use bsmcp::types::ScopeFilter;

fn c(s: &str) -> Vec<char> {
    chars_of(s)
}

#[test]
fn numbers_are_parsed_as_the_standard_library_does() {
    for s in [
        "0", "-0", "+7", "42", "-9223372036854775808", "9223372036854775807",
        "9223372036854775808", "-9223372036854775809", "", "-", "+", " 1", "1 ", "1_0", "--1",
        "00012", "\u{663}",
    ] {
        assert_eq!(parse_i64(&c(s)), s.parse::<i64>().ok(), "{s:?}");
        assert_eq!(parse_uint(&c(s), u64::MAX), s.parse::<u64>().ok(), "{s:?}");
        assert_eq!(
            parse_uint(&c(s), u16::MAX as u64),
            s.parse::<u16>().ok().map(u64::from),
            "{s:?}"
        );
    }
}

#[test]
fn texts_are_trimmed_as_the_standard_library_does() {
    for s in ["", "  ", " a b ", "\u{a0}x\u{2003}", "\u{85}\u{3000}y\u{200b}", "\tz\n"] {
        assert_eq!(string_of(trim_chars(&c(s))), s.trim(), "{s:?}");
    }
}

#[test]
fn lower_case_words_are_recognized_as_the_standard_library_does() {
    for s in ["worker", "WORKER", "WoRKeR", "wor\u{212a}er", "worer", "\u{130}", "w\u{f6}rker"] {
        assert_eq!(lowers_to_word(&c(s), &c("worker")), s.to_lowercase() == "worker", "{s:?}");
    }
}

#[test]
fn the_last_occurrence_is_found() {
    for (hay, needle) in [("/page/page/", "/page/"), ("aXbXc", "X"), ("abc", "x"), ("aaa", "aa")] {
        assert_eq!(
            string_of(after_last_chars(&c(hay), &c(needle))),
            hay.rsplit(needle).next().unwrap(),
            "{hay} {needle}"
        );
    }
    assert_eq!(find_last_chars(&c("abab"), &c("ab")), Some(2));
}

#[test]
fn texts_are_split_and_joined() {
    let parts = split_chars(&c("a, b, , c"), &c(", "));
    assert_eq!(parts.len(), 4);
    assert_eq!(string_of(&join_chars(&parts, &c(", "))), "a, b, , c");
}

#[test]
fn texts_are_ordered_as_the_standard_library_does() {
    for (a, b) in [("a", "b"), ("", "a"), ("a", "a"), ("ab", "b"), ("\u{e9}", "z"), ("Z", "a")] {
        assert_eq!(text_before(a, b), a < b, "{a} {b}");
        assert_eq!(text_before(b, a), b < a, "{a} {b}");
    }
}

#[test]
fn filters_are_merged_and_tidied() {
    let mut a = ScopeFilter {
        shelf_ids: vec![],
        book_ids: vec![3, 1, 3],
        chapter_ids: vec![],
        page_ids: vec![],
    };
    assert!(!a.is_empty());
    let b = ScopeFilter {
        shelf_ids: vec![9],
        book_ids: vec![2, 1],
        chapter_ids: vec![],
        page_ids: vec![],
    };
    a.merge(&b);
    assert_eq!(a.book_ids, vec![3, 1, 3, 2, 1]);
    a.dedup();
    assert_eq!((a.book_ids, a.shelf_ids), (vec![1, 2, 3], vec![9]));
}
