//! What holds of the text functions, told by the characters themselves.

use crate::text;
use vstd::prelude::*;

verus! {

// --- Occurrences ---

/// The needle stands in the text at the position.
pub open spec fn stands_at(hay: Seq<char>, needle: Seq<char>, i: int) -> bool {
    0 <= i && i + needle.len() <= hay.len() && forall|k: int|
        0 <= k < needle.len() ==> hay[i + k] == #[trigger] needle[k]
}

proof fn lemma_stands_at(hay: Seq<char>, needle: Seq<char>, i: int)
    ensures
        text::occurs_at(hay, needle, i) <==> stands_at(hay, needle, i),
{
    if text::occurs_at(hay, needle, i) {
        let part = hay.subrange(i, i + needle.len());
        assert forall|k: int| 0 <= k < needle.len() implies hay[i + k] == #[trigger] needle[k] by {
            assert(part[k] == hay[i + k]);
        }
    }
    if stands_at(hay, needle, i) {
        let part = hay.subrange(i, i + needle.len());
        assert forall|k: int| 0 <= k < needle.len() implies part[k] == needle[k] by {
            assert(hay[i + k] == needle[k]);
        }
        assert(part =~= needle);
    }
}

/// A search from a position finds the first place at or behind it where the needle
/// stands, and finds none only where there is none.
pub proof fn law_first_place_is_found(hay: Seq<char>, needle: Seq<char>, from: int)
    requires
        0 <= from,
    ensures
        match text::find_from(hay, needle, from) {
            Some(i) => from <= i && stands_at(hay, needle, i) && forall|k: int|
                from <= k < i ==> !#[trigger] stands_at(hay, needle, k),
            None => forall|k: int| from <= k ==> !#[trigger] stands_at(hay, needle, k),
        },
    decreases hay.len() + 1 - from,
{
    lemma_stands_at(hay, needle, from);
    if from + needle.len() <= hay.len() && !text::occurs_at(hay, needle, from) {
        law_first_place_is_found(hay, needle, from + 1);
    }
}

/// A search from behind finds the last place where the needle stands, and finds none
/// only where there is none.
pub proof fn law_last_place_is_found(hay: Seq<char>, needle: Seq<char>)
    ensures
        match text::find_last(hay, needle, hay.len() as int) {
            Some(i) => stands_at(hay, needle, i) && forall|k: int|
                i < k ==> !#[trigger] stands_at(hay, needle, k),
            None => forall|k: int| !#[trigger] stands_at(hay, needle, k),
        },
{
    lemma_last_place(hay, needle, hay.len() as int);
}

proof fn lemma_last_place(hay: Seq<char>, needle: Seq<char>, n: int)
    requires
        -1 <= n <= hay.len(),
    ensures
        match text::find_last(hay, needle, n) {
            Some(i) => i <= n && stands_at(hay, needle, i) && forall|k: int|
                i < k <= n ==> !#[trigger] stands_at(hay, needle, k),
            None => forall|k: int| k <= n ==> !#[trigger] stands_at(hay, needle, k),
        },
    decreases n + 1,
{
    lemma_stands_at(hay, needle, n);
    if 0 <= n && !text::occurs_at(hay, needle, n) {
        lemma_last_place(hay, needle, n - 1);
    }
}

/// What stands behind the last needle: a text with the needle ends in it, no needle
/// stands later, and a text without the needle is taken whole.
pub proof fn law_rest_is_behind_the_last(s: Seq<char>, needle: Seq<char>)
    ensures
        forall|i: int| #[trigger]
            stands_at(s, needle, i) && (forall|k: int| i < k ==> !#[trigger] stands_at(s, needle, k))
                ==> text::after_last(s, needle) == s.skip(i + needle.len()),
        (forall|i: int| !#[trigger] stands_at(s, needle, i)) ==> text::after_last(s, needle) == s,
{
    law_last_place_is_found(s, needle);
    assert forall|i: int| #[trigger]
        stands_at(s, needle, i) && (forall|k: int|
            i < k ==> !#[trigger] stands_at(s, needle, k)) implies text::after_last(s, needle)
        == s.skip(i + needle.len()) by {
        let j = text::find_last(s, needle, s.len() as int)->0;
        assert(stands_at(s, needle, j));
    }
}

/// A text contains what stands between any two pieces of it, and nothing else.
pub proof fn law_text_contains_its_middle(
    before: Seq<char>,
    needle: Seq<char>,
    after: Seq<char>,
    hay: Seq<char>,
)
    ensures
        text::contains(before + needle + after, needle),
        text::contains(hay, needle) <==> exists|i: int| #[trigger] stands_at(hay, needle, i),
{
    law_first_place_is_found(before + needle + after, needle, 0);
    law_first_place_is_found(hay, needle, 0);
    assert(stands_at(before + needle + after, needle, before.len() as int));
    if text::contains(hay, needle) {
        let i = text::find_from(hay, needle, 0)->0;
        assert(stands_at(hay, needle, i));
    }
}

/// A text starts with its front and ends with its back, and with nothing that is not
/// there.
pub proof fn law_front_and_back(front: Seq<char>, back: Seq<char>, s: Seq<char>)
    ensures
        text::starts_with(front + back, front),
        text::ends_with(front + back, back),
        text::starts_with(s, front) <==> stands_at(s, front, 0),
        text::ends_with(s, back) <==> stands_at(s, back, s.len() - back.len()),
{
    assert((front + back).take(front.len() as int) =~= front);
    assert((front + back).skip((front + back).len() - back.len()) =~= back);
    lemma_stands_at(s, front, 0);
    lemma_stands_at(s, back, s.len() - back.len());
    if front.len() <= s.len() {
        assert(s.take(front.len() as int) =~= s.subrange(0, front.len() as int));
    }
    if back.len() <= s.len() {
        assert(s.skip(s.len() - back.len()) =~= s.subrange(s.len() - back.len(), s.len() as int));
    }
}

/// No part of a text that was split holds the separator.
pub proof fn law_parts_lack_the_separator(s: Seq<char>, sep: Seq<char>, k: int, i: int)
    requires
        sep.len() > 0,
        0 <= k < text::split_on(s, sep).len(),
    ensures
        !stands_at(text::split_on(s, sep)[k], sep, i),
    decreases s.len(),
{
    law_first_place_is_found(s, sep, 0);
    match text::find_from(s, sep, 0) {
        Some(f) => {
            let rest = s.skip(f + sep.len());
            if k == 0 {
                let part = s.take(f);
                if stands_at(part, sep, i) {
                    assert(stands_at(s, sep, i)) by {
                        assert forall|j: int| 0 <= j < sep.len() implies s[i + j]
                            == #[trigger] sep[j] by {
                            assert(part[i + j] == sep[j]);
                        }
                    }
                }
            } else {
                law_parts_lack_the_separator(rest, sep, k - 1, i);
                assert(text::split_on(s, sep)[k] == text::split_on(rest, sep)[k - 1]);
            }
        },
        None => {},
    }
}

// --- Spaces ---

/// Every character of the text is a space.
pub open spec fn blank(s: Seq<char>) -> bool {
    forall|i: int| 0 <= i < s.len() ==> text::is_space(#[trigger] s[i])
}

/// The two pieces that trimming takes off.
pub open spec fn is_trimming(s: Seq<char>, before: Seq<char>, after: Seq<char>) -> bool {
    blank(before) && blank(after) && s == before + text::trim(s) + after
}

/// Trimming takes off spaces at both ends and nothing else.
pub proof fn law_trimming_takes_off_spaces(s: Seq<char>)
    ensures
        exists|before: Seq<char>, after: Seq<char>| #[trigger] is_trimming(s, before, after),
{
    let before = lemma_trimmed_start(s);
    let after = lemma_trimmed_end(text::trim_start(s));
    assert(s =~= before + text::trim(s) + after);
    assert(is_trimming(s, before, after));
}

proof fn lemma_trimmed_start(s: Seq<char>) -> (before: Seq<char>)
    ensures
        blank(before),
        s == before + text::trim_start(s),
    decreases s.len(),
{
    if s.len() > 0 && text::is_space(s[0]) {
        let rest = s.subrange(1, s.len() as int);
        let more = lemma_trimmed_start(rest);
        let before = seq![s[0]] + more;
        assert(s =~= seq![s[0]] + rest);
        assert(s =~= before + text::trim_start(s));
        before
    } else {
        assert(s =~= Seq::<char>::empty() + s);
        Seq::empty()
    }
}

proof fn lemma_trimmed_end(s: Seq<char>) -> (after: Seq<char>)
    ensures
        blank(after),
        s == text::trim_end(s) + after,
    decreases s.len(),
{
    if s.len() > 0 && text::is_space(s.last()) {
        let more = lemma_trimmed_end(s.drop_last());
        let after = more.push(s.last());
        assert(s =~= s.drop_last().push(s.last()));
        assert(s =~= text::trim_end(s) + after);
        after
    } else {
        assert(s =~= s + Seq::<char>::empty());
        Seq::empty()
    }
}

/// Spaces are the characters with the white space property: tab to carriage return,
/// the space, the next line, and the spaces and separators of the general area.
pub proof fn law_spaces(c: char)
    ensures
        text::is_space(c) <==> {
            let n = c as u32;
            ||| 9 <= n <= 13
            ||| n == 32 || n == 133 || n == 160 || n == 5760
            ||| 8192 <= n <= 8202
            ||| n == 8232 || n == 8233 || n == 8239 || n == 8287 || n == 12288
        },
{
}

// --- Letters ---

/// Lowering changes the capital letters of ASCII, each to its small letter, and no
/// other character.
pub proof fn law_lowering(c: char)
    ensures
        65 <= c as u32 <= 90 ==> text::ascii_lower(c) as u32 == c as u32 + 32,
        !(65 <= c as u32 <= 90) ==> text::ascii_lower(c) == c,
{
}

/// A text stands before another where it is a proper beginning of it, or where at the
/// first place at which they differ it has the smaller character.
pub open spec fn differs_first_at(a: Seq<char>, b: Seq<char>, k: int) -> bool {
    &&& 0 <= k <= a.len() && k < b.len()
    &&& forall|j: int| 0 <= j < k ==> #[trigger] a[j] == b[j]
    &&& k == a.len() || a[k] < b[k]
}

/// Texts are ordered by their characters, from the front.
pub proof fn law_order_goes_by_characters(a: Seq<char>, b: Seq<char>)
    ensures
        text::precedes(a, b) <==> exists|k: int| #[trigger] differs_first_at(a, b, k),
{
    lemma_order(a, b, 0);
}

proof fn lemma_order(a: Seq<char>, b: Seq<char>, i: int)
    requires
        0 <= i <= a.len(),
        forall|j: int| 0 <= j < i ==> j < b.len() && #[trigger] a[j] == b[j],
    ensures
        text::precedes_from(a, b, i) <==> exists|k: int| #[trigger] differs_first_at(a, b, k),
    decreases a.len() - i,
{
    if i < b.len() && i < a.len() && a[i] == b[i] {
        lemma_order(a, b, i + 1);
    } else {
        if text::precedes_from(a, b, i) {
            assert(differs_first_at(a, b, i));
        }
        if exists|k: int| #[trigger] differs_first_at(a, b, k) {
            let k = choose|k: int| #[trigger] differs_first_at(a, b, k);
            if k < i {
                assert(a[k] == b[k]);
            } else if i < k {
                assert(a[i] == b[i]);
            }
        }
    }
}

/// A text takes as many bytes as its characters: one up to U+7F, two up to U+7FF,
/// three up to U+FFFF and four above.
pub proof fn law_bytes_of_characters(s: Seq<char>, c: char)
    ensures
        text::utf8_len(Seq::<char>::empty()) == 0,
        text::utf8_len(s.push(c)) == text::utf8_len(s) + if (c as u32) < 128 {
            1int
        } else if (c as u32) < 2048 {
            2
        } else if (c as u32) < 65536 {
            3
        } else {
            4
        },
{
    assert(s.push(c).drop_last() =~= s);
}

// --- Numbers ---

/// Digits count in tens from the right.
pub proof fn law_digits_count_in_tens(s: Seq<char>, d: char)
    requires
        text::is_digit(d),
    ensures
        48 <= d as u32 <= 57,
        text::digits_value(Seq::<char>::empty()) == 0,
        text::digits_value(s.push(d)) == text::digits_value(s) * 10 + (d as u32 - 48),
{
    assert(s.push(d).drop_last() =~= s);
}

/// A number is written in digits alone, that have its value, and without a zero in
/// front unless it is zero.
pub proof fn law_number_is_written_shortest(n: nat)
    ensures
        text::all_digits(text::decimal(n)),
        text::digits_value(text::decimal(n)) == n,
        text::decimal(n).len() >= 1,
        n > 0 ==> text::decimal(n)[0] != '0',
        n == 0 ==> text::decimal(n).len() == 1,
    decreases n,
{
    let d = text::digit_char(n % 10);
    assert(text::is_digit(d) && d as u32 == 48 + n % 10);
    if n >= 10 {
        law_number_is_written_shortest(n / 10);
        law_digits_count_in_tens(text::decimal(n / 10), d);
        assert(text::decimal(n)[0] == text::decimal(n / 10)[0]);
    } else {
        let empty = Seq::<char>::empty();
        assert(text::decimal(n) =~= empty.push(d));
        law_digits_count_in_tens(empty, d);
    }
}

/// A text of digits alone.
pub open spec fn is_number(d: Seq<char>) -> bool {
    d.len() > 0 && forall|i: int| 0 <= i < d.len() ==> 48 <= (#[trigger] d[i]) as u32 <= 57
}

proof fn lemma_digit(c: char)
    ensures
        text::is_digit(c) <==> 48 <= c as u32 <= 57,
{
}

proof fn lemma_number(d: Seq<char>)
    ensures
        is_number(d) ==> text::all_digits(d) && d[0] != '+' && d[0] != '-',
{
    if is_number(d) {
        assert forall|i: int| 0 <= i < d.len() implies text::is_digit(#[trigger] d[i]) by {
            lemma_digit(d[i]);
        }
        assert(text::is_digit(d[0]));
    }
}

/// Digits, with or without a plus in front, are read as their value where it is not
/// over the limit; nothing else is read.
pub proof fn law_unsigned_numbers_are_read(d: Seq<char>, max: nat, s: Seq<char>)
    requires
        is_number(d),
    ensures
        text::digits_value(d) <= max ==> text::parsed_uint(d, max) == Some(text::digits_value(d))
            && text::parsed_uint(seq!['+'] + d, max) == Some(text::digits_value(d)),
        text::digits_value(d) > max ==> text::parsed_uint(d, max) is None && text::parsed_uint(
            seq!['+'] + d,
            max,
        ) is None,
        text::parsed_uint(s, max) is Some ==> is_number(s) || (s.len() > 0 && s[0] == '+'
            && is_number(s.skip(1))),
{
    assert((seq!['+'] + d).skip(1) =~= d);
    lemma_number(d);
    if text::parsed_uint(s, max) is Some {
        let r = if s.len() > 0 && s[0] == '+' {
            s.skip(1)
        } else {
            s
        };
        assert(text::all_digits(r));
        assert forall|i: int| 0 <= i < r.len() implies 48 <= (#[trigger] r[i]) as u32 <= 57 by {
            assert(text::is_digit(r[i]));
        }
    }
}

/// Digits, with or without a sign in front, are read as the signed number where it
/// fits; nothing else is read.
pub proof fn law_signed_numbers_are_read(d: Seq<char>, s: Seq<char>)
    requires
        is_number(d),
    ensures
        ({
            let v = text::digits_value(d) as int;
            &&& v <= i64::MAX ==> text::parsed_i64(d) == Some(v) && text::parsed_i64(seq!['+'] + d)
                == Some(v)
            &&& v > i64::MAX ==> text::parsed_i64(d) is None && text::parsed_i64(
                seq!['+'] + d,
            ) is None
            &&& -v >= i64::MIN ==> text::parsed_i64(seq!['-'] + d) == Some(-v)
            &&& -v < i64::MIN ==> text::parsed_i64(seq!['-'] + d) is None
        }),
        text::parsed_i64(s) is Some ==> is_number(s) || (s.len() > 0 && (s[0] == '+' || s[0] == '-')
            && is_number(s.skip(1))),
{
    law_unsigned_numbers_are_read(d, 9223372036854775807, s);
    assert((seq!['-'] + d).skip(1) =~= d);
    lemma_number(d);
    if text::parsed_i64(s) is Some && s[0] == '-' {
        let r = s.skip(1);
        assert(text::all_digits(r));
        assert forall|i: int| 0 <= i < r.len() implies 48 <= (#[trigger] r[i]) as u32 <= 57 by {
            assert(text::is_digit(r[i]));
        }
    }
}

} // verus!
