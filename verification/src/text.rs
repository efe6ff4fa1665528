//! Character-level text helpers.
//!
//! Every string is modelled as its sequence of `char`s. Lengths that the rest
//! of the library measures in UTF-8 bytes go through [`utf8_len`].

use vstd::prelude::*;
use vstd::slice::{slice_subrange, slice_to_vec};

verus! {

/// Unicode `White_Space`: the characters that trimming and whitespace
/// normalisation act on.
pub open spec fn is_space(c: char) -> bool {
    ||| '\u{9}' <= c <= '\u{d}'
    ||| c == ' '
    ||| c == '\u{85}'
    ||| c == '\u{a0}'
    ||| c == '\u{1680}'
    ||| '\u{2000}' <= c <= '\u{200a}'
    ||| c == '\u{2028}'
    ||| c == '\u{2029}'
    ||| c == '\u{202f}'
    ||| c == '\u{205f}'
    ||| c == '\u{3000}'
}

/// Tells whether `c` is a whitespace character.
pub fn is_whitespace(c: char) -> (r: bool)
    ensures
        r == is_space(c),
{
    let n: u32 = c as u32;
    (0x9 <= n && n <= 0xd) || n == 0x20 || n == 0x85 || n == 0xa0 || n == 0x1680 || (0x2000 <= n
        && n <= 0x200a) || n == 0x2028 || n == 0x2029 || n == 0x202f || n == 0x205f || n == 0x3000
}

/// `s` without its leading whitespace.
pub open spec fn trim_start(s: Seq<char>) -> Seq<char>
    decreases s.len(),
{
    if s.len() > 0 && is_space(s[0]) {
        trim_start(s.subrange(1, s.len() as int))
    } else {
        s
    }
}

/// `s` without its trailing whitespace.
pub open spec fn trim_end(s: Seq<char>) -> Seq<char>
    decreases s.len(),
{
    if s.len() > 0 && is_space(s.last()) {
        trim_end(s.drop_last())
    } else {
        s
    }
}

/// `s` without its leading and trailing whitespace.
pub open spec fn trim(s: Seq<char>) -> Seq<char> {
    trim_end(trim_start(s))
}

/// The characters of `s`, in order.
pub fn chars_of(s: &str) -> (v: Vec<char>)
    ensures
        v@ == s@,
{
    let mut v: Vec<char> = Vec::new();
    for c in it: s.chars()
        invariant
            it.seq() == s@,
            v@ == s@.take(it.index() as int),
    {
        v.push(c);
    }
    assert(v@ == s@);
    v
}

/// The standard library's `String::push`: appends the character at the end of
/// the string.
pub assume_specification[ String::push ](s: &mut String, ch: char)
    ensures
        final(s)@ == old(s)@.push(ch),
;

/// The string made of the given characters.
pub fn string_of(v: &[char]) -> (s: String)
    ensures
        s@ == v@,
{
    let mut s = String::new();
    let n: usize = v.len();
    let mut i: usize = 0;
    while i < n
        invariant
            i <= n,
            n == v@.len(),
            s@ == v@.take(i as int),
        decreases n - i,
    {
        s.push(v[i]);
        i += 1;
    }
    assert(v@.take(n as int) == v@);
    s
}

/// Removes leading whitespace.
pub fn trim_start_chars<'a>(s: &'a [char]) -> (r: &'a [char])
    ensures
        r@ == trim_start(s@),
{
    let n: usize = s.len();
    let mut i: usize = 0;
    assert(s@.subrange(0, n as int) =~= s@);
    while i < n && is_whitespace(s[i])
        invariant
            i <= n,
            n == s@.len(),
            trim_start(s@) == trim_start(s@.subrange(i as int, n as int)),
        decreases n - i,
    {
        assert(s@.subrange(i as int, n as int).subrange(1, n - i) =~= s@.subrange(
            i + 1,
            n as int,
        ));
        i += 1;
    }
    slice_subrange(s, i, n)
}

/// Removes trailing whitespace.
pub fn trim_end_chars<'a>(s: &'a [char]) -> (r: &'a [char])
    ensures
        r@ == trim_end(s@),
{
    let mut n: usize = s.len();
    assert(s@.subrange(0, n as int) =~= s@);
    while n > 0 && is_whitespace(s[n - 1])
        invariant
            n <= s@.len(),
            trim_end(s@) == trim_end(s@.subrange(0, n as int)),
        decreases n,
    {
        assert(s@.subrange(0, n as int).drop_last() =~= s@.subrange(0, n - 1));
        n -= 1;
    }
    slice_subrange(s, 0, n)
}

/// Removes leading and trailing whitespace.
pub fn trim_chars<'a>(s: &'a [char]) -> (r: &'a [char])
    ensures
        r@ == trim(s@),
{
    trim_end_chars(trim_start_chars(s))
}


/// Bytes that UTF-8 uses for one character.
pub open spec fn char_width(c: char) -> nat {
    if c <= '\u{7f}' {
        1
    } else if c <= '\u{7ff}' {
        2
    } else if c <= '\u{ffff}' {
        3
    } else {
        4
    }
}

/// Bytes that UTF-8 uses for a string.
pub open spec fn utf8_len(s: Seq<char>) -> nat
    decreases s.len(),
{
    if s.len() == 0 {
        0
    } else {
        utf8_len(s.drop_last()) + char_width(s.last())
    }
}

/// Bytes that UTF-8 uses for `c`.
fn width_of(c: char) -> (w: u128)
    ensures
        w == char_width(c),
{
    let n: u32 = c as u32;
    if n <= 0x7f {
        1
    } else if n <= 0x7ff {
        2
    } else if n <= 0xffff {
        3
    } else {
        4
    }
}

/// The length of the UTF-8 form of `s`, in bytes.
pub fn byte_len(s: &[char]) -> (n: u128)
    ensures
        n == utf8_len(s@),
        n <= 4 * usize::MAX,
{
    let mut n: u128 = 0;
    let mut i: usize = 0;
    let total: usize = s.len();
    while i < total
        invariant
            i <= s@.len(),
            n == utf8_len(s@.take(i as int)),
            n <= 4 * i,
            total == s@.len(),
        decreases s@.len() - i,
    {
        let w: u128 = width_of(s[i]);
        assert(s@.take(i + 1).drop_last() =~= s@.take(i as int));
        n = n + w;
        i += 1;
    }
    assert(s@.take(i as int) =~= s@);
    n
}

/// UTF-8 length adds up over concatenation.
pub proof fn lemma_utf8_len_concat(a: Seq<char>, b: Seq<char>)
    ensures
        utf8_len(a + b) == utf8_len(a) + utf8_len(b),
    decreases b.len(),
{
    if b.len() == 0 {
        assert(a + b =~= a);
    } else {
        assert((a + b).drop_last() =~= a + b.drop_last());
        lemma_utf8_len_concat(a, b.drop_last());
    }
}

/// A string is empty exactly when its UTF-8 form is.
pub proof fn lemma_utf8_len_bounds(s: Seq<char>)
    ensures
        s.len() <= utf8_len(s) <= 4 * s.len(),
    decreases s.len(),
{
    if s.len() > 0 {
        lemma_utf8_len_bounds(s.drop_last());
    }
}

/// Tells whether two strings hold the same characters.
pub fn same_text(a: &str, b: &str) -> (r: bool)
    ensures
        r == (a@ == b@),
{
    a.to_owned() == b.to_owned()
}

/// Tells whether two character slices are equal.
pub fn same_chars(a: &[char], b: &[char]) -> (r: bool)
    ensures
        r == (a@ == b@),
{
    if a.len() != b.len() {
        return false;
    }
    let mut i: usize = 0;
    while i < a.len()
        invariant
            i <= a@.len(),
            a@.len() == b@.len(),
            a@.take(i as int) == b@.take(i as int),
        decreases a@.len() - i,
    {
        if a[i] != b[i] {
            return false;
        }
        assert(a@.take(i + 1) =~= a@.take(i as int).push(a@[i as int]));
        assert(b@.take(i + 1) =~= b@.take(i as int).push(b@[i as int]));
        i += 1;
    }
    assert(a@.take(i as int) =~= a@);
    assert(b@.take(i as int) =~= b@);
    true
}

/// Lower-cases the ASCII letters and leaves every other character.
pub open spec fn ascii_lower(c: char) -> char {
    if 'A' <= c <= 'Z' {
        ((c as u32) + 32) as char
    } else {
        c
    }
}

/// Equality up to the case of ASCII letters.
pub open spec fn eq_ignoring_ascii_case(a: Seq<char>, b: Seq<char>) -> bool {
    &&& a.len() == b.len()
    &&& forall|i: int| 0 <= i < a.len() ==> ascii_lower(#[trigger] a[i]) == ascii_lower(b[i])
}

/// The code of `c` after ASCII lower-casing.
fn lower_code(c: char) -> (r: u32)
    ensures
        r == ascii_lower(c) as u32,
{
    let n: u32 = c as u32;
    if 0x41 <= n && n <= 0x5a {
        n + 32
    } else {
        n
    }
}

/// Compares two character slices up to the case of ASCII letters.
pub fn eq_ignore_ascii_case(a: &[char], b: &[char]) -> (r: bool)
    ensures
        r == eq_ignoring_ascii_case(a@, b@),
{
    if a.len() != b.len() {
        return false;
    }
    let mut i: usize = 0;
    while i < a.len()
        invariant
            i <= a@.len(),
            a@.len() == b@.len(),
            forall|j: int| 0 <= j < i ==> ascii_lower(#[trigger] a@[j]) == ascii_lower(b@[j]),
        decreases a@.len() - i,
    {
        if lower_code(a[i]) != lower_code(b[i]) {
            assert(ascii_lower(a@[i as int]) != ascii_lower(b@[i as int]));
            return false;
        }
        i += 1;
    }
    true
}

/// `needle` stands in `hay` at position `i`.
pub open spec fn occurs_at(hay: Seq<char>, needle: Seq<char>, i: int) -> bool {
    &&& 0 <= i
    &&& i + needle.len() <= hay.len()
    &&& hay.subrange(i, i + needle.len()) == needle
}

/// The first position from `from` on at which `needle` stands in `hay`.
pub open spec fn find_from(hay: Seq<char>, needle: Seq<char>, from: int) -> Option<int>
    decreases hay.len() + 1 - from,
{
    if from < 0 || from + needle.len() > hay.len() {
        None
    } else if occurs_at(hay, needle, from) {
        Some(from)
    } else {
        find_from(hay, needle, from + 1)
    }
}

/// `needle` stands somewhere in `hay`.
pub open spec fn contains(hay: Seq<char>, needle: Seq<char>) -> bool {
    find_from(hay, needle, 0) is Some
}

/// `s` begins with `prefix`.
pub open spec fn starts_with(s: Seq<char>, prefix: Seq<char>) -> bool {
    prefix.len() <= s.len() && s.take(prefix.len() as int) == prefix
}

/// `s` ends with `suffix`.
pub open spec fn ends_with(s: Seq<char>, suffix: Seq<char>) -> bool {
    suffix.len() <= s.len() && s.skip(s.len() - suffix.len()) == suffix
}

/// Tells whether `needle` stands in `hay` at position `i`.
pub fn occurs_here(hay: &[char], needle: &[char], i: usize) -> (r: bool)
    ensures
        r == occurs_at(hay@, needle@, i as int),
{
    if i > hay.len() || hay.len() - i < needle.len() {
        return false;
    }
    let part = slice_subrange(hay, i, i + needle.len());
    same_chars(part, needle)
}

/// Searches for `needle` from position `from` on.
pub fn find_chars(hay: &[char], needle: &[char], from: usize) -> (r: Option<usize>)
    ensures
        match r {
            Some(i) => find_from(hay@, needle@, from as int) == Some(i as int) && from <= i && i
                + needle@.len() <= hay@.len(),
            None => find_from(hay@, needle@, from as int) is None,
        },
{
    let mut i: usize = from;
    while i <= hay.len() && needle.len() <= hay.len() - i
        invariant
            from <= i,
            i <= hay@.len() + 1 || i == from,
            find_from(hay@, needle@, from as int) == find_from(hay@, needle@, i as int),
        decreases hay@.len() + 1 - i,
    {
        if occurs_here(hay, needle, i) {
            return Some(i);
        }
        if i == hay.len() {
            assert(find_from(hay@, needle@, i + 1) is None);
            return None;
        }
        i += 1;
    }
    None
}

/// Tells whether `needle` stands somewhere in `hay`.
pub fn contains_chars(hay: &[char], needle: &[char]) -> (r: bool)
    ensures
        r == contains(hay@, needle@),
{
    match find_chars(hay, needle, 0) {
        Some(_) => true,
        None => false,
    }
}

/// Tells whether `s` begins with `prefix`.
pub fn starts_with_chars(s: &[char], prefix: &[char]) -> (r: bool)
    ensures
        r == starts_with(s@, prefix@),
{
    if prefix.len() > s.len() {
        return false;
    }
    let head = slice_subrange(s, 0, prefix.len());
    assert(head@ =~= s@.take(prefix@.len() as int));
    same_chars(head, prefix)
}

/// Tells whether `s` ends with `suffix`.
pub fn ends_with_chars(s: &[char], suffix: &[char]) -> (r: bool)
    ensures
        r == ends_with(s@, suffix@),
{
    if suffix.len() > s.len() {
        return false;
    }
    let tail = slice_subrange(s, s.len() - suffix.len(), s.len());
    assert(tail@ =~= s@.skip(s@.len() - suffix@.len()));
    same_chars(tail, suffix)
}

/// The pieces of `s` between the occurrences of `sep`, searched from the left.
/// A text without `sep` is one piece.
pub open spec fn split_on(s: Seq<char>, sep: Seq<char>) -> Seq<Seq<char>>
    decreases s.len(),
{
    if sep.len() == 0 {
        seq![s]
    } else {
        match find_from(s, sep, 0) {
            Some(i) => if 0 <= i && i + sep.len() <= s.len() {
                seq![s.take(i)] + split_on(s.skip(i + sep.len()), sep)
            } else {
                seq![s]
            },
            None => seq![s],
        }
    }
}

/// The parts with `sep` between each two of them.
pub open spec fn join_with(parts: Seq<Seq<char>>, sep: Seq<char>) -> Seq<char>
    decreases parts.len(),
{
    if parts.len() == 0 {
        Seq::empty()
    } else if parts.len() == 1 {
        parts[0]
    } else {
        join_with(parts.drop_last(), sep) + sep + parts.last()
    }
}

/// The text behind an optional string.
pub open spec fn opt_text(s: Option<String>) -> Option<Seq<char>> {
    match s {
        Some(v) => Some(v@),
        None => None,
    }
}

/// The text behind an optional string slice.
pub open spec fn opt_str(s: Option<&str>) -> Option<Seq<char>> {
    match s {
        Some(v) => Some(v@),
        None => None,
    }
}

/// The texts behind a list of strings.
pub open spec fn string_texts(v: Seq<String>) -> Seq<Seq<char>> {
    Seq::new(v.len(), |i: int| v[i]@)
}

/// The texts behind a list of character vectors.
pub open spec fn texts(v: Seq<Vec<char>>) -> Seq<Seq<char>> {
    Seq::new(v.len(), |i: int| v[i]@)
}

/// Splits `s` at the occurrences of `sep`.
pub fn split_chars(s: &[char], sep: &[char]) -> (r: Vec<Vec<char>>)
    requires
        sep@.len() > 0,
    ensures
        texts(r@) == split_on(s@, sep@),
{
    let mut parts: Vec<Vec<char>> = Vec::new();
    let mut pos: usize = 0;
    let n: usize = s.len();
    assert(s@.skip(0) =~= s@);
    assert(texts(parts@) + split_on(s@, sep@) =~= split_on(s@, sep@));
    loop
        invariant
            n == s@.len(),
            pos <= n,
            sep@.len() > 0,
            texts(parts@) + split_on(s@.skip(pos as int), sep@) == split_on(s@, sep@),
        decreases n - pos,
    {
        let rest = slice_subrange(s, pos, n);
        assert(rest@ =~= s@.skip(pos as int));
        match find_chars(rest, sep, 0) {
            Some(i) => {
                let piece = slice_to_vec(slice_subrange(rest, 0, i));
                let ghost before = parts@;
                proof {
                    let whole = s@.skip(pos as int);
                    assert(piece@ =~= whole.take(i as int));
                    assert(split_on(whole, sep@) == seq![whole.take(i as int)] + split_on(
                        whole.skip(i + sep@.len()),
                        sep@,
                    ));
                    assert(whole.skip(i + sep@.len()) =~= s@.skip(pos + i + sep@.len()));
                    assert(texts(before.push(piece)) =~= texts(before).push(piece@));
                    assert(texts(before) + (seq![piece@] + split_on(
                        s@.skip(pos + i + sep@.len()),
                        sep@,
                    )) =~= texts(before.push(piece)) + split_on(
                        s@.skip(pos + i + sep@.len()),
                        sep@,
                    ));
                }
                parts.push(piece);
                pos = pos + i + sep.len();
            },
            None => {
                let piece = slice_to_vec(rest);
                let ghost before = parts@;
                proof {
                    assert(piece@ =~= rest@);
                    assert(split_on(rest@, sep@) == seq![rest@]);
                    assert(texts(before.push(piece)) =~= texts(before) + seq![rest@]);
                }
                parts.push(piece);
                return parts;
            },
        }
    }
}

/// Joins the parts with `sep` between each two of them.
pub fn join_chars(parts: &[Vec<char>], sep: &[char]) -> (r: Vec<char>)
    ensures
        r@ == join_with(texts(parts@), sep@),
{
    let mut out: Vec<char> = Vec::new();
    let mut i: usize = 0;
    while i < parts.len()
        invariant
            i <= parts@.len(),
            out@ == join_with(texts(parts@).take(i as int), sep@),
        decreases parts@.len() - i,
    {
        let ghost all = texts(parts@);
        assert(all.take(i + 1).drop_last() =~= all.take(i as int));
        if i > 0 {
            extend_chars(&mut out, sep);
        }
        extend_chars(&mut out, parts[i].as_slice());
        assert(out@ =~= join_with(all.take(i + 1), sep@));
        i += 1;
    }
    assert(texts(parts@).take(i as int) =~= texts(parts@));
    out
}

/// Appends `more` to `out`.
pub fn extend_chars(out: &mut Vec<char>, more: &[char])
    ensures
        final(out)@ == old(out)@ + more@,
{
    let ghost start = out@;
    let mut i: usize = 0;
    assert(start + more@.take(0) =~= start);
    while i < more.len()
        invariant
            i <= more@.len(),
            out@ == start + more@.take(i as int),
        decreases more@.len() - i,
    {
        assert(start + more@.take(i + 1) =~= (start + more@.take(i as int)).push(more@[i as int]));
        out.push(more[i]);
        i += 1;
    }
    assert(more@.take(i as int) =~= more@);
}

/// Splitting at a separator loses nothing: joining the pieces with the same
/// separator gives the text back.
pub proof fn law_join_split(s: Seq<char>, sep: Seq<char>)
    requires
        sep.len() > 0,
    ensures
        join_with(split_on(s, sep), sep) == s,
        split_on(s, sep).len() >= 1,
    decreases s.len(),
{
    match find_from(s, sep, 0) {
        Some(i) => {
            lemma_find_occurs(s, sep, 0);
            let rest = s.skip(i + sep.len());
            law_join_split(rest, sep);
            let tail = split_on(rest, sep);
            assert(split_on(s, sep) == seq![s.take(i)] + tail);
            lemma_join_cons(s.take(i), tail, sep);
            assert(s.subrange(i, i + sep.len()) == sep);
            assert(s.take(i) + sep + rest =~= s);
        },
        None => {},
    }
}

/// A position that a search returns holds the searched text, and no earlier
/// position does.
pub proof fn lemma_find_occurs(hay: Seq<char>, needle: Seq<char>, from: int)
    ensures
        find_from(hay, needle, from) matches Some(i) ==> from <= i && occurs_at(hay, needle, i)
            && (forall|j: int| from <= j < i ==> !occurs_at(hay, needle, j)),
        find_from(hay, needle, from) is None && from >= 0 ==> (forall|j: int|
            from <= j ==> !occurs_at(hay, needle, j)),
    decreases hay.len() + 1 - from,
{
    if from < 0 || from + needle.len() > hay.len() {
    } else if occurs_at(hay, needle, from) {
    } else {
        lemma_find_occurs(hay, needle, from + 1);
    }
}

/// Joining with one more part in front.
proof fn lemma_join_cons(head: Seq<char>, tail: Seq<Seq<char>>, sep: Seq<char>)
    requires
        tail.len() > 0,
    ensures
        join_with(seq![head] + tail, sep) == head + sep + join_with(tail, sep),
    decreases tail.len(),
{
    let all = seq![head] + tail;
    if tail.len() == 1 {
        assert(all.drop_last() =~= seq![head]);
        assert(join_with(all, sep) == join_with(all.drop_last(), sep) + sep + all.last());
    } else {
        assert(all.drop_last() =~= seq![head] + tail.drop_last());
        lemma_join_cons(head, tail.drop_last(), sep);
        assert(head + sep + join_with(tail.drop_last(), sep) + sep + tail.last() =~= head + sep + (
        join_with(tail.drop_last(), sep) + sep + tail.last()));
    }
}

/// The decimal digit for a value below ten.
pub open spec fn digit_char(d: nat) -> char {
    (48 + d) as char
}

/// The decimal form of a natural number, without leading zeros.
pub open spec fn decimal(n: nat) -> Seq<char>
    decreases n,
{
    if n < 10 {
        seq![digit_char(n)]
    } else {
        decimal(n / 10).push(digit_char(n % 10))
    }
}

/// The decimal form of an integer, with a minus sign where it is negative.
pub open spec fn decimal_int(i: int) -> Seq<char> {
    if i < 0 {
        seq!['-'] + decimal((-i) as nat)
    } else {
        decimal(i as nat)
    }
}

/// Appends the decimal form of `n`.
pub fn push_decimal(out: &mut Vec<char>, n: u64)
    ensures
        final(out)@ == old(out)@ + decimal(n as nat),
    decreases n,
{
    let ghost start = out@;
    if n >= 10 {
        push_decimal(out, n / 10);
    }
    let d: u8 = (n % 10) as u8;
    out.push((48 + d) as char);
    assert(out@ =~= start + decimal(n as nat));
}

/// Appends the decimal form of `i`.
pub fn push_decimal_int(out: &mut Vec<char>, i: i64)
    ensures
        final(out)@ == old(out)@ + decimal_int(i as int),
{
    let ghost start = out@;
    if i < 0 {
        out.push('-');
        let n: u64 = if i == i64::MIN {
            9223372036854775808
        } else {
            (-i) as u64
        };
        push_decimal(out, n);
        assert(out@ =~= start + decimal_int(i as int));
    } else {
        push_decimal(out, i as u64);
    }
}

/// `c` is an ASCII digit.
pub open spec fn is_digit(c: char) -> bool {
    '0' <= c <= '9'
}

/// Every character of `s` is an ASCII digit.
pub open spec fn all_digits(s: Seq<char>) -> bool {
    forall|i: int| 0 <= i < s.len() ==> is_digit(#[trigger] s[i])
}

/// The number that a run of ASCII digits denotes.
pub open spec fn digits_value(s: Seq<char>) -> nat
    decreases s.len(),
{
    if s.len() == 0 {
        0
    } else {
        digits_value(s.drop_last()) * 10 + ((s.last() as u32 - 48) as nat)
    }
}

/// An unsigned decimal number of at most `max`: digits with an optional plus
/// sign in front.
pub open spec fn parsed_uint(s: Seq<char>, max: nat) -> Option<nat> {
    let d = if s.len() > 0 && s[0] == '+' {
        s.skip(1)
    } else {
        s
    };
    if d.len() > 0 && all_digits(d) && digits_value(d) <= max {
        Some(digits_value(d))
    } else {
        None
    }
}

/// A signed decimal number in the range of `i64`.
pub open spec fn parsed_i64(s: Seq<char>) -> Option<int> {
    if s.len() > 0 && s[0] == '-' {
        let d = s.skip(1);
        if d.len() > 0 && all_digits(d) && digits_value(d) <= 9223372036854775808 {
            Some(-(digits_value(d) as int))
        } else {
            None
        }
    } else {
        match parsed_uint(s, 9223372036854775807) {
            Some(n) => Some(n as int),
            None => None,
        }
    }
}

/// A prefix of a run of digits denotes no larger number.
proof fn lemma_digits_prefix(s: Seq<char>, i: int)
    requires
        all_digits(s),
        0 <= i <= s.len(),
    ensures
        digits_value(s.take(i)) <= digits_value(s),
    decreases s.len() - i,
{
    if i < s.len() {
        lemma_digits_prefix(s, i + 1);
        assert(s.take(i + 1).drop_last() =~= s.take(i));
        assert(is_digit(s[i]));
    } else {
        assert(s.take(i) =~= s);
    }
}

/// The value of `c` where it is an ASCII digit.
fn digit_of(c: char) -> (r: Option<u8>)
    ensures
        match r {
            Some(d) => is_digit(c) && d < 10 && d == c as u32 - 48,
            None => !is_digit(c),
        },
{
    let n: u32 = c as u32;
    if 48 <= n && n <= 57 {
        Some((n - 48) as u8)
    } else {
        None
    }
}

/// Reads a non-empty run of digits that denotes at most `max`.
fn parse_digits(d: &[char], max: u64) -> (r: Option<u64>)
    ensures
        match r {
            Some(v) => d@.len() > 0 && all_digits(d@) && v == digits_value(d@) && v <= max,
            None => !(d@.len() > 0 && all_digits(d@) && digits_value(d@) <= max),
        },
{
    if d.len() == 0 {
        return None;
    }
    let mut acc: u64 = 0;
    let mut i: usize = 0;
    while i < d.len()
        invariant
            i <= d@.len(),
            acc <= max,
            acc == digits_value(d@.take(i as int)),
            all_digits(d@.take(i as int)),
        decreases d@.len() - i,
    {
        match digit_of(d[i]) {
            None => {
                assert(!is_digit(d@[i as int]));
                return None;
            },
            Some(x) => {
                let next: u128 = acc as u128 * 10 + x as u128;
                assert(d@.take(i + 1).drop_last() =~= d@.take(i as int));
                assert(next == digits_value(d@.take(i + 1)));
                if next > max as u128 {
                    proof {
                        if all_digits(d@) {
                            lemma_digits_prefix(d@, i + 1);
                        }
                    }
                    return None;
                }
                assert forall|j: int| 0 <= j < i + 1 implies is_digit(
                    #[trigger] d@.take(i + 1)[j],
                ) by {
                    if j < i {
                        assert(is_digit(d@.take(i as int)[j]));
                    }
                }
                acc = next as u64;
                i += 1;
            },
        }
    }
    assert(d@.take(i as int) =~= d@);
    Some(acc)
}

/// Reads an unsigned decimal number of at most `max`.
pub fn parse_uint(s: &[char], max: u64) -> (r: Option<u64>)
    ensures
        match r {
            Some(v) => parsed_uint(s@, max as nat) == Some(v as nat),
            None => parsed_uint(s@, max as nat) is None,
        },
{
    if s.len() > 0 && s[0] == '+' {
        let d = slice_subrange(s, 1, s.len());
        assert(d@ =~= s@.skip(1));
        parse_digits(d, max)
    } else {
        parse_digits(s, max)
    }
}

/// Reads a signed decimal number.
pub fn parse_i64(s: &[char]) -> (r: Option<i64>)
    ensures
        match r {
            Some(v) => parsed_i64(s@) == Some(v as int),
            None => parsed_i64(s@) is None,
        },
{
    if s.len() > 0 && s[0] == '-' {
        let d = slice_subrange(s, 1, s.len());
        assert(d@ =~= s@.skip(1));
        match parse_digits(d, 9223372036854775808) {
            Some(v) => if v == 9223372036854775808 {
                Some(i64::MIN)
            } else {
                Some(-(v as i64))
            },
            None => None,
        }
    } else {
        match parse_uint(s, 9223372036854775807) {
            Some(v) => Some(v as i64),
            None => None,
        }
    }
}

/// Trimming keeps a stretch in the middle of the text.
proof fn lemma_trim_end_prefix(s: Seq<char>)
    ensures
        trim_end(s).len() <= s.len(),
        trim_end(s) == s.take(trim_end(s).len() as int),
        trim_end(s).len() > 0 ==> !is_space(trim_end(s).last()),
    decreases s.len(),
{
    if s.len() > 0 && is_space(s.last()) {
        lemma_trim_end_prefix(s.drop_last());
        let n = trim_end(s).len() as int;
        assert(s.drop_last().take(n) =~= s.take(n));
    } else {
        assert(s.take(s.len() as int) =~= s);
    }
}

proof fn lemma_trim_start_first(s: Seq<char>)
    ensures
        trim_start(s).len() > 0 ==> !is_space(trim_start(s)[0]),
    decreases s.len(),
{
    if s.len() > 0 && is_space(s[0]) {
        lemma_trim_start_first(s.subrange(1, s.len() as int));
    }
}

/// Trimmed text neither begins nor ends with whitespace.
pub proof fn law_trimmed_ends(s: Seq<char>)
    ensures
        trim(s).len() > 0 ==> !is_space(trim(s)[0]) && !is_space(trim(s).last()),
{
    lemma_trim_start_first(s);
    lemma_trim_end_prefix(trim_start(s));
}

/// Trimming twice changes nothing more.
pub proof fn law_trim_idempotent(s: Seq<char>)
    ensures
        trim(trim(s)) == trim(s),
{
    law_trimmed_ends(s);
}

/// `a` comes before `b` in the order of their characters, from position `i` on.
pub open spec fn precedes_from(a: Seq<char>, b: Seq<char>, i: int) -> bool
    decreases a.len() - i,
{
    if i >= b.len() {
        false
    } else if i >= a.len() {
        true
    } else if a[i] == b[i] {
        precedes_from(a, b, i + 1)
    } else {
        a[i] < b[i]
    }
}

/// `a` comes before `b` in the order of their characters. UTF-8 keeps that
/// order, so it is the order of the bytes too.
pub open spec fn precedes(a: Seq<char>, b: Seq<char>) -> bool {
    precedes_from(a, b, 0)
}

/// Tells whether `a` comes before `b`.
pub fn text_before(a: &str, b: &str) -> (r: bool)
    ensures
        r == precedes(a@, b@),
{
    let x = chars_of(a);
    let y = chars_of(b);
    let mut i: usize = 0;
    loop
        invariant
            x@ == a@,
            y@ == b@,
            i <= x@.len(),
            i <= y@.len(),
            precedes(a@, b@) == precedes_from(a@, b@, i as int),
        decreases x@.len() - i,
    {
        if i >= y.len() {
            return false;
        }
        if i >= x.len() {
            return true;
        }
        if x[i] != y[i] {
            return x[i] < y[i];
        }
        i += 1;
    }
}

/// The order is strict and total: of two texts at most one comes first, and
/// where neither does, they are the same.
pub proof fn law_order_is_total(a: Seq<char>, b: Seq<char>)
    ensures
        !(precedes(a, b) && precedes(b, a)),
        !precedes(a, b) && !precedes(b, a) ==> a == b,
{
    lemma_order_total(a, b, 0);
}

proof fn lemma_order_total(a: Seq<char>, b: Seq<char>, i: int)
    requires
        0 <= i <= a.len(),
        i <= b.len(),
        forall|j: int| 0 <= j < i ==> a[j] == b[j],
    ensures
        !(precedes_from(a, b, i) && precedes_from(b, a, i)),
        !precedes_from(a, b, i) && !precedes_from(b, a, i) ==> a == b,
    decreases a.len() - i,
{
    if i < a.len() && i < b.len() {
        if a[i] == b[i] {
            lemma_order_total(a, b, i + 1);
        }
    } else if i == a.len() && i == b.len() {
        assert(a =~= b);
    }
}

/// The order is transitive.
pub proof fn law_order_is_transitive(a: Seq<char>, b: Seq<char>, c: Seq<char>)
    ensures
        precedes(a, b) && precedes(b, c) ==> precedes(a, c),
{
    lemma_order_transitive(a, b, c, 0);
}

proof fn lemma_order_transitive(a: Seq<char>, b: Seq<char>, c: Seq<char>, i: int)
    requires
        0 <= i,
    ensures
        precedes_from(a, b, i) && precedes_from(b, c, i) ==> precedes_from(a, c, i),
    decreases a.len() - i,
{
    if i < a.len() && i < b.len() && i < c.len() && a[i] == b[i] && b[i] == c[i] {
        lemma_order_transitive(a, b, c, i + 1);
    }
}

/// The decimal form of `n`.
pub fn decimal_string(n: u64) -> (r: String)
    ensures
        r@ == decimal(n as nat),
{
    let mut out: Vec<char> = Vec::new();
    push_decimal(&mut out, n);
    assert(out@ =~= decimal(n as nat));
    string_of(out.as_slice())
}

/// The decimal form of `i`.
pub fn decimal_int_string(i: i64) -> (r: String)
    ensures
        r@ == decimal_int(i as int),
{
    let mut out: Vec<char> = Vec::new();
    push_decimal_int(&mut out, i);
    assert(out@ =~= decimal_int(i as int));
    string_of(out.as_slice())
}

/// The text with its ASCII letters in lower case.
pub open spec fn ascii_lowered(s: Seq<char>) -> Seq<char> {
    Seq::new(s.len(), |i: int| ascii_lower(s[i]))
}

/// Lower-cases the ASCII letters.
pub fn to_ascii_lower(s: &[char]) -> (r: Vec<char>)
    ensures
        r@ == ascii_lowered(s@),
{
    let mut out: Vec<char> = Vec::new();
    let mut i: usize = 0;
    while i < s.len()
        invariant
            i <= s@.len(),
            out@ == ascii_lowered(s@).take(i as int),
        decreases s@.len() - i,
    {
        out.push(lower_char(s[i]));
        assert(out@ =~= ascii_lowered(s@).take(i + 1));
        i += 1;
    }
    assert(out@ =~= ascii_lowered(s@));
    out
}

/// One character with ASCII letters in lower case.
fn lower_char(c: char) -> (r: char)
    ensures
        r == ascii_lower(c),
{
    let n: u32 = c as u32;
    if 0x41 <= n && n <= 0x5a {
        ((n + 32) as u8) as char
    } else {
        c
    }
}

/// The last position up to `i` at which `needle` stands in `hay`.
pub open spec fn find_last(hay: Seq<char>, needle: Seq<char>, i: int) -> Option<int>
    decreases i + 1,
{
    if i < 0 {
        None
    } else if occurs_at(hay, needle, i) {
        Some(i)
    } else {
        find_last(hay, needle, i - 1)
    }
}

/// Searches for the last position of `needle`.
pub fn find_last_chars(hay: &[char], needle: &[char]) -> (r: Option<usize>)
    ensures
        match r {
            Some(i) => find_last(hay@, needle@, hay@.len() as int) == Some(i as int) && i
                + needle@.len() <= hay@.len(),
            None => find_last(hay@, needle@, hay@.len() as int) is None,
        },
{
    let mut i: usize = hay.len();
    loop
        invariant
            i <= hay@.len(),
            find_last(hay@, needle@, hay@.len() as int) == find_last(hay@, needle@, i as int),
        decreases i,
    {
        if occurs_here(hay, needle, i) {
            return Some(i);
        }
        if i == 0 {
            assert(find_last(hay@, needle@, -1) is None);
            return None;
        }
        i -= 1;
    }
}

/// What follows the last occurrence of `needle`; all of `s` where there is none.
pub open spec fn after_last(s: Seq<char>, needle: Seq<char>) -> Seq<char> {
    match find_last(s, needle, s.len() as int) {
        Some(i) => s.skip(i + needle.len()),
        None => s,
    }
}

/// Reads what follows the last occurrence of `needle`.
pub fn after_last_chars<'a>(s: &'a [char], needle: &[char]) -> (r: &'a [char])
    ensures
        r@ == after_last(s@, needle@),
{
    let total: usize = s.len();
    match find_last_chars(s, needle) {
        Some(i) => {
            let r = slice_subrange(s, i + needle.len(), total);
            assert(r@ =~= s@.skip(i + needle@.len()));
            r
        },
        None => s,
    }
}

/// Whether the lower-case form of a character is the given ASCII letter. Besides
/// the ASCII letters only the Kelvin sign has an ASCII letter for its lower-case
/// form.
pub open spec fn char_lowers_to(c: char, letter: char) -> bool {
    ascii_lower(c) == letter || (c == '\u{212a}' && letter == 'k')
}

/// Whether the lower-case form of a text is the given lower-case ASCII word.
pub open spec fn lowers_to(s: Seq<char>, word: Seq<char>) -> bool {
    &&& s.len() == word.len()
    &&& forall|i: int| 0 <= i < s.len() ==> char_lowers_to(#[trigger] s[i], word[i])
}

/// Whether the lower-case form of a character is the given letter.
fn lowers_to_letter(c: char, letter: char) -> (r: bool)
    ensures
        r == char_lowers_to(c, letter),
{
    lower_char(c) == letter || (c == '\u{212a}' && letter == 'k')
}

/// Compares the lower-case form of a text with a lower-case ASCII word.
pub fn lowers_to_word(s: &[char], word: &[char]) -> (r: bool)
    ensures
        r == lowers_to(s@, word@),
{
    if s.len() != word.len() {
        return false;
    }
    let mut i: usize = 0;
    while i < s.len()
        invariant
            i <= s@.len(),
            s@.len() == word@.len(),
            forall|j: int| 0 <= j < i ==> char_lowers_to(#[trigger] s@[j], word@[j]),
        decreases s@.len() - i,
    {
        if !lowers_to_letter(s[i], word[i]) {
            assert(!char_lowers_to(s@[i as int], word@[i as int]));
            return false;
        }
        i += 1;
    }
    true
}

proof fn lemma_decimal_digits(n: nat)
    ensures
        decimal(n).len() > 0,
        all_digits(decimal(n)),
        digits_value(decimal(n)) == n,
    decreases n,
{
    if n < 10 {
        let d = digit_char(n);
        assert(decimal(n) =~= seq![d]);
        assert(d as u32 == 48 + n);
        assert(seq![d].drop_last() =~= Seq::<char>::empty());
        assert(digits_value(Seq::<char>::empty()) == 0);
        assert(is_digit(d));
    } else {
        lemma_decimal_digits(n / 10);
        let d = digit_char(n % 10);
        assert(d as u32 == 48 + n % 10);
        assert(is_digit(d));
        assert(decimal(n).drop_last() =~= decimal(n / 10));
        assert(decimal(n).last() == d);
        assert forall|i: int| 0 <= i < decimal(n).len() implies is_digit(
            #[trigger] decimal(n)[i],
        ) by {
            if i < decimal(n / 10).len() {
                assert(decimal(n)[i] == decimal(n / 10)[i]);
            }
        }
    }
}

/// A number is read back from its decimal form.
pub proof fn law_decimal_round_trip(i: i64)
    ensures
        parsed_i64(decimal_int(i as int)) == Some(i as int),
{
    if i < 0 {
        let n = (-(i as int)) as nat;
        lemma_decimal_digits(n);
        assert(decimal_int(i as int).skip(1) =~= decimal(n));
    } else {
        lemma_decimal_digits(i as nat);
        assert(is_digit(decimal(i as nat)[0]));
    }
}

} // verus!
