//! Calendar arithmetic on Unix time, in UTC.

use crate::text;
use crate::text::{chars_of, extend_chars, parse_i64, push_decimal, string_of};
use vstd::prelude::*;

verus! {

/// The year has a 29th of February.
pub open spec fn is_leap(year: int) -> bool {
    year % 4 == 0 && (year % 100 != 0 || year % 400 == 0)
}

/// Days from the first day of year zero to the first day of `year`.
#[verifier::opaque]
pub open spec fn year_start(year: int) -> int {
    365 * year + (year + 3) / 4 - (year + 99) / 100 + (year + 399) / 400
}

/// The days of a month.
pub open spec fn month_len(year: int, month: int) -> int {
    if month == 2 {
        if is_leap(year) {
            29
        } else {
            28
        }
    } else if month == 4 || month == 6 || month == 9 || month == 11 {
        30
    } else {
        31
    }
}

/// Days from the first day of the year to the first day of `month`.
pub open spec fn month_start(year: int, month: int) -> int
    decreases month,
{
    if month <= 1 {
        0
    } else {
        month_start(year, month - 1) + month_len(year, month - 1)
    }
}

/// The triple is a date of the Gregorian calendar.
pub open spec fn is_date(year: int, month: int, day: int) -> bool {
    1 <= month <= 12 && 1 <= day <= month_len(year, month)
}

/// Days from the first of January 1970 to a date.
pub open spec fn day_number(year: int, month: int, day: int) -> int {
    year_start(year) + month_start(year, month) + day - 1 - 719528
}

/// Years are 366 days long where they are leap years, else 365.
pub proof fn law_year_length(year: int)
    ensures
        year_start(year + 1) - year_start(year) == if is_leap(year) {
            366int
        } else {
            365
        },
        month_start(year, 13) == year_start(year + 1) - year_start(year),
{
    lemma_rounded_quotient(year, 4);
    lemma_rounded_quotient(year, 100);
    lemma_rounded_quotient(year, 400);
    lemma_century_years(year);
    assert(year_start(year + 1) - year_start(year) == if is_leap(year) {
        366int
    } else {
        365
    }) by {
        reveal(year_start);
    }
    reveal_with_fuel(month_start, 14);
}

/// Every fourth century year is a century year, and every century year a fourth
/// year.
proof fn lemma_century_years(year: int)
    ensures
        year % 400 == 0 ==> year % 100 == 0,
        year % 100 == 0 ==> year % 4 == 0,
{
    vstd::arithmetic::div_mod::lemma_fundamental_div_mod(year, 400);
    vstd::arithmetic::div_mod::lemma_fundamental_div_mod(year, 100);
    if year % 400 == 0 {
        vstd::arithmetic::div_mod::lemma_mod_multiples_vanish(4 * (year / 400), 0, 100);
        assert(year == 100 * (4 * (year / 400)) + 0);
    }
    if year % 100 == 0 {
        vstd::arithmetic::div_mod::lemma_mod_multiples_vanish(25 * (year / 100), 0, 4);
        assert(year == 4 * (25 * (year / 100)) + 0);
    }
}

/// How a quotient that rounds up compares with the one that rounds down.
proof fn lemma_rounded_quotient(a: int, n: int)
    requires
        n > 1,
    ensures
        (a + n - 1) / n == a / n + if a % n == 0 {
            0int
        } else {
            1
        },
        (a + n) / n == a / n + 1,
{
    let q = a / n;
    let r = a % n;
    vstd::arithmetic::div_mod::lemma_fundamental_div_mod(a, n);
    vstd::arithmetic::mul::lemma_mul_is_distributive_add(n, q, 1);
    if r == 0 {
        vstd::arithmetic::div_mod::lemma_fundamental_div_mod_converse(a + n - 1, n, q, n - 1);
    } else {
        vstd::arithmetic::div_mod::lemma_fundamental_div_mod_converse(a + n - 1, n, q + 1, r - 1);
    }
    vstd::arithmetic::div_mod::lemma_fundamental_div_mod_converse(a + n, n, q + 1, r);
}

/// No two dates have the same number, and a later date has a greater one.
pub proof fn law_dates_are_ordered(y1: int, m1: int, d1: int, y2: int, m2: int, d2: int)
    requires
        is_date(y1, m1, d1),
        is_date(y2, m2, d2),
        y1 < y2 || (y1 == y2 && (m1 < m2 || (m1 == m2 && d1 < d2))),
    ensures
        day_number(y1, m1, d1) < day_number(y2, m2, d2),
{
    if y1 < y2 {
        lemma_year_start_grows(y1 + 1, y2);
        law_year_length(y1);
        lemma_month_start_grows(y1, m1 + 1, 13);
        lemma_month_start_grows(y2, 1, m2);
    } else if m1 < m2 {
        lemma_month_start_grows(y1, m1 + 1, m2);
    }
}

proof fn lemma_year_start_grows(a: int, b: int)
    requires
        a <= b,
    ensures
        year_start(a) <= year_start(b),
    decreases b - a,
{
    if a < b {
        lemma_year_start_grows(a, b - 1);
        law_year_length(b - 1);
    }
}

proof fn lemma_month_start_grows(year: int, a: int, b: int)
    requires
        1 <= a <= b,
    ensures
        month_start(year, a) <= month_start(year, b),
    decreases b - a,
{
    if a < b {
        lemma_month_start_grows(year, a, b - 1);
    }
}

/// Days from the first of March of year zero to the first of March of `year`.
spec fn march_start(year: int) -> int {
    365 * year + year / 4 - year / 100 + year / 400
}

proof fn lemma_march_start(year: int)
    ensures
        year_start(year) + month_start(year, 3) == march_start(year) + 60,
        year_start(year + 1) == march_start(year) + 366,
{
    lemma_rounded_quotient(year, 4);
    lemma_rounded_quotient(year, 100);
    lemma_rounded_quotient(year, 400);
    lemma_century_years(year);
    reveal(year_start);
    assert(month_start(year, 1) == 0);
    assert(month_start(year, 2) == 31);
    assert(month_start(year, 3) == 31 + month_len(year, 2));
}

/// The first of each month from March on, counted from the first of March.
proof fn lemma_months_from_march(year: int, month: int)
    requires
        3 <= month <= 12,
    ensures
        month_start(year, month) - month_start(year, 3) == (153 * (month - 3) + 2) / 5,
{
    reveal_with_fuel(month_start, 13);
    assert(month == 3 || month == 4 || month == 5 || month == 6 || month == 7 || month == 8
        || month == 9 || month == 10 || month == 11 || month == 12);
}

/// The quotient that rounds towards minus infinity.
fn floor_div(a: i64, n: i64) -> (q: i64)
    requires
        n > 1,
    ensures
        q == (a as int) / (n as int),
{
    if a >= 0 {
        a / n
    } else {
        let b: i64 = -(a + 1);
        let q: i64 = -(b / n) - 1;
        assert((a as int) / (n as int) == -((b as int) / (n as int)) - 1) by (nonlinear_arith)
            requires
                n > 1,
                b == -(a + 1),
                b >= 0,
        ;
        q
    }
}

/// The year of a 400-year era, from its centuries, four-year cycles and years,
/// which all begin in March.
proof fn lemma_year_of_era(doe: int, century: int, cycle: int, year: int, doy: int)
    requires
        0 <= doe < 146097,
        century == if doe == 146096 {
            3
        } else {
            doe / 36524
        },
        cycle == (doe - century * 36524) / 1461,
        year == if doe - century * 36524 - cycle * 1461 == 1460 {
            3
        } else {
            (doe - century * 36524 - cycle * 1461) / 365
        },
        doy == doe - century * 36524 - cycle * 1461 - year * 365,
    ensures
        0 <= century <= 3,
        0 <= cycle <= 24,
        0 <= year <= 3,
        0 <= doy <= 365,
        ({
            let yoe = century * 100 + cycle * 4 + year;
            &&& yoe / 4 == century * 25 + cycle
            &&& yoe / 100 == century
            &&& doe == 365 * yoe + yoe / 4 - yoe / 100 + doy
            &&& doy == 365 ==> (yoe + 1) % 4 == 0 && ((yoe + 1) % 100 != 0 || yoe == 399)
        }),
{
    let in_century = doe - century * 36524;
    assert(0 <= in_century <= 36524);
    assert(in_century == 36524 ==> century == 3);
    let in_cycle = in_century - cycle * 1461;
    assert(0 <= cycle <= 24);
    assert(0 <= in_cycle <= 1460);
    assert(0 <= year <= 3);
    let yoe = century * 100 + cycle * 4 + year;
    assert(yoe / 4 == century * 25 + cycle);
    assert(yoe / 100 == century);
    if doy == 365 {
        assert(year == 3 && in_cycle == 1460);
        if cycle == 24 {
            assert(in_century == 36524);
        }
    }
}

/// Years are counted through the eras.
proof fn lemma_eras(era: int, yoe: int)
    requires
        0 <= yoe <= 399,
    ensures
        march_start(yoe + era * 400) == 146097 * era + 365 * yoe + yoe / 4 - yoe / 100,
        is_leap(yoe + era * 400 + 1) == ((yoe + 1) % 4 == 0 && ((yoe + 1) % 100 != 0 || yoe
            == 399)),
{
    let y = yoe + era * 400;
    vstd::arithmetic::div_mod::lemma_hoist_over_denominator(yoe, era * 100, 4);
    vstd::arithmetic::div_mod::lemma_hoist_over_denominator(yoe, era * 4, 100);
    vstd::arithmetic::div_mod::lemma_hoist_over_denominator(yoe, era, 400);
    assert(y == yoe + (era * 100) * 4);
    assert(y == yoe + (era * 4) * 100);
    assert(yoe / 400 == 0);
    vstd::arithmetic::div_mod::lemma_mod_multiples_vanish(era * 100, yoe + 1, 4);
    vstd::arithmetic::div_mod::lemma_mod_multiples_vanish(era * 4, yoe + 1, 100);
    vstd::arithmetic::div_mod::lemma_mod_multiples_vanish(era, yoe + 1, 400);
    assert(y + 1 == 4 * (era * 100) + (yoe + 1));
    assert(y + 1 == 100 * (era * 4) + (yoe + 1));
    assert(y + 1 == 400 * era + (yoe + 1));
    assert(yoe < 399 ==> (yoe + 1) % 400 == yoe + 1);
}

/// The month and day of a day counted from the first of March of year `y`.
proof fn lemma_month_of_year(y: int, doy: int, mp: int, d: int)
    requires
        0 <= doy <= 365,
        doy == 365 ==> is_leap(y + 1),
        mp == (5 * doy + 2) / 153,
        d == doy - (153 * mp + 2) / 5 + 1,
    ensures
        0 <= mp <= 11,
        mp < 10 ==> is_date(y, mp + 3, d) && day_number(y, mp + 3, d) == march_start(y) + doy
            - 719468,
        mp >= 10 ==> is_date(y + 1, mp - 9, d) && day_number(y + 1, mp - 9, d) == march_start(y)
            + doy - 719468,
{
    lemma_march_start(y);
    assert(0 <= mp <= 11);
    if mp < 10 {
        lemma_months_from_march(y, mp + 3);
        assert(mp == 0 || mp == 1 || mp == 2 || mp == 3 || mp == 4 || mp == 5 || mp == 6 || mp == 7
            || mp == 8 || mp == 9);
    } else {
        assert(month_start(y + 1, 1) == 0);
        assert(month_start(y + 1, 2) == 31);
        assert(mp == 10 || mp == 11);
    }
}

/// The date that is `days` days after the first of January 1970, as year, month
/// and day.
pub fn days_to_ymd(days: i64) -> (r: (i64, u32, u32))
    requires
        days <= i64::MAX - 719468,
    ensures
        is_date(r.0 as int, r.1 as int, r.2 as int),
        day_number(r.0 as int, r.1 as int, r.2 as int) == days,
{
    let z: i64 = days + 719468;
    let era: i64 = floor_div(z, 146097);
    let doe: i64 = z - era * 146097;
    let century: i64 = if doe == 146096 {
        3
    } else {
        doe / 36524
    };
    let in_century: i64 = doe - century * 36524;
    let cycle: i64 = in_century / 1461;
    let in_cycle: i64 = in_century - cycle * 1461;
    let year_in_cycle: i64 = if in_cycle == 1460 {
        3
    } else {
        in_cycle / 365
    };
    let doy: i64 = in_cycle - year_in_cycle * 365;
    proof {
        lemma_year_of_era(
            doe as int,
            century as int,
            cycle as int,
            year_in_cycle as int,
            doy as int,
        );
    }
    let yoe: i64 = century * 100 + cycle * 4 + year_in_cycle;
    let y: i64 = yoe + era * 400;
    let mp: i64 = (5 * doy + 2) / 153;
    let d: i64 = doy - (153 * mp + 2) / 5 + 1;
    proof {
        lemma_eras(era as int, yoe as int);
        lemma_month_of_year(y as int, doy as int, mp as int, d as int);
    }
    if mp < 10 {
        (y, (mp + 3) as u32, d as u32)
    } else {
        (y + 1, (mp - 9) as u32, d as u32)
    }
}

/// A moment in UTC.
#[derive(Clone, Copy, Debug, PartialEq, Eq, Structural)]
pub struct Moment {
    pub year: i64,
    pub month: u32,
    pub day: u32,
    pub hour: u32,
    pub minute: u32,
    pub second: u32,
}

/// The moment is the one at `secs` Unix seconds.
pub open spec fn is_moment_at(m: Moment, secs: int) -> bool {
    &&& is_date(m.year as int, m.month as int, m.day as int)
    &&& m.hour < 24
    &&& m.minute < 60
    &&& m.second < 60
    &&& secs == 86400 * day_number(m.year as int, m.month as int, m.day as int) + 3600 * m.hour + 60
        * m.minute + m.second
}

/// The date and time of day at the given Unix seconds.
pub fn moment_at(secs: i64) -> (m: Moment)
    ensures
        is_moment_at(m, secs as int),
{
    let days: i64 = floor_div(secs, 86400);
    let time: i64 = (secs as i128 - days as i128 * 86400) as i64;
    let (year, month, day) = days_to_ymd(days);
    Moment {
        year,
        month,
        day,
        hour: (time / 3600) as u32,
        minute: (time % 3600 / 60) as u32,
        second: (time % 60) as u32,
    }
}

/// The components of the given Unix seconds: year, month, day, hour, minute and
/// second.
pub fn unix_to_components(secs: i64) -> (r: (i64, u32, u32, u32, u32, u32))
    ensures
        is_moment_at(
            Moment {
                year: r.0,
                month: r.1,
                day: r.2,
                hour: r.3,
                minute: r.4,
                second: r.5,
            },
            secs as int,
        ),
{
    let m = moment_at(secs);
    (m.year, m.month, m.day, m.hour, m.minute, m.second)
}

/// At most one moment is at any time.
pub proof fn law_moment_is_unique(a: Moment, b: Moment, secs: int)
    requires
        is_moment_at(a, secs),
        is_moment_at(b, secs),
    ensures
        a == b,
{
    let da = day_number(a.year as int, a.month as int, a.day as int);
    let db = day_number(b.year as int, b.month as int, b.day as int);
    let ta = 3600 * a.hour + 60 * a.minute + a.second;
    let tb = 3600 * b.hour + 60 * b.minute + b.second;
    assert(0 <= ta < 86400 && 0 <= tb < 86400);
    assert(86400 * da + ta == 86400 * db + tb);
    assert(da == db);
    assert(a.hour == b.hour && a.minute == b.minute && a.second == b.second);
    lemma_dates_of_one_day(
        a.year as int,
        a.month as int,
        a.day as int,
        b.year as int,
        b.month as int,
        b.day as int,
    );
}

proof fn lemma_dates_of_one_day(y1: int, m1: int, d1: int, y2: int, m2: int, d2: int)
    requires
        is_date(y1, m1, d1),
        is_date(y2, m2, d2),
        day_number(y1, m1, d1) == day_number(y2, m2, d2),
    ensures
        y1 == y2,
        m1 == m2,
        d1 == d2,
{
    if y1 < y2 || (y1 == y2 && (m1 < m2 || (m1 == m2 && d1 < d2))) {
        law_dates_are_ordered(y1, m1, d1, y2, m2, d2);
    } else if y2 < y1 || m2 < m1 || d2 < d1 {
        law_dates_are_ordered(y2, m2, d2, y1, m1, d1);
    }
}

/// The moment at the given Unix seconds, where there is one.
pub open spec fn the_moment(secs: int) -> Moment {
    choose|m: Moment| is_moment_at(m, secs)
}

// --- Text ---

/// The text with zeros in front, up to the given width.
pub open spec fn zero_padded(s: Seq<char>, width: nat) -> Seq<char>
    decreases width - s.len(),
{
    if s.len() >= width {
        s
    } else {
        zero_padded(seq!['0'] + s, width)
    }
}

/// A number with zeros in front.
pub open spec fn padded(n: nat, width: nat) -> Seq<char> {
    zero_padded(text::decimal(n), width)
}

/// A year in at least four places, of which a minus sign takes one.
pub open spec fn year_text(year: int) -> Seq<char> {
    if year < 0 {
        seq!['-'] + padded((-year) as nat, 3)
    } else {
        padded(year as nat, 4)
    }
}

/// The ISO 8601 form of a moment: `2026-04-27T03:14:15Z`.
pub open spec fn iso_text(m: Moment) -> Seq<char> {
    year_text(m.year as int) + "-"@ + padded(m.month as nat, 2) + "-"@ + padded(m.day as nat, 2)
        + "T"@ + padded(m.hour as nat, 2) + ":"@ + padded(m.minute as nat, 2) + ":"@ + padded(
        m.second as nat,
        2,
    ) + "Z"@
}

// --- The order of ISO texts ---

/// The decimal digit of a value below ten, as a character of a text.
spec fn dg(d: int) -> char {
    text::digit_char(d as nat)
}

/// The decimal digit of `n` at the place with the given value.
#[verifier::opaque]
spec fn digit_at(n: int, place: int) -> int {
    n / place % 10
}

/// A number below ten thousand is made up of its four digits.
proof fn lemma_digits_of_year(n: int)
    requires
        0 <= n <= 9999,
    ensures
        n == 1000 * digit_at(n, 1000) + 100 * digit_at(n, 100) + 10 * digit_at(n, 10) + digit_at(
            n,
            1,
        ),
        0 <= digit_at(n, 1000) <= 9,
        0 <= digit_at(n, 100) <= 9,
        0 <= digit_at(n, 10) <= 9,
        0 <= digit_at(n, 1) <= 9,
{
    reveal(digit_at);
    let a = n / 10;
    let b = a / 10;
    let c = b / 10;
    vstd::arithmetic::div_mod::lemma_div_denominator(n, 10, 10);
    vstd::arithmetic::div_mod::lemma_div_denominator(n, 100, 10);
    assert(n / 100 == b);
    assert(n / 1000 == c);
    assert(n == 10 * a + n % 10);
    assert(a == 10 * b + a % 10);
    assert(b == 10 * c + b % 10);
    assert(c % 10 == c);
}

/// A number below a hundred is made up of its two digits.
proof fn lemma_digits_of_part(n: int)
    requires
        0 <= n < 100,
    ensures
        n == 10 * digit_at(n, 10) + digit_at(n, 1),
        0 <= digit_at(n, 10) <= 9,
        0 <= digit_at(n, 1) <= 9,
{
    reveal(digit_at);
}

proof fn lemma_two_digits(n: nat)
    requires
        n < 100,
    ensures
        padded(n, 2) =~= seq![dg(digit_at(n as int, 10)), dg(digit_at(n as int, 1))],
{
    reveal(digit_at);
    reveal_with_fuel(text::decimal, 3);
    reveal_with_fuel(zero_padded, 3);
}

proof fn lemma_four_digits(n: nat)
    requires
        n < 10000,
    ensures
        padded(n, 4) =~= seq![
            dg(digit_at(n as int, 1000)),
            dg(digit_at(n as int, 100)),
            dg(digit_at(n as int, 10)),
            dg(digit_at(n as int, 1)),
        ],
{
    reveal(digit_at);
    reveal_with_fuel(text::decimal, 5);
    reveal_with_fuel(zero_padded, 5);
    assert(n / 10 / 10 == n / 100);
    assert(n / 100 / 10 == n / 1000);
}

/// The characters of the ISO form of a moment in the years 0 to 9999.
spec fn iso_chars(m: Moment) -> Seq<char> {
    let y = m.year as int;
    seq![
        dg(digit_at(y, 1000)),
        dg(digit_at(y, 100)),
        dg(digit_at(y, 10)),
        dg(digit_at(y, 1)),
        '-',
        dg(digit_at(m.month as int, 10)),
        dg(digit_at(m.month as int, 1)),
        '-',
        dg(digit_at(m.day as int, 10)),
        dg(digit_at(m.day as int, 1)),
        'T',
        dg(digit_at(m.hour as int, 10)),
        dg(digit_at(m.hour as int, 1)),
        ':',
        dg(digit_at(m.minute as int, 10)),
        dg(digit_at(m.minute as int, 1)),
        ':',
        dg(digit_at(m.second as int, 10)),
        dg(digit_at(m.second as int, 1)),
        'Z',
    ]
}

proof fn lemma_iso_chars(m: Moment)
    requires
        0 <= m.year <= 9999,
        m.month < 100,
        m.day < 100,
        m.hour < 100,
        m.minute < 100,
        m.second < 100,
    ensures
        iso_text(m) == iso_chars(m),
{
    lemma_four_digits(m.year as nat);
    lemma_two_digits(m.month as nat);
    lemma_two_digits(m.day as nat);
    lemma_two_digits(m.hour as nat);
    lemma_two_digits(m.minute as nat);
    lemma_two_digits(m.second as nat);
    reveal_strlit("-");
    reveal_strlit("T");
    reveal_strlit(":");
    reveal_strlit("Z");
    assert(iso_text(m) =~= iso_chars(m));
}

/// The first difference decides the order.
proof fn lemma_first_difference(a: Seq<char>, b: Seq<char>, i: int, k: int)
    requires
        0 <= i <= k < a.len(),
        k < b.len(),
        forall|j: int| i <= j < k ==> a[j] == b[j],
        a[k] < b[k],
    ensures
        text::precedes_from(a, b, i),
    decreases k - i,
{
    if i < k {
        lemma_first_difference(a, b, i + 1, k);
    }
}

/// An earlier moment comes first, component by component.
proof fn lemma_earlier(a: Moment, b: Moment, sa: int, sb: int)
    requires
        is_moment_at(a, sa),
        is_moment_at(b, sb),
        sa < sb,
    ensures
        a.year < b.year || (a.year == b.year && (a.month < b.month || (a.month == b.month && (a.day
            < b.day || (a.day == b.day && (a.hour < b.hour || (a.hour == b.hour && (a.minute
            < b.minute || (a.minute == b.minute && a.second < b.second))))))))),
{
    let (y1, m1, d1) = (a.year as int, a.month as int, a.day as int);
    let (y2, m2, d2) = (b.year as int, b.month as int, b.day as int);
    if y2 < y1 || (y1 == y2 && (m2 < m1 || (m1 == m2 && d2 < d1))) {
        law_dates_are_ordered(y2, m2, d2, y1, m1, d1);
    }
}

/// The texts differ first in one of two digits that show a smaller and a
/// greater number.
proof fn lemma_two_digit_difference(a: Seq<char>, b: Seq<char>, k: int, n: int, m: int)
    requires
        0 <= k,
        k + 2 <= a.len(),
        k + 2 <= b.len(),
        0 <= n < m < 100,
        forall|j: int| 0 <= j < k ==> a[j] == b[j],
        a[k] == dg(digit_at(n, 10)) && a[k + 1] == dg(digit_at(n, 1)),
        b[k] == dg(digit_at(m, 10)) && b[k + 1] == dg(digit_at(m, 1)),
    ensures
        text::precedes(a, b),
{
    lemma_digits_of_part(n);
    lemma_digits_of_part(m);
    if digit_at(n, 10) < digit_at(m, 10) {
        lemma_first_difference(a, b, 0, k);
    } else {
        lemma_first_difference(a, b, 0, k + 1);
    }
}

/// The texts begin with four digits that show an earlier and a later year.
proof fn lemma_year_difference(a: Seq<char>, b: Seq<char>, n: int, m: int)
    requires
        4 <= a.len(),
        4 <= b.len(),
        0 <= n < m <= 9999,
        a[0] == dg(digit_at(n, 1000)),
        a[1] == dg(digit_at(n, 100)),
        a[2] == dg(digit_at(n, 10)),
        a[3] == dg(digit_at(n, 1)),
        b[0] == dg(digit_at(m, 1000)),
        b[1] == dg(digit_at(m, 100)),
        b[2] == dg(digit_at(m, 10)),
        b[3] == dg(digit_at(m, 1)),
    ensures
        text::precedes(a, b),
{
    lemma_digits_of_year(n);
    lemma_digits_of_year(m);
    if digit_at(n, 1000) < digit_at(m, 1000) {
        lemma_first_difference(a, b, 0, 0);
    } else if digit_at(n, 100) < digit_at(m, 100) {
        lemma_first_difference(a, b, 0, 1);
    } else if digit_at(n, 10) < digit_at(m, 10) {
        lemma_first_difference(a, b, 0, 2);
    } else {
        lemma_first_difference(a, b, 0, 3);
    }
}

/// The order of ISO texts within one year.
proof fn lemma_iso_order_in_year(a: Moment, b: Moment)
    requires
        a.year == b.year,
        a.month < 100 && a.day < 100 && a.hour < 100 && a.minute < 100 && a.second < 100,
        b.month < 100 && b.day < 100 && b.hour < 100 && b.minute < 100 && b.second < 100,
        a.month < b.month || (a.month == b.month && (a.day < b.day || (a.day == b.day && (a.hour
            < b.hour || (a.hour == b.hour && (a.minute < b.minute || (a.minute == b.minute
            && a.second < b.second))))))),
    ensures
        text::precedes(iso_chars(a), iso_chars(b)),
{
    let x = iso_chars(a);
    let y = iso_chars(b);
    if a.month < b.month {
        lemma_two_digit_difference(x, y, 5, a.month as int, b.month as int);
    } else if a.day < b.day {
        lemma_two_digit_difference(x, y, 8, a.day as int, b.day as int);
    } else if a.hour < b.hour {
        lemma_two_digit_difference(x, y, 11, a.hour as int, b.hour as int);
    } else if a.minute < b.minute {
        lemma_two_digit_difference(x, y, 14, a.minute as int, b.minute as int);
    } else {
        lemma_two_digit_difference(x, y, 17, a.second as int, b.second as int);
    }
}

/// In the years 0 to 9999 the order of ISO texts is the order of time.
pub proof fn law_iso_order_is_time_order(a: Moment, b: Moment, sa: int, sb: int)
    requires
        is_moment_at(a, sa),
        is_moment_at(b, sb),
        sa < sb,
        0 <= a.year,
        b.year <= 9999,
    ensures
        text::precedes(iso_text(a), iso_text(b)),
{
    lemma_earlier(a, b, sa, sb);
    lemma_iso_chars(a);
    lemma_iso_chars(b);
    if a.year < b.year {
        lemma_year_difference(iso_chars(a), iso_chars(b), a.year as int, b.year as int);
    } else {
        lemma_iso_order_in_year(a, b);
    }
}

/// Appends a number with zeros in front.
fn push_padded(out: &mut Vec<char>, n: u64, width: usize)
    ensures
        final(out)@ == old(out)@ + padded(n as nat, width as nat),
{
    let mut digits: Vec<char> = Vec::new();
    push_decimal(&mut digits, n);
    assert(digits@ =~= text::decimal(n as nat));
    while digits.len() < width
        invariant
            zero_padded(text::decimal(n as nat), width as nat) == zero_padded(
                digits@,
                width as nat,
            ),
        decreases width - digits@.len(),
    {
        let ghost before = digits@;
        digits.insert(0, '0');
        assert(digits@ =~= seq!['0'] + before);
    }
    extend_chars(out, digits.as_slice());
}

/// Appends a year.
fn push_year(out: &mut Vec<char>, year: i64)
    requires
        year > i64::MIN,
    ensures
        final(out)@ == old(out)@ + year_text(year as int),
{
    let ghost start = out@;
    if year < 0 {
        out.push('-');
        push_padded(out, (-year) as u64, 3);
        assert(out@ =~= start + year_text(year as int));
    } else {
        push_padded(out, year as u64, 4);
    }
}

/// Appends a text.
fn push_text(out: &mut Vec<char>, s: &str)
    ensures
        final(out)@ == old(out)@ + s@,
{
    let chars = chars_of(s);
    extend_chars(out, chars.as_slice());
}

/// Shows a moment in its ISO 8601 form.
pub fn show_iso(m: &Moment) -> (r: String)
    requires
        m.year > i64::MIN,
    ensures
        r@ == iso_text(*m),
{
    let mut out: Vec<char> = Vec::new();
    push_year(&mut out, m.year);
    push_text(&mut out, "-");
    push_padded(&mut out, m.month as u64, 2);
    push_text(&mut out, "-");
    push_padded(&mut out, m.day as u64, 2);
    push_text(&mut out, "T");
    push_padded(&mut out, m.hour as u64, 2);
    push_text(&mut out, ":");
    push_padded(&mut out, m.minute as u64, 2);
    push_text(&mut out, ":");
    push_padded(&mut out, m.second as u64, 2);
    push_text(&mut out, "Z");
    assert(out@ =~= iso_text(*m));
    string_of(out.as_slice())
}

/// The ISO 8601 form of the given Unix seconds.
pub fn iso_at(secs: i64) -> (r: String)
    ensures
        r@ == iso_text(the_moment(secs as int)),
{
    let m = moment_at(secs);
    proof {
        law_moment_is_unique(m, the_moment(secs as int), secs as int);
        lemma_year_range(m, secs as int);
    }
    show_iso(&m)
}

/// The year of a moment within the range of Unix seconds is far from the ends
/// of its own range.
proof fn lemma_year_range(m: Moment, secs: int)
    requires
        is_moment_at(m, secs),
        i64::MIN <= secs <= i64::MAX,
    ensures
        m.year > i64::MIN,
{
    if m.year == i64::MIN {
        let y = m.year as int;
        lemma_month_start_grows(y, 1, m.month as int);
        lemma_month_start_grows(y, m.month + 1, 13);
        law_year_length(y);
        reveal(year_start);
        assert(day_number(y, m.month as int, m.day as int) < -9223372036854775808);
    }
}

/// The seconds that a stored value holds; zero where it is no number.
pub open spec fn stored_seconds(stored: Seq<char>) -> int {
    match text::parsed_i64(stored) {
        Some(n) => n,
        None => 0,
    }
}

/// Turns stored Unix seconds into their ISO 8601 form; a value that is no
/// number counts as the beginning of 1970.
pub fn unix_to_iso(stored: &str) -> (r: String)
    ensures
        r@ == iso_text(the_moment(stored_seconds(stored@))),
{
    let chars = chars_of(stored);
    let secs: i64 = match parse_i64(chars.as_slice()) {
        Some(n) => n,
        None => 0,
    };
    iso_at(secs)
}

// --- The clock ---

/// The standard library's `SystemTime::now`, as seconds since the beginning of
/// 1970; zero where the clock is set before it. Nothing is stated of the time.
#[verifier::external_body]
fn clock_seconds() -> (secs: u64) {
    std::time::SystemTime::now().duration_since(std::time::UNIX_EPOCH).map(
        |d| d.as_secs(),
    ).unwrap_or(0)
}

/// Seconds of the clock as Unix seconds: the same number, as far as it goes.
pub fn unix_seconds(clock: u64) -> (r: i64)
    ensures
        r == if clock <= i64::MAX {
            clock as int
        } else {
            i64::MAX as int
        },
{
    if clock <= i64::MAX as u64 {
        clock as i64
    } else {
        i64::MAX
    }
}

/// The current Unix seconds.
pub fn now_secs() -> (r: i64)
    ensures
        0 <= r,
{
    unix_seconds(clock_seconds())
}

/// The current Unix seconds.
pub fn current_unix() -> (r: i64)
    ensures
        0 <= r,
{
    unix_seconds(clock_seconds())
}

/// The current moment in its ISO 8601 form.
pub fn iso_now() -> (r: String)
    ensures
        exists|secs: i64| secs >= 0 && r@ == #[trigger] iso_text(the_moment(secs as int)),
{
    let secs: i64 = current_unix();
    iso_at(secs)
}

/// The time stamp in the name of a backup: `20260427T031415`.
pub open spec fn stamp_text(m: Moment) -> Seq<char> {
    year_text(m.year as int) + padded(m.month as nat, 2) + padded(m.day as nat, 2) + "T"@ + padded(
        m.hour as nat,
        2,
    ) + padded(m.minute as nat, 2) + padded(m.second as nat, 2)
}

/// The time stamp of the given Unix seconds.
pub fn stamp_at(secs: i64) -> (r: String)
    ensures
        r@ == stamp_text(the_moment(secs as int)),
{
    let m = moment_at(secs);
    proof {
        law_moment_is_unique(m, the_moment(secs as int), secs as int);
        lemma_year_range(m, secs as int);
    }
    let mut out: Vec<char> = Vec::new();
    push_year(&mut out, m.year);
    push_padded(&mut out, m.month as u64, 2);
    push_padded(&mut out, m.day as u64, 2);
    push_text(&mut out, "T");
    push_padded(&mut out, m.hour as u64, 2);
    push_padded(&mut out, m.minute as u64, 2);
    push_padded(&mut out, m.second as u64, 2);
    assert(out@ =~= stamp_text(m));
    string_of(out.as_slice())
}

/// Days count on without a gap, from day zero at the start of the year 1970, through
/// the months and the years; four hundred years always have the same length.
pub proof fn law_days_count_on(year: int, month: int, day: int)
    requires
        is_date(year, month, day),
    ensures
        day_number(1970, 1, 1) == 0,
        day < month_len(year, month) ==> day_number(year, month, day + 1) == day_number(
            year,
            month,
            day,
        ) + 1,
        day == month_len(year, month) && month < 12 ==> day_number(year, month + 1, 1)
            == day_number(year, month, day) + 1,
        day == month_len(year, month) && month == 12 ==> day_number(year + 1, 1, 1) == day_number(
            year,
            month,
            day,
        ) + 1,
        day_number(year + 400, month, day) == day_number(year, month, day) + 146097,
{
    law_year_length(year);
    reveal(year_start);
    reveal_with_fuel(month_start, 2);
    lemma_same_months(year, month);
    assert((year + 400 + 3) / 4 == (year + 3) / 4 + 100);
    assert((year + 400 + 99) / 100 == (year + 99) / 100 + 4);
    assert((year + 400 + 399) / 400 == (year + 399) / 400 + 1);
}

proof fn lemma_same_months(year: int, month: int)
    ensures
        month_start(year + 400, month) == month_start(year, month),
    decreases month,
{
    assert((year + 400) % 4 == year % 4);
    assert((year + 400) % 100 == year % 100);
    assert((year + 400) % 400 == year % 400);
    if month > 1 {
        lemma_same_months(year, month - 1);
    }
}

/// The part of a text is the number, written with as many digits as the part is long.
pub open spec fn shows_number(s: Seq<char>, from: int, to: int, n: int) -> bool {
    text::all_digits(s.subrange(from, to)) && text::digits_value(s.subrange(from, to)) == n
}

/// The two written forms of a moment show its year in four digits and every other
/// part in two, in the same order; the longer one sets them apart.
pub proof fn law_written_moment_shows_its_parts(m: Moment)
    requires
        0 <= m.year <= 9999,
        m.month < 100,
        m.day < 100,
        m.hour < 100,
        m.minute < 100,
        m.second < 100,
    ensures
        ({
            let s = iso_text(m);
            &&& s.len() == 20
            &&& s[4] == '-' && s[7] == '-' && s[10] == 'T' && s[13] == ':' && s[16] == ':' && s[19]
                == 'Z'
            &&& shows_number(s, 0, 4, m.year as int)
            &&& shows_number(s, 5, 7, m.month as int)
            &&& shows_number(s, 8, 10, m.day as int)
            &&& shows_number(s, 11, 13, m.hour as int)
            &&& shows_number(s, 14, 16, m.minute as int)
            &&& shows_number(s, 17, 19, m.second as int)
        }),
        ({
            let s = stamp_text(m);
            &&& s.len() == 15
            &&& s[8] == 'T'
            &&& shows_number(s, 0, 4, m.year as int)
            &&& shows_number(s, 4, 6, m.month as int)
            &&& shows_number(s, 6, 8, m.day as int)
            &&& shows_number(s, 9, 11, m.hour as int)
            &&& shows_number(s, 11, 13, m.minute as int)
            &&& shows_number(s, 13, 15, m.second as int)
        }),
{
    lemma_iso_chars(m);
    lemma_four_digits(m.year as nat);
    lemma_two_digits(m.month as nat);
    lemma_two_digits(m.day as nat);
    lemma_two_digits(m.hour as nat);
    lemma_two_digits(m.minute as nat);
    lemma_two_digits(m.second as nat);
    reveal_strlit("T");
    let s = iso_text(m);
    let t = stamp_text(m);
    lemma_shows_four(s, 0, m.year as int);
    lemma_shows_two(s, 5, m.month as int);
    lemma_shows_two(s, 8, m.day as int);
    lemma_shows_two(s, 11, m.hour as int);
    lemma_shows_two(s, 14, m.minute as int);
    lemma_shows_two(s, 17, m.second as int);
    lemma_shows_four(t, 0, m.year as int);
    lemma_shows_two(t, 4, m.month as int);
    lemma_shows_two(t, 6, m.day as int);
    lemma_shows_two(t, 9, m.hour as int);
    lemma_shows_two(t, 11, m.minute as int);
    lemma_shows_two(t, 13, m.second as int);
}

proof fn lemma_shows_two(s: Seq<char>, i: int, n: int)
    requires
        0 <= n < 100,
        0 <= i,
        i + 2 <= s.len(),
        s[i] == dg(digit_at(n, 10)),
        s[i + 1] == dg(digit_at(n, 1)),
    ensures
        shows_number(s, i, i + 2, n),
{
    reveal(digit_at);
    let none = Seq::<char>::empty();
    lemma_next_digit(none, n / 10 % 10);
    let one = none.push(dg(n / 10 % 10));
    lemma_next_digit(one, n % 10);
    assert(s.subrange(i, i + 2) =~= one.push(dg(n % 10)));
}

proof fn lemma_shows_four(s: Seq<char>, i: int, n: int)
    requires
        0 <= n < 10000,
        0 <= i,
        i + 4 <= s.len(),
        s[i] == dg(digit_at(n, 1000)),
        s[i + 1] == dg(digit_at(n, 100)),
        s[i + 2] == dg(digit_at(n, 10)),
        s[i + 3] == dg(digit_at(n, 1)),
    ensures
        shows_number(s, i, i + 4, n),
{
    let a = digit_at(n, 1000);
    let b = digit_at(n, 100);
    let c = digit_at(n, 10);
    let d = digit_at(n, 1);
    lemma_sum_of_places(n);
    let none = Seq::<char>::empty();
    lemma_next_digit(none, a);
    let one = none.push(dg(a));
    lemma_next_digit(one, b);
    let two = one.push(dg(b));
    lemma_next_digit(two, c);
    let three = two.push(dg(c));
    lemma_next_digit(three, d);
    assert(s.subrange(i, i + 4) =~= three.push(dg(d)));
}

proof fn lemma_sum_of_places(n: int)
    requires
        0 <= n < 10000,
    ensures
        n == 1000 * digit_at(n, 1000) + 100 * digit_at(n, 100) + 10 * digit_at(n, 10) + digit_at(
            n,
            1,
        ),
        0 <= digit_at(n, 1000) < 10 && 0 <= digit_at(n, 100) < 10 && 0 <= digit_at(n, 10) < 10 && 0
            <= digit_at(n, 1) < 10,
{
    reveal(digit_at);
    lemma_tens(n);
    lemma_tens(n / 10);
    lemma_tens(n / 100);
    lemma_tens(n / 1000);
    vstd::arithmetic::div_mod::lemma_div_denominator(n, 10, 10);
    vstd::arithmetic::div_mod::lemma_div_denominator(n, 100, 10);
    assert(n / 1000 < 10);
    assert(n / 1 == n);
}

proof fn lemma_tens(n: int)
    requires
        0 <= n,
    ensures
        n == 10 * (n / 10) + n % 10,
        0 <= n % 10 < 10,
        0 <= n / 10,
        n < 10 ==> n / 10 == 0,
{
}

proof fn lemma_next_digit(s: Seq<char>, d: int)
    requires
        0 <= d < 10,
        text::all_digits(s),
    ensures
        text::all_digits(s.push(dg(d))),
        text::digits_value(s.push(dg(d))) == 10 * text::digits_value(s) + d,
        s.len() == 0 ==> text::digits_value(s) == 0,
{
    assert(s.push(dg(d)).drop_last() =~= s);
}

} // verus!
