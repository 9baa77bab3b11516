//! The calendar: days as texts such as `2026-08-01`, and the clock of the office.
use crate::text;
use chrono::{Datelike, Timelike};
use vstd::prelude::*;

verus! {

/// A day: year, month and day of the month.
pub struct Day {
    pub year: i64,
    pub month: i64,
    pub day: i64,
}

pub open spec fn is_leap(y: int) -> bool {
    y % 4 == 0 && (y % 100 != 0 || y % 400 == 0)
}

/// How many days a month has.
pub open spec fn month_days(y: int, m: int) -> int {
    if m == 2 {
        if is_leap(y) {
            29
        } else {
            28
        }
    } else if m == 4 || m == 6 || m == 9 || m == 11 {
        30
    } else {
        31
    }
}

/// Whether there is such a day.
pub open spec fn is_day(y: int, m: int, d: int) -> bool {
    1 <= m <= 12 && 1 <= d <= month_days(y, m)
}

/// How many days of the year lie before a month.
pub open spec fn days_before_month(y: int, m: int) -> int
    decreases m,
{
    if m <= 1 {
        0
    } else {
        days_before_month(y, m - 1) + month_days(y, m - 1)
    }
}

/// How many days lie between the first day of the year zero and the first day of year `y`.
pub open spec fn days_before_year(y: int) -> int {
    365 * y + (y - 1) / 4 - (y - 1) / 100 + (y - 1) / 400 + 1
}

/// How many days lie between the first day of the year zero and this one.
pub open spec fn day_number(y: int, m: int, d: int) -> int {
    days_before_year(y) + days_before_month(y, m) + d - 1
}

/// The day before.
pub open spec fn before(y: int, m: int, d: int) -> (int, int, int) {
    if d > 1 {
        (y, m, d - 1)
    } else if m > 1 {
        (y, m - 1, month_days(y, m - 1))
    } else {
        (y - 1, 12, 31)
    }
}

proof fn lemma_year_length(y: int)
    ensures
        days_before_month(y, 12) + 31 == (if is_leap(y) {
            366int
        } else {
            365
        }),
{
    reveal_with_fuel(days_before_month, 13);
}

/// A year takes 365 days, a leap year one more.
proof fn lemma_next_year(k: int)
    ensures
        days_before_year(k + 1) == days_before_year(k) + (if is_leap(k) {
            366int
        } else {
            365
        }),
{
    assert(k / 4 - (k - 1) / 4 == if k % 4 == 0 {
        1int
    } else {
        0
    });
    assert(k / 100 - (k - 1) / 100 == if k % 100 == 0 {
        1int
    } else {
        0
    });
    assert(k / 400 - (k - 1) / 400 == if k % 400 == 0 {
        1int
    } else {
        0
    });
    assert(k % 400 == 0 ==> k % 100 == 0);
    assert(k % 100 == 0 ==> k % 4 == 0);
}

/// The day before is a day, and lies one day earlier.
pub proof fn law_day_before(y: int, m: int, d: int)
    requires
        is_day(y, m, d),
    ensures
        ({
            let p = before(y, m, d);
            is_day(p.0, p.1, p.2) && day_number(p.0, p.1, p.2) == day_number(y, m, d) - 1
        }),
{
    if d == 1 && m == 1 {
        lemma_year_length(y - 1);
        lemma_next_year(y - 1);
        assert(days_before_month(y, 1) == 0);
    }
}

// ---------------------------------------------------------------------------
// Days as texts
// ---------------------------------------------------------------------------

/// A day as text: four digits, a dash, two digits, a dash, two digits.
pub open spec fn day_text(y: int, m: int, d: int) -> Seq<char> {
    seq![
        text::digit((y / 1000) as nat),
        text::digit((y / 100 % 10) as nat),
        text::digit((y / 10 % 10) as nat),
        text::digit((y % 10) as nat),
        '-',
        text::digit((m / 10) as nat),
        text::digit((m % 10) as nat),
        '-',
        text::digit((d / 10) as nat),
        text::digit((d % 10) as nat),
    ]
}

/// What a digit stands for.
pub open spec fn digit_value(c: char) -> int {
    c as int - 48
}

/// The day that a text stands for.
pub open spec fn day_of(s: Seq<char>) -> Option<(int, int, int)> {
    if s.len() == 10 && (forall|i: int|
        0 <= i < 10 && i != 4 && i != 7 ==> '0' <= #[trigger] s[i] <= '9') && s[4] == '-' && s[7]
        == '-' {
        let y = digit_value(s[0]) * 1000 + digit_value(s[1]) * 100 + digit_value(s[2]) * 10
            + digit_value(s[3]);
        let m = digit_value(s[5]) * 10 + digit_value(s[6]);
        let d = digit_value(s[8]) * 10 + digit_value(s[9]);
        if is_day(y, m, d) {
            Some((y, m, d))
        } else {
            None
        }
    } else {
        None
    }
}

/// The text of the day before a day that is given as text; nothing for a text that is no day, and
/// for the first day of the year zero.
pub open spec fn day_before_text(s: Seq<char>) -> Option<Seq<char>> {
    match day_of(s) {
        Some((y, m, d)) => {
            let p = before(y, m, d);
            if p.0 < 0 {
                None
            } else {
                Some(day_text(p.0, p.1, p.2))
            }
        },
        None => None,
    }
}

fn days_in(y: i64, m: i64) -> (r: i64)
    requires
        0 <= y,
    ensures
        r == month_days(y as int, m as int),
{
    if m == 2 {
        if y % 4 == 0 && (y % 100 != 0 || y % 400 == 0) {
            29
        } else {
            28
        }
    } else if m == 4 || m == 6 || m == 9 || m == 11 {
        30
    } else {
        31
    }
}

fn value(c: char) -> (r: i64)
    requires
        '0' <= c <= '9',
    ensures
        r == digit_value(c),
        0 <= r <= 9,
{
    (c as u32 - 48) as i64
}

fn figure(n: i64) -> (r: char)
    requires
        0 <= n <= 9,
    ensures
        r == text::digit(n as nat),
{
    let b: u8 = 48u8 + n as u8;
    b as char
}

/// The day that a text stands for.
pub fn parse_day(s: &str) -> (r: Option<Day>)
    ensures
        r is Some <==> day_of(s@) is Some,
        r matches Some(d) ==> day_of(s@) == Some((d.year as int, d.month as int, d.day as int)),
        r matches Some(d) ==> 0 <= d.year <= 9999,
{
    let c = text::chars_of(s);
    if c.len() != 10 {
        return None;
    }
    let mut i: usize = 0;
    while i < 10
        invariant
            i <= 10,
            c@.len() == 10,
            c@ == s@,
            forall|j: int| 0 <= j < i && j != 4 && j != 7 ==> '0' <= #[trigger] c@[j] <= '9',
            i > 4 ==> c@[4] == '-',
            i > 7 ==> c@[7] == '-',
        decreases 10 - i,
    {
        if i == 4 || i == 7 {
            if c[i] != '-' {
                return None;
            }
        } else if c[i] < '0' || c[i] > '9' {
            assert(!('0' <= s@[i as int] <= '9'));
            return None;
        }
        i = i + 1;
    }
    let year: i64 = value(c[0]) * 1000 + value(c[1]) * 100 + value(c[2]) * 10 + value(c[3]);
    let month: i64 = value(c[5]) * 10 + value(c[6]);
    let day: i64 = value(c[8]) * 10 + value(c[9]);
    if 1 <= month && month <= 12 && 1 <= day && day <= days_in(year, month) {
        Some(Day { year, month, day })
    } else {
        None
    }
}

/// A day as text.
pub fn write_day(d: &Day) -> (r: String)
    requires
        0 <= d.year <= 9999,
        is_day(d.year as int, d.month as int, d.day as int),
    ensures
        r@ == day_text(d.year as int, d.month as int, d.day as int),
{
    let mut out: Vec<char> = Vec::new();
    out.push(figure(d.year / 1000));
    out.push(figure(d.year / 100 % 10));
    out.push(figure(d.year / 10 % 10));
    out.push(figure(d.year % 10));
    out.push('-');
    out.push(figure(d.month / 10));
    out.push(figure(d.month % 10));
    out.push('-');
    out.push(figure(d.day / 10));
    out.push(figure(d.day % 10));
    assert(out@ =~= day_text(d.year as int, d.month as int, d.day as int));
    text::string_of(&out)
}

/// The text of the day before a day that is given as text.
pub fn day_before(s: &str) -> (r: Option<String>)
    ensures
        text::optional(r) == day_before_text(s@),
{
    match parse_day(s) {
        None => None,
        Some(d) => {
            let p = if d.day > 1 {
                Day { year: d.year, month: d.month, day: d.day - 1 }
            } else if d.month > 1 {
                Day { year: d.year, month: d.month - 1, day: days_in(d.year, d.month - 1) }
            } else {
                Day { year: d.year - 1, month: 12, day: 31 }
            };
            if p.year < 0 {
                None
            } else {
                Some(write_day(&p))
            }
        },
    }
}

proof fn lemma_digit(n: int)
    requires
        0 <= n <= 9,
    ensures
        text::digit(n as nat) as int == 48 + n,
        '0' <= text::digit(n as nat) <= '9',
{
    let b = (48 + n) as u8;
    assert(b as char as u32 == b as u32);
}

proof fn lemma_four_digits(y: int)
    requires
        0 <= y <= 9999,
    ensures
        y == y / 1000 * 1000 + y / 100 % 10 * 100 + y / 10 % 10 * 10 + y % 10,
        0 <= y / 1000 <= 9,
{
}

proof fn lemma_two_digits(n: int)
    requires
        0 <= n <= 99,
    ensures
        n == n / 10 * 10 + n % 10,
        0 <= n / 10 <= 9,
{
}

/// A day is read back from its text.
pub proof fn law_day_reads_back(y: int, m: int, d: int)
    requires
        0 <= y <= 9999,
        is_day(y, m, d),
    ensures
        day_of(day_text(y, m, d)) == Some((y, m, d)),
{
    let s = day_text(y, m, d);
    lemma_four_digits(y);
    lemma_two_digits(m);
    lemma_two_digits(d);
    let (y0, y1, y2, y3) = (y / 1000, y / 100 % 10, y / 10 % 10, y % 10);
    let (m0, m1, d0, d1) = (m / 10, m % 10, d / 10, d % 10);
    lemma_digit(y0);
    lemma_digit(y1);
    lemma_digit(y2);
    lemma_digit(y3);
    lemma_digit(m0);
    lemma_digit(m1);
    lemma_digit(d0);
    lemma_digit(d1);
    assert(digit_value(s[0]) == y0 && digit_value(s[1]) == y1 && digit_value(s[2]) == y2
        && digit_value(s[3]) == y3);
    assert(digit_value(s[5]) == m0 && digit_value(s[6]) == m1);
    assert(digit_value(s[8]) == d0 && digit_value(s[9]) == d1);
    assert forall|i: int| 0 <= i < 10 && i != 4 && i != 7 implies '0' <= #[trigger] s[i] <= '9' by {
        assert(i == 0 || i == 1 || i == 2 || i == 3 || i == 5 || i == 6 || i == 8 || i == 9);
    }
}

/// A text that stands for a day is the text of that day.
proof fn lemma_day_text(s: Seq<char>)
    requires
        day_of(s) is Some,
    ensures
        ({
            let (y, m, d) = day_of(s)->0;
            0 <= y <= 9999 && is_day(y, m, d) && s == day_text(y, m, d)
        }),
{
    let (y, m, d) = day_of(s)->0;
    lemma_digit(digit_value(s[0]));
    lemma_digit(digit_value(s[1]));
    lemma_digit(digit_value(s[2]));
    lemma_digit(digit_value(s[3]));
    lemma_digit(digit_value(s[5]));
    lemma_digit(digit_value(s[6]));
    lemma_digit(digit_value(s[8]));
    lemma_digit(digit_value(s[9]));
    assert(y / 1000 == digit_value(s[0]));
    assert(y / 100 % 10 == digit_value(s[1]));
    assert(y / 10 % 10 == digit_value(s[2]));
    assert(y % 10 == digit_value(s[3]));
    assert(m / 10 == digit_value(s[5]) && m % 10 == digit_value(s[6]));
    assert(d / 10 == digit_value(s[8]) && d % 10 == digit_value(s[9]));
    assert(s =~= day_text(y, m, d));
}

proof fn lemma_precedes_at(a: Seq<char>, b: Seq<char>, k: int)
    requires
        0 <= k < a.len(),
        k < b.len(),
        forall|j: int| 0 <= j < k ==> a[j] == b[j],
        a[k] < b[k],
    ensures
        text::precedes(a, b),
    decreases k,
{
    if k > 0 {
        assert(a[0] == b[0]);
        assert forall|j: int| 0 <= j < k - 1 implies a.drop_first()[j] == b.drop_first()[j] by {
            assert(a[j + 1] == b[j + 1]);
        }
        lemma_precedes_at(a.drop_first(), b.drop_first(), k - 1);
    }
}

/// Whether the first day lies before the second.
pub open spec fn earlier(a: (int, int, int), b: (int, int, int)) -> bool {
    a.0 < b.0 || (a.0 == b.0 && (a.1 < b.1 || (a.1 == b.1 && a.2 < b.2)))
}

proof fn lemma_four_order(y: int, z: int)
    requires
        0 <= y < z <= 9999,
    ensures
        y / 1000 < z / 1000 || (y / 1000 == z / 1000 && (y / 100 % 10 < z / 100 % 10 || (y / 100
            % 10 == z / 100 % 10 && (y / 10 % 10 < z / 10 % 10 || (y / 10 % 10 == z / 10 % 10 && y
            % 10 < z % 10))))),
{
    lemma_four_digits(y);
    lemma_four_digits(z);
}

proof fn lemma_two_order(m: int, n: int)
    requires
        0 <= m < n <= 99,
    ensures
        m / 10 < n / 10 || (m / 10 == n / 10 && m % 10 < n % 10),
{
}

/// The characters of a day's text, as numbers.
proof fn lemma_text_digits(y: int, m: int, d: int)
    requires
        0 <= y <= 9999,
        is_day(y, m, d),
    ensures
        day_text(y, m, d)[0] as int == 48 + y / 1000,
        day_text(y, m, d)[1] as int == 48 + y / 100 % 10,
        day_text(y, m, d)[2] as int == 48 + y / 10 % 10,
        day_text(y, m, d)[3] as int == 48 + y % 10,
        day_text(y, m, d)[4] == '-',
        day_text(y, m, d)[5] as int == 48 + m / 10,
        day_text(y, m, d)[6] as int == 48 + m % 10,
        day_text(y, m, d)[7] == '-',
        day_text(y, m, d)[8] as int == 48 + d / 10,
        day_text(y, m, d)[9] as int == 48 + d % 10,
{
    lemma_four_digits(y);
    lemma_two_digits(m);
    lemma_two_digits(d);
    lemma_digit(y / 1000);
    lemma_digit(y / 100 % 10);
    lemma_digit(y / 10 % 10);
    lemma_digit(y % 10);
    lemma_digit(m / 10);
    lemma_digit(m % 10);
    lemma_digit(d / 10);
    lemma_digit(d % 10);
}

proof fn lemma_char_order(a: char, b: char)
    ensures
        (a as int) < (b as int) ==> a < b,
        a as int == b as int ==> a == b,
{
}

proof fn lemma_first_difference(s: Seq<char>, t: Seq<char>, k: int)
    requires
        s.len() == 10,
        t.len() == 10,
        0 <= k < 10,
        forall|j: int| 0 <= j < k ==> s[j] as int == t[j] as int,
        (s[k] as int) < (t[k] as int),
    ensures
        text::precedes(s, t),
{
    assert forall|j: int| 0 <= j < k implies s[j] == t[j] by {
        lemma_char_order(s[j], t[j]);
    }
    lemma_char_order(s[k], t[k]);
    lemma_precedes_at(s, t, k);
}

proof fn lemma_earlier_text(a: (int, int, int), b: (int, int, int))
    requires
        0 <= a.0 <= 9999,
        0 <= b.0 <= 9999,
        is_day(a.0, a.1, a.2),
        is_day(b.0, b.1, b.2),
        earlier(a, b),
    ensures
        text::precedes(day_text(a.0, a.1, a.2), day_text(b.0, b.1, b.2)),
{
    let s = day_text(a.0, a.1, a.2);
    let t = day_text(b.0, b.1, b.2);
    lemma_text_digits(a.0, a.1, a.2);
    lemma_text_digits(b.0, b.1, b.2);
    if a.0 < b.0 {
        lemma_four_order(a.0, b.0);
        let k: int = if s[0] as int != t[0] as int {
            0
        } else if s[1] as int != t[1] as int {
            1
        } else if s[2] as int != t[2] as int {
            2
        } else {
            3
        };
        lemma_first_difference(s, t, k);
    } else if a.1 < b.1 {
        lemma_two_order(a.1, b.1);
        let k: int = if s[5] as int != t[5] as int {
            5
        } else {
            6
        };
        lemma_first_difference(s, t, k);
    } else {
        lemma_two_order(a.2, b.2);
        let k: int = if s[8] as int != t[8] as int {
            8
        } else {
            9
        };
        lemma_first_difference(s, t, k);
    }
}

/// The order of the texts is the order of the days.
pub proof fn law_text_order(s: Seq<char>, t: Seq<char>)
    requires
        day_of(s) is Some,
        day_of(t) is Some,
    ensures
        text::precedes(s, t) <==> earlier(day_of(s)->0, day_of(t)->0),
{
    lemma_day_text(s);
    lemma_day_text(t);
    let a = day_of(s)->0;
    let b = day_of(t)->0;
    text::lemma_order_total(s, t);
    if earlier(a, b) {
        lemma_earlier_text(a, b);
    } else if earlier(b, a) {
        lemma_earlier_text(b, a);
    } else {
        assert(a == b);
    }
}

/// Between a day and the day before it there is none.
pub proof fn law_no_day_between(s: Seq<char>, t: Seq<char>)
    requires
        day_of(s) is Some,
        day_before_text(t) is Some,
    ensures
        text::precedes(s, t) <==> !text::precedes(day_before_text(t)->0, s),
        text::precedes(day_before_text(t)->0, t),
        day_of(day_before_text(t)->0) is Some,
{
    let (y, m, d) = day_of(t)->0;
    lemma_day_text(t);
    let p = before(y, m, d);
    law_day_before(y, m, d);
    law_day_reads_back(p.0, p.1, p.2);
    let u = day_before_text(t)->0;
    law_text_order(s, t);
    law_text_order(u, s);
    law_text_order(u, t);
    lemma_day_text(s);
}

// ---------------------------------------------------------------------------
// The clock
// ---------------------------------------------------------------------------

/// A moment on the clock of the office, which is eight hours ahead of Greenwich.
#[derive(Debug, Clone, Copy)]
pub struct Moment {
    pub year: i64,
    pub month: u32,
    pub day: u32,
    pub hour: u32,
}

/// The moment at `seconds` behind the midnight with which 1970 begins, on the same clock.
pub open spec fn is_moment(m: Moment, seconds: int) -> bool {
    &&& is_day(m.year as int, m.month as int, m.day as int)
    &&& day_number(m.year as int, m.month as int, m.day as int) == day_number(1970, 1, 1) + seconds
        / 86400
    &&& m.hour == seconds % 86400 / 3600
}

/// The first second that the calendar knows: the beginning of the year -262143 in Greenwich.
pub const EARLIEST: i64 = -8_334_601_228_800;

/// The last second that the calendar knows: the end of the year 262142 in Greenwich.
pub const LATEST: i64 = 8_210_266_876_799;

/// How far the office is ahead of Greenwich, in seconds.
pub const OFFICE_EAST: i32 = 28_800;

/// `chrono::DateTime::from_timestamp`, moved to a fixed offset to the east: year, month, day and
/// hour by the Gregorian calendar, for the seconds that `chrono` has a date for.
#[verifier::external_body]
fn clock(seconds: i64, east: i32) -> (r: Option<Moment>)
    requires
        -86400 < east < 86400,
    ensures
        r is Some <==> EARLIEST <= seconds <= LATEST,
        r matches Some(m) ==> is_moment(m, seconds + east) && i32::MIN <= m.year <= i32::MAX,
{
    let offset = chrono::FixedOffset::east_opt(east)?;
    let t = chrono::DateTime::from_timestamp(seconds, 0)?.with_timezone(&offset);
    Some(Moment { year: t.year() as i64, month: t.month(), day: t.day(), hour: t.hour() })
}

/// What the clock of the office shows at `seconds` since the beginning of 1970 in Greenwich.
pub fn office_moment(seconds: i64) -> (r: Option<Moment>)
    ensures
        r is Some <==> EARLIEST <= seconds <= LATEST,
        r matches Some(m) ==> is_moment(m, seconds + OFFICE_EAST) && 1 <= m.month <= 12 && 1
            <= m.day <= 31 && m.hour <= 23 && i32::MIN <= m.year <= i32::MAX,
{
    clock(seconds, OFFICE_EAST)
}

// ---------------------------------------------------------------------------
// Laws
// ---------------------------------------------------------------------------

/// Every fourth year has a day more, but not every hundredth, but every four-hundredth.
pub proof fn law_leap_years(y: int)
    ensures
        month_days(y, 2) == if y % 400 == 0 || (y % 4 == 0 && y % 100 != 0) {
            29int
        } else {
            28
        },
        days_before_year(y + 1) - days_before_year(y) == if month_days(y, 2) == 29 {
            366int
        } else {
            365
        },
        month_days(y, 1) == 31 && month_days(y, 3) == 31 && month_days(y, 5) == 31,
        month_days(y, 7) == 31 && month_days(y, 8) == 31 && month_days(y, 10) == 31,
        month_days(y, 12) == 31 && month_days(y, 4) == 30 && month_days(y, 6) == 30,
        month_days(y, 9) == 30 && month_days(y, 11) == 30,
{
    lemma_next_year(y);
}

/// There are the days from the first of a month to its last, in twelve months.
pub proof fn law_days_of_a_month(y: int, m: int, d: int)
    ensures
        is_day(y, m, d) <==> m >= 1 && m <= 12 && d >= 1 && d <= month_days(y, m),
        is_day(y, m, 28) <==> 1 <= m <= 12,
        !is_day(y, m, 32) && !is_day(y, m, 0),
{
}

proof fn lemma_within_year(y: int, m: int, d: int)
    requires
        is_day(y, m, d),
    ensures
        0 <= days_before_month(y, m) + d - 1 < days_before_year(y + 1) - days_before_year(y),
        m < 12 ==> days_before_month(y, m + 1) == days_before_month(y, m) + month_days(y, m),
{
    reveal_with_fuel(days_before_month, 13);
    lemma_next_year(y);
}

proof fn lemma_months_grow(y: int, m: int, n: int)
    requires
        1 <= m <= n <= 12,
    ensures
        m < n ==> days_before_month(y, m) + month_days(y, m) <= days_before_month(y, n),
    decreases n,
{
    if m < n {
        lemma_months_grow(y, m, n - 1);
        assert(days_before_month(y, n) == days_before_month(y, n - 1) + month_days(y, n - 1));
    }
}

proof fn lemma_years_grow(y: int, z: int)
    requires
        y <= z,
    ensures
        days_before_year(y) <= days_before_year(z),
    decreases z - y,
{
    if y < z {
        lemma_years_grow(y, z - 1);
        lemma_next_year(z - 1);
    }
}

/// Days are in the order of their numbers, and no two have the same.
pub proof fn law_days_in_order(a: (int, int, int), b: (int, int, int))
    requires
        is_day(a.0, a.1, a.2),
        is_day(b.0, b.1, b.2),
    ensures
        earlier(a, b) <==> day_number(a.0, a.1, a.2) < day_number(b.0, b.1, b.2),
        day_number(a.0, a.1, a.2) == day_number(b.0, b.1, b.2) ==> a == b,
{
    lemma_days_apart(a, b);
    lemma_days_apart(b, a);
}

proof fn lemma_days_apart(a: (int, int, int), b: (int, int, int))
    requires
        is_day(a.0, a.1, a.2),
        is_day(b.0, b.1, b.2),
    ensures
        earlier(a, b) ==> day_number(a.0, a.1, a.2) < day_number(b.0, b.1, b.2),
{
    if earlier(a, b) {
        lemma_within_year(a.0, a.1, a.2);
        lemma_within_year(b.0, b.1, b.2);
        if a.0 < b.0 {
            lemma_years_grow(a.0 + 1, b.0);
        } else if a.1 < b.1 {
            lemma_months_grow(a.0, a.1, b.1);
        }
    }
}

/// The clock shows one moment at a time. An hour later it shows the next hour, and a day later the
/// same hour of the next day; it started at midnight on the first day of 1970.
pub proof fn law_clock(m: Moment, n: Moment, seconds: int)
    requires
        is_moment(m, seconds),
    ensures
        m.hour * 3600 <= seconds % 86400 < m.hour * 3600 + 3600,
        seconds == 0 ==> m.year == 1970 && m.month == 1 && m.day == 1 && m.hour == 0,
        is_moment(n, seconds) ==> n.year == m.year && n.month == m.month && n.day == m.day && n.hour
            == m.hour,
        is_moment(n, seconds + 3600) ==> n.hour == (m.hour + 1) % 24,
        is_moment(n, seconds + 86400) ==> n.hour == m.hour && before(
            n.year as int,
            n.month as int,
            n.day as int,
        ) == (m.year as int, m.month as int, m.day as int),
        OFFICE_EAST == 8 * 3600,
{
    let a = (m.year as int, m.month as int, m.day as int);
    let b = (n.year as int, n.month as int, n.day as int);
    if seconds == 0 {
        law_days_in_order(a, (1970, 1, 1));
    }
    if is_moment(n, seconds) {
        law_days_in_order(a, b);
    }
    if is_moment(n, seconds + 86400) {
        law_day_before(b.0, b.1, b.2);
        law_days_in_order(a, before(b.0, b.1, b.2));
    }
}

/// The day before a day is the latest that lies before it.
pub proof fn law_day_before_is_the_latest(y: int, m: int, d: int, other: (int, int, int))
    requires
        is_day(y, m, d),
        is_day(other.0, other.1, other.2),
    ensures
        earlier(before(y, m, d), (y, m, d)),
        earlier(other, (y, m, d)) ==> other == before(y, m, d) || earlier(other, before(y, m, d)),
{
    let p = before(y, m, d);
    law_day_before(y, m, d);
    law_days_in_order(p, (y, m, d));
    law_days_in_order(other, (y, m, d));
    law_days_in_order(other, p);
}

} // verus!
