//! Conversion of local clock times to absolute RFC 3339 instants.
//!
//! A local time is a 4-digit 24-hour string ("HHMM").  Together with a
//! reference date and a fixed offset from UTC, in whole minutes, it names
//! an absolute instant.  The calendar is the proleptic Gregorian calendar;
//! a day number counts days from the start of year 0, and the instant is
//! rendered as an RFC 3339 timestamp in UTC.

use vstd::prelude::*;
use vstd::arithmetic::div_mod::lemma_fundamental_div_mod;
use vstd::string::*;
use crate::error::Error;
use crate::text::string_from_chars;

verus! {

// ---------------------------------------------------------------------------
// The calendar
// ---------------------------------------------------------------------------

/// A Gregorian leap year.
pub open spec fn is_leap_year(y: int) -> bool {
    y % 4 == 0 && (y % 100 != 0 || y % 400 == 0)
}

/// Days in year `y`.
pub open spec fn days_in_year_spec(y: int) -> int {
    if is_leap_year(y) {
        366
    } else {
        365
    }
}

/// Days in month `m` of year `y`.
pub open spec fn days_in_month_spec(y: int, m: int) -> int {
    if m == 2 {
        if is_leap_year(y) {
            29
        } else {
            28
        }
    } else if m == 4 || m == 6 || m == 9 || m == 11 {
        30
    } else {
        31
    }
}

/// Days from the start of year 0 to the start of year `y`.
pub open spec fn days_before_year(y: int) -> int
    decreases y,
{
    if y <= 0 {
        0
    } else {
        days_before_year(y - 1) + days_in_year_spec(y - 1)
    }
}

/// Days from the start of year `y` to the start of its month `m`.
pub open spec fn days_before_month(y: int, m: int) -> int
    decreases m,
{
    if m <= 1 {
        0
    } else {
        days_before_month(y, m - 1) + days_in_month_spec(y, m - 1)
    }
}

/// The day number of a calendar date: days since the start of year 0.
pub open spec fn day_number(y: int, m: int, d: int) -> int {
    days_before_year(y) + days_before_month(y, m) + (d - 1)
}

/// A calendar date the library supports.
pub open spec fn valid_ymd(y: int, m: int, d: int) -> bool {
    0 <= y <= 9999 && 1 <= m <= 12 && 1 <= d <= days_in_month_spec(y, m)
}

/// A calendar date.
#[derive(Clone, Copy, Debug, PartialEq, Eq, Structural)]
pub struct Date {
    pub year: u32,
    pub month: u32,
    pub day: u32,
}

impl Date {
    /// A well-formed date: a real day of the supported calendar range.
    pub open spec fn wf(&self) -> bool {
        valid_ymd(self.year as int, self.month as int, self.day as int)
    }

    /// A validated date.
    pub fn new(year: u32, month: u32, day: u32) -> (r: Result<Date, Error>)
        ensures
            match r {
                Ok(d) => valid_ymd(year as int, month as int, day as int) && d == (Date {
                    year,
                    month,
                    day,
                }),
                Err(e) => !valid_ymd(year as int, month as int, day as int) && e
                    is ValidationError,
            },
    {
        if year <= 9999 && 1 <= month && month <= 12 && 1 <= day && day <= days_in_month(
            year,
            month,
        ) {
            Ok(Date { year, month, day })
        } else {
            Err(Error::ValidationError(String::from_str("invalid calendar date")))
        }
    }
}

/// Decides `is_leap_year`.
pub fn leap_year(y: u32) -> (b: bool)
    ensures
        b == is_leap_year(y as int),
{
    y % 4 == 0 && (y % 100 != 0 || y % 400 == 0)
}

/// Days in a month.
pub fn days_in_month(y: u32, m: u32) -> (r: u32)
    requires
        1 <= m <= 12,
    ensures
        r == days_in_month_spec(y as int, m as int),
{
    if m == 2 {
        if leap_year(y) {
            29
        } else {
            28
        }
    } else if m == 4 || m == 6 || m == 9 || m == 11 {
        30
    } else {
        31
    }
}

/// Days in a year.
fn days_in_year(y: u32) -> (r: u32)
    ensures
        r == days_in_year_spec(y as int),
{
    if leap_year(y) {
        366
    } else {
        365
    }
}

/// Days from the start of year 0 to the start of year `y`.
fn days_before_year_exec(y: u32) -> (r: u32)
    requires
        y <= 10000,
    ensures
        r == days_before_year(y as int),
        r <= 366 * y,
{
    let mut total: u32 = 0;
    let mut i: u32 = 0;
    while i < y
        invariant
            i <= y,
            y <= 10000,
            total == days_before_year(i as int),
            total <= 366 * i,
        decreases y - i,
    {
        total = total + days_in_year(i);
        i = i + 1;
    }
    total
}

/// Days from the start of year `y` to the start of its month `m`.
fn days_before_month_exec(y: u32, m: u32) -> (r: u32)
    requires
        1 <= m <= 13,
    ensures
        r == days_before_month(y as int, m as int),
        r <= 31 * m,
{
    let mut total: u32 = 0;
    let mut i: u32 = 1;
    while i < m
        invariant
            1 <= i <= m,
            m <= 13,
            total == days_before_month(y as int, i as int),
            total <= 31 * i,
        decreases m - i,
    {
        total = total + days_in_month(y, i);
        i = i + 1;
    }
    total
}

/// The day number of a date.
pub fn day_number_exec(d: &Date) -> (r: u32)
    requires
        d.wf(),
    ensures
        r == day_number(d.year as int, d.month as int, d.day as int),
{
    let by = days_before_year_exec(d.year);
    let bm = days_before_month_exec(d.year, d.month);
    by + bm + (d.day - 1)
}

/// A year's months sum to its length.
proof fn lemma_year_months(y: int)
    ensures
        days_before_month(y, 13) == days_in_year_spec(y),
{
    reveal_with_fuel(days_before_month, 13);
}

/// The date of a day number, by scanning years and then months.
fn civil_from_day(n: u32) -> (r: Date)
    requires
        n < days_before_year(10000),
    ensures
        r.wf(),
        day_number(r.year as int, r.month as int, r.day as int) == n as int,
{
    let mut y: u32 = 0;
    let mut acc: u32 = 0;
    while (acc as u64) + (days_in_year(y) as u64) <= n as u64
        invariant
            y <= 9999,
            acc == days_before_year(y as int),
            acc <= n,
            n < days_before_year(10000),
        decreases 10000 - y,
    {
        proof {
            assert(days_before_year(y + 1 as int) == days_before_year(y as int)
                + days_in_year_spec(y as int));
            if y + 1 >= 10000 {
                assert(days_before_year(y + 1 as int) <= n as int);
                assert(false);
            }
        }
        acc = acc + days_in_year(y);
        y = y + 1;
    }
    let rem: u32 = n - acc;
    proof {
        assert(days_before_year(y + 1 as int) == days_before_year(y as int) + days_in_year_spec(
            y as int,
        ));
        assert((rem as int) < days_in_year_spec(y as int));
        lemma_year_months(y as int);
    }
    let mut m: u32 = 1;
    let mut acc2: u32 = 0;
    while m < 12 && acc2 + days_in_month(y, m) <= rem
        invariant
            1 <= m <= 12,
            y <= 9999,
            acc2 == days_before_month(y as int, m as int),
            acc2 <= rem,
            rem < days_in_year_spec(y as int),
            days_before_month(y as int, 13) == days_in_year_spec(y as int),
        decreases 12 - m,
    {
        proof {
            assert(days_before_month(y as int, m + 1 as int) == days_before_month(
                y as int,
                m as int,
            ) + days_in_month_spec(y as int, m as int));
        }
        acc2 = acc2 + days_in_month(y, m);
        m = m + 1;
    }
    proof {
        if m == 12 {
            assert(days_before_month(y as int, 13int) == days_before_month(y as int, 12int)
                + days_in_month_spec(y as int, 12int));
            assert((rem as int) - (acc2 as int) < days_in_month_spec(y as int, m as int));
        }
    }
    let d: u32 = rem - acc2 + 1;
    Date { year: y, month: m, day: d }
}

/// A later year starts no earlier.
proof fn lemma_days_before_year_monotone(y1: int, y2: int)
    requires
        y1 <= y2,
    ensures
        days_before_year(y1) <= days_before_year(y2),
    decreases y2 - y1,
{
    if y1 < y2 {
        lemma_days_before_year_monotone(y1, y2 - 1);
    }
}

/// A later month starts no earlier.
proof fn lemma_days_before_month_monotone(y: int, m1: int, m2: int)
    requires
        m1 <= m2,
    ensures
        days_before_month(y, m1) <= days_before_month(y, m2),
    decreases m2 - m1,
{
    if m1 < m2 {
        lemma_days_before_month_monotone(y, m1, m2 - 1);
    }
}

/// A valid date's day number falls within its own year's span.
proof fn lemma_day_number_in_year(y: int, m: int, d: int)
    requires
        valid_ymd(y, m, d),
    ensures
        days_before_year(y) <= day_number(y, m, d) < days_before_year(y + 1),
{
    lemma_days_before_month_monotone(y, 1, m);
    assert(days_before_month(y, m + 1) == days_before_month(y, m) + days_in_month_spec(y, m));
    lemma_days_before_month_monotone(y, m + 1, 13);
    lemma_year_months(y);
    assert(days_before_year(y + 1) == days_before_year(y) + days_in_year_spec(y));
}

/// A valid date's day number falls within its own month's span.
proof fn lemma_day_number_in_month(y: int, m: int, d: int)
    requires
        valid_ymd(y, m, d),
    ensures
        days_before_month(y, m) <= days_before_month(y, m) + (d - 1) < days_before_month(
            y,
            m + 1,
        ),
{
    assert(days_before_month(y, m + 1) == days_before_month(y, m) + days_in_month_spec(y, m));
}

/// Two valid dates with the same day number are the same date.
pub proof fn lemma_day_number_injective(y1: int, m1: int, d1: int, y2: int, m2: int, d2: int)
    requires
        valid_ymd(y1, m1, d1),
        valid_ymd(y2, m2, d2),
        day_number(y1, m1, d1) == day_number(y2, m2, d2),
    ensures
        y1 == y2,
        m1 == m2,
        d1 == d2,
{
    lemma_day_number_in_year(y1, m1, d1);
    lemma_day_number_in_year(y2, m2, d2);
    if y1 < y2 {
        lemma_days_before_year_monotone(y1 + 1, y2);
        assert(false);
    }
    if y2 < y1 {
        lemma_days_before_year_monotone(y2 + 1, y1);
        assert(false);
    }
    lemma_day_number_in_month(y1, m1, d1);
    lemma_day_number_in_month(y2, m2, d2);
    if m1 < m2 {
        lemma_days_before_month_monotone(y1, m1 + 1, m2);
        assert(false);
    }
    if m2 < m1 {
        lemma_days_before_month_monotone(y1, m2 + 1, m1);
        assert(false);
    }
}

/// An instant in range decomposes into a calendar date and a time of day
/// in exactly one way, so the contract of the conversion names a unique
/// rendering.
pub proof fn lemma_instant_decomposition_unique(
    t: int,
    y1: int,
    mo1: int,
    d1: int,
    h1: int,
    mi1: int,
    s1: int,
    y2: int,
    mo2: int,
    d2: int,
    h2: int,
    mi2: int,
    s2: int,
)
    requires
        instant_decomposition(t, y1, mo1, d1, h1, mi1, s1),
        instant_decomposition(t, y2, mo2, d2, h2, mi2, s2),
    ensures
        y1 == y2,
        mo1 == mo2,
        d1 == d2,
        h1 == h2,
        mi1 == mi2,
        s1 == s2,
{
    let n1 = day_number(y1, mo1, d1);
    let n2 = day_number(y2, mo2, d2);
    let tod1 = h1 * 3600 + mi1 * 60 + s1;
    let tod2 = h2 * 3600 + mi2 * 60 + s2;
    assert(0 <= tod1 < 86400);
    assert(0 <= tod2 < 86400);
    assert(n1 * 86400 + tod1 == n2 * 86400 + tod2);
    if n1 < n2 {
        assert(n1 * 86400 + tod1 < (n1 + 1) * 86400);
        assert((n1 + 1) * 86400 <= n2 * 86400) by (nonlinear_arith)
            requires
                n1 + 1 <= n2,
        ;
        assert(false);
    }
    if n2 < n1 {
        assert(n2 * 86400 + tod2 < (n2 + 1) * 86400);
        assert((n2 + 1) * 86400 <= n1 * 86400) by (nonlinear_arith)
            requires
                n2 + 1 <= n1,
        ;
        assert(false);
    }
    lemma_day_number_injective(y1, mo1, d1, y2, mo2, d2);
    assert(tod1 == tod2);
    if h1 < h2 {
        assert(false);
    }
    if h2 < h1 {
        assert(false);
    }
    if mi1 < mi2 {
        assert(false);
    }
    if mi2 < mi1 {
        assert(false);
    }
}

// ---------------------------------------------------------------------------
// Clock strings
// ---------------------------------------------------------------------------

/// An ASCII decimal digit.
pub open spec fn is_digit_char(c: char) -> bool {
    48 <= c as u32 <= 57
}

/// The value of an ASCII digit.
pub open spec fn digit_val(c: char) -> int {
    c as u32 - 48
}

/// The hour named by a 4-digit clock string.
pub open spec fn hh_of(s: Seq<char>) -> int {
    digit_val(s[0]) * 10 + digit_val(s[1])
}

/// The minute named by a 4-digit clock string.
pub open spec fn mm_of(s: Seq<char>) -> int {
    digit_val(s[2]) * 10 + digit_val(s[3])
}

/// A well-formed local clock time: exactly four ASCII digits naming an
/// hour in 0..=23 and a minute in 0..=59.
pub open spec fn valid_hhmm(s: Seq<char>) -> bool {
    &&& s.len() == 4
    &&& forall|i: int| 0 <= i < 4 ==> is_digit_char(#[trigger] s[i])
    &&& 0 <= hh_of(s) <= 23
    &&& 0 <= mm_of(s) <= 59
}

/// The value of one digit character, or `None`.
fn digit_of(c: char) -> (r: Option<u32>)
    ensures
        match r {
            Some(v) => is_digit_char(c) && v == digit_val(c),
            None => !is_digit_char(c),
        },
{
    let u = c as u32;
    if 48 <= u && u <= 57 {
        Some(u - 48)
    } else {
        None
    }
}

/// Parses a local clock string into its hour and minute.
///
/// The string must be exactly four ASCII digits, the hour at most 23 and
/// the minute at most 59; anything else is a parse failure.
pub fn parse_hhmm(time_str: &str) -> (r: Result<(u32, u32), Error>)
    ensures
        valid_hhmm(time_str@) ==> (r matches Ok(t) && t.0 == hh_of(time_str@) && t.1 == mm_of(
            time_str@,
        )),
        !valid_hhmm(time_str@) ==> (r matches Err(e) && e is ParseError),
{
    let n = time_str.unicode_len();
    if n != 4 {
        return Err(Error::ParseError(String::from_str("Error parsing time")));
    }
    let d0 = digit_of(time_str.get_char(0));
    let d1 = digit_of(time_str.get_char(1));
    let d2 = digit_of(time_str.get_char(2));
    let d3 = digit_of(time_str.get_char(3));
    match (d0, d1, d2, d3) {
        (Some(a), Some(b), Some(c), Some(d)) => {
            let hh = a * 10 + b;
            let mm = c * 10 + d;
            if hh <= 23 && mm <= 59 {
                Ok((hh, mm))
            } else {
                Err(Error::ParseError(String::from_str("Error parsing time")))
            }
        },
        _ => Err(Error::ParseError(String::from_str("Error parsing time"))),
    }
}

// ---------------------------------------------------------------------------
// Rendering
// ---------------------------------------------------------------------------

/// The character of one decimal digit.
pub open spec fn digit_char(d: int) -> char {
    ((48 + d) as u8) as char
}

/// A number rendered as two zero-padded digits.
pub open spec fn two_digits(n: int) -> Seq<char> {
    seq![digit_char(n / 10), digit_char(n % 10)]
}

/// A number rendered as four zero-padded digits.
pub open spec fn four_digits(n: int) -> Seq<char> {
    seq![
        digit_char(n / 1000),
        digit_char((n / 100) % 10),
        digit_char((n / 10) % 10),
        digit_char(n % 10),
    ]
}

/// A date rendered as ISO `YYYY-MM-DD`.
pub open spec fn iso_date_seq(d: Date) -> Seq<char> {
    four_digits(d.year as int) + seq!['-'] + two_digits(d.month as int) + seq!['-'] + two_digits(
        d.day as int,
    )
}

/// A UTC instant rendered as RFC 3339, `YYYY-MM-DDTHH:MM:SS+00:00`.
pub open spec fn rfc3339_seq(y: int, mo: int, d: int, h: int, mi: int, sec: int) -> Seq<char> {
    four_digits(y) + seq!['-'] + two_digits(mo) + seq!['-'] + two_digits(d) + seq!['T']
        + two_digits(h) + seq![':'] + two_digits(mi) + seq![':'] + two_digits(sec) + seq![
        '+',
        '0',
        '0',
        ':',
        '0',
        '0',
    ]
}

/// The character of one digit.
fn digit_char_exec(d: u32) -> (c: char)
    requires
        d <= 9,
    ensures
        c == digit_char(d as int),
{
    ((48 + d as u8) as u8) as char
}

/// Appends two zero-padded digits.
fn push_two_digits(out: &mut Vec<char>, n: u32)
    requires
        n <= 99,
    ensures
        final(out)@ == old(out)@ + two_digits(n as int),
{
    out.push(digit_char_exec(n / 10));
    out.push(digit_char_exec(n % 10));
    proof {
        assert(final(out)@ =~= old(out)@ + two_digits(n as int));
    }
}

/// Appends four zero-padded digits.
fn push_four_digits(out: &mut Vec<char>, n: u32)
    requires
        n <= 9999,
    ensures
        final(out)@ == old(out)@ + four_digits(n as int),
{
    out.push(digit_char_exec(n / 1000));
    out.push(digit_char_exec((n / 100) % 10));
    out.push(digit_char_exec((n / 10) % 10));
    out.push(digit_char_exec(n % 10));
    proof {
        assert(final(out)@ =~= old(out)@ + four_digits(n as int));
    }
}

/// Renders a date as ISO `YYYY-MM-DD`.
pub fn iso_date_string(d: &Date) -> (r: String)
    requires
        d.wf(),
    ensures
        r@ == iso_date_seq(*d),
{
    let mut out: Vec<char> = Vec::new();
    push_four_digits(&mut out, d.year);
    out.push('-');
    push_two_digits(&mut out, d.month);
    out.push('-');
    push_two_digits(&mut out, d.day);
    proof {
        assert(out@ =~= iso_date_seq(*d));
    }
    string_from_chars(&out)
}

// ---------------------------------------------------------------------------
// The conversion itself
// ---------------------------------------------------------------------------

/// The absolute instant named by a reference date, a local clock time and
/// a UTC offset in minutes, in seconds from the start of year 0, UTC.
pub open spec fn instant_seconds(d: Date, time: Seq<char>, offset_minutes: int) -> int {
    day_number(d.year as int, d.month as int, d.day as int) * 86400 + hh_of(time) * 3600 + mm_of(
        time,
    ) * 60 - offset_minutes * 60
}

/// A decomposition of an instant into a calendar date and a time of day.
/// For any instant in the supported range exactly one decomposition exists.
pub open spec fn instant_decomposition(
    t: int,
    y: int,
    mo: int,
    d: int,
    h: int,
    mi: int,
    sec: int,
) -> bool {
    &&& valid_ymd(y, mo, d)
    &&& 0 <= h < 24
    &&& 0 <= mi < 60
    &&& 0 <= sec < 60
    &&& day_number(y, mo, d) * 86400 + h * 3600 + mi * 60 + sec == t
}

/// What converting a clock string to an RFC 3339 instant returns: a
/// malformed time string is a parse error; an instant outside the
/// supported calendar is a validation error; otherwise the result renders
/// the unique calendar decomposition of the instant.
pub open spec fn format_result(
    r: Result<String, Error>,
    date: Date,
    time: Seq<char>,
    offset_minutes: int,
) -> bool {
    let t = instant_seconds(date, time, offset_minutes);
    match r {
        Ok(s) => valid_hhmm(time) && 0 <= t < 86400 * days_before_year(10000) && exists|
            y: int,
            mo: int,
            d: int,
            h: int,
            mi: int,
            sec: int,
        |
            instant_decomposition(t, y, mo, d, h, mi, sec) && s@ == rfc3339_seq(
                y,
                mo,
                d,
                h,
                mi,
                sec,
            ),
        Err(e) => {
            if !valid_hhmm(time) {
                e is ParseError
            } else {
                !(0 <= t < 86400 * days_before_year(10000)) && e is ValidationError
            }
        },
    }
}

/// Converts a local clock time on a reference date, with a fixed offset
/// from UTC in minutes, to an RFC 3339 timestamp in UTC.
///
/// The time string is validated; the configured offset is subtracted from
/// the naive local timestamp; the result is rendered in UTC.  An instant
/// that falls outside the supported calendar (before year 0 or after year
/// 9999) is rejected.
pub fn format_instant(local_time: &str, reference_date: &Date, offset_minutes: i64) -> (r: Result<
    String,
    Error,
>)
    requires
        reference_date.wf(),
        -1000000000000 <= offset_minutes <= 1000000000000,
    ensures
        format_result(r, *reference_date, local_time@, offset_minutes as int),
{
    let (hh, mm) = match parse_hhmm(local_time) {
        Ok(t) => t,
        Err(e) => {
            return Err(e);
        },
    };
    let day0 = day_number_exec(reference_date);
    let t: i64 = (day0 as i64) * 86400 + (hh as i64) * 3600 + (mm as i64) * 60 - offset_minutes
        * 60;
    proof {
        assert(t == instant_seconds(*reference_date, local_time@, offset_minutes as int));
    }
    if t < 0 {
        return Err(Error::ValidationError(String::from_str("instant out of supported range")));
    }
    let limit = days_before_year_exec(10000);
    let tu: u64 = t as u64;
    let day: u64 = tu / 86400;
    let sod: u64 = tu % 86400;
    proof {
        lemma_fundamental_div_mod(tu as int, 86400);
    }
    if day >= limit as u64 {
        proof {
            assert(t >= 86400 * days_before_year(10000));
        }
        return Err(Error::ValidationError(String::from_str("instant out of supported range")));
    }
    let date2 = civil_from_day(day as u32);
    let h: u64 = sod / 3600;
    let rem: u64 = sod % 3600;
    let mi: u64 = rem / 60;
    let sec: u64 = rem % 60;
    proof {
        lemma_fundamental_div_mod(sod as int, 3600);
        lemma_fundamental_div_mod(rem as int, 60);
        assert(h < 24);
        assert(mi < 60);
        assert(sec < 60);
    }
    let mut out: Vec<char> = Vec::new();
    push_four_digits(&mut out, date2.year);
    out.push('-');
    push_two_digits(&mut out, date2.month);
    out.push('-');
    push_two_digits(&mut out, date2.day);
    out.push('T');
    push_two_digits(&mut out, h as u32);
    out.push(':');
    push_two_digits(&mut out, mi as u32);
    out.push(':');
    push_two_digits(&mut out, sec as u32);
    out.push('+');
    out.push('0');
    out.push('0');
    out.push(':');
    out.push('0');
    out.push('0');
    let s = string_from_chars(&out);
    proof {
        let ghost yy = date2.year as int;
        let ghost mo = date2.month as int;
        let ghost dd = date2.day as int;
        assert(s@ =~= rfc3339_seq(yy, mo, dd, h as int, mi as int, sec as int));
        assert(day_number(yy, mo, dd) == day as int);
        assert(day_number(yy, mo, dd) * 86400 + (h as int) * 3600 + (mi as int) * 60 + (sec as int)
            == t as int);
        assert(instant_decomposition(
            t as int,
            yy,
            mo,
            dd,
            h as int,
            mi as int,
            sec as int,
        ));
    }
    Ok(s)
}

// ---------------------------------------------------------------------------
// The machine's clock
// ---------------------------------------------------------------------------

/// The local wall-clock time as a 4-digit 24-hour string.
///
/// Relies on `chrono::Local::now` and `DateTime::format` with `"%H%M"`:
/// the hour is rendered zero-padded in 00..=23 and the minute zero-padded
/// in 00..=59, so the result is always a well-formed clock string.
#[verifier::external_body]
pub fn local_now_hhmm() -> (r: String)
    ensures
        valid_hhmm(r@),
{
    chrono::Local::now().format("%H%M").to_string()
}

/// The local calendar date as year, month and day.
///
/// Relies on `chrono::Local::now`, `DateTime::date_naive` and the
/// `Datelike` accessors `year`, `month` and `day`: the month is in 1..=12
/// and the day in 1..=31 of a real calendar date.
#[verifier::external_body]
pub fn local_today_ymd() -> (r: (i64, u32, u32))
    ensures
        1 <= r.1 <= 12,
        1 <= r.2 <= 31,
{
    let d = chrono::Local::now().date_naive();
    (chrono::Datelike::year(&d) as i64, chrono::Datelike::month(&d), chrono::Datelike::day(&d))
}

/// Today's date according to the machine's clock, validated into the
/// supported calendar range.
pub fn current_reference_date() -> (r: Result<Date, Error>)
    ensures
        r matches Ok(d) ==> d.wf(),
{
    let (y, m, d) = local_today_ymd();
    if y < 0 || y > 9999 {
        return Err(Error::ValidationError(String::from_str("date out of supported range")));
    }
    Date::new(y as u32, m, d)
}

// ---------------------------------------------------------------------------
// ISO date strings
// ---------------------------------------------------------------------------

/// The year named by an ISO `YYYY-MM-DD` string.
pub open spec fn iso_year_of(s: Seq<char>) -> int {
    digit_val(s[0]) * 1000 + digit_val(s[1]) * 100 + digit_val(s[2]) * 10 + digit_val(s[3])
}

/// The month named by an ISO `YYYY-MM-DD` string.
pub open spec fn iso_month_of(s: Seq<char>) -> int {
    digit_val(s[5]) * 10 + digit_val(s[6])
}

/// The day named by an ISO `YYYY-MM-DD` string.
pub open spec fn iso_day_of(s: Seq<char>) -> int {
    digit_val(s[8]) * 10 + digit_val(s[9])
}

/// A well-formed ISO date string naming a real calendar date.
pub open spec fn valid_iso_date(s: Seq<char>) -> bool {
    &&& s.len() == 10
    &&& forall|i: int|
        (0 <= i < 4 || i == 5 || i == 6 || i == 8 || i == 9) ==> is_digit_char(#[trigger] s[i])
    &&& s[4] == '-'
    &&& s[7] == '-'
    &&& valid_ymd(iso_year_of(s), iso_month_of(s), iso_day_of(s))
}

/// Parses an ISO `YYYY-MM-DD` string into a validated date.
pub fn parse_date(s: &str) -> (r: Result<Date, Error>)
    ensures
        valid_iso_date(s@) ==> (r matches Ok(d) && d.year == iso_year_of(s@) && d.month
            == iso_month_of(s@) && d.day == iso_day_of(s@) && d.wf()),
        !valid_iso_date(s@) ==> (r matches Err(e) && e is ParseError),
{
    let n = s.unicode_len();
    if n != 10 {
        return Err(Error::ParseError(String::from_str("invalid date format")));
    }
    if !(s.get_char(4) == '-' && s.get_char(7) == '-') {
        return Err(Error::ParseError(String::from_str("invalid date format")));
    }
    let d0 = digit_of(s.get_char(0));
    let d1 = digit_of(s.get_char(1));
    let d2 = digit_of(s.get_char(2));
    let d3 = digit_of(s.get_char(3));
    let m0 = digit_of(s.get_char(5));
    let m1 = digit_of(s.get_char(6));
    let a0 = digit_of(s.get_char(8));
    let a1 = digit_of(s.get_char(9));
    match (d0, d1, d2, d3, m0, m1, a0, a1) {
        (Some(y3), Some(y2), Some(y1), Some(y0), Some(mo1), Some(mo0), Some(dd1), Some(dd0)) => {
            let year = y3 * 1000 + y2 * 100 + y1 * 10 + y0;
            let month = mo1 * 10 + mo0;
            let day = dd1 * 10 + dd0;
            match Date::new(year, month, day) {
                Ok(d) => Ok(d),
                Err(_) => Err(Error::ParseError(String::from_str("invalid calendar date"))),
            }
        },
        _ => Err(Error::ParseError(String::from_str("invalid date format"))),
    }
}

} // verus!
