use chrono::{Datelike, Timelike};
use vstd::prelude::*;

verus! {

/// A calendar date in the proleptic Gregorian calendar, held as plain
/// year / month / day numbers. Well-formed dates (see [`Date::wf`]) have a
/// four-digit year, a month from 1 to 12, and a day that exists in that month.
#[derive(Clone, Copy, PartialEq, Eq, Structural, Debug)]
pub struct Date {
    pub year: u32,
    pub month: u32,
    pub day: u32,
}

/// A UTC instant with second precision: a calendar date plus time of day.
/// This is the timestamp type used by task records and annotations; on the
/// wire it is rendered as `YYYYMMDDTHHMMSSZ`.
#[derive(Clone, Copy, PartialEq, Eq, Structural, Debug)]
pub struct DateTime {
    pub date: Date,
    pub hour: u32,
    pub minute: u32,
    pub second: u32,
}

pub open spec fn is_leap_year(y: int) -> bool {
    y % 4 == 0 && (y % 100 != 0 || y % 400 == 0)
}

pub open spec fn days_in_month(y: int, m: int) -> int {
    if m == 2 {
        if is_leap_year(y) {
            29
        } else {
            28
        }
    } else if m == 4 || m == 6 || m == 9 || m == 11 {
        30
    } else {
        31
    }
}

impl Date {
    pub open spec fn wf(self) -> bool {
        &&& self.year <= 9999
        &&& 1 <= self.month <= 12
        &&& 1 <= self.day <= days_in_month(self.year as int, self.month as int)
    }
}

impl DateTime {
    pub open spec fn wf(self) -> bool {
        &&& self.date.wf()
        &&& self.hour <= 23
        &&& self.minute <= 59
        &&& self.second <= 59
    }

    /// The calendar date of this instant.
    pub fn day_of(&self) -> (r: Date)
        ensures
            r == self.date,
    {
        self.date
    }
}

/// The decimal digit character for a value from 0 to 9.
pub open spec fn digit_char(d: int) -> char {
    (d + 48) as char
}

pub open spec fn is_digit_char(c: char) -> bool {
    48 <= c as int <= 57
}

pub open spec fn digit_val(c: char) -> int {
    c as int - 48
}

/// Two-digit zero-padded decimal rendering of `n` (for `0 <= n < 100`).
pub open spec fn pad2(n: int) -> Seq<char> {
    seq![digit_char(n / 10 % 10), digit_char(n % 10)]
}

/// Four-digit zero-padded decimal rendering of `n` (for `0 <= n < 10000`).
pub open spec fn pad4(n: int) -> Seq<char> {
    seq![
        digit_char(n / 1000 % 10),
        digit_char(n / 100 % 10),
        digit_char(n / 10 % 10),
        digit_char(n % 10),
    ]
}

/// The value of the two-digit decimal number at position `i` of `s`.
pub open spec fn read2(s: Seq<char>, i: int) -> int {
    digit_val(s[i]) * 10 + digit_val(s[i + 1])
}

/// The value of the four-digit decimal number at position `i` of `s`.
pub open spec fn read4(s: Seq<char>, i: int) -> int {
    digit_val(s[i]) * 1000 + digit_val(s[i + 1]) * 100 + digit_val(s[i + 2]) * 10 + digit_val(
        s[i + 3],
    )
}

/// The fixed wire rendering of a timestamp: `YYYYMMDDTHHMMSSZ`.
pub open spec fn spec_render_timestamp(dt: DateTime) -> Seq<char> {
    pad4(dt.date.year as int) + pad2(dt.date.month as int) + pad2(dt.date.day as int) + seq!['T']
        + pad2(dt.hour as int) + pad2(dt.minute as int) + pad2(dt.second as int) + seq!['Z']
}

/// Both characters at positions `i` and `i + 1` of `s` are digits.
pub open spec fn digits2(s: Seq<char>, i: int) -> bool {
    is_digit_char(s[i]) && is_digit_char(s[i + 1])
}

/// All four characters at positions `i` to `i + 3` of `s` are digits.
pub open spec fn digits4(s: Seq<char>, i: int) -> bool {
    digits2(s, i) && digits2(s, i + 2)
}

/// Whether `s` has the exact shape `YYYYMMDDTHHMMSSZ`: sixteen characters,
/// digits everywhere but a literal `T` at index 8 and `Z` at index 15.
pub open spec fn timestamp_shape(s: Seq<char>) -> bool {
    &&& s.len() == 16
    &&& s[8] == 'T'
    &&& s[15] == 'Z'
    &&& digits4(s, 0)
    &&& digits2(s, 4)
    &&& digits2(s, 6)
    &&& digits2(s, 9)
    &&& digits2(s, 11)
    &&& digits2(s, 13)
}

/// The instant denoted by a shape-valid timestamp string.
pub open spec fn timestamp_fields(s: Seq<char>) -> DateTime {
    DateTime {
        date: Date { year: read4(s, 0) as u32, month: read2(s, 4) as u32, day: read2(s, 6) as u32 },
        hour: read2(s, 9) as u32,
        minute: read2(s, 11) as u32,
        second: read2(s, 13) as u32,
    }
}

/// The strict parse of the fixed timestamp format: `Some` exactly when the
/// string has the sixteen-character shape and the fields form a well-formed
/// instant, with no fallback formats.
pub open spec fn spec_parse_timestamp(s: Seq<char>) -> Option<DateTime> {
    if timestamp_shape(s) && timestamp_fields(s).wf() {
        Some(timestamp_fields(s))
    } else {
        None
    }
}

/// The rendering of a calendar date in the notes header: `YYYY-MM-DD`.
pub open spec fn spec_render_date(d: Date) -> Seq<char> {
    pad4(d.year as int) + seq!['-'] + pad2(d.month as int) + seq!['-'] + pad2(d.day as int)
}

/// Whether `s` has the exact shape `YYYY-MM-DD`.
pub open spec fn date_shape(s: Seq<char>) -> bool {
    &&& s.len() == 10
    &&& s[4] == '-'
    &&& s[7] == '-'
    &&& digits4(s, 0)
    &&& digits2(s, 5)
    &&& digits2(s, 8)
}

pub open spec fn date_fields(s: Seq<char>) -> Date {
    Date { year: read4(s, 0) as u32, month: read2(s, 5) as u32, day: read2(s, 8) as u32 }
}

/// The strict parse of the `YYYY-MM-DD` date format.
pub open spec fn spec_parse_date(s: Seq<char>) -> Option<Date> {
    if date_shape(s) && date_fields(s).wf() {
        Some(date_fields(s))
    } else {
        None
    }
}

/// Push the two-digit zero-padded decimal rendering of `n` onto `out`.
fn push_pad2(out: &mut Vec<char>, n: u32)
    requires
        n < 100,
    ensures
        final(out)@ == old(out)@ + pad2(n as int),
{
    let d1: u8 = (n / 10) as u8;
    let d0: u8 = (n % 10) as u8;
    out.push((48 + d1) as char);
    out.push((48 + d0) as char);
    assert(n as int / 10 % 10 == n as int / 10) by {
        assert(n as int / 10 < 10);
    };
    assert(out@ =~= old(out)@ + pad2(n as int));
}

/// Push the four-digit zero-padded decimal rendering of `n` onto `out`.
fn push_pad4(out: &mut Vec<char>, n: u32)
    requires
        n < 10000,
    ensures
        final(out)@ == old(out)@ + pad4(n as int),
{
    let d3: u8 = (n / 1000) as u8;
    let d2: u8 = (n / 100 % 10) as u8;
    let d1: u8 = (n / 10 % 10) as u8;
    let d0: u8 = (n % 10) as u8;
    out.push((48 + d3) as char);
    out.push((48 + d2) as char);
    out.push((48 + d1) as char);
    out.push((48 + d0) as char);
    assert(n / 1000 % 10 == n / 1000) by {
        assert(n / 1000 < 10);
    };
    assert(out@ =~= old(out)@ + pad4(n as int));
}

/// Render a timestamp in the fixed wire format `YYYYMMDDTHHMMSSZ`.
pub fn render_timestamp(dt: &DateTime) -> (r: Vec<char>)
    requires
        dt.wf(),
    ensures
        r@ == spec_render_timestamp(*dt),
{
    let mut out: Vec<char> = Vec::new();
    push_pad4(&mut out, dt.date.year);
    push_pad2(&mut out, dt.date.month);
    push_pad2(&mut out, dt.date.day);
    out.push('T');
    push_pad2(&mut out, dt.hour);
    push_pad2(&mut out, dt.minute);
    push_pad2(&mut out, dt.second);
    out.push('Z');
    assert(out@ =~= spec_render_timestamp(*dt));
    out
}

/// Render a calendar date as `YYYY-MM-DD`.
pub fn render_date(d: &Date) -> (r: Vec<char>)
    requires
        d.wf(),
    ensures
        r@ == spec_render_date(*d),
{
    let mut out: Vec<char> = Vec::new();
    push_pad4(&mut out, d.year);
    out.push('-');
    push_pad2(&mut out, d.month);
    out.push('-');
    push_pad2(&mut out, d.day);
    assert(out@ =~= spec_render_date(*d));
    out
}

/// Whether `c` is a decimal digit.
fn is_digit(c: char) -> (r: bool)
    ensures
        r == is_digit_char(c),
{
    let u = c as u32;
    48 <= u && u <= 57
}

/// The value of the digit character `c`.
fn digit_value(c: char) -> (r: u32)
    requires
        is_digit_char(c),
    ensures
        r == digit_val(c),
{
    c as u32 - 48
}

/// Read the two-digit number at position `i` of `s`, if both characters are
/// digits.
fn read_two(s: &Vec<char>, i: usize) -> (r: Option<u32>)
    requires
        i + 2 <= s@.len(),
    ensures
        match r {
            Some(n) => is_digit_char(s@[i as int]) && is_digit_char(s@[i + 1]) && n == read2(
                s@,
                i as int,
            ),
            None => !(is_digit_char(s@[i as int]) && is_digit_char(s@[i + 1])),
        },
{
    let _n = s.len();
    let c1 = s[i];
    let c0 = s[i + 1];
    if is_digit(c1) && is_digit(c0) {
        Some(digit_value(c1) * 10 + digit_value(c0))
    } else {
        None
    }
}

/// Read the four-digit number at position `i` of `s`, if all four characters
/// are digits.
fn read_four(s: &Vec<char>, i: usize) -> (r: Option<u32>)
    requires
        i + 4 <= s@.len(),
    ensures
        match r {
            Some(n) => digits4(s@, i as int) && n == read4(s@, i as int),
            None => !digits4(s@, i as int),
        },
{
    let _n = s.len();
    let a = read_two(s, i);
    let b = read_two(s, i + 2);
    match (a, b) {
        (Some(hi), Some(lo)) => Some(hi * 100 + lo),
        _ => None,
    }
}

/// Check that a month/day pair exists in the calendar for the given year.
fn check_day(year: u32, month: u32, day: u32) -> (r: bool)
    requires
        1 <= month <= 12,
    ensures
        r == (1 <= day <= days_in_month(year as int, month as int)),
{
    let max: u32 = if month == 2 {
        let leap = year % 4 == 0 && (year % 100 != 0 || year % 400 == 0);
        if leap {
            29
        } else {
            28
        }
    } else if month == 4 || month == 6 || month == 9 || month == 11 {
        30
    } else {
        31
    };
    1 <= day && day <= max
}

/// Strictly parse a timestamp in the fixed wire format `YYYYMMDDTHHMMSSZ`.
/// Returns `Some` exactly on shape-valid strings denoting well-formed
/// instants, per [`spec_parse_timestamp`].
pub fn parse_timestamp(s: &Vec<char>) -> (r: Option<DateTime>)
    ensures
        r == spec_parse_timestamp(s@),
{
    if s.len() != 16 {
        return None;
    }
    if s[8] != 'T' || s[15] != 'Z' {
        return None;
    }
    let year = read_four(s, 0);
    let month = read_two(s, 4);
    let day = read_two(s, 6);
    let hour = read_two(s, 9);
    let minute = read_two(s, 11);
    let second = read_two(s, 13);
    match (year, month, day, hour, minute, second) {
        (Some(y), Some(mo), Some(d), Some(h), Some(mi), Some(sec)) => {
            assert(timestamp_shape(s@));
            if 1 <= mo && mo <= 12 && check_day(y, mo, d) && h <= 23 && mi <= 59 && sec <= 59 {
                Some(DateTime { date: Date { year: y, month: mo, day: d }, hour: h, minute: mi, second: sec })
            } else {
                None
            }
        },
        _ => {
            assert(!timestamp_shape(s@));
            None
        },
    }
}

/// Strictly parse a calendar date in the format `YYYY-MM-DD`, per
/// [`spec_parse_date`].
pub fn parse_date(s: &Vec<char>) -> (r: Option<Date>)
    ensures
        r == spec_parse_date(s@),
{
    if s.len() != 10 {
        return None;
    }
    if s[4] != '-' || s[7] != '-' {
        return None;
    }
    let year = read_four(s, 0);
    let month = read_two(s, 5);
    let day = read_two(s, 8);
    match (year, month, day) {
        (Some(y), Some(mo), Some(d)) => {
            assert(date_shape(s@));
            if 1 <= mo && mo <= 12 && check_day(y, mo, d) {
                Some(Date { year: y, month: mo, day: d })
            } else {
                None
            }
        },
        _ => {
            assert(!date_shape(s@));
            None
        },
    }
}

/// Parsing inverts rendering: a well-formed instant rendered in the fixed
/// format parses back to the same instant.
pub proof fn lemma_timestamp_parse_render(dt: DateTime)
    requires
        dt.wf(),
    ensures
        spec_parse_timestamp(spec_render_timestamp(dt)) == Some(dt),
{
    let s = spec_render_timestamp(dt);
    lemma_pad4_digits(dt.date.year as int);
    lemma_pad2_digits(dt.date.month as int);
    lemma_pad2_digits(dt.date.day as int);
    lemma_pad2_digits(dt.hour as int);
    lemma_pad2_digits(dt.minute as int);
    lemma_pad2_digits(dt.second as int);
    assert(timestamp_shape(s));
    lemma_read4_pad4(dt.date.year as int);
    lemma_read2_pad2(dt.date.month as int);
    lemma_read2_pad2(dt.date.day as int);
    lemma_read2_pad2(dt.hour as int);
    lemma_read2_pad2(dt.minute as int);
    lemma_read2_pad2(dt.second as int);
    assert(s.subrange(0, 4) =~= pad4(dt.date.year as int));
    assert(s.subrange(4, 6) =~= pad2(dt.date.month as int));
    assert(s.subrange(6, 8) =~= pad2(dt.date.day as int));
    assert(s.subrange(9, 11) =~= pad2(dt.hour as int));
    assert(s.subrange(11, 13) =~= pad2(dt.minute as int));
    assert(s.subrange(13, 15) =~= pad2(dt.second as int));
    assert(read4(s, 0) == dt.date.year as int) by {
        assert(read4(s, 0) == read4(s.subrange(0, 4), 0));
    };
    assert(read2(s, 4) == dt.date.month as int) by {
        assert(read2(s, 4) == read2(s.subrange(4, 6), 0));
    };
    assert(read2(s, 6) == dt.date.day as int) by {
        assert(read2(s, 6) == read2(s.subrange(6, 8), 0));
    };
    assert(read2(s, 9) == dt.hour as int) by {
        assert(read2(s, 9) == read2(s.subrange(9, 11), 0));
    };
    assert(read2(s, 11) == dt.minute as int) by {
        assert(read2(s, 11) == read2(s.subrange(11, 13), 0));
    };
    assert(read2(s, 13) == dt.second as int) by {
        assert(read2(s, 13) == read2(s.subrange(13, 15), 0));
    };
    assert(timestamp_fields(s) == dt);
}

/// Rendering inverts parsing: a string that parses renders back to itself,
/// character for character. Together with [`lemma_timestamp_parse_render`]
/// this says the fixed format admits exactly one rendering per instant.
pub proof fn lemma_timestamp_render_parse(s: Seq<char>, dt: DateTime)
    requires
        spec_parse_timestamp(s) == Some(dt),
    ensures
        spec_render_timestamp(dt) == s,
{
    assert(timestamp_shape(s));
    assert(dt == timestamp_fields(s));
    lemma_pad4_read4(s.subrange(0, 4));
    lemma_pad2_read2(s.subrange(4, 6));
    lemma_pad2_read2(s.subrange(6, 8));
    lemma_pad2_read2(s.subrange(9, 11));
    lemma_pad2_read2(s.subrange(11, 13));
    lemma_pad2_read2(s.subrange(13, 15));
    assert(read4(s.subrange(0, 4), 0) == read4(s, 0));
    assert(read2(s.subrange(4, 6), 0) == read2(s, 4));
    assert(read2(s.subrange(6, 8), 0) == read2(s, 6));
    assert(read2(s.subrange(9, 11), 0) == read2(s, 9));
    assert(read2(s.subrange(11, 13), 0) == read2(s, 11));
    assert(read2(s.subrange(13, 15), 0) == read2(s, 13));
    assert(spec_render_timestamp(dt) =~= s);
}

/// The analogue of [`lemma_timestamp_parse_render`] for the `YYYY-MM-DD`
/// date format.
pub proof fn lemma_date_parse_render(d: Date)
    requires
        d.wf(),
    ensures
        spec_parse_date(spec_render_date(d)) == Some(d),
{
    let s = spec_render_date(d);
    lemma_pad4_digits(d.year as int);
    lemma_pad2_digits(d.month as int);
    lemma_pad2_digits(d.day as int);
    assert(date_shape(s));
    lemma_read4_pad4(d.year as int);
    lemma_read2_pad2(d.month as int);
    lemma_read2_pad2(d.day as int);
    assert(s.subrange(0, 4) =~= pad4(d.year as int));
    assert(s.subrange(5, 7) =~= pad2(d.month as int));
    assert(s.subrange(8, 10) =~= pad2(d.day as int));
    assert(read4(s, 0) == d.year as int) by {
        assert(read4(s, 0) == read4(s.subrange(0, 4), 0));
    };
    assert(read2(s, 5) == d.month as int) by {
        assert(read2(s, 5) == read2(s.subrange(5, 7), 0));
    };
    assert(read2(s, 8) == d.day as int) by {
        assert(read2(s, 8) == read2(s.subrange(8, 10), 0));
    };
    assert(date_fields(s) == d);
}

proof fn lemma_pad2_digits(n: int)
    requires
        0 <= n < 100,
    ensures
        is_digit_char(pad2(n)[0]),
        is_digit_char(pad2(n)[1]),
{
}

proof fn lemma_pad4_digits(n: int)
    requires
        0 <= n < 10000,
    ensures
        is_digit_char(pad4(n)[0]),
        is_digit_char(pad4(n)[1]),
        is_digit_char(pad4(n)[2]),
        is_digit_char(pad4(n)[3]),
{
}

proof fn lemma_read2_pad2(n: int)
    requires
        0 <= n < 100,
    ensures
        read2(pad2(n), 0) == n,
{
    assert(n / 10 % 10 == n / 10) by {
        assert(n / 10 < 10);
    };
    assert(n / 10 * 10 + n % 10 == n) by {
        vstd::arithmetic::div_mod::lemma_fundamental_div_mod(n, 10);
    };
}

proof fn lemma_read4_pad4(n: int)
    requires
        0 <= n < 10000,
    ensures
        read4(pad4(n), 0) == n,
{
    assert(n / 1000 % 10 == n / 1000) by {
        assert(n / 1000 < 10);
    };
    vstd::arithmetic::div_mod::lemma_fundamental_div_mod(n, 10);
    vstd::arithmetic::div_mod::lemma_fundamental_div_mod(n / 10, 10);
    vstd::arithmetic::div_mod::lemma_fundamental_div_mod(n / 100, 10);
    assert(n / 10 / 10 == n / 100) by (nonlinear_arith)
        requires
            0 <= n,
    ;
    assert(n / 100 / 10 == n / 1000) by (nonlinear_arith)
        requires
            0 <= n,
    ;
}

/// A digit character is reproduced by rendering its value.
proof fn lemma_digit_char_val(c: char)
    requires
        is_digit_char(c),
    ensures
        digit_char(digit_val(c)) == c,
{
}

proof fn lemma_pad2_read2(s: Seq<char>)
    requires
        s.len() == 2,
        is_digit_char(s[0]),
        is_digit_char(s[1]),
    ensures
        pad2(read2(s, 0)) == s,
{
    let n = read2(s, 0);
    let a = digit_val(s[0]);
    let b = digit_val(s[1]);
    assert(n == a * 10 + b);
    assert(n / 10 == a && n % 10 == b) by (nonlinear_arith)
        requires
            n == a * 10 + b,
            0 <= a <= 9,
            0 <= b <= 9,
    ;
    assert(n / 10 % 10 == n / 10) by {
        assert(n / 10 < 10);
    };
    lemma_digit_char_val(s[0]);
    lemma_digit_char_val(s[1]);
    assert(pad2(n) =~= s);
}

proof fn lemma_pad4_read4(s: Seq<char>)
    requires
        s.len() == 4,
        is_digit_char(s[0]),
        is_digit_char(s[1]),
        is_digit_char(s[2]),
        is_digit_char(s[3]),
    ensures
        pad4(read4(s, 0)) == s,
{
    let n = read4(s, 0);
    let a = digit_val(s[0]);
    let b = digit_val(s[1]);
    let c = digit_val(s[2]);
    let d = digit_val(s[3]);
    assert(n == a * 1000 + b * 100 + c * 10 + d);
    assert(n / 1000 == a && n / 100 % 10 == b && n / 10 % 10 == c && n % 10 == d)
        by (nonlinear_arith)
        requires
            n == a * 1000 + b * 100 + c * 10 + d,
            0 <= a <= 9,
            0 <= b <= 9,
            0 <= c <= 9,
            0 <= d <= 9,
    ;
    assert(n / 1000 % 10 == n / 1000) by {
        assert(n / 1000 < 10);
    };
    lemma_digit_char_val(s[0]);
    lemma_digit_char_val(s[1]);
    lemma_digit_char_val(s[2]);
    lemma_digit_char_val(s[3]);
    assert(pad4(n) =~= s);
}

} // verus!

verus! {

/// Relies on `chrono::Utc::now` and the `chrono::Datelike` /
/// `chrono::Timelike` accessors: the current UTC instant as plain calendar
/// fields (year, month, day, hour, minute, second). chrono yields a real
/// calendar date — month 1 to 12 and a day that exists in that month — and
/// a time of day with seconds 0 to 59 (a leap second is carried in the
/// subsecond field, which is dropped here). `Utc::now` does not return on a
/// system clock set before the Unix epoch.
#[verifier::external_body]
fn utc_now_parts() -> (r: (i64, u32, u32, u32, u32, u32))
    ensures
        1 <= r.1 <= 12,
        1 <= r.2 <= days_in_month(r.0 as int, r.1 as int),
        r.3 <= 23,
        r.4 <= 59,
        r.5 <= 59,
{
    let now = chrono::Utc::now();
    (now.year() as i64, now.month(), now.day(), now.hour(), now.minute(), now.second())
}

/// The current UTC instant. A clock reading whose year does not fit the
/// four-digit wire format falls back to the Unix epoch date; no real clock
/// produces one.
pub fn now_utc() -> (r: DateTime)
    ensures
        r.wf(),
{
    let (y, mo, d, h, mi, s) = utc_now_parts();
    if 0 <= y && y <= 9999 {
        DateTime {
            date: Date { year: y as u32, month: mo, day: d },
            hour: h,
            minute: mi,
            second: s,
        }
    } else {
        DateTime { date: Date { year: 1970, month: 1, day: 1 }, hour: 0, minute: 0, second: 0 }
    }
}

} // verus!

verus! {

impl Date {
    /// Runtime check of [`Date::wf`].
    pub fn well_formed(&self) -> (r: bool)
        ensures
            r == self.wf(),
    {
        self.year <= 9999 && 1 <= self.month && self.month <= 12 && check_day(
            self.year,
            self.month,
            self.day,
        )
    }
}

impl DateTime {
    /// Runtime check of [`DateTime::wf`].
    pub fn well_formed(&self) -> (r: bool)
        ensures
            r == self.wf(),
    {
        self.date.well_formed() && self.hour <= 23 && self.minute <= 59 && self.second <= 59
    }
}

} // verus!

verus! {

impl DateTime {
    /// Strictly parse the fixed wire format `YYYYMMDDTHHMMSSZ`, per
    /// [`spec_parse_timestamp`].
    pub fn parse(s: &str) -> (r: Option<DateTime>)
        ensures
            r == spec_parse_timestamp(s@),
    {
        let chars = crate::strings::str_to_chars(s);
        parse_timestamp(&chars)
    }

    /// Render this instant in the fixed wire format, per
    /// [`spec_render_timestamp`].
    pub fn render(&self) -> (r: String)
        requires
            self.wf(),
        ensures
            r@ == spec_render_timestamp(*self),
    {
        crate::strings::chars_to_string(&render_timestamp(self))
    }
}

} // verus!
