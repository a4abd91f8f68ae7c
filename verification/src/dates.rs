//! Calendar dates and their two written forms: six digits on the wire,
//! `YYYY-MM-DD` in the nested document.

use vstd::prelude::*;
use crate::text::{
    all_digits, digit_to_number, four_digits, is_digit, number_to_digit, range_all_digits,
    two_digit_value, two_digits,
};

verus! {

/// A day of the proleptic Gregorian calendar.
#[derive(Debug, Clone, Copy, PartialEq, Eq, Structural)]
pub struct Date {
    /// Full year.
    pub year: u16,
    /// Month, from 1.
    pub month: u8,
    /// Day of the month, from 1.
    pub day: u8,
}

/// A month and a day without a year.
#[derive(Debug, Clone, Copy, PartialEq, Eq, Structural)]
pub struct MonthDay {
    /// Month, from 1.
    pub month: u8,
    /// Day of the month, from 1.
    pub day: u8,
}

/// `year` has a 29th of February.
pub open spec fn is_leap_year(year: int) -> bool {
    year % 4 == 0 && (year % 100 != 0 || year % 400 == 0)
}

/// The number of days of `month` in `year`; zero where there is no such month.
pub open spec fn days_in_month(year: int, month: int) -> int {
    if month == 2 {
        if is_leap_year(year) { 29 } else { 28 }
    } else if month == 4 || month == 6 || month == 9 || month == 11 {
        30
    } else if 1 <= month <= 12 {
        31
    } else {
        0
    }
}

/// The day `day` of month `month` exists in `year`.
pub open spec fn is_calendar_date(year: int, month: int, day: int) -> bool {
    1 <= month <= 12 && 1 <= day <= days_in_month(year, month)
}

/// The full year that a two digit year stands for: up to 69 the years from
/// 2000, from 70 the years from 1900.
pub open spec fn pivot_year(yy: int) -> int {
    if yy <= 69 { 2000 + yy } else { 1900 + yy }
}

impl Date {
    /// The date exists and its year has at most four digits.
    pub open spec fn is_valid(self) -> bool {
        self.year <= 9999 && is_calendar_date(self.year as int, self.month as int, self.day as int)
    }

    /// The date can be written with a two digit year and read back.
    pub open spec fn in_pivot_window(self) -> bool {
        1970 <= self.year <= 2069
    }
}

/// The date that six characters denote on the wire, if they are six digits
/// `YYMMDD` of a day that exists.
pub open spec fn decode_yymmdd(s: Seq<char>) -> Option<Date> {
    if s.len() == 6 && all_digits(s) {
        let year = pivot_year(two_digit_value(s[0], s[1]));
        let month = two_digit_value(s[2], s[3]);
        let day = two_digit_value(s[4], s[5]);
        if is_calendar_date(year, month, day) {
            Some(Date { year: year as u16, month: month as u8, day: day as u8 })
        } else {
            None
        }
    } else {
        None
    }
}

/// The six digits `YYMMDD` of a date.
pub open spec fn render_yymmdd(d: Date) -> Seq<char> {
    two_digits(d.year as int % 100) + two_digits(d.month as int) + two_digits(d.day as int)
}

/// The ten characters `YYYY-MM-DD` of a date.
pub open spec fn render_iso(d: Date) -> Seq<char> {
    four_digits(d.year as int) + seq!['-'] + two_digits(d.month as int) + seq!['-'] + two_digits(
        d.day as int,
    )
}

/// The date that ten characters `YYYY-MM-DD` denote, if the day exists.
pub open spec fn decode_iso(s: Seq<char>) -> Option<Date> {
    if s.len() == 10 && all_digits(s.subrange(0, 4)) && s[4] == '-' && all_digits(s.subrange(5, 7))
        && s[7] == '-' && all_digits(s.subrange(8, 10)) {
        let year = two_digit_value(s[0], s[1]) * 100 + two_digit_value(s[2], s[3]);
        let month = two_digit_value(s[5], s[6]);
        let day = two_digit_value(s[8], s[9]);
        if is_calendar_date(year, month, day) {
            Some(Date { year: year as u16, month: month as u8, day: day as u8 })
        } else {
            None
        }
    } else {
        None
    }
}

/// chrono's date without a time zone. Nothing of it is read here: whether a
/// date could be made is all that is asked.
#[verifier::external_type_specification]
#[verifier::external_body]
pub struct ExNaiveDate(chrono::NaiveDate);

/// Calls chrono's `NaiveDate::from_ymd_opt`. chrono makes no date exactly
/// when the month or the day is out of range, the day does not exist in that
/// month of that year, or the year is beyond chrono's own range, which no
/// year of at most four digits is.
#[verifier::external_body]
fn naive_date(year: i32, month: u32, day: u32) -> (r: Option<chrono::NaiveDate>)
    requires
        0 <= year <= 9999,
    ensures
        r is Some <==> is_calendar_date(year as int, month as int, day as int),
{
    chrono::NaiveDate::from_ymd_opt(year, month, day)
}

/// Makes a date of three numbers if that day exists and its year has at most
/// four digits.
pub fn make_date(year: u16, month: u8, day: u8) -> (r: Option<Date>)
    ensures
        r == if year <= 9999 && is_calendar_date(year as int, month as int, day as int) {
            Some(Date { year, month, day })
        } else {
            None
        },
{
    if year > 9999 {
        return None;
    }
    if naive_date(year as i32, month as u32, day as u32).is_some() {
        Some(Date { year, month, day })
    } else {
        None
    }
}

/// Reads the two digits at `at` as a number.
pub fn read_two_digits(s: &[char], at: usize) -> (r: u8)
    requires
        at + 2 <= s@.len(),
        is_digit(s@[at as int]),
        is_digit(s@[at + 1]),
    ensures
        r as int == two_digit_value(s@[at as int], s@[at + 1]),
        r <= 99,
{
    let n: usize = s.len();
    assert(at + 2 <= n);
    digit_to_number(s[at]) * 10 + digit_to_number(s[at + 1])
}

/// Reads six characters at `at` as a wire date.
pub fn read_yymmdd(s: &[char], at: usize) -> (r: Option<Date>)
    requires
        at + 6 <= s@.len(),
    ensures
        r == decode_yymmdd(s@.subrange(at as int, at + 6)),
        r matches Some(d) ==> d.is_valid() && d.in_pivot_window(),
{
    let ghost sub = s@.subrange(at as int, at + 6);
    let n: usize = s.len();
    assert(at + 6 <= n);
    if !range_all_digits(s, at, at + 6) {
        return None;
    }
    proof {
        assert forall|k: int| 0 <= k < 6 implies is_digit(#[trigger] s@[at + k]) by {
            assert(sub[k] == s@[at + k]);
        }
        assert(sub[0] == s@[at + 0] && sub[1] == s@[at + 1] && sub[2] == s@[at + 2] && sub[3]
            == s@[at + 3] && sub[4] == s@[at + 4] && sub[5] == s@[at + 5]);
    }
    let yy: u8 = read_two_digits(s, at);
    let month: u8 = read_two_digits(s, at + 2);
    let day: u8 = read_two_digits(s, at + 4);
    let year: u16 = if yy <= 69 { 2000 + yy as u16 } else { 1900 + yy as u16 };
    make_date(year, month, day)
}

/// Reads a whole slice as a date `YYYY-MM-DD`.
pub fn read_iso(s: &[char]) -> (r: Option<Date>)
    ensures
        r == decode_iso(s@),
        r matches Some(d) ==> d.is_valid(),
{
    if s.len() != 10 {
        return None;
    }
    if !range_all_digits(s, 0, 4) || s[4] != '-' || !range_all_digits(s, 5, 7) || s[7] != '-'
        || !range_all_digits(s, 8, 10) {
        return None;
    }
    proof {
        let a = s@.subrange(0, 4);
        let b = s@.subrange(5, 7);
        let c = s@.subrange(8, 10);
        assert(a[0] == s@[0] && a[1] == s@[1] && a[2] == s@[2] && a[3] == s@[3]);
        assert(b[0] == s@[5] && b[1] == s@[6]);
        assert(c[0] == s@[8] && c[1] == s@[9]);
    }
    let hi: u8 = read_two_digits(s, 0);
    let lo: u8 = read_two_digits(s, 2);
    let month: u8 = read_two_digits(s, 5);
    let day: u8 = read_two_digits(s, 8);
    let year: u16 = hi as u16 * 100 + lo as u16;
    make_date(year, month, day)
}

/// Appends a number below one hundred as two digits.
pub fn push_two_digits(out: &mut Vec<char>, n: u8)
    requires
        n <= 99,
    ensures
        final(out)@ == old(out)@ + two_digits(n as int),
{
    out.push(number_to_digit(n / 10));
    out.push(number_to_digit(n % 10));
    proof {
        assert(final(out)@ =~= old(out)@ + two_digits(n as int));
    }
}

/// Appends the six wire digits of a date.
pub fn push_yymmdd(out: &mut Vec<char>, d: Date)
    requires
        d.is_valid(),
    ensures
        final(out)@ == old(out)@ + render_yymmdd(d),
{
    push_two_digits(out, (d.year % 100) as u8);
    push_two_digits(out, d.month);
    push_two_digits(out, d.day);
    proof {
        assert(final(out)@ =~= old(out)@ + render_yymmdd(d));
    }
}

/// Appends a date as `YYYY-MM-DD`.
pub fn push_iso(out: &mut Vec<char>, d: Date)
    requires
        d.is_valid(),
    ensures
        final(out)@ == old(out)@ + render_iso(d),
{
    push_two_digits(out, (d.year / 100) as u8);
    push_two_digits(out, (d.year % 100) as u8);
    out.push('-');
    push_two_digits(out, d.month);
    out.push('-');
    push_two_digits(out, d.day);
    proof {
        assert(final(out)@ =~= old(out)@ + render_iso(d));
    }
}

/// Two digits written for a number read back as that number.
pub proof fn lemma_two_digits(n: int)
    requires
        0 <= n <= 99,
    ensures
        two_digits(n).len() == 2,
        all_digits(two_digits(n)),
        is_digit(two_digits(n)[0]),
        is_digit(two_digits(n)[1]),
        two_digit_value(two_digits(n)[0], two_digits(n)[1]) == n,
{
}

/// A date inside the pivot window, written as six digits, reads back as
/// itself.
pub proof fn lemma_yymmdd_round_trip(d: Date)
    requires
        d.is_valid(),
        d.in_pivot_window(),
    ensures
        decode_yymmdd(render_yymmdd(d)) == Some(d),
{
    let s = render_yymmdd(d);
    lemma_two_digits(d.year as int % 100);
    lemma_two_digits(d.month as int);
    lemma_two_digits(d.day as int);
    assert(s.len() == 6);
    assert(s[0] == two_digits(d.year as int % 100)[0]);
    assert(s[1] == two_digits(d.year as int % 100)[1]);
    assert(s[2] == two_digits(d.month as int)[0]);
    assert(s[3] == two_digits(d.month as int)[1]);
    assert(s[4] == two_digits(d.day as int)[0]);
    assert(s[5] == two_digits(d.day as int)[1]);
    assert(all_digits(s));
}

/// A date written as `YYYY-MM-DD` reads back as itself.
pub proof fn lemma_iso_round_trip(d: Date)
    requires
        d.is_valid(),
    ensures
        decode_iso(render_iso(d)) == Some(d),
        render_iso(d).len() == 10,
{
    let s = render_iso(d);
    let y = d.year as int;
    lemma_two_digits(y / 100);
    lemma_two_digits(y % 100);
    lemma_two_digits(d.month as int);
    lemma_two_digits(d.day as int);
    assert(s.len() == 10);
    assert(s[0] == two_digits(y / 100)[0]);
    assert(s[1] == two_digits(y / 100)[1]);
    assert(s[2] == two_digits(y % 100)[0]);
    assert(s[3] == two_digits(y % 100)[1]);
    assert(s[4] == '-');
    assert(s[5] == two_digits(d.month as int)[0]);
    assert(s[6] == two_digits(d.month as int)[1]);
    assert(s[7] == '-');
    assert(s[8] == two_digits(d.day as int)[0]);
    assert(s[9] == two_digits(d.day as int)[1]);
    assert(all_digits(s.subrange(0, 4)));
    assert(all_digits(s.subrange(5, 7)));
    assert(all_digits(s.subrange(8, 10)));
}

/// Two digits are the two digits of the number they write.
pub proof fn lemma_pair(a: char, b: char)
    requires
        is_digit(a),
        is_digit(b),
    ensures
        two_digits(two_digit_value(a, b)) == seq![a, b],
        0 <= two_digit_value(a, b) <= 99,
{
    assert(two_digits(two_digit_value(a, b)) =~= seq![a, b]);
}

/// The six digits of a date that was decoded from six characters are those
/// characters.
pub proof fn lemma_yymmdd_render(s: Seq<char>)
    requires
        decode_yymmdd(s) is Some,
    ensures
        render_yymmdd(decode_yymmdd(s)->0) == s,
        (decode_yymmdd(s)->0).is_valid(),
        (decode_yymmdd(s)->0).in_pivot_window(),
{
    let d = decode_yymmdd(s)->0;
    assert(is_digit(s[0]) && is_digit(s[1]) && is_digit(s[2]) && is_digit(s[3]) && is_digit(s[4])
        && is_digit(s[5]));
    lemma_two_digits(d.year as int % 100);
    lemma_two_digits(d.month as int);
    lemma_two_digits(d.day as int);
    lemma_pair(s[0], s[1]);
    lemma_pair(s[2], s[3]);
    lemma_pair(s[4], s[5]);
    assert(render_yymmdd(d) =~= s);
}

} // verus!
