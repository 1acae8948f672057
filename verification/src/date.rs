//! Calendar dates, written and read in the `YYYY-MM-DD` form that the
//! command line and the database file both use.

use vstd::prelude::*;

verus! {

/// A calendar date. Well-formed values (see [`Date::wf`]) carry a year
/// from 0 to 9999, so that the four-digit text form is exact.
#[derive(PartialEq, Eq, Structural, Clone, Copy, Debug)]
pub struct Date {
    pub year: u32,
    pub month: u32,
    pub day: u32,
}

pub open spec fn is_leap_year(y: int) -> bool {
    y % 4 == 0 && (y % 100 != 0 || y % 400 == 0)
}

pub open spec fn days_in_month(y: int, m: int) -> int {
    if m == 2 {
        if is_leap_year(y) {
            29
        } else {
            28
        }
    } else if m == 4 || m == 6 || m == 9 || m == 11 {
        30
    } else {
        31
    }
}

pub open spec fn date_fields_valid(y: int, m: int, d: int) -> bool {
    &&& 0 <= y <= 9999
    &&& 1 <= m <= 12
    &&& 1 <= d <= days_in_month(y, m)
}

/// Is `c` a decimal digit?
pub open spec fn is_digit(c: char) -> bool {
    48 <= c as int <= 57
}

/// The numeric value of a decimal digit character.
pub open spec fn digit_val(c: char) -> int {
    c as int - 48
}

/// The character for a single decimal digit value.
pub open spec fn digit_char(v: int) -> char {
    ((48 + v) as u8) as char
}

/// What a date looks like as text: `YYYY-MM-DD`, zero-padded.
pub open spec fn spec_format_date(d: Date) -> Seq<char> {
    seq![
        digit_char(d.year as int / 1000),
        digit_char((d.year as int / 100) % 10),
        digit_char((d.year as int / 10) % 10),
        digit_char(d.year as int % 10),
        '-',
        digit_char(d.month as int / 10),
        digit_char(d.month as int % 10),
        '-',
        digit_char(d.day as int / 10),
        digit_char(d.day as int % 10),
    ]
}

/// Which strings parse as dates: exactly ten characters, digits in the
/// year, month and day positions, dashes between, and fields that name
/// a real calendar day.
pub open spec fn spec_parse_date(s: Seq<char>) -> Option<Date> {
    if s.len() == 10 && is_digit(s[0]) && is_digit(s[1]) && is_digit(s[2]) && is_digit(s[3])
        && s[4] == '-' && is_digit(s[5]) && is_digit(s[6]) && s[7] == '-' && is_digit(s[8])
        && is_digit(s[9]) {
        let y = digit_val(s[0]) * 1000 + digit_val(s[1]) * 100 + digit_val(s[2]) * 10 + digit_val(
            s[3],
        );
        let m = digit_val(s[5]) * 10 + digit_val(s[6]);
        let d = digit_val(s[8]) * 10 + digit_val(s[9]);
        if date_fields_valid(y, m, d) {
            Some(Date { year: y as u32, month: m as u32, day: d as u32 })
        } else {
            None
        }
    } else {
        None
    }
}

fn exec_is_leap_year(y: u32) -> (b: bool)
    ensures
        b == is_leap_year(y as int),
{
    y % 4 == 0 && (y % 100 != 0 || y % 400 == 0)
}

fn exec_days_in_month(y: u32, m: u32) -> (d: u32)
    ensures
        d as int == days_in_month(y as int, m as int),
{
    if m == 2 {
        if exec_is_leap_year(y) {
            29
        } else {
            28
        }
    } else if m == 4 || m == 6 || m == 9 || m == 11 {
        30
    } else {
        31
    }
}

impl Date {
    /// A date whose fields name a real calendar day, within the years
    /// the ten-character text form can carry.
    pub open spec fn wf(self) -> bool {
        date_fields_valid(self.year as int, self.month as int, self.day as int)
    }

    /// Builds a date from year, month and day, or nothing when the
    /// fields name no real calendar day.
    pub fn from_ymd(year: u32, month: u32, day: u32) -> (r: Option<Date>)
        ensures
            r is Some <==> date_fields_valid(year as int, month as int, day as int),
            r is Some ==> r->Some_0 == (Date { year, month, day }) && r->Some_0.wf(),
    {
        if year <= 9999 && 1 <= month && month <= 12 && 1 <= day && day <= exec_days_in_month(
            year,
            month,
        ) {
            Some(Date { year, month, day })
        } else {
            None
        }
    }
}

/// Reads a date from its `YYYY-MM-DD` text form.
pub fn parse_date(s: &str) -> (r: Option<Date>)
    ensures
        r == spec_parse_date(s@),
{
    let n = s.unicode_len();
    if n != 10 {
        return None;
    }
    let c0 = s.get_char(0);
    let c1 = s.get_char(1);
    let c2 = s.get_char(2);
    let c3 = s.get_char(3);
    let c4 = s.get_char(4);
    let c5 = s.get_char(5);
    let c6 = s.get_char(6);
    let c7 = s.get_char(7);
    let c8 = s.get_char(8);
    let c9 = s.get_char(9);
    if !(exec_is_digit(c0) && exec_is_digit(c1) && exec_is_digit(c2) && exec_is_digit(c3) && c4
        == '-' && exec_is_digit(c5) && exec_is_digit(c6) && c7 == '-' && exec_is_digit(c8)
        && exec_is_digit(c9)) {
        return None;
    }
    let y: u32 = exec_digit_val(c0) * 1000 + exec_digit_val(c1) * 100 + exec_digit_val(c2) * 10
        + exec_digit_val(c3);
    let m: u32 = exec_digit_val(c5) * 10 + exec_digit_val(c6);
    let d: u32 = exec_digit_val(c8) * 10 + exec_digit_val(c9);
    if 1 <= m && m <= 12 && 1 <= d && d <= exec_days_in_month(y, m) {
        Some(Date { year: y, month: m, day: d })
    } else {
        None
    }
}

pub(crate) fn exec_is_digit(c: char) -> (b: bool)
    ensures
        b == is_digit(c),
{
    let v = c as u32;
    48 <= v && v <= 57
}

pub(crate) fn exec_digit_val(c: char) -> (v: u32)
    requires
        is_digit(c),
    ensures
        v as int == digit_val(c),
{
    c as u32 - 48
}

fn push_digit(out: &mut String, v: u32)
    requires
        v < 10,
    ensures
        final(out)@ == old(out)@.push(digit_char(v as int)),
{
    let c = (48 + v as u8) as char;
    out.push(c);
}

/// Writes a date in its `YYYY-MM-DD` text form.
pub fn format_date(d: &Date) -> (r: String)
    requires
        d.wf(),
    ensures
        r@ == spec_format_date(*d),
{
    let mut out = String::new();
    push_digit(&mut out, d.year / 1000);
    push_digit(&mut out, (d.year / 100) % 10);
    push_digit(&mut out, (d.year / 10) % 10);
    push_digit(&mut out, d.year % 10);
    out.push('-');
    push_digit(&mut out, d.month / 10);
    push_digit(&mut out, d.month % 10);
    out.push('-');
    push_digit(&mut out, d.day / 10);
    push_digit(&mut out, d.day % 10);
    proof {
        assert(out@ =~= spec_format_date(*d));
    }
    out
}

/// A digit character reads back as the digit it was written from.
proof fn lemma_digit_round(v: int)
    requires
        0 <= v < 10,
    ensures
        is_digit(digit_char(v)),
        digit_val(digit_char(v)) == v,
{
}

/// A number of up to four digits is rebuilt from its written digits.
proof fn lemma_four_digit_split(y: int)
    requires
        0 <= y <= 9999,
    ensures
        (y / 1000) * 1000 + ((y / 100) % 10) * 100 + ((y / 10) % 10) * 10 + y % 10 == y,
        0 <= y / 1000 < 10,
        0 <= (y / 100) % 10 < 10,
        0 <= (y / 10) % 10 < 10,
        0 <= y % 10 < 10,
{
    vstd::arithmetic::div_mod::lemma_fundamental_div_mod(y, 10);
    vstd::arithmetic::div_mod::lemma_fundamental_div_mod(y / 10, 10);
    vstd::arithmetic::div_mod::lemma_fundamental_div_mod(y / 100, 10);
    vstd::arithmetic::div_mod::lemma_fundamental_div_mod(y / 1000, 10);
    vstd::arithmetic::div_mod::lemma_div_denominator(y, 10, 10);
    vstd::arithmetic::div_mod::lemma_div_denominator(y, 100, 10);
    assert((y / 10) / 10 == y / 100);
    assert((y / 100) / 10 == y / 1000);
    assert(y / 1000 <= 9);
}

/// A number of up to two digits is rebuilt from its written digits.
proof fn lemma_two_digit_split(m: int)
    requires
        0 <= m <= 99,
    ensures
        (m / 10) * 10 + m % 10 == m,
        0 <= m / 10 < 10,
        0 <= m % 10 < 10,
{
    vstd::arithmetic::div_mod::lemma_fundamental_div_mod(m, 10);
}

/// The text form of a well-formed date always parses back to the same
/// date.
#[verifier::rlimit(50)]
pub proof fn lemma_format_parse_round_trip(d: Date)
    requires
        d.wf(),
    ensures
        spec_parse_date(spec_format_date(d)) == Some(d),
{
    let s = spec_format_date(d);
    let y = d.year as int;
    let m = d.month as int;
    let day = d.day as int;
    lemma_four_digit_split(y);
    lemma_two_digit_split(m);
    lemma_two_digit_split(day);
    lemma_digit_round(y / 1000);
    lemma_digit_round((y / 100) % 10);
    lemma_digit_round((y / 10) % 10);
    lemma_digit_round(y % 10);
    lemma_digit_round(m / 10);
    lemma_digit_round(m % 10);
    lemma_digit_round(day / 10);
    lemma_digit_round(day % 10);
    assert(s.len() == 10);
    assert(digit_val(s[0]) * 1000 + digit_val(s[1]) * 100 + digit_val(s[2]) * 10 + digit_val(s[3])
        == y);
    assert(digit_val(s[5]) * 10 + digit_val(s[6]) == m);
    assert(digit_val(s[8]) * 10 + digit_val(s[9]) == day);
}

/// The length of a year in days.
pub open spec fn days_in_year(y: int) -> int {
    if is_leap_year(y) {
        366
    } else {
        365
    }
}

/// How many leap years lie between year 1 and year `y`, the latter
/// excluded.
pub open spec fn leaps_before(y: int) -> int {
    (y - 1) / 4 - (y - 1) / 100 + (y - 1) / 400
}

/// Days from the first day of 1970 to the first day of year `y`.
pub open spec fn days_before_year(y: int) -> int {
    365 * (y - 1970) + leaps_before(y) - leaps_before(1970)
}

/// Days from the first day of the year to the first day of month `m`.
pub open spec fn days_before_month(y: int, m: int) -> int
    decreases m,
{
    if m <= 1 {
        0
    } else {
        days_before_month(y, m - 1) + days_in_month(y, m - 1)
    }
}

/// The day number of a date: how many days after 1970-01-01 it lies.
pub open spec fn to_epoch_days(d: Date) -> int {
    days_before_year(d.year as int) + days_before_month(d.year as int, d.month as int)
        + d.day as int - 1
}

/// The day number of 9999-12-31, the last date the text form carries.
pub const MAX_EPOCH_DAY: u32 = 2932896;

/// Dividing one less by `k` loses exactly one when `k` divides `x`.
proof fn lemma_div_step(x: int, k: int)
    requires
        k > 0,
    ensures
        x / k == (x - 1) / k + (if x % k == 0 {
            1int
        } else {
            0
        }),
{
    vstd::arithmetic::div_mod::lemma_fundamental_div_mod(x, k);
    let q = x / k;
    let r = x % k;
    if r == 0 {
        assert(x - 1 == (q - 1) * k + (k - 1)) by (nonlinear_arith)
            requires
                x == k * q,
        ;
        vstd::arithmetic::div_mod::lemma_fundamental_div_mod_converse(x - 1, k, q - 1, k - 1);
    } else {
        assert(x - 1 == q * k + (r - 1)) by (nonlinear_arith)
            requires
                x == k * q + r,
        ;
        vstd::arithmetic::div_mod::lemma_fundamental_div_mod_converse(x - 1, k, q, r - 1);
    }
}

/// A multiple of one hundred is a multiple of four.
proof fn lemma_mod_100_4(y: int)
    requires
        y % 100 == 0,
    ensures
        y % 4 == 0,
{
    vstd::arithmetic::div_mod::lemma_fundamental_div_mod(y, 100);
    let q = y / 100;
    assert(y == (25 * q) * 4) by (nonlinear_arith)
        requires
            y == 100 * q,
    ;
    vstd::arithmetic::div_mod::lemma_mod_multiples_basic(25 * q, 4);
}

/// A multiple of four hundred is a multiple of one hundred.
proof fn lemma_mod_400_100(y: int)
    requires
        y % 400 == 0,
    ensures
        y % 100 == 0,
{
    vstd::arithmetic::div_mod::lemma_fundamental_div_mod(y, 400);
    let q = y / 400;
    assert(y == (4 * q) * 100) by (nonlinear_arith)
        requires
            y == 400 * q,
    ;
    vstd::arithmetic::div_mod::lemma_mod_multiples_basic(4 * q, 100);
}

/// Passing one year moves the leap count by one exactly in a leap
/// year.
proof fn lemma_leaps_step(y: int)
    requires
        y >= 1,
    ensures
        leaps_before(y + 1) - leaps_before(y) == (if is_leap_year(y) {
            1int
        } else {
            0
        }),
{
    lemma_div_step(y, 4);
    lemma_div_step(y, 100);
    lemma_div_step(y, 400);
    if y % 100 == 0 {
        lemma_mod_100_4(y);
    }
    if y % 400 == 0 {
        lemma_mod_400_100(y);
        lemma_mod_100_4(y);
    }
}

/// Passing one year moves the day count by that year's length.
proof fn lemma_days_before_year_step(y: int)
    requires
        y >= 1970,
    ensures
        days_before_year(y + 1) == days_before_year(y) + days_in_year(y),
{
    lemma_leaps_step(y);
}

/// The twelve months of a year make up the whole year.
proof fn lemma_months_fill_the_year(y: int)
    ensures
        days_before_month(y, 13) == days_in_year(y),
{
    reveal_with_fuel(days_before_month, 14);
}

fn exec_days_in_year(y: u32) -> (d: u32)
    ensures
        d as int == days_in_year(y as int),
{
    if exec_is_leap_year(y) {
        366
    } else {
        365
    }
}

/// Reads the date that lies the given number of days after 1970-01-01,
/// as a day-number date column stores it.
pub fn from_epoch_days(days: u32) -> (r: Date)
    requires
        days <= MAX_EPOCH_DAY,
    ensures
        r.wf(),
        r.year >= 1970,
        to_epoch_days(r) == days as int,
{
    let mut y: u32 = 1970;
    let mut rem: u32 = days;
    proof {
        assert(leaps_before(1970) == 477);
        assert(days_before_year(1970) == 0);
    }
    while rem >= exec_days_in_year(y)
        invariant
            1970 <= y <= 9999,
            days <= MAX_EPOCH_DAY,
            days as int == days_before_year(y as int) + rem,
        decreases 9999 - y,
    {
        proof {
            lemma_days_before_year_step(y as int);
            if y == 9999 {
                assert(leaps_before(10000) == 2424);
                assert(leaps_before(1970) == 477);
                assert(days_before_year(10000) == 2932897);
                assert(false);
            }
        }
        rem = rem - exec_days_in_year(y);
        y = y + 1;
    }
    let mut m: u32 = 1;
    while rem >= exec_days_in_month(y, m)
        invariant
            1970 <= y <= 9999,
            1 <= m <= 12,
            days as int == days_before_year(y as int) + days_before_month(y as int, m as int)
                + rem,
            days_before_month(y as int, m as int) + rem < days_in_year(y as int),
        decreases 12 - m,
    {
        proof {
            if m == 12 {
                lemma_months_fill_the_year(y as int);
                assert(false);
            }
            assert(days_before_month(y as int, m as int + 1) == days_before_month(
                y as int,
                m as int,
            ) + days_in_month(y as int, m as int));
        }
        rem = rem - exec_days_in_month(y, m);
        m = m + 1;
    }
    let day = rem + 1;
    Date { year: y, month: m, day }
}

} // verus!
