//! Calendar dates: the strict `YYYY-MM-DD` parser used by every
//! date-filtered aggregation, and day-number arithmetic on the
//! proleptic Gregorian calendar used by the monthly trends.
//!
//! Entry dates are stored as free text; a date that does not parse is
//! silently excluded from date-filtered aggregation (a deliberate
//! tolerant policy, not an error).

use vstd::prelude::*;
use vstd::string::StrSliceExecFns;

verus! {

/// A calendar date on the proleptic Gregorian calendar.
#[derive(Clone, Copy, PartialEq, Eq, Structural, Debug)]
pub struct Date {
    pub year: i32,
    pub month: u32,
    pub day: u32,
}

/// Gregorian leap-year rule; `%` is euclidean, so the rule also holds
/// for years before year zero.
pub open spec fn spec_is_leap(y: int) -> bool {
    y % 4 == 0 && (y % 100 != 0 || y % 400 == 0)
}

/// Number of days in the year `y`.
pub open spec fn spec_year_len(y: int) -> int {
    if spec_is_leap(y) {
        366
    } else {
        365
    }
}

/// Number of days in month `m` of year `y` (months count from 1).
pub open spec fn spec_days_in_month(y: int, m: int) -> int {
    if m == 2 {
        if spec_is_leap(y) {
            29
        } else {
            28
        }
    } else if m == 4 || m == 6 || m == 9 || m == 11 {
        30
    } else {
        31
    }
}

/// Whether year, month and day name an existing calendar day.
pub open spec fn spec_valid_date(y: int, m: int, d: int) -> bool {
    1 <= m <= 12 && 1 <= d <= spec_days_in_month(y, m)
}

impl Date {
    /// Whether the date names an existing calendar day.
    pub open spec fn valid(self) -> bool {
        spec_valid_date(self.year as int, self.month as int, self.day as int)
    }
}

/// Whether `c` is a decimal digit.
pub open spec fn spec_is_digit(c: char) -> bool {
    48 <= c as u32 <= 57
}

/// The value of a decimal digit.
pub open spec fn spec_digit_val(c: char) -> int {
    c as u32 - 48
}

/// What the date parser accepts: exactly ten characters, four year
/// digits, two month digits and two day digits separated by `-`, and a
/// month/day pair that exists in that year.
pub open spec fn spec_parse_date(s: Seq<char>) -> Option<Date> {
    if s.len() == 10 && s[4] == '-' && s[7] == '-' && spec_is_digit(s[0]) && spec_is_digit(s[1])
        && spec_is_digit(s[2]) && spec_is_digit(s[3]) && spec_is_digit(s[5]) && spec_is_digit(s[6])
        && spec_is_digit(s[8]) && spec_is_digit(s[9]) {
        let y = spec_digit_val(s[0]) * 1000 + spec_digit_val(s[1]) * 100 + spec_digit_val(s[2])
            * 10 + spec_digit_val(s[3]);
        let m = spec_digit_val(s[5]) * 10 + spec_digit_val(s[6]);
        let d = spec_digit_val(s[8]) * 10 + spec_digit_val(s[9]);
        if spec_valid_date(y, m, d) {
            Some(Date { year: y as i32, month: m as u32, day: d as u32 })
        } else {
            None
        }
    } else {
        None
    }
}

/// Whether year `y` is a leap year; `y` must not be negative here (the
/// parser only produces years 0 through 9999).
fn is_leap_u32(y: u32) -> (r: bool)
    ensures
        r == spec_is_leap(y as int),
{
    y % 4 == 0 && (y % 100 != 0 || y % 400 == 0)
}

/// Number of days in month `m` of year `y`.
fn days_in_month_u32(y: u32, m: u32) -> (r: u32)
    requires
        1 <= m <= 12,
    ensures
        r == spec_days_in_month(y as int, m as int),
{
    if m == 2 {
        if is_leap_u32(y) {
            29
        } else {
            28
        }
    } else if m == 4 || m == 6 || m == 9 || m == 11 {
        30
    } else {
        31
    }
}

/// Reads the decimal digit at position `i`, if there is one.
fn digit_at(s: &str, i: usize) -> (r: Option<u32>)
    requires
        i < s@.len(),
    ensures
        match r {
            Some(v) => spec_is_digit(s@[i as int]) && v == spec_digit_val(s@[i as int]),
            None => !spec_is_digit(s@[i as int]),
        },
{
    let c = s.get_char(i);
    let v = c as u32;
    if 48 <= v && v <= 57 {
        Some(v - 48)
    } else {
        None
    }
}

/// Days from the first day of year zero to the first day of year `y`
/// (negative for earlier years).  The three quotients count the leap
/// years passed.
pub open spec fn spec_days_before_year(y: int) -> int {
    365 * y + (y + 3) / 4 - (y + 99) / 100 + (y + 399) / 400
}

/// Days in year `y` that lie before the first day of month `m`.
pub open spec fn spec_days_before_month(y: int, m: int) -> int
    decreases m,
{
    if m <= 1 {
        0
    } else {
        spec_days_before_month(y, m - 1) + spec_days_in_month(y, m - 1)
    }
}

/// The day number of a date: days since the first day of year zero.
pub open spec fn spec_day_number(y: int, m: int, d: int) -> int {
    spec_days_before_year(y) + spec_days_before_month(y, m) + d - 1
}

/// Every year is one year-length of days long.
proof fn lemma_days_before_year_step(y: int)
    ensures
        spec_days_before_year(y + 1) == spec_days_before_year(y) + spec_year_len(y),
{
    lemma_offset_div_step(y, 4);
    lemma_offset_div_step(y, 100);
    lemma_offset_div_step(y, 400);
}

/// `(y + k) / k` exceeds `(y + k - 1) / k` exactly when `k` divides `y`.
proof fn lemma_offset_div_step(y: int, k: int)
    requires
        2 <= k,
    ensures
        (y + k) / k - (y + k - 1) / k == if y % k == 0 {
            1int
        } else {
            0int
        },
{
    vstd::arithmetic::div_mod::lemma_fundamental_div_mod(y, k);
    vstd::arithmetic::div_mod::lemma_mod_bound(y, k);
    let q = y / k;
    let r = y % k;
    assert((q + 1) * k == k * q + k) by (nonlinear_arith);
    vstd::arithmetic::div_mod::lemma_fundamental_div_mod_converse(y + k, k, q + 1, r);
    if r == 0 {
        assert(y + k - 1 == q * k + (k - 1)) by (nonlinear_arith)
            requires
                y == k * q + r,
                r == 0,
        ;
        vstd::arithmetic::div_mod::lemma_fundamental_div_mod_converse(y + k - 1, k, q, k - 1);
    } else {
        assert(y + k - 1 == (q + 1) * k + (r - 1)) by (nonlinear_arith)
            requires
                y == k * q + r,
        ;
        vstd::arithmetic::div_mod::lemma_fundamental_div_mod_converse(y + k - 1, k, q + 1, r - 1);
    }
}

/// A 400-year era is exactly 146097 days.
proof fn lemma_days_before_era(k: int)
    ensures
        spec_days_before_year(400 * k) == 146097 * k,
{
    assert((100 * k) * 4 == 400 * k && (4 * k) * 100 == 400 * k && k * 400 == 400 * k)
        by (nonlinear_arith);
    vstd::arithmetic::div_mod::lemma_fundamental_div_mod_converse(400 * k + 3, 4, 100 * k, 3);
    vstd::arithmetic::div_mod::lemma_fundamental_div_mod_converse(400 * k + 99, 100, 4 * k, 99);
    vstd::arithmetic::div_mod::lemma_fundamental_div_mod_converse(400 * k + 399, 400, k, 399);
}

/// The twelve months cover the year exactly.
proof fn lemma_months_cover_year(y: int)
    ensures
        spec_days_before_month(y, 13) == spec_year_len(y),
{
    reveal_with_fuel(spec_days_before_month, 13);
}

/// Days before a month never pass thirty-one days per passed month.
pub proof fn lemma_days_before_month_bound(y: int, m: int)
    ensures
        0 <= spec_days_before_month(y, m) <= 31 * (if m <= 1 {
            0int
        } else {
            m - 1
        }),
    decreases m,
{
    if m > 1 {
        lemma_days_before_month_bound(y, m - 1);
    }
}

/// The day number of any date within the calendar range the ledger
/// can meet stays inside a fixed window.
pub proof fn lemma_day_number_bound(y: int, m: int, d: int)
    requires
        -262145 <= y <= 262145,
        spec_valid_date(y, m, d),
    ensures
        -200_000_000 <= spec_day_number(y, m, d) <= 200_000_000,
{
    vstd::arithmetic::div_mod::lemma_fundamental_div_mod(y + 3, 4);
    vstd::arithmetic::div_mod::lemma_mod_bound(y + 3, 4);
    vstd::arithmetic::div_mod::lemma_fundamental_div_mod(y + 99, 100);
    vstd::arithmetic::div_mod::lemma_mod_bound(y + 99, 100);
    vstd::arithmetic::div_mod::lemma_fundamental_div_mod(y + 399, 400);
    vstd::arithmetic::div_mod::lemma_mod_bound(y + 399, 400);
    lemma_days_before_month_bound(y, m);
}

/// Floor division, as the euclidean `/` of specifications demands for a
/// positive divisor.
fn div_floor(a: i64, b: i64) -> (q: i64)
    requires
        0 < b,
    ensures
        q == a as int / b as int,
        b * q <= a < b * q + b,
{
    proof {
        vstd::arithmetic::div_mod::lemma_fundamental_div_mod(a as int, b as int);
        vstd::arithmetic::div_mod::lemma_mod_bound(a as int, b as int);
        let qq = a as int / b as int;
        let rr = a as int % b as int;
        assert(i64::MIN <= qq <= i64::MAX) by (nonlinear_arith)
            requires
                a == (b as int) * qq + rr,
                0 <= rr < b,
                i64::MIN <= a <= i64::MAX,
                0 < b <= i64::MAX,
        ;
    }
    match a.checked_div_euclid(b) {
        Some(q) => q,
        None => 0,
    }
}

/// Euclidean remainder for a positive divisor.
fn rem_floor(a: i64, b: i64) -> (r: i64)
    requires
        0 < b,
    ensures
        r == a as int % b as int,
        0 <= r < b,
{
    proof {
        vstd::arithmetic::div_mod::lemma_mod_bound(a as int, b as int);
    }
    match a.checked_rem_euclid(b) {
        Some(r) => r,
        None => 0,
    }
}

/// Leap-year test for a possibly negative year.
fn is_leap_i64(y: i64) -> (r: bool)
    ensures
        r == spec_is_leap(y as int),
{
    rem_floor(y, 4) == 0 && (rem_floor(y, 100) != 0 || rem_floor(y, 400) == 0)
}

/// Number of days in year `y`.
fn year_len_i64(y: i64) -> (r: i64)
    ensures
        r == spec_year_len(y as int),
{
    if is_leap_i64(y) {
        366
    } else {
        365
    }
}

/// Number of days in month `m` of a possibly negative year `y`.
fn days_in_month_i64(y: i64, m: u32) -> (r: i64)
    requires
        1 <= m <= 12,
    ensures
        r == spec_days_in_month(y as int, m as int),
{
    if m == 2 {
        if is_leap_i64(y) {
            29
        } else {
            28
        }
    } else if m == 4 || m == 6 || m == 9 || m == 11 {
        30
    } else {
        31
    }
}

/// The day number of an existing calendar date.
pub fn day_number(date: Date) -> (z: i64)
    requires
        date.valid(),
    ensures
        z == spec_day_number(date.year as int, date.month as int, date.day as int),
{
    let y = date.year as i64;
    let base = 365 * y + div_floor(y + 3, 4) - div_floor(y + 99, 100) + div_floor(y + 399, 400);
    let mut m: u32 = 1;
    let mut before: i64 = 0;
    while m < date.month
        invariant
            1 <= m <= date.month,
            date.valid(),
            y == date.year,
            before == spec_days_before_month(y as int, m as int),
            0 <= before <= 366 * (m as int),
        decreases date.month - m,
    {
        before = before + days_in_month_i64(y, m);
        m = m + 1;
    }
    base + before + date.day as i64 - 1
}

/// The calendar date holding day number `z`: the inverse of
/// `day_number`, total on a range far wider than any date the ledger
/// can meet.
pub fn date_of_day_number(z: i64) -> (r: Date)
    requires
        -200_000_000_000 <= z <= 200_000_000_000,
    ensures
        r.valid(),
        spec_day_number(r.year as int, r.month as int, r.day as int) == z,
{
    let era = div_floor(z, 146097);
    proof {
        assert(-1_400_000 <= era <= 1_400_000) by (nonlinear_arith)
            requires
                146097 * era <= z < 146097 * era + 146097,
                -200_000_000_000 <= z <= 200_000_000_000,
        ;
        lemma_days_before_era(era as int);
    }
    let mut y: i64 = 400 * era;
    let mut rem: i64 = z - 146097 * era;
    loop
        invariant
            400 * (era as int) <= y <= 400 * (era as int) + 400,
            0 <= rem,
            rem == z - spec_days_before_year(y as int),
            -1_400_000 <= era <= 1_400_000,
            146097 * (era as int) <= z < 146097 * (era as int) + 146097,
        ensures
            0 <= rem < spec_year_len(y as int),
            rem == z - spec_days_before_year(y as int),
            400 * (era as int) <= y <= 400 * (era as int) + 399,
        decreases 400 * (era as int) + 400 - y,
    {
        proof {
            if y == 400 * (era as int) + 400 {
                lemma_days_before_era(era as int + 1);
                assert(false);
            }
        }
        let len = year_len_i64(y);
        if rem < len {
            break;
        }
        proof {
            lemma_days_before_year_step(y as int);
        }
        rem = rem - len;
        y = y + 1;
    }
    let mut m: u32 = 1;
    loop
        invariant
            1 <= m <= 12,
            0 <= rem,
            rem + spec_days_before_month(y as int, m as int) + spec_days_before_year(y as int)
                == z,
            rem + spec_days_before_month(y as int, m as int) < spec_year_len(y as int),
            400 * (era as int) <= y <= 400 * (era as int) + 399,
        ensures
            1 <= m <= 12,
            0 <= rem < spec_days_in_month(y as int, m as int),
            rem + spec_days_before_month(y as int, m as int) + spec_days_before_year(y as int)
                == z,
            400 * (era as int) <= y <= 400 * (era as int) + 399,
        decreases 12 - m,
    {
        let dim = days_in_month_i64(y, m);
        if m == 12 {
            proof {
                lemma_months_cover_year(y as int);
            }
            break;
        }
        if rem < dim {
            break;
        }
        rem = rem - dim;
        m = m + 1;
    }
    let day = (rem + 1) as u32;
    Date { year: y as i32, month: m, day }
}

/// Parses a date in strict `YYYY-MM-DD` form, rejecting anything else,
/// month/day pairs that do not exist included.
pub fn parse_date(s: &str) -> (r: Option<Date>)
    ensures
        r == spec_parse_date(s@),
        r matches Some(d) ==> d.valid() && 0 <= d.year <= 9999,
{
    if s.unicode_len() != 10 {
        return None;
    }
    if s.get_char(4) != '-' || s.get_char(7) != '-' {
        return None;
    }
    let d0 = digit_at(s, 0);
    let d1 = digit_at(s, 1);
    let d2 = digit_at(s, 2);
    let d3 = digit_at(s, 3);
    let d5 = digit_at(s, 5);
    let d6 = digit_at(s, 6);
    let d8 = digit_at(s, 8);
    let d9 = digit_at(s, 9);
    match (d0, d1, d2, d3, d5, d6, d8, d9) {
        (Some(a), Some(b), Some(c), Some(d), Some(e), Some(f), Some(g), Some(h)) => {
            let y = a * 1000 + b * 100 + c * 10 + d;
            let m = e * 10 + f;
            let day = g * 10 + h;
            if 1 <= m && m <= 12 && 1 <= day && day <= days_in_month_u32(y, m) {
                Some(Date { year: y as i32, month: m, day })
            } else {
                None
            }
        },
        _ => None,
    }
}

} // verus!
