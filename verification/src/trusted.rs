//! The crate's boundary with the outside collaborators: identifier
//! generation and the two calendar questions only chrono answers.
//! Verus believes the contracts here; everything else is proved.

use vstd::prelude::*;

use chrono::Datelike;

use crate::dates::Date;

verus! {

/// Relies on `uuid::Uuid::new_v4` and its `Display` form: a freshly
/// drawn random identifier, rendered in the 36-character hyphenated
/// form.  Nothing is promised about the value: it is random.
#[verifier::external_body]
pub(crate) fn new_id() -> (r: String)
    ensures
        r@.len() == 36,
{
    uuid::Uuid::new_v4().to_string()
}

/// The ISO 8601 week a calendar date falls in, as the pair of week
/// year and week number; a function of the date alone.
pub uninterp spec fn iso_week_of(y: int, m: int, d: int) -> (int, int);

/// Relies on `chrono::NaiveDate::from_ymd_opt` and `Datelike::iso_week`:
/// the ISO 8601 week of an existing calendar date within chrono's year
/// range, with the week number between 1 and 53.
#[verifier::external_body]
pub(crate) fn iso_week(date: Date) -> (r: (i32, u32))
    requires
        date.valid(),
        0 <= date.year <= 9999,
    ensures
        (r.0 as int, r.1 as int) == iso_week_of(
            date.year as int,
            date.month as int,
            date.day as int,
        ),
        1 <= r.1 <= 53,
{
    let d = chrono::NaiveDate::from_ymd_opt(date.year, date.month, date.day)
        .expect("an existing date within range");
    let w = d.iso_week();
    (w.year(), w.week())
}

/// Relies on `chrono::Local::now` and `NaiveDate`'s accessors: the
/// machine's current civil date, always an existing calendar day
/// within chrono's supported year range.  The value depends on the
/// clock, so nothing more can be promised.
#[verifier::external_body]
pub(crate) fn today() -> (r: Date)
    ensures
        r.valid(),
        -262144 <= r.year <= 262143,
{
    let now = chrono::Local::now().date_naive();
    Date { year: now.year(), month: now.month(), day: now.day() }
}

} // verus!
