//! The summary engine: date-filtered aggregation over entries, always
//! reported in the selected display currency, and the month-by-month
//! trend walk.
//!
//! Entries whose date text does not parse are silently excluded from
//! every date-filtered aggregation.

use vstd::prelude::*;

use crate::currency::Currency;
use crate::currency::MAX_CONVERTED;
use crate::currency::convert;
use crate::currency::lemma_convert_range;
use crate::currency::spec_convert;
use crate::dates::Date;
use crate::dates::date_of_day_number;
use crate::dates::lemma_day_number_bound;
use crate::dates::day_number;
use crate::dates::parse_date;
use crate::dates::spec_day_number;
use crate::dates::spec_parse_date;
use crate::dates::spec_valid_date;
use crate::model::AppData;
use crate::model::BudgetEntry;
use crate::model::EntryKind;
use crate::model::EntryModel;
use crate::model::valid_entry;
use crate::trusted::iso_week;
use crate::trusted::iso_week_of;
use crate::trusted::today;
use vstd::string::StringExecFns;

verus! {

/// An entry as the read path reports it: amount and currency rewritten
/// into the display currency, everything else untouched.
pub open spec fn project_entry(e: EntryModel, cur: Currency) -> EntryModel {
    EntryModel { amount: spec_convert(e.amount, e.currency, cur), currency: cur, ..e }
}

/// The amount of an entry, seen in the display currency.
pub open spec fn converted_amount(e: EntryModel, cur: Currency) -> int {
    spec_convert(e.amount, e.currency, cur)
}

/// The sum, in the display currency, of the entries of the given kind
/// that the filter keeps.
pub open spec fn sum_matching(
    s: Seq<EntryModel>,
    cur: Currency,
    kind: EntryKind,
    f: spec_fn(EntryModel) -> bool,
) -> int
    decreases s.len(),
{
    if s.len() == 0 {
        0
    } else {
        sum_matching(s.drop_last(), cur, kind, f) + if s.last().entry_type == kind && f(
            s.last(),
        ) {
            converted_amount(s.last(), cur)
        } else {
            0
        }
    }
}

/// Keeps the entries whose date parses and falls in the given calendar
/// month and year.
pub open spec fn month_filter(m: int, y: int) -> spec_fn(EntryModel) -> bool {
    |e: EntryModel|
        match spec_parse_date(e.date) {
            Some(d) => d.month == m && d.year == y,
            None => false,
        }
}

/// Keeps the entries whose date parses and falls in the given ISO week
/// of the given ISO week year.
pub open spec fn week_filter(w: int, y: int) -> spec_fn(EntryModel) -> bool {
    |e: EntryModel|
        match spec_parse_date(e.date) {
            Some(d) => iso_week_of(d.year as int, d.month as int, d.day as int) == (y, w),
            None => false,
        }
}

/// Keeps every entry.
pub open spec fn all_filter() -> spec_fn(EntryModel) -> bool {
    |e: EntryModel| true
}

/// A filtered sum over accepted entries is nonnegative and under one
/// converted cap per entry.
pub proof fn lemma_sum_matching_bound(
    s: Seq<EntryModel>,
    cur: Currency,
    kind: EntryKind,
    f: spec_fn(EntryModel) -> bool,
)
    requires
        forall|i: int| 0 <= i < s.len() ==> valid_entry(#[trigger] s[i]),
    ensures
        0 <= sum_matching(s, cur, kind, f) <= s.len() * MAX_CONVERTED,
    decreases s.len(),
{
    if s.len() > 0 {
        assert(s.last() == s[s.len() - 1]);
        lemma_sum_matching_bound(s.drop_last(), cur, kind, f);
        lemma_convert_range(s.last().amount, s.last().currency, cur);
        assert((s.len() - 1) * MAX_CONVERTED + MAX_CONVERTED == s.len() * MAX_CONVERTED)
            by (nonlinear_arith);
    }
}

/// A date-windowed aggregation: totals by kind, in the display
/// currency, and their difference.
pub struct Summary {
    pub total_income: u128,
    pub total_expenses: u128,
    pub net_balance: i128,
    pub currency: Currency,
}

impl AppData {
    /// Every entry, projected into the display currency; the stored
    /// entries are untouched.
    pub fn get_all_entries(&self) -> (r: Vec<BudgetEntry>)
        requires
            self@.wf(),
        ensures
            r@.len() == self@.entries.len(),
            forall|i: int|
                0 <= i < r@.len() ==> r@[i]@ == project_entry(
                    #[trigger] self@.entries[i],
                    self@.selected_currency,
                ),
    {
        let n = self.entries.len();
        let mut r: Vec<BudgetEntry> = Vec::new();
        let mut i: usize = 0;
        while i < n
            invariant
                i <= n,
                n == self.entries.len(),
                self@.wf(),
                r@.len() == i,
                forall|k: int|
                    0 <= k < i ==> r@[k]@ == project_entry(
                        #[trigger] self@.entries[k],
                        self@.selected_currency,
                    ),
            decreases n - i,
        {
            proof {
                assert(valid_entry(self@.entries[i as int]));
            }
            let e = &self.entries[i];
            let amount = convert(e.amount, e.currency, self.selected_currency);
            r.push(
                BudgetEntry {
                    id: e.id.clone(),
                    entry_type: e.entry_type,
                    amount,
                    currency: self.selected_currency,
                    category: e.category.clone(),
                    date: e.date.clone(),
                    description: e.description.clone(),
                },
            );
            i = i + 1;
        }
        r
    }

    /// The two kind totals over the entries whose date parses into the
    /// given calendar month and year, in the display currency.
    fn month_sums(&self, month: u32, year: i32) -> (r: (u128, u128))
        requires
            self@.wf(),
        ensures
            r.0 == sum_matching(
                self@.entries,
                self@.selected_currency,
                EntryKind::Income,
                month_filter(month as int, year as int),
            ),
            r.1 == sum_matching(
                self@.entries,
                self@.selected_currency,
                EntryKind::Expense,
                month_filter(month as int, year as int),
            ),
    {
        let ghost s = self@.entries;
        let ghost cur = self@.selected_currency;
        let ghost f = month_filter(month as int, year as int);
        let n = self.entries.len();
        let mut income: u128 = 0;
        let mut expenses: u128 = 0;
        let mut i: usize = 0;
        while i < n
            invariant
                i <= n,
                n == self.entries.len(),
                self@.wf(),
                s == self@.entries,
                cur == self@.selected_currency,
                f == month_filter(month as int, year as int),
                income == sum_matching(s.take(i as int), cur, EntryKind::Income, f),
                expenses == sum_matching(s.take(i as int), cur, EntryKind::Expense, f),
            decreases n - i,
        {
            proof {
                assert(s.take(i + 1).drop_last() =~= s.take(i as int));
                assert(s.take(i + 1).last() == s[i as int]);
                lemma_sum_matching_bound(s.take(i as int), cur, EntryKind::Income, f);
                lemma_sum_matching_bound(s.take(i as int), cur, EntryKind::Expense, f);
                vstd::arithmetic::mul::lemma_mul_inequality(
                    i as int,
                    usize::MAX as int,
                    MAX_CONVERTED as int,
                );
                lemma_convert_range(s[i as int].amount, s[i as int].currency, cur);
            }
            let e = &self.entries[i];
            if let Some(d) = parse_date(e.date.as_str()) {
                if d.month == month && d.year == year {
                    let amount = convert(e.amount, e.currency, self.selected_currency);
                    if matches!(e.entry_type, EntryKind::Income) {
                        income = income + (amount as u128);
                    } else {
                        expenses = expenses + (amount as u128);
                    }
                }
            }
            i = i + 1;
        }
        proof {
            assert(s.take(n as int) =~= s);
        }
        (income, expenses)
    }

    /// The summary of the entries falling in the given calendar month
    /// and year, in the display currency; entries whose date does not
    /// parse are silently excluded.
    pub fn get_monthly_summary(&self, month: u32, year: i32) -> (r: Summary)
        requires
            self@.wf(),
        ensures
            r.currency == self@.selected_currency,
            r.total_income == sum_matching(
                self@.entries,
                self@.selected_currency,
                EntryKind::Income,
                month_filter(month as int, year as int),
            ),
            r.total_expenses == sum_matching(
                self@.entries,
                self@.selected_currency,
                EntryKind::Expense,
                month_filter(month as int, year as int),
            ),
            r.net_balance == r.total_income - r.total_expenses,
    {
        let (total_income, total_expenses) = self.month_sums(month, year);
        proof {
            self.lemma_sums_fit();
        }
        Summary {
            total_income,
            total_expenses,
            net_balance: (total_income as i128) - (total_expenses as i128),
            currency: self.selected_currency,
        }
    }

    /// The summary of the entries falling in the given ISO week of the
    /// given ISO week year, in the display currency; entries whose
    /// date does not parse are silently excluded.
    pub fn get_weekly_summary(&self, week: u32, year: i32) -> (r: Summary)
        requires
            self@.wf(),
        ensures
            r.currency == self@.selected_currency,
            r.total_income == sum_matching(
                self@.entries,
                self@.selected_currency,
                EntryKind::Income,
                week_filter(week as int, year as int),
            ),
            r.total_expenses == sum_matching(
                self@.entries,
                self@.selected_currency,
                EntryKind::Expense,
                week_filter(week as int, year as int),
            ),
            r.net_balance == r.total_income - r.total_expenses,
    {
        let ghost s = self@.entries;
        let ghost cur = self@.selected_currency;
        let ghost f = week_filter(week as int, year as int);
        let n = self.entries.len();
        let mut income: u128 = 0;
        let mut expenses: u128 = 0;
        let mut i: usize = 0;
        while i < n
            invariant
                i <= n,
                n == self.entries.len(),
                self@.wf(),
                s == self@.entries,
                cur == self@.selected_currency,
                f == week_filter(week as int, year as int),
                income == sum_matching(s.take(i as int), cur, EntryKind::Income, f),
                expenses == sum_matching(s.take(i as int), cur, EntryKind::Expense, f),
            decreases n - i,
        {
            proof {
                assert(s.take(i + 1).drop_last() =~= s.take(i as int));
                assert(s.take(i + 1).last() == s[i as int]);
                lemma_sum_matching_bound(s.take(i as int), cur, EntryKind::Income, f);
                lemma_sum_matching_bound(s.take(i as int), cur, EntryKind::Expense, f);
                vstd::arithmetic::mul::lemma_mul_inequality(
                    i as int,
                    usize::MAX as int,
                    MAX_CONVERTED as int,
                );
                lemma_convert_range(s[i as int].amount, s[i as int].currency, cur);
            }
            let e = &self.entries[i];
            if let Some(d) = parse_date(e.date.as_str()) {
                let (wy, wn) = iso_week(d);
                if wn == week && wy == year {
                    let amount = convert(e.amount, e.currency, self.selected_currency);
                    if matches!(e.entry_type, EntryKind::Income) {
                        income = income + (amount as u128);
                    } else {
                        expenses = expenses + (amount as u128);
                    }
                }
            }
            i = i + 1;
        }
        proof {
            assert(s.take(n as int) =~= s);
            self.lemma_sums_fit();
        }
        Summary {
            total_income: income,
            total_expenses: expenses,
            net_balance: (income as i128) - (expenses as i128),
            currency: self.selected_currency,
        }
    }

    /// Any filtered sum over this store's entries fits a signed wide
    /// integer.
    proof fn lemma_sums_fit(&self)
        requires
            self@.wf(),
        ensures
            forall|cur: Currency, kind: EntryKind, f: spec_fn(EntryModel) -> bool|
                0 <= #[trigger] sum_matching(self@.entries, cur, kind, f) < i128::MAX,
    {
        assert forall|cur: Currency, kind: EntryKind, f: spec_fn(EntryModel) -> bool|
            0 <= #[trigger] sum_matching(self@.entries, cur, kind, f) < i128::MAX by {
            vstd::std_specs::vec::axiom_spec_len(&self.entries);
            lemma_sum_matching_bound(self@.entries, cur, kind, f);
            vstd::arithmetic::mul::lemma_mul_inequality(
                self@.entries.len() as int,
                usize::MAX as int,
                MAX_CONVERTED as int,
            );
        }
    }
}

/// The three-letter name of a month, counting from 1.
pub open spec fn spec_month_name(m: int) -> Seq<char> {
    if m == 1 {
        "Jan"@
    } else if m == 2 {
        "Feb"@
    } else if m == 3 {
        "Mar"@
    } else if m == 4 {
        "Apr"@
    } else if m == 5 {
        "May"@
    } else if m == 6 {
        "Jun"@
    } else if m == 7 {
        "Jul"@
    } else if m == 8 {
        "Aug"@
    } else if m == 9 {
        "Sep"@
    } else if m == 10 {
        "Oct"@
    } else if m == 11 {
        "Nov"@
    } else {
        "Dec"@
    }
}

/// Returns the three-letter name of a month as a fresh string.
fn month_name(m: u32) -> (r: String)
    requires
        1 <= m <= 12,
    ensures
        r@ == spec_month_name(m as int),
{
    if m == 1 {
        String::from_str("Jan")
    } else if m == 2 {
        String::from_str("Feb")
    } else if m == 3 {
        String::from_str("Mar")
    } else if m == 4 {
        String::from_str("Apr")
    } else if m == 5 {
        String::from_str("May")
    } else if m == 6 {
        String::from_str("Jun")
    } else if m == 7 {
        String::from_str("Jul")
    } else if m == 8 {
        String::from_str("Aug")
    } else if m == 9 {
        String::from_str("Sep")
    } else if m == 10 {
        String::from_str("Oct")
    } else if m == 11 {
        String::from_str("Nov")
    } else {
        String::from_str("Dec")
    }
}

/// One point of the month-by-month trend, in the display currency.
pub struct MonthlyTrend {
    pub month: u32,
    pub year: i32,
    pub month_name: String,
    pub income: u128,
    pub expenses: u128,
    pub net: i128,
}

/// The mathematical shadow of a `MonthlyTrend`.
#[verifier::ext_equal]
pub ghost struct TrendModel {
    pub month: int,
    pub year: int,
    pub month_name: Seq<char>,
    pub income: int,
    pub expenses: int,
    pub net: int,
}

impl View for MonthlyTrend {
    type V = TrendModel;

    open spec fn view(&self) -> TrendModel {
        TrendModel {
            month: self.month as int,
            year: self.year as int,
            month_name: self.month_name@,
            income: self.income as int,
            expenses: self.expenses as int,
            net: self.net as int,
        }
    }
}

/// The models of a vector of trend points.
pub open spec fn trend_models(v: Seq<MonthlyTrend>) -> Seq<TrendModel> {
    v.map_values(|t: MonthlyTrend| t@)
}

/// Every point of a trend sequence is correct for its offset from the
/// base day, newest last.
pub open spec fn trend_points(
    led: crate::model::LedgerModel,
    base_day: int,
    rs: Seq<TrendModel>,
) -> bool {
    forall|p: int|
        0 <= p < rs.len() ==> trend_point_ok(led, base_day, rs.len() - 1 - p, #[trigger] rs[p])
}

/// What one trend point reports: its month and year hold the day lying
/// `offset` times thirty days before `base_day`, and its figures are
/// that month's totals in the display currency.
pub open spec fn trend_point_ok(
    led: crate::model::LedgerModel,
    base_day: int,
    offset: int,
    t: TrendModel,
) -> bool {
    &&& exists|dd: int|
        spec_valid_date(t.year, t.month, dd) && spec_day_number(t.year, t.month, dd) == base_day
            - offset * 30
    &&& t.month_name == spec_month_name(t.month)
    &&& t.income == sum_matching(
        led.entries,
        led.selected_currency,
        EntryKind::Income,
        month_filter(t.month, t.year),
    )
    &&& t.expenses == sum_matching(
        led.entries,
        led.selected_currency,
        EntryKind::Expense,
        month_filter(t.month, t.year),
    )
    &&& t.net == t.income - t.expenses
}

impl AppData {
    /// The trend points for the months reached by stepping back thirty
    /// days at a time from the given base date, ordered oldest first.
    /// The thirty-day step is the inherited approximation of a month:
    /// near month-length irregularities it can skip or repeat a
    /// calendar month.
    pub fn monthly_trends_from(&self, base: Date, months: u32) -> (r: Vec<MonthlyTrend>)
        requires
            self@.wf(),
            base.valid(),
            -262144 <= base.year <= 262143,
        ensures
            r@.len() == months,
            trend_points(
                self@,
                spec_day_number(base.year as int, base.month as int, base.day as int),
                trend_models(r@),
            ),
    {
        let base_day = day_number(base);
        let ghost base_z = spec_day_number(base.year as int, base.month as int, base.day as int);
        proof {
            lemma_day_number_bound(base.year as int, base.month as int, base.day as int);
        }
        let mut r: Vec<MonthlyTrend> = Vec::new();
        let mut p: u32 = 0;
        while p < months
            invariant
                p <= months,
                self@.wf(),
                base_day == base_z,
                -200_000_000 <= base_z <= 200_000_000,
                r@.len() == p,
                forall|q: int|
                    0 <= q < p ==> trend_point_ok(
                        self@,
                        base_z,
                        months - 1 - q,
                        (#[trigger] r@[q])@,
                    ),
            decreases months - p,
        {
            let offset = (months - 1 - p) as i64;
            let target = base_day - offset * 30;
            let d = date_of_day_number(target);
            let (income, expenses) = self.month_sums(d.month, d.year);
            proof {
                self.lemma_sums_fit();
            }
            let trend = MonthlyTrend {
                month: d.month,
                year: d.year,
                month_name: month_name(d.month),
                income,
                expenses,
                net: (income as i128) - (expenses as i128),
            };
            proof {
                assert(spec_valid_date(d.year as int, d.month as int, d.day as int));
                assert(spec_day_number(d.year as int, d.month as int, d.day as int) == base_z - (
                months - 1 - p) * 30);
                assert(trend_point_ok(self@, base_z, months - 1 - p, trend@)) by {
                    let dd = d.day as int;
                    assert(spec_valid_date(trend@.year, trend@.month, dd) && spec_day_number(
                        trend@.year,
                        trend@.month,
                        dd,
                    ) == base_z - (months - 1 - p) * 30);
                }
            }
            r.push(trend);
            p = p + 1;
        }
        proof {
            assert(trend_models(r@).len() == months);
        }
        r
    }

    /// The trend points for the months reached by stepping back thirty
    /// days at a time from today, ordered oldest first.
    pub fn get_monthly_trends(&self, months: u32) -> (r: Vec<MonthlyTrend>)
        requires
            self@.wf(),
        ensures
            r@.len() == months,
            exists|base_day: int| #[trigger] trend_points(self@, base_day, trend_models(r@)),
    {
        let base = today();
        self.monthly_trends_from(base, months)
    }
}

} // verus!
