//! Category analytics: grouping the (optionally month-filtered)
//! entries by category within each kind, with totals, counts and the
//! share of the kind's total, all in the display currency.
//!
//! Categories are listed in order of first appearance; the grouping
//! order carries no meaning.  When a month filter is active, entries
//! whose date does not parse are excluded; without a filter every
//! entry counts, whatever its date text.

use vstd::prelude::*;

use crate::currency::Currency;
use crate::currency::MAX_CONVERTED;
use crate::currency::convert;
use crate::currency::lemma_convert_range;
use crate::model::AppData;
use crate::model::EntryKind;
use crate::model::EntryModel;
use crate::model::valid_entry;
use crate::summary::all_filter;
use crate::summary::converted_amount;
use crate::summary::lemma_sum_matching_bound;
use crate::summary::month_filter;
use crate::summary::sum_matching;
use crate::dates::parse_date;

verus! {

/// Whether an entry is of the kind and kept by the filter.
pub open spec fn entry_matches(e: EntryModel, kind: EntryKind, f: spec_fn(EntryModel) -> bool) -> bool {
    e.entry_type == kind && f(e)
}

/// The filter the analytics run under: a month window only when both
/// month and year are given.
pub open spec fn analytics_filter(month: Option<u32>, year: Option<i32>) -> spec_fn(
    EntryModel,
) -> bool {
    if month is Some && year is Some {
        month_filter(month->Some_0 as int, year->Some_0 as int)
    } else {
        all_filter()
    }
}

/// The categories of the matching entries, in order of first
/// appearance, each once.
pub open spec fn matching_categories(
    s: Seq<EntryModel>,
    kind: EntryKind,
    f: spec_fn(EntryModel) -> bool,
) -> Seq<Seq<char>>
    decreases s.len(),
{
    if s.len() == 0 {
        Seq::empty()
    } else {
        let rest = matching_categories(s.drop_last(), kind, f);
        if entry_matches(s.last(), kind, f) && !rest.contains(s.last().category) {
            rest.push(s.last().category)
        } else {
            rest
        }
    }
}

/// The total, in the display currency, of the matching entries of one
/// category.
pub open spec fn category_total(
    s: Seq<EntryModel>,
    cur: Currency,
    kind: EntryKind,
    f: spec_fn(EntryModel) -> bool,
    cat: Seq<char>,
) -> int
    decreases s.len(),
{
    if s.len() == 0 {
        0
    } else {
        category_total(s.drop_last(), cur, kind, f, cat) + if entry_matches(s.last(), kind, f)
            && s.last().category == cat {
            converted_amount(s.last(), cur)
        } else {
            0
        }
    }
}

/// How many matching entries carry one category.
pub open spec fn category_count(
    s: Seq<EntryModel>,
    kind: EntryKind,
    f: spec_fn(EntryModel) -> bool,
    cat: Seq<char>,
) -> int
    decreases s.len(),
{
    if s.len() == 0 {
        0
    } else {
        category_count(s.drop_last(), kind, f, cat) + if entry_matches(s.last(), kind, f)
            && s.last().category == cat {
            1int
        } else {
            0
        }
    }
}

/// One category's share of a kind: its label, total, count, and share
/// of the kind's total in hundredths of a percent.
pub struct CategorySummary {
    pub category: String,
    pub total: u128,
    pub percentage: u64,
    pub count: u64,
}

/// The mathematical shadow of a `CategorySummary`.
#[verifier::ext_equal]
pub ghost struct CatModel {
    pub category: Seq<char>,
    pub total: int,
    pub percentage: int,
    pub count: int,
}

impl View for CategorySummary {
    type V = CatModel;

    open spec fn view(&self) -> CatModel {
        CatModel {
            category: self.category@,
            total: self.total as int,
            percentage: self.percentage as int,
            count: self.count as int,
        }
    }
}

/// The models of a vector of category summaries.
pub open spec fn cat_models(v: Seq<CategorySummary>) -> Seq<CatModel> {
    v.map_values(|c: CategorySummary| c@)
}

/// The sum of the totals of a sequence of category summaries.
pub open spec fn sum_cat_totals(gs: Seq<CatModel>) -> int
    decreases gs.len(),
{
    if gs.len() == 0 {
        0
    } else {
        sum_cat_totals(gs.drop_last()) + gs.last().total
    }
}

/// The sum of the percentages of a sequence of category summaries.
pub open spec fn sum_cat_percentages(gs: Seq<CatModel>) -> int
    decreases gs.len(),
{
    if gs.len() == 0 {
        0
    } else {
        sum_cat_percentages(gs.drop_last()) + gs.last().percentage
    }
}

/// What the grouping pass yields: one summary per first-appearance
/// category, with the exact per-category total and count, and the
/// given percentage rule.
pub open spec fn cat_summaries_ok(
    gs: Seq<CatModel>,
    s: Seq<EntryModel>,
    cur: Currency,
    kind: EntryKind,
    f: spec_fn(EntryModel) -> bool,
    kind_total: int,
) -> bool {
    let cats = matching_categories(s, kind, f);
    &&& gs.len() == cats.len()
    &&& forall|g: int|
        0 <= g < gs.len() ==> (#[trigger] gs[g]).category == cats[g] && gs[g].total
            == category_total(s, cur, kind, f, cats[g]) && gs[g].count == category_count(
            s,
            kind,
            f,
            cats[g],
        ) && gs[g].percentage == (if kind_total > 0 {
            gs[g].total * 10000 / kind_total
        } else {
            0int
        })
}

/// Appending one summary adds its total and percentage to the sums.
proof fn lemma_cat_sums_push(gs: Seq<CatModel>, c: CatModel)
    ensures
        sum_cat_totals(gs.push(c)) == sum_cat_totals(gs) + c.total,
        sum_cat_percentages(gs.push(c)) == sum_cat_percentages(gs) + c.percentage,
{
    assert(gs.push(c).drop_last() =~= gs);
}

/// Replacing one summary moves the sums by the difference.
proof fn lemma_cat_sums_update(gs: Seq<CatModel>, g: int, c: CatModel)
    requires
        0 <= g < gs.len(),
    ensures
        sum_cat_totals(gs.update(g, c)) == sum_cat_totals(gs) - gs[g].total + c.total,
        sum_cat_percentages(gs.update(g, c)) == sum_cat_percentages(gs) - gs[g].percentage
            + c.percentage,
    decreases gs.len(),
{
    if g == gs.len() - 1 {
        assert(gs.update(g, c).drop_last() =~= gs.drop_last());
        assert(gs.update(g, c).last() == c);
    } else {
        assert(gs.update(g, c).drop_last() =~= gs.drop_last().update(g, c));
        assert(gs.update(g, c).last() == gs.last());
        lemma_cat_sums_update(gs.drop_last(), g, c);
    }
}

/// A category outside the matching list has no matching entries.
proof fn lemma_absent_category_empty(
    s: Seq<EntryModel>,
    cur: Currency,
    kind: EntryKind,
    f: spec_fn(EntryModel) -> bool,
    cat: Seq<char>,
)
    requires
        !matching_categories(s, kind, f).contains(cat),
    ensures
        category_total(s, cur, kind, f, cat) == 0,
        category_count(s, kind, f, cat) == 0,
    decreases s.len(),
{
    if s.len() > 0 {
        let rest = matching_categories(s.drop_last(), kind, f);
        assert(!rest.contains(cat)) by {
            if rest.contains(cat) {
                let j = choose|j: int| 0 <= j < rest.len() && rest[j] == cat;
                let cats = matching_categories(s, kind, f);
                assert(cats[j] == cat);
            }
        }
        lemma_absent_category_empty(s.drop_last(), cur, kind, f, cat);
        if entry_matches(s.last(), kind, f) && s.last().category == cat {
            if rest.contains(cat) {
            } else {
                let cats = matching_categories(s, kind, f);
                assert(cats.last() == cat);
            }
        }
    }
}

/// A category's total never passes the kind's total.
pub proof fn lemma_category_total_le_sum(
    s: Seq<EntryModel>,
    cur: Currency,
    kind: EntryKind,
    f: spec_fn(EntryModel) -> bool,
    cat: Seq<char>,
)
    requires
        forall|i: int| 0 <= i < s.len() ==> valid_entry(#[trigger] s[i]),
    ensures
        0 <= category_total(s, cur, kind, f, cat) <= sum_matching(s, cur, kind, f),
        0 <= category_count(s, kind, f, cat) <= s.len(),
    decreases s.len(),
{
    if s.len() > 0 {
        assert(s.last() == s[s.len() - 1]);
        lemma_category_total_le_sum(s.drop_last(), cur, kind, f, cat);
        lemma_convert_range(s.last().amount, s.last().currency, cur);
    }
}

/// The whole category analytics answer.
pub struct CategoryAnalytics {
    pub income_by_category: Vec<CategorySummary>,
    pub expense_by_category: Vec<CategorySummary>,
    pub total_income: u128,
    pub total_expenses: u128,
    pub currency: Currency,
}

impl AppData {
    /// One grouping pass: walks the entries once, collecting, for the
    /// given kind and filter, the kind's total and one group per
    /// category with its total and count; percentages are left at zero
    /// for the caller to fill.
    fn collect_groups(&self, kind: EntryKind, month: Option<u32>, year: Option<i32>) -> (r: (
        Vec<CategorySummary>,
        u128,
    ))
        requires
            self@.wf(),
        ensures
            r.1 == sum_matching(
                self@.entries,
                self@.selected_currency,
                kind,
                analytics_filter(month, year),
            ),
            cat_summaries_ok(
                cat_models(r.0@),
                self@.entries,
                self@.selected_currency,
                kind,
                analytics_filter(month, year),
                0,
            ),
            sum_cat_totals(cat_models(r.0@)) == r.1,
    {
        let ghost s = self@.entries;
        let ghost cur = self@.selected_currency;
        let ghost f = analytics_filter(month, year);
        let n = self.entries.len();
        let mut groups: Vec<CategorySummary> = Vec::new();
        let mut total: u128 = 0;
        let mut i: usize = 0;
        while i < n
            invariant
                i <= n,
                n == self.entries.len(),
                self@.wf(),
                s == self@.entries,
                cur == self@.selected_currency,
                f == analytics_filter(month, year),
                total == sum_matching(s.take(i as int), cur, kind, f),
                cat_summaries_ok(cat_models(groups@), s.take(i as int), cur, kind, f, 0),
                sum_cat_totals(cat_models(groups@)) == total,
            decreases n - i,
        {
            let ghost prefix = s.take(i as int);
            let ghost cats = matching_categories(prefix, kind, f);
            proof {
                assert(s.take(i + 1).drop_last() =~= prefix);
                assert(s.take(i + 1).last() == s[i as int]);
                lemma_sum_matching_bound(prefix, cur, kind, f);
                vstd::arithmetic::mul::lemma_mul_inequality(
                    i as int,
                    usize::MAX as int,
                    MAX_CONVERTED as int,
                );
                lemma_convert_range(s[i as int].amount, s[i as int].currency, cur);
                assert(valid_entry(s[i as int]));
            }
            let e = &self.entries[i];
            let kept: bool = match (&month, &year) {
                (Some(m), Some(y)) => {
                    match parse_date(e.date.as_str()) {
                        Some(d) => d.month == *m && d.year == *y,
                        None => false,
                    }
                },
                _ => true,
            };
            proof {
                assert(kept == f(s[i as int]));
            }
            let matches_kind = match (e.entry_type, kind) {
                (EntryKind::Income, EntryKind::Income) => true,
                (EntryKind::Expense, EntryKind::Expense) => true,
                _ => false,
            };
            if kept && matches_kind {
                let amount = convert(e.amount, e.currency, self.selected_currency);
                total = total + (amount as u128);
                let glen = groups.len();
                let mut gi: usize = 0;
                loop
                    invariant
                        gi <= glen,
                        glen == groups.len(),
                        i < n,
                        n == self.entries.len(),
                        s == self@.entries,
                        forall|q: int|
                            0 <= q < gi ==> (#[trigger] groups@[q])@.category != s[i as int].category,
                    ensures
                        glen == groups.len(),
                        gi == glen ==> forall|q: int|
                            0 <= q < glen ==> (#[trigger] groups@[q])@.category
                                != s[i as int].category,
                        gi < glen ==> groups@[gi as int]@.category == s[i as int].category,
                    decreases glen - gi,
                {
                    if gi >= glen {
                        break;
                    }
                    if groups[gi].category == self.entries[i].category {
                        proof {
                            assert(groups@[gi as int]@.category == s[i as int].category);
                        }
                        break;
                    }
                    proof {
                        assert(groups@[gi as int]@.category != s[i as int].category);
                    }
                    gi = gi + 1;
                }
                let ghost old_groups = cat_models(groups@);
                if gi < glen {
                    proof {
                        assert(cat_models(groups@)[gi as int] == groups@[gi as int]@);
                        assert(cat_models(groups@)[gi as int].total == category_total(
                            prefix,
                            cur,
                            kind,
                            f,
                            cats[gi as int],
                        ));
                        lemma_category_total_le_sum(prefix, cur, kind, f, cats[gi as int]);
                    }
                    let mut entry_group = groups.remove(gi);
                    entry_group.total = entry_group.total + (amount as u128);
                    entry_group.count = entry_group.count + 1;
                    groups.insert(gi, entry_group);
                    proof {
                        assert(cat_models(groups@) =~= old_groups.update(
                            gi as int,
                            entry_group@,
                        ));
                        lemma_cat_sums_update(old_groups, gi as int, entry_group@);
                        assert(cats.contains(s[i as int].category)) by {
                            assert(cats[gi as int] == s[i as int].category);
                        }
                        assert(matching_categories(s.take(i + 1), kind, f) =~= cats);
                        assert forall|g: int|
                            0 <= g < old_groups.len() && g != gi implies cats[g]
                                != s[i as int].category by {
                            lemma_matching_categories_distinct(prefix, kind, f);
                        }
                    }
                } else {
                    let fresh = CategorySummary {
                        category: e.category.clone(),
                        total: amount as u128,
                        percentage: 0,
                        count: 1,
                    };
                    groups.push(fresh);
                    proof {
                        assert(cat_models(groups@) =~= old_groups.push(
                            CatModel {
                                category: s[i as int].category,
                                total: amount as int,
                                percentage: 0,
                                count: 1,
                            },
                        ));
                        lemma_cat_sums_push(
                            old_groups,
                            CatModel {
                                category: s[i as int].category,
                                total: amount as int,
                                percentage: 0,
                                count: 1,
                            },
                        );
                        assert(!cats.contains(s[i as int].category)) by {
                            if cats.contains(s[i as int].category) {
                                let j = choose|j: int|
                                    0 <= j < cats.len() && cats[j] == s[i as int].category;
                                assert(old_groups[j].category == cats[j]);
                            }
                        }
                        lemma_absent_category_empty(prefix, cur, kind, f, s[i as int].category);
                        assert(matching_categories(s.take(i + 1), kind, f) =~= cats.push(
                            s[i as int].category,
                        ));
                    }
                }
                proof {
                    assert(s.take(i + 1) =~= prefix.push(s[i as int]));
                    lemma_unchanged_categories(prefix, s[i as int], cur, kind, f);
                }
            } else {
                proof {
                    assert(s.take(i + 1) =~= prefix.push(s[i as int]));
                    assert(matching_categories(s.take(i + 1), kind, f) =~= cats);
                    lemma_unchanged_categories(prefix, s[i as int], cur, kind, f);
                }
            }
            i = i + 1;
        }
        proof {
            assert(s.take(n as int) =~= s);
        }
        (groups, total)
    }
}

/// Two summary lists with the same totals have the same total sum.
proof fn lemma_sum_totals_congruent(a: Seq<CatModel>, b: Seq<CatModel>)
    requires
        a.len() == b.len(),
        forall|g: int| 0 <= g < a.len() ==> (#[trigger] a[g]).total == b[g].total,
    ensures
        sum_cat_totals(a) == sum_cat_totals(b),
    decreases a.len(),
{
    if a.len() > 0 {
        assert(a.last() == a[a.len() - 1] && b.last() == b[b.len() - 1]);
        lemma_sum_totals_congruent(a.drop_last(), b.drop_last());
    }
}

/// Fills in each group's share of the kind's total, in hundredths of a
/// percent, rounded toward zero; every share is zero when the total is.
fn fill_percentages(groups: Vec<CategorySummary>, kind_total: u128) -> (r: Vec<CategorySummary>)
    requires
        kind_total <= crate::currency::WIDE_LIMIT,
        forall|g: int|
            0 <= g < groups@.len() ==> 0 <= (#[trigger] groups@[g])@.total <= kind_total as int,
    ensures
        r@.len() == groups@.len(),
        forall|g: int|
            0 <= g < r@.len() ==> (#[trigger] r@[g])@ == (CatModel {
                percentage: if kind_total > 0 {
                    groups@[g]@.total * 10000 / (kind_total as int)
                } else {
                    0int
                },
                ..groups@[g]@
            }),
{
    let n = groups.len();
    let mut r: Vec<CategorySummary> = Vec::new();
    let mut g: usize = 0;
    while g < n
        invariant
            g <= n,
            n == groups@.len(),
            kind_total <= crate::currency::WIDE_LIMIT,
            forall|q: int|
                0 <= q < groups@.len() ==> 0 <= (#[trigger] groups@[q])@.total <= kind_total as int,
            r@.len() == g,
            forall|q: int|
                0 <= q < g ==> (#[trigger] r@[q])@ == (CatModel {
                    percentage: if kind_total > 0 {
                        groups@[q]@.total * 10000 / (kind_total as int)
                    } else {
                        0int
                    },
                    ..groups@[q]@
                }),
        decreases n - g,
    {
        let item = &groups[g];
        let pct: u64 = if kind_total > 0 {
            let wide = item.total * 10000;
            let q = wide / kind_total;
            proof {
                assert(q <= 10000) by (nonlinear_arith)
                    requires
                        q == (item.total as int) * 10000 / (kind_total as int),
                        0 <= item.total <= kind_total,
                        0 < kind_total,
                ;
            }
            q as u64
        } else {
            0
        };
        r.push(
            CategorySummary {
                category: item.category.clone(),
                total: item.total,
                percentage: pct,
                count: item.count,
            },
        );
        g = g + 1;
    }
    r
}

impl AppData {
    /// Groups the entries by category within each kind, under the
    /// optional month window, converting every amount into the display
    /// currency; each category carries its total, its count, and its
    /// share of the kind's total in hundredths of a percent (zero when
    /// that kind's total is zero).
    pub fn get_category_analytics(&self, month: Option<u32>, year: Option<i32>) -> (r:
        CategoryAnalytics)
        requires
            self@.wf(),
        ensures
            r.currency == self@.selected_currency,
            r.total_income == sum_matching(
                self@.entries,
                self@.selected_currency,
                EntryKind::Income,
                analytics_filter(month, year),
            ),
            r.total_expenses == sum_matching(
                self@.entries,
                self@.selected_currency,
                EntryKind::Expense,
                analytics_filter(month, year),
            ),
            cat_summaries_ok(
                cat_models(r.income_by_category@),
                self@.entries,
                self@.selected_currency,
                EntryKind::Income,
                analytics_filter(month, year),
                r.total_income as int,
            ),
            cat_summaries_ok(
                cat_models(r.expense_by_category@),
                self@.entries,
                self@.selected_currency,
                EntryKind::Expense,
                analytics_filter(month, year),
                r.total_expenses as int,
            ),
            sum_cat_totals(cat_models(r.income_by_category@)) == r.total_income,
            sum_cat_totals(cat_models(r.expense_by_category@)) == r.total_expenses,
    {
        let (ginc, total_income) = self.collect_groups(EntryKind::Income, month, year);
        let (gexp, total_expenses) = self.collect_groups(EntryKind::Expense, month, year);
        proof {
            self.lemma_kind_total_in_range(EntryKind::Income, month, year);
            self.lemma_kind_total_in_range(EntryKind::Expense, month, year);
            self.lemma_group_totals_bounded(cat_models(ginc@), EntryKind::Income, month, year);
            self.lemma_group_totals_bounded(cat_models(gexp@), EntryKind::Expense, month, year);
            assert forall|g: int|
                0 <= g < ginc@.len() implies 0 <= (#[trigger] ginc@[g])@.total
                <= total_income as int by {
                assert(cat_models(ginc@)[g] == ginc@[g]@);
            }
            assert forall|g: int|
                0 <= g < gexp@.len() implies 0 <= (#[trigger] gexp@[g])@.total
                <= total_expenses as int by {
                assert(cat_models(gexp@)[g] == gexp@[g]@);
            }
        }
        let income_by_category = fill_percentages(ginc, total_income);
        let expense_by_category = fill_percentages(gexp, total_expenses);
        proof {
            lemma_sum_totals_congruent(cat_models(income_by_category@), cat_models(ginc@));
            lemma_sum_totals_congruent(cat_models(expense_by_category@), cat_models(gexp@));
            let f = analytics_filter(month, year);
            let cur = self@.selected_currency;
            let cats_i = matching_categories(self@.entries, EntryKind::Income, f);
            let gs_i = cat_models(income_by_category@);
            let gs0_i = cat_models(ginc@);
            assert forall|g: int|
                0 <= g < gs_i.len() implies (#[trigger] gs_i[g]).category == cats_i[g]
                && gs_i[g].total == category_total(self@.entries, cur, EntryKind::Income, f, cats_i[g])
                && gs_i[g].count == category_count(self@.entries, EntryKind::Income, f, cats_i[g])
                && gs_i[g].percentage == (if total_income as int > 0 {
                gs_i[g].total * 10000 / (total_income as int)
            } else {
                0int
            }) by {
                assert(gs_i[g] == income_by_category@[g]@);
                assert(gs0_i[g] == ginc@[g]@);
            }
            let cats_e = matching_categories(self@.entries, EntryKind::Expense, f);
            let gs_e = cat_models(expense_by_category@);
            let gs0_e = cat_models(gexp@);
            assert forall|g: int|
                0 <= g < gs_e.len() implies (#[trigger] gs_e[g]).category == cats_e[g]
                && gs_e[g].total == category_total(self@.entries, cur, EntryKind::Expense, f, cats_e[g])
                && gs_e[g].count == category_count(self@.entries, EntryKind::Expense, f, cats_e[g])
                && gs_e[g].percentage == (if total_expenses as int > 0 {
                gs_e[g].total * 10000 / (total_expenses as int)
            } else {
                0int
            }) by {
                assert(gs_e[g] == expense_by_category@[g]@);
                assert(gs0_e[g] == gexp@[g]@);
            }
        }
        CategoryAnalytics {
            income_by_category,
            expense_by_category,
            total_income,
            total_expenses,
            currency: self.selected_currency,
        }
    }

    /// Any kind total over this store stays far under the wide cap.
    proof fn lemma_kind_total_in_range(&self, kind: EntryKind, month: Option<u32>, year: Option<
        i32,
    >)
        requires
            self@.wf(),
        ensures
            0 <= sum_matching(
                self@.entries,
                self@.selected_currency,
                kind,
                analytics_filter(month, year),
            ) <= crate::currency::WIDE_LIMIT,
    {
        vstd::std_specs::vec::axiom_spec_len(&self.entries);
        lemma_sum_matching_bound(
            self@.entries,
            self@.selected_currency,
            kind,
            analytics_filter(month, year),
        );
        vstd::arithmetic::mul::lemma_mul_inequality(
            self@.entries.len() as int,
            usize::MAX as int,
            MAX_CONVERTED as int,
        );
    }

    /// In a correct grouping, every group's total stays under the
    /// kind's total.
    proof fn lemma_group_totals_bounded(
        &self,
        gs: Seq<CatModel>,
        kind: EntryKind,
        month: Option<u32>,
        year: Option<i32>,
    )
        requires
            self@.wf(),
            cat_summaries_ok(
                gs,
                self@.entries,
                self@.selected_currency,
                kind,
                analytics_filter(month, year),
                0,
            ),
        ensures
            forall|g: int|
                0 <= g < gs.len() ==> 0 <= (#[trigger] gs[g]).total <= sum_matching(
                    self@.entries,
                    self@.selected_currency,
                    kind,
                    analytics_filter(month, year),
                ),
    {
        let cats = matching_categories(self@.entries, kind, analytics_filter(month, year));
        assert forall|g: int|
            0 <= g < gs.len() implies 0 <= (#[trigger] gs[g]).total <= sum_matching(
            self@.entries,
            self@.selected_currency,
            kind,
            analytics_filter(month, year),
        ) by {
            lemma_category_total_le_sum(
                self@.entries,
                self@.selected_currency,
                kind,
                analytics_filter(month, year),
                cats[g],
            );
        }
    }
}

/// The matching-category list never repeats a category.
proof fn lemma_matching_categories_distinct(
    s: Seq<EntryModel>,
    kind: EntryKind,
    f: spec_fn(EntryModel) -> bool,
)
    ensures
        forall|p: int, q: int|
            #![trigger matching_categories(s, kind, f)[p], matching_categories(s, kind, f)[q]]
            0 <= p < q < matching_categories(s, kind, f).len() ==> matching_categories(s, kind, f)[p]
                != matching_categories(s, kind, f)[q],
    decreases s.len(),
{
    if s.len() > 0 {
        lemma_matching_categories_distinct(s.drop_last(), kind, f);
        let rest = matching_categories(s.drop_last(), kind, f);
        let cats = matching_categories(s, kind, f);
        if entry_matches(s.last(), kind, f) && !rest.contains(s.last().category) {
            assert forall|p: int, q: int| 0 <= p < q < cats.len() implies cats[p] != cats[q] by {
                if q == cats.len() - 1 {
                    assert(cats[q] == s.last().category);
                    if cats[p] == cats[q] {
                        assert(rest[p] == s.last().category);
                        assert(rest.contains(s.last().category));
                    }
                } else {
                    assert(cats[p] == rest[p] && cats[q] == rest[q]);
                }
            }
        }
    }
}

/// Extending the walked prefix by one entry leaves every category's
/// total and count unchanged, except the entry's own when it matches.
proof fn lemma_unchanged_categories(
    prefix: Seq<EntryModel>,
    e: EntryModel,
    cur: Currency,
    kind: EntryKind,
    f: spec_fn(EntryModel) -> bool,
)
    ensures
        forall|cat: Seq<char>|
            #[trigger] category_total(prefix.push(e), cur, kind, f, cat) == category_total(
                prefix,
                cur,
                kind,
                f,
                cat,
            ) + (if entry_matches(e, kind, f) && e.category == cat {
                converted_amount(e, cur)
            } else {
                0int
            }),
        forall|cat: Seq<char>|
            #[trigger] category_count(prefix.push(e), kind, f, cat) == category_count(
                prefix,
                kind,
                f,
                cat,
            ) + (if entry_matches(e, kind, f) && e.category == cat {
                1int
            } else {
                0int
            }),
{
    assert(prefix.push(e).drop_last() =~= prefix);
    assert(prefix.push(e).last() == e);
    assert forall|cat: Seq<char>|
        #[trigger] category_total(prefix.push(e), cur, kind, f, cat) == category_total(
            prefix,
            cur,
            kind,
            f,
            cat,
        ) + (if entry_matches(e, kind, f) && e.category == cat {
            converted_amount(e, cur)
        } else {
            0int
        }) by {}
    assert forall|cat: Seq<char>|
        #[trigger] category_count(prefix.push(e), kind, f, cat) == category_count(
            prefix,
            kind,
            f,
            cat,
        ) + (if entry_matches(e, kind, f) && e.category == cat {
            1int
        } else {
            0int
        }) by {}
}

} // verus!
