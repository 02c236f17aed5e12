//! The laws the ledger obeys, stated and proved once over the models
//! that every contract speaks of.  The conversion round-trip laws live
//! beside the converter in `currency`.

use vstd::prelude::*;

use crate::analytics::CatModel;
use crate::analytics::analytics_filter;
use crate::analytics::cat_summaries_ok;
use crate::analytics::lemma_category_total_le_sum;
use crate::analytics::matching_categories;
use crate::analytics::sum_cat_percentages;
use crate::analytics::sum_cat_totals;
use crate::model::EntryKind;
use crate::ledger::has_entry_id;
use crate::ledger::lemma_remove_entries_absent;
use crate::ledger::remove_entries;
use crate::model::EntryModel;
use crate::model::LedgerModel;
use crate::model::sum_expenses;
use crate::model::valid_trip;

verus! {

/// Adding an entry under an identifier that no stored entry carries,
/// then deleting that identifier, restores the entry sequence to its
/// prior content.
pub proof fn lemma_add_then_delete_restores(entries: Seq<EntryModel>, e: EntryModel)
    requires
        !has_entry_id(entries, e.id),
    ensures
        remove_entries(entries.push(e), e.id) == entries,
{
    assert(entries.push(e).drop_last() =~= entries);
    assert(entries.push(e).last() == e);
    lemma_remove_entries_absent(entries, e.id);
    assert(remove_entries(entries.push(e), e.id) =~= entries);
}

/// In every state the store reaches — each mutation requires and
/// re-establishes well-formedness — a trip's running total equals the
/// sum of its expense amounts, and is zero when it has no expenses.
pub proof fn lemma_total_spent_matches_expenses(led: LedgerModel, i: int)
    requires
        led.wf(),
        0 <= i < led.trips.len(),
    ensures
        led.trips[i].total_spent == sum_expenses(led.trips[i].expenses),
        led.trips[i].expenses.len() == 0 ==> led.trips[i].total_spent == 0,
{
    assert(valid_trip(led.trips[i]));
}

/// Percentages of zero all add to zero.
proof fn lemma_zero_percentages(gs: Seq<CatModel>)
    requires
        forall|g: int| 0 <= g < gs.len() ==> (#[trigger] gs[g]).percentage == 0,
    ensures
        sum_cat_percentages(gs) == 0,
    decreases gs.len(),
{
    if gs.len() > 0 {
        assert(gs.last() == gs[gs.len() - 1]);
        lemma_zero_percentages(gs.drop_last());
    }
}

/// Each percentage is a quotient by the kind total: one scaled step of
/// the sums at a time.
proof fn lemma_percentage_sums_scaled(gs: Seq<CatModel>, total: int)
    requires
        total > 0,
        forall|g: int| 0 <= g < gs.len() ==> (#[trigger] gs[g]).total >= 0,
        forall|g: int|
            0 <= g < gs.len() ==> (#[trigger] gs[g]).percentage == gs[g].total * 10000 / total,
    ensures
        total * sum_cat_percentages(gs) <= 10000 * sum_cat_totals(gs),
        10000 * sum_cat_totals(gs) <= total * sum_cat_percentages(gs) + gs.len() * (total - 1),
    decreases gs.len(),
{
    if gs.len() == 0 {
    } else {
        assert(gs.last() == gs[gs.len() - 1]);
        lemma_percentage_sums_scaled(gs.drop_last(), total);
        let t = gs.last().total;
        let q = gs.last().percentage;
        vstd::arithmetic::div_mod::lemma_fundamental_div_mod(t * 10000, total);
        vstd::arithmetic::div_mod::lemma_mod_bound(t * 10000, total);
        let sp = sum_cat_percentages(gs.drop_last());
        let st = sum_cat_totals(gs.drop_last());
        assert(total * (sp + q) == total * sp + total * q) by (nonlinear_arith);
        assert((gs.len() - 1) * (total - 1) + (total - 1) == gs.len() * (total - 1))
            by (nonlinear_arith);
        assert(10000 * (st + t) == 10000 * st + 10000 * t) by (nonlinear_arith);
        assert(t * 10000 == 10000 * t) by (nonlinear_arith);
    }
}

/// When a kind's total is positive, its category percentages — each
/// the category total's share in hundredths of a percent, rounded
/// toward zero — add to ten thousand, short by less than one unit per
/// category; when the total is zero they add to zero.
pub proof fn lemma_category_percentages_sum(gs: Seq<CatModel>, kind_total: int)
    requires
        forall|g: int| 0 <= g < gs.len() ==> (#[trigger] gs[g]).total >= 0,
        forall|g: int|
            0 <= g < gs.len() ==> (#[trigger] gs[g]).percentage == (if kind_total > 0 {
                gs[g].total * 10000 / kind_total
            } else {
                0int
            }),
        sum_cat_totals(gs) == kind_total,
    ensures
        kind_total > 0 ==> 10000 - gs.len() < sum_cat_percentages(gs) <= 10000,
        kind_total == 0 ==> sum_cat_percentages(gs) == 0,
{
    if kind_total > 0 {
        if gs.len() == 0 {
            assert(sum_cat_totals(gs) == 0);
        }
        lemma_percentage_sums_scaled(gs, kind_total);
        let sp = sum_cat_percentages(gs);
        let len = gs.len() as int;
        assert(sp <= 10000 && 10000 - len < sp) by (nonlinear_arith)
            requires
                kind_total * sp <= 10000 * kind_total,
                10000 * kind_total <= kind_total * sp + len * (kind_total - 1),
                kind_total > 0,
                len >= 1,
        ;
    } else {
        lemma_zero_percentages(gs);
    }
}

/// What `get_category_analytics` reports for one kind obeys the
/// percentage law: when the kind's total is positive the listed
/// shares add to ten thousand hundredths of a percent, short by less
/// than one unit per category, and when it is zero they add to zero.
pub proof fn lemma_analytics_percentages_sum(
    led: LedgerModel,
    month: Option<u32>,
    year: Option<i32>,
    kind: EntryKind,
    gs: Seq<CatModel>,
    kind_total: int,
)
    requires
        led.wf(),
        cat_summaries_ok(
            gs,
            led.entries,
            led.selected_currency,
            kind,
            analytics_filter(month, year),
            kind_total,
        ),
        sum_cat_totals(gs) == kind_total,
    ensures
        kind_total > 0 ==> 10000 - gs.len() < sum_cat_percentages(gs) <= 10000,
        kind_total == 0 ==> sum_cat_percentages(gs) == 0,
{
    let f = analytics_filter(month, year);
    let cats = matching_categories(led.entries, kind, f);
    assert forall|g: int| 0 <= g < gs.len() implies (#[trigger] gs[g]).total >= 0 by {
        lemma_category_total_le_sum(led.entries, led.selected_currency, kind, f, cats[g]);
    }
    lemma_category_percentages_sum(gs, kind_total);
}

} // verus!
