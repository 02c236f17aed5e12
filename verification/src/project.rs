//! The trip view projector: on read, a trip whose stored currency
//! differs from the selected display currency has its budget, running
//! total and expense amounts rewritten into the display currency.  The
//! stored trips are never mutated.

use vstd::prelude::*;

use crate::currency::Currency;
use crate::currency::MAX_AMOUNT;
use crate::currency::convert;
use crate::currency::convert_wide;
use crate::currency::spec_convert;
use crate::ledger::lemma_sum_expenses_bound;
use crate::model::AppData;
use crate::model::ExpenseModel;
use crate::model::Trip;
use crate::model::TripExpense;
use crate::model::TripModel;
use crate::model::valid_expense;
use crate::model::valid_trip;

verus! {

/// An expense as the read path reports it, rewritten from the trip's
/// stored currency into the display currency.
pub open spec fn project_expense(e: ExpenseModel, from: Currency, to: Currency) -> ExpenseModel {
    ExpenseModel { amount: spec_convert(e.amount, from, to), ..e }
}

/// A trip as the read path reports it: budget, running total and every
/// expense amount in the display currency, and the currency tag
/// rewritten accordingly.
pub open spec fn project_trip(t: TripModel, cur: Currency) -> TripModel {
    TripModel {
        budget: spec_convert(t.budget, t.currency, cur),
        total_spent: spec_convert(t.total_spent, t.currency, cur),
        expenses: t.expenses.map_values(|e: ExpenseModel| project_expense(e, t.currency, cur)),
        currency: cur,
        ..t
    }
}

impl AppData {
    /// Every trip, projected into the display currency; the stored
    /// trips are untouched.
    pub fn get_trips(&self) -> (r: Vec<Trip>)
        requires
            self@.wf(),
        ensures
            r@.len() == self@.trips.len(),
            forall|i: int|
                0 <= i < r@.len() ==> r@[i]@ == project_trip(
                    #[trigger] self@.trips[i],
                    self@.selected_currency,
                ),
    {
        let n = self.trips.len();
        let mut out: Vec<Trip> = Vec::new();
        let mut i: usize = 0;
        while i < n
            invariant
                i <= n,
                n == self.trips.len(),
                self@.wf(),
                out@.len() == i,
                forall|k: int|
                    0 <= k < i ==> out@[k]@ == project_trip(
                        #[trigger] self@.trips[k],
                        self@.selected_currency,
                    ),
            decreases n - i,
        {
            let ghost tm = self@.trips[i as int];
            proof {
                assert(valid_trip(tm));
            }
            let t = &self.trips[i];
            let budget = convert(t.budget, t.currency, self.selected_currency);
            let elen = t.expenses.len();
            proof {
                lemma_sum_expenses_bound(tm.expenses);
                vstd::arithmetic::mul::lemma_mul_inequality(
                    elen as int,
                    usize::MAX as int,
                    MAX_AMOUNT as int,
                );
            }
            let total_spent = convert_wide(t.total_spent, t.currency, self.selected_currency);
            let mut expenses: Vec<TripExpense> = Vec::new();
            let mut k: usize = 0;
            while k < elen
                invariant
                    k <= elen,
                    i < n,
                    n == self.trips.len(),
                    elen == self.trips[i as int].expenses.len(),
                    tm == self@.trips[i as int],
                    valid_trip(tm),
                    expenses@.len() == k,
                    forall|q: int|
                        0 <= q < k ==> expenses@[q]@ == project_expense(
                            #[trigger] tm.expenses[q],
                            tm.currency,
                            self@.selected_currency,
                        ),
                decreases elen - k,
            {
                proof {
                    assert(valid_expense(tm.expenses[k as int]));
                }
                let e = &self.trips[i].expenses[k];
                let amount = convert(e.amount, self.trips[i].currency, self.selected_currency);
                expenses.push(
                    TripExpense {
                        id: e.id.clone(),
                        amount,
                        category: e.category.clone(),
                        description: e.description.clone(),
                        date: e.date.clone(),
                    },
                );
                k = k + 1;
            }
            let trip = Trip {
                id: t.id.clone(),
                name: t.name.clone(),
                destination: t.destination.clone(),
                budget,
                currency: self.selected_currency,
                start_date: t.start_date.clone(),
                end_date: t.end_date.clone(),
                expenses,
                total_spent,
            };
            proof {
                assert(trip@.expenses =~= tm.expenses.map_values(
                    |e: ExpenseModel|
                        project_expense(e, tm.currency, self@.selected_currency),
                ));
                assert(trip@ =~= project_trip(tm, self@.selected_currency));
            }
            out.push(trip);
            i = i + 1;
        }
        out
    }
}

} // verus!
