//! The validated mutations of the record store: create and delete for
//! entries, trips and trip expenses, the display currency switch, and
//! the load path.  Every mutation validates first and leaves the store
//! untouched when it fails; every success is pinned exactly.
//!
//! Persistence is the caller's collaborator: it runs after the
//! mutation and cannot undo it.

use vstd::prelude::*;

use crate::currency::Currency;
use crate::currency::MAX_AMOUNT;
use crate::model::AppData;
use crate::model::BudgetEntry;
use crate::model::EntryKind;
use crate::model::EntryModel;
use crate::model::ExpenseModel;
use crate::model::LedgerError;
use crate::model::Trip;
use crate::model::TripExpense;
use crate::model::TripModel;
use crate::model::default_ledger;
use crate::model::sum_expenses;
use crate::model::valid_entry;
use crate::model::valid_expense;
use crate::model::valid_trip;
use crate::trusted::new_id;

verus! {

/// Whether some entry carries the identifier.
pub open spec fn has_entry_id(s: Seq<EntryModel>, id: Seq<char>) -> bool {
    exists|i: int| 0 <= i < s.len() && s[i].id == id
}

/// The entries left after deleting every entry with the identifier.
pub open spec fn remove_entries(s: Seq<EntryModel>, id: Seq<char>) -> Seq<EntryModel>
    decreases s.len(),
{
    if s.len() == 0 {
        Seq::empty()
    } else {
        let rest = remove_entries(s.drop_last(), id);
        if s.last().id == id {
            rest
        } else {
            rest.push(s.last())
        }
    }
}

/// Deleting an identifier that no entry carries changes nothing.
pub proof fn lemma_remove_entries_absent(s: Seq<EntryModel>, id: Seq<char>)
    requires
        !has_entry_id(s, id),
    ensures
        remove_entries(s, id) =~= s,
    decreases s.len(),
{
    if s.len() > 0 {
        assert(s.last() == s[s.len() - 1]);
        lemma_remove_entries_absent(s.drop_last(), id);
    }
}

/// What remains after a deletion was already there.
pub proof fn lemma_remove_entries_subset(s: Seq<EntryModel>, id: Seq<char>)
    ensures
        forall|i: int|
            0 <= i < remove_entries(s, id).len() ==> has_entry_model(
                s,
                #[trigger] remove_entries(s, id)[i],
            ),
    decreases s.len(),
{
    if s.len() > 0 {
        lemma_remove_entries_subset(s.drop_last(), id);
        let r = remove_entries(s, id);
        let rest = remove_entries(s.drop_last(), id);
        assert forall|i: int| 0 <= i < r.len() implies has_entry_model(s, r[i]) by {
            if s.last().id != id && i == rest.len() {
                assert(r[i] == s.last());
                assert(s[s.len() - 1] == s.last());
            } else {
                assert(r[i] == rest[i]);
                assert(has_entry_model(s.drop_last(), rest[i]));
                let j = choose|j: int|
                    0 <= j < s.drop_last().len() && s.drop_last()[j] == rest[i];
                assert(s[j] == rest[i]);
            }
        }
    }
}

/// Whether the sequence holds this very entry.
pub open spec fn has_entry_model(s: Seq<EntryModel>, e: EntryModel) -> bool {
    exists|i: int| 0 <= i < s.len() && s[i] == e
}

/// Whether some trip carries the identifier.
pub open spec fn has_trip_id(s: Seq<TripModel>, id: Seq<char>) -> bool {
    exists|i: int| 0 <= i < s.len() && s[i].id == id
}

/// The trips left after deleting every trip with the identifier.
pub open spec fn remove_trips(s: Seq<TripModel>, id: Seq<char>) -> Seq<TripModel>
    decreases s.len(),
{
    if s.len() == 0 {
        Seq::empty()
    } else {
        let rest = remove_trips(s.drop_last(), id);
        if s.last().id == id {
            rest
        } else {
            rest.push(s.last())
        }
    }
}

/// Whether the sequence holds this very trip.
pub open spec fn has_trip_model(s: Seq<TripModel>, t: TripModel) -> bool {
    exists|i: int| 0 <= i < s.len() && s[i] == t
}

/// What remains after a deletion was one of the trips.
proof fn lemma_remove_trips_subset(s: Seq<TripModel>, id: Seq<char>)
    ensures
        forall|i: int|
            0 <= i < remove_trips(s, id).len() ==> has_trip_model(
                s,
                #[trigger] remove_trips(s, id)[i],
            ),
    decreases s.len(),
{
    if s.len() > 0 {
        lemma_remove_trips_subset(s.drop_last(), id);
        let r = remove_trips(s, id);
        let rest = remove_trips(s.drop_last(), id);
        assert forall|i: int| 0 <= i < r.len() implies has_trip_model(s, r[i]) by {
            if s.last().id != id && i == rest.len() {
                assert(r[i] == s.last());
                assert(s[s.len() - 1] == s.last());
            } else {
                assert(r[i] == rest[i]);
                assert(has_trip_model(s.drop_last(), rest[i]));
                let j = choose|j: int|
                    0 <= j < s.drop_last().len() && s.drop_last()[j] == rest[i];
                assert(s[j] == rest[i]);
            }
        }
    }
}

/// The position of the first trip carrying the identifier, or -1.
pub open spec fn find_trip(s: Seq<TripModel>, id: Seq<char>) -> int
    decreases s.len(),
{
    if s.len() == 0 {
        -1
    } else if s.first().id == id {
        0
    } else {
        let r = find_trip(s.drop_first(), id);
        if r == -1 {
            -1
        } else {
            r + 1
        }
    }
}

/// `find_trip` names the first match, and -1 means none.
pub proof fn lemma_find_trip(s: Seq<TripModel>, id: Seq<char>)
    ensures
        find_trip(s, id) == -1 ==> !has_trip_id(s, id),
        find_trip(s, id) != -1 ==> 0 <= find_trip(s, id) < s.len() && s[find_trip(s, id)].id
            == id && forall|k: int| 0 <= k < find_trip(s, id) ==> (#[trigger] s[k]).id != id,
    decreases s.len(),
{
    if s.len() > 0 {
        lemma_find_trip(s.drop_first(), id);
        if s.first().id != id {
            let r = find_trip(s.drop_first(), id);
            if r == -1 {
                assert forall|i: int| 0 <= i < s.len() implies (#[trigger] s[i]).id != id by {
                    if i > 0 {
                        assert(s.drop_first()[i - 1] == s[i]);
                    }
                }
            } else {
                assert(s.drop_first()[r] == s[r + 1]);
                assert forall|k: int| 0 <= k < r + 1 implies (#[trigger] s[k]).id != id by {
                    if k > 0 {
                        assert(s.drop_first()[k - 1] == s[k]);
                    }
                }
            }
        }
    }
}

/// The position of the first expense carrying the identifier, or -1.
pub open spec fn find_expense(s: Seq<ExpenseModel>, id: Seq<char>) -> int
    decreases s.len(),
{
    if s.len() == 0 {
        -1
    } else if s.first().id == id {
        0
    } else {
        let r = find_expense(s.drop_first(), id);
        if r == -1 {
            -1
        } else {
            r + 1
        }
    }
}

/// `find_expense` names the first match, and -1 means none.
pub proof fn lemma_find_expense(s: Seq<ExpenseModel>, id: Seq<char>)
    ensures
        find_expense(s, id) == -1 ==> forall|i: int|
            0 <= i < s.len() ==> (#[trigger] s[i]).id != id,
        find_expense(s, id) != -1 ==> 0 <= find_expense(s, id) < s.len() && s[find_expense(
            s,
            id,
        )].id == id && forall|k: int|
            0 <= k < find_expense(s, id) ==> (#[trigger] s[k]).id != id,
    decreases s.len(),
{
    if s.len() > 0 {
        lemma_find_expense(s.drop_first(), id);
        if s.first().id != id {
            let r = find_expense(s.drop_first(), id);
            if r == -1 {
                assert forall|i: int| 0 <= i < s.len() implies (#[trigger] s[i]).id != id by {
                    if i > 0 {
                        assert(s.drop_first()[i - 1] == s[i]);
                    }
                }
            } else {
                assert(s.drop_first()[r] == s[r + 1]);
                assert forall|k: int| 0 <= k < r + 1 implies (#[trigger] s[k]).id != id by {
                    if k > 0 {
                        assert(s.drop_first()[k - 1] == s[k]);
                    }
                }
            }
        }
    }
}

/// The sum of accepted expenses stays under one cap per expense.
pub proof fn lemma_sum_expenses_bound(s: Seq<ExpenseModel>)
    requires
        forall|i: int| 0 <= i < s.len() ==> valid_expense(#[trigger] s[i]),
    ensures
        0 <= sum_expenses(s) <= s.len() * MAX_AMOUNT,
    decreases s.len(),
{
    if s.len() == 0 {
    } else {
        lemma_sum_expenses_bound(s.drop_last());
        assert(s.last() == s[s.len() - 1]);
        assert((s.len() - 1) * MAX_AMOUNT + MAX_AMOUNT == s.len() * MAX_AMOUNT)
            by (nonlinear_arith);
    }
}

/// Removing one expense takes exactly its amount out of the sum.
pub proof fn lemma_sum_expenses_remove(s: Seq<ExpenseModel>, k: int)
    requires
        0 <= k < s.len(),
    ensures
        sum_expenses(s.remove(k)) == sum_expenses(s) - s[k].amount,
    decreases s.len(),
{
    if k == s.len() - 1 {
        assert(s.remove(k) =~= s.drop_last());
    } else {
        assert(s.remove(k).drop_last() =~= s.drop_last().remove(k));
        assert(s.remove(k).last() == s.last());
        lemma_sum_expenses_remove(s.drop_last(), k);
    }
}

/// Appending one expense adds exactly its amount to the sum.
pub proof fn lemma_sum_expenses_push(s: Seq<ExpenseModel>, e: ExpenseModel)
    ensures
        sum_expenses(s.push(e)) == sum_expenses(s) + e.amount,
{
    assert(s.push(e).drop_last() =~= s);
}

impl AppData {
    /// Creates and appends an entry under a caller-chosen identifier.
    /// The amount must be positive and the kind one of the two codes;
    /// the entry's currency is the display currency selected now.
    pub fn add_entry_with_id(
        &mut self,
        id: String,
        entry_type: String,
        amount: u64,
        category: String,
        date: String,
        description: String,
    ) -> (r: Result<BudgetEntry, LedgerError>)
        requires
            old(self)@.wf(),
            amount <= MAX_AMOUNT,
        ensures
            final(self)@.wf(),
            amount == 0 ==> (r matches Err(e) && e == LedgerError::AmountNotPositive && final(self)@ == old(self)@),
            amount > 0 && EntryKind::spec_from_code(entry_type@) is None ==> (r matches Err(e)
                && e == LedgerError::InvalidKind && final(self)@ == old(self)@),
            amount > 0 ==> (EntryKind::spec_from_code(entry_type@) matches Some(kind) ==> (r matches
                Ok(e) && e@ == (EntryModel {
                id: id@,
                entry_type: kind,
                amount: amount as int,
                currency: old(self)@.selected_currency,
                category: category@,
                date: date@,
                description: description@,
            }) && final(self)@.entries == old(self)@.entries.push(e@) && final(self)@.trips == old(self)@.trips && final(self)@.selected_currency == old(self)@.selected_currency)),
    {
        if amount == 0 {
            return Err(LedgerError::AmountNotPositive);
        }
        let kind = match EntryKind::from_code(&entry_type) {
            Some(kind) => kind,
            None => {
                return Err(LedgerError::InvalidKind);
            },
        };
        let entry = BudgetEntry {
            id,
            entry_type: kind,
            amount,
            currency: self.selected_currency,
            category,
            date,
            description,
        };
        let copy = entry.duplicate();
        self.entries.push(entry);
        proof {
            assert(self@.entries =~= old(self)@.entries.push(copy@));
            assert(self@.trips =~= old(self)@.trips);
        }
        Ok(copy)
    }

    /// Creates and appends an entry under a fresh random identifier.
    pub fn add_entry(
        &mut self,
        entry_type: String,
        amount: u64,
        category: String,
        date: String,
        description: String,
    ) -> (r: Result<BudgetEntry, LedgerError>)
        requires
            old(self)@.wf(),
            amount <= MAX_AMOUNT,
        ensures
            final(self)@.wf(),
            amount == 0 ==> (r matches Err(e) && e == LedgerError::AmountNotPositive && final(self)@
                == old(self)@),
            amount > 0 && EntryKind::spec_from_code(entry_type@) is None ==> (r matches Err(e) && e
                == LedgerError::InvalidKind && final(self)@ == old(self)@),
            amount > 0 ==> (EntryKind::spec_from_code(entry_type@) matches Some(kind) ==> (r matches
                Ok(e) && e@ == (EntryModel {
                id: e@.id,
                entry_type: kind,
                amount: amount as int,
                currency: old(self)@.selected_currency,
                category: category@,
                date: date@,
                description: description@,
            }) && final(self)@.entries == old(self)@.entries.push(e@) && final(self)@.trips == old(self)@.trips && final(self)@.selected_currency == old(self)@.selected_currency)),
    {
        let id = new_id();
        self.add_entry_with_id(id, entry_type, amount, category, date, description)
    }

    /// Deletes every entry carrying the identifier; an unknown
    /// identifier leaves the store unchanged and reports `EntryNotFound`.
    pub fn delete_entry(&mut self, id: String) -> (r: Result<(), LedgerError>)
        requires
            old(self)@.wf(),
        ensures
            final(self)@.wf(),
            !has_entry_id(old(self)@.entries, id@) ==> (r matches Err(e) && e
                == LedgerError::EntryNotFound && final(self)@ == old(self)@),
            has_entry_id(old(self)@.entries, id@) ==> (r matches Ok(u) && final(self)@.entries
                == remove_entries(old(self)@.entries, id@) && final(self)@.trips == old(self)@.trips && final(self)@.selected_currency == old(self)@.selected_currency),
    {
        let ghost s = self@.entries;
        let n = self.entries.len();
        let mut found = false;
        let mut i: usize = 0;
        while i < n
            invariant
                i <= n,
                n == self.entries.len(),
                s == self@.entries,
                found ==> has_entry_id(s, id@),
                !found ==> forall|k: int| 0 <= k < i ==> (#[trigger] s[k]).id != id@,
            decreases n - i,
        {
            if self.entries[i].id == id {
                proof {
                    assert(s[i as int].id == id@);
                }
                found = true;
            }
            i = i + 1;
        }
        if !found {
            return Err(LedgerError::EntryNotFound);
        }
        let mut kept: Vec<BudgetEntry> = Vec::new();
        let mut j: usize = 0;
        while j < n
            invariant
                j <= n,
                n == self.entries.len(),
                s == self@.entries,
                kept@.map_values(|e: BudgetEntry| e@) =~= remove_entries(s.take(j as int), id@),
            decreases n - j,
        {
            proof {
                assert(s.take(j + 1).drop_last() =~= s.take(j as int));
                assert(s.take(j + 1).last() == s[j as int]);
            }
            if !(self.entries[j].id == id) {
                kept.push(self.entries[j].duplicate());
            }
            proof {
                assert(kept@.map_values(|e: BudgetEntry| e@) =~= remove_entries(
                    s.take(j + 1),
                    id@,
                ));
            }
            j = j + 1;
        }
        proof {
            assert(s.take(n as int) =~= s);
            lemma_remove_entries_subset(s, id@);
        }
        self.entries = kept;
        proof {
            assert(self@.trips =~= old(self)@.trips);
        }
        Ok(())
    }

    /// Replaces the selected display currency; stored records keep
    /// their original currency tags and are only projected on read.
    pub fn set_currency(&mut self, currency: String) -> (r: Result<(), LedgerError>)
        requires
            old(self)@.wf(),
        ensures
            final(self)@.wf(),
            Currency::spec_from_code(currency@) is None ==> (r matches Err(e) && e
                == LedgerError::InvalidCurrency && final(self)@ == old(self)@),
            Currency::spec_from_code(currency@) matches Some(c) ==> (r matches Ok(u) && final(self)@.selected_currency == c && final(self)@.entries == old(self)@.entries && final(self)@.trips == old(self)@.trips),
    {
        match Currency::from_code(currency.as_str()) {
            Some(c) => {
                self.selected_currency = c;
                proof {
                    assert(self@.entries =~= old(self)@.entries);
                    assert(self@.trips =~= old(self)@.trips);
                }
                Ok(())
            },
            None => Err(LedgerError::InvalidCurrency),
        }
    }

    /// The currently selected display currency.
    pub fn get_currency(&self) -> (r: Currency)
        ensures
            r == self@.selected_currency,
    {
        self.selected_currency
    }

    /// Creates and appends a trip under a caller-chosen identifier.
    /// The budget must be positive; the trip's currency is the display
    /// currency selected now, and it starts with no expenses.
    pub fn create_trip_with_id(
        &mut self,
        id: String,
        name: String,
        destination: String,
        budget: u64,
        start_date: String,
        end_date: String,
    ) -> (r: Result<Trip, LedgerError>)
        requires
            old(self)@.wf(),
            budget <= MAX_AMOUNT,
        ensures
            final(self)@.wf(),
            budget == 0 ==> (r matches Err(e) && e == LedgerError::BudgetNotPositive && final(self)@ == old(self)@),
            budget > 0 ==> (r matches Ok(t) && t@ == (TripModel {
                id: id@,
                name: name@,
                destination: destination@,
                budget: budget as int,
                currency: old(self)@.selected_currency,
                start_date: start_date@,
                end_date: end_date@,
                expenses: Seq::empty(),
                total_spent: 0,
            }) && final(self)@.trips == old(self)@.trips.push(t@) && final(self)@.entries == old(self)@.entries && final(self)@.selected_currency == old(self)@.selected_currency),
    {
        if budget == 0 {
            return Err(LedgerError::BudgetNotPositive);
        }
        let trip = Trip {
            id,
            name,
            destination,
            budget,
            currency: self.selected_currency,
            start_date,
            end_date,
            expenses: Vec::new(),
            total_spent: 0,
        };
        let copy = trip.duplicate();
        proof {
            assert(copy@.expenses =~= Seq::<ExpenseModel>::empty());
        }
        self.trips.push(trip);
        proof {
            assert(self@.trips =~= old(self)@.trips.push(copy@));
            assert(self@.entries =~= old(self)@.entries);
        }
        Ok(copy)
    }

    /// Creates and appends a trip under a fresh random identifier.
    pub fn create_trip(
        &mut self,
        name: String,
        destination: String,
        budget: u64,
        start_date: String,
        end_date: String,
    ) -> (r: Result<Trip, LedgerError>)
        requires
            old(self)@.wf(),
            budget <= MAX_AMOUNT,
        ensures
            final(self)@.wf(),
            budget == 0 ==> (r matches Err(e) && e == LedgerError::BudgetNotPositive && final(self)@ == old(self)@),
            budget > 0 ==> (r matches Ok(t) && t@ == (TripModel {
                id: t@.id,
                name: name@,
                destination: destination@,
                budget: budget as int,
                currency: old(self)@.selected_currency,
                start_date: start_date@,
                end_date: end_date@,
                expenses: Seq::empty(),
                total_spent: 0,
            }) && final(self)@.trips == old(self)@.trips.push(t@) && final(self)@.entries == old(self)@.entries && final(self)@.selected_currency == old(self)@.selected_currency),
    {
        let id = new_id();
        self.create_trip_with_id(id, name, destination, budget, start_date, end_date)
    }

    /// Deletes every trip carrying the identifier; an unknown
    /// identifier leaves the store unchanged and reports `TripNotFound`.
    pub fn delete_trip(&mut self, trip_id: String) -> (r: Result<(), LedgerError>)
        requires
            old(self)@.wf(),
        ensures
            final(self)@.wf(),
            !has_trip_id(old(self)@.trips, trip_id@) ==> (r matches Err(e) && e
                == LedgerError::TripNotFound && final(self)@ == old(self)@),
            has_trip_id(old(self)@.trips, trip_id@) ==> (r matches Ok(u) && final(self)@.trips
                == remove_trips(old(self)@.trips, trip_id@) && final(self)@.entries == old(self)@.entries && final(self)@.selected_currency == old(self)@.selected_currency),
    {
        let ghost s = self@.trips;
        let n = self.trips.len();
        let mut found = false;
        let mut i: usize = 0;
        while i < n
            invariant
                i <= n,
                n == self.trips.len(),
                s == self@.trips,
                found ==> has_trip_id(s, trip_id@),
                !found ==> forall|k: int| 0 <= k < i ==> (#[trigger] s[k]).id != trip_id@,
            decreases n - i,
        {
            if self.trips[i].id == trip_id {
                proof {
                    assert(s[i as int].id == trip_id@);
                }
                found = true;
            }
            i = i + 1;
        }
        if !found {
            return Err(LedgerError::TripNotFound);
        }
        let mut kept: Vec<Trip> = Vec::new();
        let mut j: usize = 0;
        while j < n
            invariant
                j <= n,
                n == self.trips.len(),
                s == self@.trips,
                kept@.map_values(|t: Trip| t@) =~= remove_trips(s.take(j as int), trip_id@),
            decreases n - j,
        {
            proof {
                assert(s.take(j + 1).drop_last() =~= s.take(j as int));
                assert(s.take(j + 1).last() == s[j as int]);
            }
            if !(self.trips[j].id == trip_id) {
                kept.push(self.trips[j].duplicate());
            }
            proof {
                assert(kept@.map_values(|t: Trip| t@) =~= remove_trips(s.take(j + 1), trip_id@));
            }
            j = j + 1;
        }
        proof {
            assert(s.take(n as int) =~= s);
            lemma_remove_trips_subset(s, trip_id@);
        }
        self.trips = kept;
        proof {
            assert(self@.entries =~= old(self)@.entries);
        }
        Ok(())
    }

    /// Appends an expense to the first trip carrying `trip_id`, under a
    /// caller-chosen identifier, and raises the trip's running total by
    /// exactly the raw amount, in the trip's own currency.
    pub fn add_trip_expense_with_id(
        &mut self,
        id: String,
        trip_id: String,
        amount: u64,
        category: String,
        description: String,
        date: String,
    ) -> (r: Result<TripExpense, LedgerError>)
        requires
            old(self)@.wf(),
            amount <= MAX_AMOUNT,
        ensures
            final(self)@.wf(),
            amount == 0 ==> (r matches Err(e) && e == LedgerError::AmountNotPositive && final(self)@ == old(self)@),
            amount > 0 && !has_trip_id(old(self)@.trips, trip_id@) ==> (r matches Err(e) && e
                == LedgerError::TripNotFound && final(self)@ == old(self)@),
            amount > 0 && has_trip_id(old(self)@.trips, trip_id@) ==> (r matches Ok(x) && x@ == (
            ExpenseModel {
                id: id@,
                amount: amount as int,
                category: category@,
                description: description@,
                date: date@,
            }) && final(self)@.trips == ({
                let j = find_trip(old(self)@.trips, trip_id@);
                let t = old(self)@.trips[j];
                old(self)@.trips.update(
                    j,
                    TripModel {
                        expenses: t.expenses.push(x@),
                        total_spent: t.total_spent + amount,
                        ..t
                    },
                )
            }) && final(self)@.entries == old(self)@.entries && final(self)@.selected_currency
                == old(self)@.selected_currency),
    {
        if amount == 0 {
            return Err(LedgerError::AmountNotPositive);
        }
        let ghost s = self@.trips;
        let n = self.trips.len();
        let mut j: usize = 0;
        loop
            invariant
                j <= n,
                n == self.trips.len(),
                s == self@.trips,
                self@ == old(self)@,
                forall|k: int| 0 <= k < j ==> (#[trigger] s[k]).id != trip_id@,
            ensures
                self@ == old(self)@,
                j == n ==> !has_trip_id(s, trip_id@),
                j < n ==> s[j as int].id == trip_id@ && forall|k: int|
                    0 <= k < j ==> (#[trigger] s[k]).id != trip_id@,
            decreases n - j,
        {
            if j >= n {
                break;
            }
            if self.trips[j].id == trip_id {
                break;
            }
            j = j + 1;
        }
        if j == n {
            return Err(LedgerError::TripNotFound);
        }
        proof {
            lemma_find_trip(s, trip_id@);
            assert(j as int == find_trip(s, trip_id@));
        }
        let mut t = self.trips.remove(j);
        let len = t.expenses.len();
        proof {
            assert(t@ == s[j as int]);
            lemma_sum_expenses_bound(t@.expenses);
            vstd::arithmetic::mul::lemma_mul_inequality(
                len as int,
                usize::MAX as int,
                MAX_AMOUNT as int,
            );
        }
        let expense = TripExpense { id, amount, category, description, date };
        let copy = expense.duplicate();
        let ghost old_expenses = t@.expenses;
        t.expenses.push(expense);
        t.total_spent = t.total_spent + (amount as u128);
        proof {
            assert(t@.expenses =~= old_expenses.push(copy@));
            lemma_sum_expenses_push(old_expenses, copy@);
        }
        self.trips.insert(j, t);
        proof {
            assert(self@.trips =~= s.update(j as int, t@));
            assert(self@.entries =~= old(self)@.entries);
            assert(valid_trip(t@));
        }
        Ok(copy)
    }

    /// Appends an expense to a trip under a fresh random identifier.
    pub fn add_trip_expense(
        &mut self,
        trip_id: String,
        amount: u64,
        category: String,
        description: String,
        date: String,
    ) -> (r: Result<TripExpense, LedgerError>)
        requires
            old(self)@.wf(),
            amount <= MAX_AMOUNT,
        ensures
            final(self)@.wf(),
            amount == 0 ==> (r matches Err(e) && e == LedgerError::AmountNotPositive && final(self)@ == old(self)@),
            amount > 0 && !has_trip_id(old(self)@.trips, trip_id@) ==> (r matches Err(e) && e
                == LedgerError::TripNotFound && final(self)@ == old(self)@),
            amount > 0 && has_trip_id(old(self)@.trips, trip_id@) ==> (r matches Ok(x) && x@ == (
            ExpenseModel {
                id: x@.id,
                amount: amount as int,
                category: category@,
                description: description@,
                date: date@,
            }) && final(self)@.trips == ({
                let j = find_trip(old(self)@.trips, trip_id@);
                let t = old(self)@.trips[j];
                old(self)@.trips.update(
                    j,
                    TripModel {
                        expenses: t.expenses.push(x@),
                        total_spent: t.total_spent + amount,
                        ..t
                    },
                )
            }) && final(self)@.entries == old(self)@.entries && final(self)@.selected_currency
                == old(self)@.selected_currency),
    {
        let id = new_id();
        self.add_trip_expense_with_id(id, trip_id, amount, category, description, date)
    }

    /// Deletes the first expense carrying `expense_id` from the first
    /// trip carrying `trip_id`, and lowers the trip's running total by
    /// exactly the deleted amount.
    pub fn delete_trip_expense(&mut self, trip_id: String, expense_id: String) -> (r: Result<
        (),
        LedgerError,
    >)
        requires
            old(self)@.wf(),
        ensures
            final(self)@.wf(),
            !has_trip_id(old(self)@.trips, trip_id@) ==> (r matches Err(e) && e
                == LedgerError::TripNotFound && final(self)@ == old(self)@),
            has_trip_id(old(self)@.trips, trip_id@) && find_expense(
                old(self)@.trips[find_trip(old(self)@.trips, trip_id@)].expenses,
                expense_id@,
            ) == -1 ==> (r matches Err(e) && e == LedgerError::ExpenseNotFound && final(self)@
                == old(self)@),
            has_trip_id(old(self)@.trips, trip_id@) && find_expense(
                old(self)@.trips[find_trip(old(self)@.trips, trip_id@)].expenses,
                expense_id@,
            ) != -1 ==> (r matches Ok(u) && final(self)@.trips == ({
                let j = find_trip(old(self)@.trips, trip_id@);
                let t = old(self)@.trips[j];
                let k = find_expense(t.expenses, expense_id@);
                old(self)@.trips.update(
                    j,
                    TripModel {
                        expenses: t.expenses.remove(k),
                        total_spent: t.total_spent - t.expenses[k].amount,
                        ..t
                    },
                )
            }) && final(self)@.entries == old(self)@.entries && final(self)@.selected_currency
                == old(self)@.selected_currency),
    {
        let ghost s = self@.trips;
        let n = self.trips.len();
        let mut j: usize = 0;
        loop
            invariant
                j <= n,
                n == self.trips.len(),
                s == self@.trips,
                self@ == old(self)@,
                forall|k: int| 0 <= k < j ==> (#[trigger] s[k]).id != trip_id@,
            ensures
                self@ == old(self)@,
                j == n ==> !has_trip_id(s, trip_id@),
                j < n ==> s[j as int].id == trip_id@ && forall|k: int|
                    0 <= k < j ==> (#[trigger] s[k]).id != trip_id@,
            decreases n - j,
        {
            if j >= n {
                break;
            }
            if self.trips[j].id == trip_id {
                break;
            }
            j = j + 1;
        }
        if j == n {
            return Err(LedgerError::TripNotFound);
        }
        proof {
            lemma_find_trip(s, trip_id@);
            assert(j as int == find_trip(s, trip_id@));
        }
        let ghost es = s[j as int].expenses;
        let m = self.trips[j].expenses.len();
        let mut k: usize = 0;
        loop
            invariant
                k <= m,
                j < n,
                n == self.trips.len(),
                m == self.trips[j as int].expenses.len(),
                s == self@.trips,
                self@ == old(self)@,
                es == s[j as int].expenses,
                forall|q: int| 0 <= q < k ==> (#[trigger] es[q]).id != expense_id@,
            ensures
                self@ == old(self)@,
                k == m ==> forall|q: int| 0 <= q < m ==> (#[trigger] es[q]).id != expense_id@,
                k < m ==> es[k as int].id == expense_id@ && forall|q: int|
                    0 <= q < k ==> (#[trigger] es[q]).id != expense_id@,
            decreases m - k,
        {
            if k >= m {
                break;
            }
            if self.trips[j].expenses[k].id == expense_id {
                break;
            }
            k = k + 1;
        }
        proof {
            lemma_find_expense(es, expense_id@);
        }
        if k == m {
            return Err(LedgerError::ExpenseNotFound);
        }
        proof {
            assert(k as int == find_expense(es, expense_id@));
        }
        let mut t = self.trips.remove(j);
        proof {
            assert(t@ == s[j as int]);
        }
        let removed = t.expenses.remove(k);
        proof {
            assert(t@.expenses =~= es.remove(k as int));
            lemma_sum_expenses_remove(es, k as int);
            lemma_sum_expenses_bound(es.remove(k as int));
        }
        t.total_spent = t.total_spent - (removed.amount as u128);
        self.trips.insert(j, t);
        proof {
            assert(self@.trips =~= s.update(j as int, t@));
            assert(self@.entries =~= old(self)@.entries);
            assert(valid_trip(t@));
        }
        Ok(())
    }

    /// Checks every stored record against the ledger's caps and the
    /// trips' running-total invariant.
    pub fn is_well_formed(&self) -> (r: bool)
        ensures
            r == self@.wf(),
    {
        let n = self.entries.len();
        let mut i: usize = 0;
        while i < n
            invariant
                i <= n,
                n == self.entries.len(),
                forall|k: int| 0 <= k < i ==> valid_entry(#[trigger] self@.entries[k]),
            decreases n - i,
        {
            if self.entries[i].amount == 0 || self.entries[i].amount > MAX_AMOUNT {
                proof {
                    assert(!valid_entry(self@.entries[i as int]));
                }
                return false;
            }
            i = i + 1;
        }
        let tn = self.trips.len();
        let mut ti: usize = 0;
        while ti < tn
            invariant
                ti <= tn,
                tn == self.trips.len(),
                n == self.entries.len(),
                forall|k: int| 0 <= k < n ==> valid_entry(#[trigger] self@.entries[k]),
                forall|k: int| 0 <= k < ti ==> valid_trip(#[trigger] self@.trips[k]),
            decreases tn - ti,
        {
            if self.trips[ti].budget == 0 || self.trips[ti].budget > MAX_AMOUNT {
                proof {
                    assert(!valid_trip(self@.trips[ti as int]));
                }
                return false;
            }
            let ghost es = self@.trips[ti as int].expenses;
            let m = self.trips[ti].expenses.len();
            let mut k: usize = 0;
            let mut total: u128 = 0;
            while k < m
                invariant
                    k <= m,
                    ti < tn,
                    tn == self.trips.len(),
                    m == self.trips[ti as int].expenses.len(),
                    es == self@.trips[ti as int].expenses,
                    forall|q: int| 0 <= q < k ==> valid_expense(#[trigger] es[q]),
                    total == sum_expenses(es.take(k as int)),
                decreases m - k,
            {
                let amt = self.trips[ti].expenses[k].amount;
                if amt == 0 || amt > MAX_AMOUNT {
                    proof {
                        assert(!valid_expense(es[k as int]));
                        assert(!valid_trip(self@.trips[ti as int]));
                    }
                    return false;
                }
                proof {
                    assert(es.take(k + 1).drop_last() =~= es.take(k as int));
                    assert(es.take(k + 1).last() == es[k as int]);
                    lemma_sum_expenses_bound(es.take(k as int));
                    vstd::arithmetic::mul::lemma_mul_inequality(
                        es.take(k as int).len() as int,
                        usize::MAX as int,
                        MAX_AMOUNT as int,
                    );
                }
                total = total + (amt as u128);
                k = k + 1;
            }
            proof {
                assert(es.take(m as int) =~= es);
            }
            if !(total == self.trips[ti].total_spent) {
                proof {
                    assert(!valid_trip(self@.trips[ti as int]));
                }
                return false;
            }
            ti = ti + 1;
        }
        true
    }

    /// Builds the ledger state a snapshot describes; a snapshot written
    /// before trips existed has no trips field, and yields an empty
    /// trip list.
    pub fn from_snapshot(
        selected_currency: Currency,
        entries: Vec<BudgetEntry>,
        trips: Option<Vec<Trip>>,
    ) -> (r: AppData)
        ensures
            r@.selected_currency == selected_currency,
            r@.entries == entries@.map_values(|e: BudgetEntry| e@),
            trips matches Some(t) ==> r@.trips == t@.map_values(|t: Trip| t@),
            trips is None ==> r@.trips == Seq::<TripModel>::empty(),
    {
        let r = match trips {
            Some(t) => AppData { selected_currency, entries, trips: t },
            None => AppData { selected_currency, entries, trips: Vec::new() },
        };
        proof {
            assert(r@.trips =~= if old_trips_present(trips) {
                spec_trips_of(trips)
            } else {
                Seq::<TripModel>::empty()
            });
        }
        r
    }

    /// Replaces the whole state from the collaborator's snapshot.  A
    /// missing or malformed payload, or one whose numbers break the
    /// ledger's caps, falls back silently to the default empty state:
    /// the lenient-recovery policy, not an error.
    pub fn load_from(&mut self, data: Option<AppData>)
        ensures
            final(self)@.wf(),
            snapshot_accepted(data) ==> (data matches Some(d) && final(self)@ == d@),
            !snapshot_accepted(data) ==> final(self)@ == default_ledger(),
    {
        match data {
            Some(d) => {
                if d.is_well_formed() {
                    *self = d;
                } else {
                    *self = AppData::default();
                }
            },
            None => {
                *self = AppData::default();
            },
        }
    }
}

/// Whether the snapshot carries a trips field.
pub open spec fn old_trips_present(trips: Option<Vec<Trip>>) -> bool {
    trips is Some
}

/// The trip models of a present trips field.
pub open spec fn spec_trips_of(trips: Option<Vec<Trip>>) -> Seq<TripModel> {
    trips->Some_0@.map_values(|t: Trip| t@)
}

/// Whether a parsed snapshot is taken as it stands: present and inside
/// every cap the ledger enforces.
pub open spec fn snapshot_accepted(data: Option<AppData>) -> bool {
    match data {
        Some(d) => d@.wf(),
        None => false,
    }
}

} // verus!
