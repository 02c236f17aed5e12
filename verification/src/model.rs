//! The record store's data: entries, trips, trip expenses, the
//! process-wide ledger state, and the error taxonomy.
//!
//! Each executable type has a ghost model over sequences and unbounded
//! integers; every contract in the crate speaks of those models.

use vstd::prelude::*;
use vstd::string::StringExecFns;

use crate::currency::Currency;
use crate::currency::MAX_AMOUNT;

verus! {

/// Whether an entry records income or an expense.
#[derive(Clone, Copy, PartialEq, Eq, Structural, Debug)]
pub enum EntryKind {
    Income,
    Expense,
}

impl EntryKind {
    /// The code under which the kind is written and parsed.
    pub open spec fn spec_code(self) -> Seq<char> {
        match self {
            EntryKind::Income => "income"@,
            EntryKind::Expense => "expense"@,
        }
    }

    /// Which kind, if any, a character sequence denotes.
    pub open spec fn spec_from_code(s: Seq<char>) -> Option<EntryKind> {
        if s == "income"@ {
            Some(EntryKind::Income)
        } else if s == "expense"@ {
            Some(EntryKind::Expense)
        } else {
            None
        }
    }

    /// Returns the code of the kind as a fresh string.
    pub fn code(&self) -> (r: String)
        ensures
            r@ == self.spec_code(),
    {
        match self {
            EntryKind::Income => String::from_str("income"),
            EntryKind::Expense => String::from_str("expense"),
        }
    }

    /// Parses an entry kind; only the two codes are accepted.
    pub fn from_code(s: &String) -> (r: Option<EntryKind>)
        ensures
            r == EntryKind::spec_from_code(s@),
    {
        let income = String::from_str("income");
        let expense = String::from_str("expense");
        if *s == income {
            Some(EntryKind::Income)
        } else if *s == expense {
            Some(EntryKind::Expense)
        } else {
            None
        }
    }
}

/// A single income or expense transaction.  The amount is in minor
/// units of `currency`; the date is kept as entered, parsed only when
/// an aggregation filters by it.
#[derive(Debug, PartialEq)]
pub struct BudgetEntry {
    pub id: String,
    pub entry_type: EntryKind,
    pub amount: u64,
    pub currency: Currency,
    pub category: String,
    pub date: String,
    pub description: String,
}

/// The mathematical shadow of a `BudgetEntry`.
#[verifier::ext_equal]
pub ghost struct EntryModel {
    pub id: Seq<char>,
    pub entry_type: EntryKind,
    pub amount: int,
    pub currency: Currency,
    pub category: Seq<char>,
    pub date: Seq<char>,
    pub description: Seq<char>,
}

impl View for BudgetEntry {
    type V = EntryModel;

    open spec fn view(&self) -> EntryModel {
        EntryModel {
            id: self.id@,
            entry_type: self.entry_type,
            amount: self.amount as int,
            currency: self.currency,
            category: self.category@,
            date: self.date@,
            description: self.description@,
        }
    }
}

impl BudgetEntry {
    /// Returns a copy of the entry, equal at the model.
    pub fn duplicate(&self) -> (r: BudgetEntry)
        ensures
            r@ == self@,
    {
        BudgetEntry {
            id: self.id.clone(),
            entry_type: self.entry_type,
            amount: self.amount,
            currency: self.currency,
            category: self.category.clone(),
            date: self.date.clone(),
            description: self.description.clone(),
        }
    }
}

/// An entry the ledger accepts: a positive amount under the fixed cap.
pub open spec fn valid_entry(e: EntryModel) -> bool {
    0 < e.amount <= MAX_AMOUNT
}

/// One spend item inside a trip, always denominated in the parent
/// trip's stored currency.
#[derive(Debug, PartialEq)]
pub struct TripExpense {
    pub id: String,
    pub amount: u64,
    pub category: String,
    pub description: String,
    pub date: String,
}

/// The mathematical shadow of a `TripExpense`.
#[verifier::ext_equal]
pub ghost struct ExpenseModel {
    pub id: Seq<char>,
    pub amount: int,
    pub category: Seq<char>,
    pub description: Seq<char>,
    pub date: Seq<char>,
}

impl View for TripExpense {
    type V = ExpenseModel;

    open spec fn view(&self) -> ExpenseModel {
        ExpenseModel {
            id: self.id@,
            amount: self.amount as int,
            category: self.category@,
            description: self.description@,
            date: self.date@,
        }
    }
}

impl TripExpense {
    /// Returns a copy of the expense, equal at the model.
    pub fn duplicate(&self) -> (r: TripExpense)
        ensures
            r@ == self@,
    {
        TripExpense {
            id: self.id.clone(),
            amount: self.amount,
            category: self.category.clone(),
            description: self.description.clone(),
            date: self.date.clone(),
        }
    }
}

/// An expense the ledger accepts.
pub open spec fn valid_expense(e: ExpenseModel) -> bool {
    0 < e.amount <= MAX_AMOUNT
}

/// The sum of the amounts of a sequence of trip expenses.
pub open spec fn sum_expenses(s: Seq<ExpenseModel>) -> int
    decreases s.len(),
{
    if s.len() == 0 {
        0
    } else {
        sum_expenses(s.drop_last()) + s.last().amount
    }
}

/// A budget envelope for a travel period.  `total_spent` is a running
/// cache that always equals the sum of the expense amounts, in the
/// trip's own currency; it is wide enough that no sequence of accepted
/// expenses can overflow it.
#[derive(Debug, PartialEq)]
pub struct Trip {
    pub id: String,
    pub name: String,
    pub destination: String,
    pub budget: u64,
    pub currency: Currency,
    pub start_date: String,
    pub end_date: String,
    pub expenses: Vec<TripExpense>,
    pub total_spent: u128,
}

/// The mathematical shadow of a `Trip`.
#[verifier::ext_equal]
pub ghost struct TripModel {
    pub id: Seq<char>,
    pub name: Seq<char>,
    pub destination: Seq<char>,
    pub budget: int,
    pub currency: Currency,
    pub start_date: Seq<char>,
    pub end_date: Seq<char>,
    pub expenses: Seq<ExpenseModel>,
    pub total_spent: int,
}

impl View for Trip {
    type V = TripModel;

    open spec fn view(&self) -> TripModel {
        TripModel {
            id: self.id@,
            name: self.name@,
            destination: self.destination@,
            budget: self.budget as int,
            currency: self.currency,
            start_date: self.start_date@,
            end_date: self.end_date@,
            expenses: self.expenses@.map_values(|e: TripExpense| e@),
            total_spent: self.total_spent as int,
        }
    }
}

impl Trip {
    /// Returns a copy of the trip, equal at the model.
    pub fn duplicate(&self) -> (r: Trip)
        ensures
            r@ == self@,
    {
        let mut expenses: Vec<TripExpense> = Vec::new();
        let n = self.expenses.len();
        let mut i: usize = 0;
        while i < n
            invariant
                i <= n,
                n == self.expenses.len(),
                expenses@.len() == i as int,
                forall|j: int| 0 <= j < i ==> expenses@[j]@ == #[trigger] self.expenses@[j]@,
            decreases n - i,
        {
            expenses.push(self.expenses[i].duplicate());
            i = i + 1;
        }
        let r = Trip {
            id: self.id.clone(),
            name: self.name.clone(),
            destination: self.destination.clone(),
            budget: self.budget,
            currency: self.currency,
            start_date: self.start_date.clone(),
            end_date: self.end_date.clone(),
            expenses,
            total_spent: self.total_spent,
        };
        proof {
            assert(r@.expenses =~= self@.expenses);
            assert(r@ =~= self@);
        }
        r
    }
}

/// A trip the ledger accepts: a positive budget under the cap, accepted
/// expenses, and a spent total that equals their sum.
pub open spec fn valid_trip(t: TripModel) -> bool {
    &&& 0 < t.budget <= MAX_AMOUNT
    &&& forall|i: int| 0 <= i < t.expenses.len() ==> valid_expense(#[trigger] t.expenses[i])
    &&& t.total_spent == sum_expenses(t.expenses)
}

/// The process-wide ledger state: the selected display currency and
/// the full collections of entries and trips.
pub struct AppData {
    pub selected_currency: Currency,
    pub entries: Vec<BudgetEntry>,
    pub trips: Vec<Trip>,
}

/// The mathematical shadow of the whole ledger.
#[verifier::ext_equal]
pub ghost struct LedgerModel {
    pub selected_currency: Currency,
    pub entries: Seq<EntryModel>,
    pub trips: Seq<TripModel>,
}

impl View for AppData {
    type V = LedgerModel;

    open spec fn view(&self) -> LedgerModel {
        LedgerModel {
            selected_currency: self.selected_currency,
            entries: self.entries@.map_values(|e: BudgetEntry| e@),
            trips: self.trips@.map_values(|t: Trip| t@),
        }
    }
}

impl LedgerModel {
    /// Every record the store holds is one the ledger accepts.
    pub open spec fn wf(self) -> bool {
        &&& forall|i: int| 0 <= i < self.entries.len() ==> valid_entry(#[trigger] self.entries[i])
        &&& forall|i: int| 0 <= i < self.trips.len() ==> valid_trip(#[trigger] self.trips[i])
    }
}

/// The empty ledger every process starts from: no records, display
/// currency NOK.
pub open spec fn default_ledger() -> LedgerModel {
    LedgerModel {
        selected_currency: Currency::Nok,
        entries: Seq::empty(),
        trips: Seq::empty(),
    }
}

impl Default for AppData {
    /// The default ledger state.
    fn default() -> (r: Self)
        ensures
            r@ == default_ledger(),
            r@.wf(),
    {
        let r = AppData { selected_currency: Currency::Nok, entries: Vec::new(), trips: Vec::new() };
        proof {
            assert(r@ =~= default_ledger());
        }
        r
    }
}

/// What can go wrong with a ledger operation: rejected input, a missing
/// record, or a failed write by the persistence collaborator (the last
/// is raised only at the persistence boundary, never by the store).
#[derive(Clone, Copy, PartialEq, Eq, Structural, Debug)]
pub enum LedgerError {
    AmountNotPositive,
    InvalidKind,
    InvalidCurrency,
    BudgetNotPositive,
    EntryNotFound,
    TripNotFound,
    ExpenseNotFound,
    Io,
}

impl LedgerError {
    /// The human-readable message of the error.
    pub open spec fn spec_message(self) -> Seq<char> {
        match self {
            LedgerError::AmountNotPositive => "Amount must be positive"@,
            LedgerError::InvalidKind => "Type must be 'income' or 'expense'"@,
            LedgerError::InvalidCurrency => "Currency must be 'NOK' or 'EUR'"@,
            LedgerError::BudgetNotPositive => "Budget must be positive"@,
            LedgerError::EntryNotFound => "Entry not found"@,
            LedgerError::TripNotFound => "Trip not found"@,
            LedgerError::ExpenseNotFound => "Expense not found"@,
            LedgerError::Io => "Failed to write data"@,
        }
    }

    /// Renders the error as its message.
    pub fn message(&self) -> (r: String)
        ensures
            r@ == self.spec_message(),
    {
        match self {
            LedgerError::AmountNotPositive => String::from_str("Amount must be positive"),
            LedgerError::InvalidKind => String::from_str("Type must be 'income' or 'expense'"),
            LedgerError::InvalidCurrency => String::from_str("Currency must be 'NOK' or 'EUR'"),
            LedgerError::BudgetNotPositive => String::from_str("Budget must be positive"),
            LedgerError::EntryNotFound => String::from_str("Entry not found"),
            LedgerError::TripNotFound => String::from_str("Trip not found"),
            LedgerError::ExpenseNotFound => String::from_str("Expense not found"),
            LedgerError::Io => String::from_str("Failed to write data"),
        }
    }
}

} // verus!
