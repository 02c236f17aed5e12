use budsjetto::currency::Currency;
use budsjetto::model::AppData;
use budsjetto::model::BudgetEntry;
use budsjetto::model::EntryKind;
use budsjetto::model::LedgerError;

fn add_expense(data: &mut AppData, amount: u64, category: &str, date: &str) -> BudgetEntry {
    data.add_entry(
        "expense".to_string(),
        amount,
        category.to_string(),
        date.to_string(),
        String::new(),
    )
    .expect("a valid expense is accepted")
}

#[test]
fn add_entry_uses_selected_currency_and_validates() {
    let mut data = AppData::default();
    let e = add_expense(&mut data, 100, "Food", "2024-03-15");
    assert_eq!(e.currency, Currency::Nok);
    assert_eq!(e.entry_type, EntryKind::Expense);
    assert_eq!(e.amount, 100);
    assert_eq!(data.entries.len(), 1);
    assert_eq!(data.entries[0].amount, 100);

    let bad_amount = data.add_entry(
        "expense".to_string(),
        0,
        "Food".to_string(),
        "2024-03-15".to_string(),
        String::new(),
    );
    assert_eq!(bad_amount, Err(LedgerError::AmountNotPositive));
    assert_eq!(
        LedgerError::AmountNotPositive.message(),
        "Amount must be positive"
    );

    let bad_kind = data.add_entry(
        "transfer".to_string(),
        10,
        "Food".to_string(),
        "2024-03-15".to_string(),
        String::new(),
    );
    assert_eq!(bad_kind, Err(LedgerError::InvalidKind));
    assert_eq!(
        LedgerError::InvalidKind.message(),
        "Type must be 'income' or 'expense'"
    );
    assert_eq!(data.entries.len(), 1);
}

#[test]
fn fresh_identifiers_differ() {
    let mut data = AppData::default();
    let a = add_expense(&mut data, 10, "Food", "2024-03-15");
    let b = add_expense(&mut data, 20, "Food", "2024-03-15");
    assert_eq!(a.id.len(), 36);
    assert_ne!(a.id, b.id);
}

#[test]
fn add_then_delete_restores_prior_entries() {
    let mut data = AppData::default();
    let first = add_expense(&mut data, 10, "Food", "2024-03-15");
    let second = add_expense(&mut data, 20, "Rent", "2024-03-16");
    let third = add_expense(&mut data, 30, "Food", "2024-03-17");
    assert_eq!(data.entries.len(), 3);

    assert_eq!(data.delete_entry(third.id), Ok(()));
    assert_eq!(data.entries.len(), 2);
    assert_eq!(data.entries[0].id, first.id);
    assert_eq!(data.entries[1].id, second.id);
    assert_eq!(data.entries[0].amount, 10);
    assert_eq!(data.entries[1].amount, 20);
}

#[test]
fn delete_entry_with_unknown_identifier_reports_not_found() {
    let mut data = AppData::default();
    add_expense(&mut data, 10, "Food", "2024-03-15");
    let r = data.delete_entry("no-such-identifier".to_string());
    assert_eq!(r, Err(LedgerError::EntryNotFound));
    assert_eq!(LedgerError::EntryNotFound.message(), "Entry not found");
    assert_eq!(data.entries.len(), 1);
}

#[test]
fn set_currency_accepts_only_supported_codes() {
    let mut data = AppData::default();
    assert_eq!(data.get_currency(), Currency::Nok);
    assert_eq!(data.set_currency("EUR".to_string()), Ok(()));
    assert_eq!(data.get_currency(), Currency::Eur);
    assert_eq!(
        data.set_currency("USD".to_string()),
        Err(LedgerError::InvalidCurrency)
    );
    assert_eq!(
        LedgerError::InvalidCurrency.message(),
        "Currency must be 'NOK' or 'EUR'"
    );
    assert_eq!(data.get_currency(), Currency::Eur);
}

#[test]
fn listing_projects_entries_without_mutating_them() {
    let mut data = AppData::default();
    add_expense(&mut data, 100, "Food", "2024-03-15");
    assert_eq!(data.set_currency("EUR".to_string()), Ok(()));

    let listed = data.get_all_entries();
    assert_eq!(listed.len(), 1);
    assert_eq!(listed[0].currency, Currency::Eur);
    assert_eq!(listed[0].amount, 100 * 10 / 117);

    assert_eq!(data.entries[0].currency, Currency::Nok);
    assert_eq!(data.entries[0].amount, 100);
}

#[test]
fn create_trip_rejects_a_zero_budget() {
    let mut data = AppData::default();
    let r = data.create_trip(
        "Oslo".to_string(),
        "Norway".to_string(),
        0,
        "2024-06-01".to_string(),
        "2024-06-10".to_string(),
    );
    assert_eq!(r, Err(LedgerError::BudgetNotPositive));
    assert_eq!(LedgerError::BudgetNotPositive.message(), "Budget must be positive");
    assert_eq!(data.trips.len(), 0);
}

#[test]
fn trip_total_tracks_expense_adds_and_deletes() {
    let mut data = AppData::default();
    let trip = data
        .create_trip(
            "Oslo".to_string(),
            "Norway".to_string(),
            5000,
            "2024-06-01".to_string(),
            "2024-06-10".to_string(),
        )
        .expect("a positive budget is accepted");
    assert_eq!(trip.total_spent, 0);
    assert_eq!(trip.currency, Currency::Nok);

    let first = data
        .add_trip_expense(
            trip.id.clone(),
            100,
            "Food".to_string(),
            String::new(),
            "2024-06-02".to_string(),
        )
        .expect("a positive amount is accepted");
    let second = data
        .add_trip_expense(
            trip.id.clone(),
            50,
            "Museum".to_string(),
            String::new(),
            "2024-06-03".to_string(),
        )
        .expect("a positive amount is accepted");
    assert_eq!(data.trips[0].total_spent, 150);
    assert_eq!(data.trips[0].expenses.len(), 2);

    assert_eq!(
        data.delete_trip_expense(trip.id.clone(), first.id),
        Ok(())
    );
    assert_eq!(data.trips[0].total_spent, 50);

    assert_eq!(
        data.delete_trip_expense(trip.id.clone(), second.id),
        Ok(())
    );
    assert_eq!(data.trips[0].total_spent, 0);
    assert_eq!(data.trips[0].expenses.len(), 0);
}

#[test]
fn trip_expense_errors_leave_the_store_unchanged() {
    let mut data = AppData::default();
    let trip = data
        .create_trip(
            "Oslo".to_string(),
            "Norway".to_string(),
            5000,
            "2024-06-01".to_string(),
            "2024-06-10".to_string(),
        )
        .unwrap();

    let r = data.add_trip_expense(
        "missing".to_string(),
        10,
        "Food".to_string(),
        String::new(),
        "2024-06-02".to_string(),
    );
    assert_eq!(r, Err(LedgerError::TripNotFound));
    assert_eq!(LedgerError::TripNotFound.message(), "Trip not found");

    let r = data.add_trip_expense(
        trip.id.clone(),
        0,
        "Food".to_string(),
        String::new(),
        "2024-06-02".to_string(),
    );
    assert_eq!(r, Err(LedgerError::AmountNotPositive));

    let r = data.delete_trip_expense(trip.id.clone(), "missing".to_string());
    assert_eq!(r, Err(LedgerError::ExpenseNotFound));
    assert_eq!(LedgerError::ExpenseNotFound.message(), "Expense not found");

    let r = data.delete_trip("missing".to_string());
    assert_eq!(r, Err(LedgerError::TripNotFound));
    assert_eq!(data.trips.len(), 1);
    assert_eq!(data.trips[0].total_spent, 0);

    assert_eq!(data.delete_trip(trip.id), Ok(()));
    assert_eq!(data.trips.len(), 0);
}

#[test]
fn trips_are_projected_into_the_display_currency() {
    let mut data = AppData::default();
    let trip = data
        .create_trip(
            "Oslo".to_string(),
            "Norway".to_string(),
            1170,
            "2024-06-01".to_string(),
            "2024-06-10".to_string(),
        )
        .unwrap();
    data.add_trip_expense(
        trip.id.clone(),
        234,
        "Food".to_string(),
        String::new(),
        "2024-06-02".to_string(),
    )
    .unwrap();

    assert_eq!(data.set_currency("EUR".to_string()), Ok(()));
    let trips = data.get_trips();
    assert_eq!(trips.len(), 1);
    assert_eq!(trips[0].currency, Currency::Eur);
    assert_eq!(trips[0].budget, 100);
    assert_eq!(trips[0].total_spent, 20);
    assert_eq!(trips[0].expenses[0].amount, 20);

    assert_eq!(data.trips[0].currency, Currency::Nok);
    assert_eq!(data.trips[0].budget, 1170);
    assert_eq!(data.trips[0].total_spent, 234);
}

#[test]
fn snapshot_without_trips_field_yields_no_trips() {
    let entries = vec![BudgetEntry {
        id: "e1".to_string(),
        entry_type: EntryKind::Income,
        amount: 500,
        currency: Currency::Nok,
        category: "Salary".to_string(),
        date: "2024-03-01".to_string(),
        description: String::new(),
    }];
    let data = AppData::from_snapshot(Currency::Nok, entries, None);
    assert_eq!(data.trips.len(), 0);
    assert_eq!(data.entries.len(), 1);
}

#[test]
fn load_falls_back_to_the_default_state() {
    let mut data = AppData::default();
    add_expense(&mut data, 10, "Food", "2024-03-15");

    // A missing payload loads the default empty state.
    data.load_from(None);
    assert_eq!(data.entries.len(), 0);
    assert_eq!(data.trips.len(), 0);
    assert_eq!(data.get_currency(), Currency::Nok);

    // A payload with an impossible amount is malformed, and is also
    // silently replaced by the default.
    let broken = AppData::from_snapshot(
        Currency::Eur,
        vec![BudgetEntry {
            id: "e1".to_string(),
            entry_type: EntryKind::Income,
            amount: 0,
            currency: Currency::Nok,
            category: "Salary".to_string(),
            date: "2024-03-01".to_string(),
            description: String::new(),
        }],
        None,
    );
    data.load_from(Some(broken));
    assert_eq!(data.entries.len(), 0);
    assert_eq!(data.get_currency(), Currency::Nok);

    // A sound payload replaces the whole state.
    let good = AppData::from_snapshot(
        Currency::Eur,
        vec![BudgetEntry {
            id: "e1".to_string(),
            entry_type: EntryKind::Income,
            amount: 500,
            currency: Currency::Nok,
            category: "Salary".to_string(),
            date: "2024-03-01".to_string(),
            description: String::new(),
        }],
        None,
    );
    data.load_from(Some(good));
    assert_eq!(data.entries.len(), 1);
    assert_eq!(data.get_currency(), Currency::Eur);
    assert_eq!(data.entries[0].amount, 500);
}

#[test]
fn delete_entry_removes_every_match() {
    let mut data = AppData::default();
    data.add_entry_with_id(
        "dup".to_string(),
        "expense".to_string(),
        10,
        "Food".to_string(),
        "2024-03-15".to_string(),
        String::new(),
    )
    .unwrap();
    data.add_entry_with_id(
        "keep".to_string(),
        "expense".to_string(),
        20,
        "Food".to_string(),
        "2024-03-15".to_string(),
        String::new(),
    )
    .unwrap();
    data.add_entry_with_id(
        "dup".to_string(),
        "expense".to_string(),
        30,
        "Food".to_string(),
        "2024-03-15".to_string(),
        String::new(),
    )
    .unwrap();

    assert_eq!(data.delete_entry("dup".to_string()), Ok(()));
    assert_eq!(data.entries.len(), 1);
    assert_eq!(data.entries[0].id, "keep");
}
