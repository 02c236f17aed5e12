use budsjetto::currency::Currency;
use budsjetto::dates::parse_date;
use budsjetto::dates::Date;
use budsjetto::model::AppData;

fn add(data: &mut AppData, kind: &str, amount: u64, category: &str, date: &str) {
    data.add_entry(
        kind.to_string(),
        amount,
        category.to_string(),
        date.to_string(),
        String::new(),
    )
    .expect("a valid entry is accepted");
}

#[test]
fn monthly_summary_totals_one_month() {
    let mut data = AppData::default();
    add(&mut data, "income", 500, "Salary", "2024-03-01");
    add(&mut data, "expense", 200, "Food", "2024-03-15");
    add(&mut data, "expense", 999, "Food", "2024-04-15");

    let s = data.get_monthly_summary(3, 2024);
    assert_eq!(s.total_income, 500);
    assert_eq!(s.total_expenses, 200);
    assert_eq!(s.net_balance, 300);
    assert_eq!(s.currency, Currency::Nok);
}

#[test]
fn monthly_summary_silently_excludes_unparsable_dates() {
    let mut data = AppData::default();
    add(&mut data, "income", 500, "Salary", "2024-03-01");
    add(&mut data, "income", 70, "Salary", "March 3rd 2024");
    add(&mut data, "income", 80, "Salary", "2024-3-03");
    add(&mut data, "expense", 90, "Food", "2024-02-30");

    let s = data.get_monthly_summary(3, 2024);
    assert_eq!(s.total_income, 500);
    assert_eq!(s.total_expenses, 0);
}

#[test]
fn weekly_summary_uses_iso_weeks() {
    let mut data = AppData::default();
    // 2024-03-15 falls in ISO week 11 of 2024.
    add(&mut data, "expense", 40, "Food", "2024-03-15");
    // 2024-01-01 falls in ISO week 1 of 2024.
    add(&mut data, "income", 10, "Gift", "2024-01-01");

    let s = data.get_weekly_summary(11, 2024);
    assert_eq!(s.total_expenses, 40);
    assert_eq!(s.total_income, 0);
    assert_eq!(s.net_balance, -40);

    let s = data.get_weekly_summary(12, 2024);
    assert_eq!(s.total_expenses, 0);

    let s = data.get_weekly_summary(1, 2024);
    assert_eq!(s.total_income, 10);
}

#[test]
fn weekly_summary_handles_year_boundary() {
    let mut data = AppData::default();
    // 2024-12-30 is a Monday and belongs to ISO week 1 of 2025.
    add(&mut data, "expense", 25, "Food", "2024-12-30");
    let s = data.get_weekly_summary(1, 2025);
    assert_eq!(s.total_expenses, 25);
    let s = data.get_weekly_summary(53, 2024);
    assert_eq!(s.total_expenses, 0);
}

#[test]
fn summaries_convert_into_the_display_currency() {
    let mut data = AppData::default();
    add(&mut data, "expense", 1170, "Food", "2024-03-15");
    data.set_currency("EUR".to_string()).unwrap();
    let s = data.get_monthly_summary(3, 2024);
    assert_eq!(s.total_expenses, 100);
}

#[test]
fn category_analytics_groups_totals_counts_and_shares() {
    let mut data = AppData::default();
    add(&mut data, "expense", 300, "Food", "2024-03-01");
    add(&mut data, "expense", 100, "Transport", "2024-03-02");
    add(&mut data, "expense", 100, "Food", "2024-03-03");

    let a = data.get_category_analytics(None, None);
    assert_eq!(a.total_expenses, 500);
    assert_eq!(a.total_income, 0);
    assert_eq!(a.currency, Currency::Nok);
    assert_eq!(a.income_by_category.len(), 0);
    assert_eq!(a.expense_by_category.len(), 2);

    let food = &a.expense_by_category[0];
    assert_eq!(food.category, "Food");
    assert_eq!(food.total, 400);
    assert_eq!(food.count, 2);
    // Shares are in hundredths of a percent.
    assert_eq!(food.percentage, 8000);

    let transport = &a.expense_by_category[1];
    assert_eq!(transport.category, "Transport");
    assert_eq!(transport.total, 100);
    assert_eq!(transport.count, 1);
    assert_eq!(transport.percentage, 2000);

    assert_eq!(food.percentage + transport.percentage, 10000);
}

#[test]
fn category_shares_sum_close_to_whole_when_rounded() {
    let mut data = AppData::default();
    add(&mut data, "income", 100, "A", "2024-03-01");
    add(&mut data, "income", 100, "B", "2024-03-02");
    add(&mut data, "income", 100, "C", "2024-03-03");

    let a = data.get_category_analytics(None, None);
    assert_eq!(a.total_income, 300);
    let sum: u64 = a.income_by_category.iter().map(|c| c.percentage).sum();
    assert!(sum <= 10000);
    assert!(sum > 10000 - a.income_by_category.len() as u64);
    assert_eq!(a.income_by_category[0].percentage, 3333);
}

#[test]
fn category_analytics_filters_only_with_month_and_year() {
    let mut data = AppData::default();
    add(&mut data, "expense", 10, "Food", "2024-03-01");
    add(&mut data, "expense", 20, "Food", "2024-04-01");
    add(&mut data, "expense", 40, "Food", "not a date");

    // With a month window, entries of other months and entries whose
    // date does not parse are excluded.
    let a = data.get_category_analytics(Some(3), Some(2024));
    assert_eq!(a.total_expenses, 10);

    // With only one of the two given there is no window.
    let a = data.get_category_analytics(Some(3), None);
    assert_eq!(a.total_expenses, 70);

    // Without a window, the entry with the unparsable date counts too.
    let a = data.get_category_analytics(None, None);
    assert_eq!(a.total_expenses, 70);
}

#[test]
fn trends_step_back_thirty_days_at_a_time() {
    let mut data = AppData::default();
    add(&mut data, "income", 500, "Salary", "2024-03-01");
    add(&mut data, "expense", 200, "Food", "2024-03-15");
    add(&mut data, "expense", 30, "Food", "2024-02-10");

    let base = Date { year: 2024, month: 3, day: 15 };
    let trends = data.monthly_trends_from(base, 2);
    assert_eq!(trends.len(), 2);

    // Oldest first: thirty days before 2024-03-15 is 2024-02-14.
    assert_eq!(trends[0].year, 2024);
    assert_eq!(trends[0].month, 2);
    assert_eq!(trends[0].month_name, "Feb");
    assert_eq!(trends[0].income, 0);
    assert_eq!(trends[0].expenses, 30);
    assert_eq!(trends[0].net, -30);

    assert_eq!(trends[1].year, 2024);
    assert_eq!(trends[1].month, 3);
    assert_eq!(trends[1].month_name, "Mar");
    assert_eq!(trends[1].income, 500);
    assert_eq!(trends[1].expenses, 200);
    assert_eq!(trends[1].net, 300);
}

#[test]
fn trends_cross_year_boundaries() {
    let data = AppData::default();
    let base = Date { year: 2024, month: 1, day: 20 };
    let trends = data.monthly_trends_from(base, 2);
    // Thirty days before 2024-01-20 is 2023-12-21.
    assert_eq!(trends[0].year, 2023);
    assert_eq!(trends[0].month, 12);
    assert_eq!(trends[0].month_name, "Dec");
    assert_eq!(trends[1].year, 2024);
    assert_eq!(trends[1].month, 1);
}

#[test]
fn trends_from_today_have_the_asked_length() {
    let data = AppData::default();
    let trends = data.get_monthly_trends(3);
    assert_eq!(trends.len(), 3);
    for t in &trends {
        assert!(1 <= t.month && t.month <= 12);
        assert!(!t.month_name.is_empty());
    }
}

#[test]
fn date_parser_is_strict() {
    assert_eq!(
        parse_date("2024-03-15"),
        Some(Date { year: 2024, month: 3, day: 15 })
    );
    assert_eq!(
        parse_date("2024-02-29"),
        Some(Date { year: 2024, month: 2, day: 29 })
    );
    assert_eq!(parse_date("2023-02-29"), None);
    assert_eq!(parse_date("2100-02-29"), None);
    assert_eq!(
        parse_date("2000-02-29"),
        Some(Date { year: 2000, month: 2, day: 29 })
    );
    assert_eq!(parse_date("2024-04-31"), None);
    assert_eq!(parse_date("2024-00-10"), None);
    assert_eq!(parse_date("2024-13-10"), None);
    assert_eq!(parse_date("2024-03-00"), None);
    assert_eq!(parse_date("2024-3-15"), None);
    assert_eq!(parse_date("24-03-15"), None);
    assert_eq!(parse_date("2024/03/15"), None);
    assert_eq!(parse_date(""), None);
    assert_eq!(parse_date("2024-03-15 "), None);
}
