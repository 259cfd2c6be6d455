use finance_app::models::BasicReport;
use finance_app::models::ReportError;
use finance_app::models::ReportType;
use finance_app::period::date_selector;
use finance_app::period::get_days_from_month;
use finance_app::store::get_basic_report;
use finance_app::store::init_db_in_memory;
use finance_app::store::insert_category;
use finance_app::store::insert_transaction;
use finance_app::get_supported_report_types;

fn entry(list: &[(String, i128)], key: &str) -> Option<i128> {
    list.iter().find(|e| e.0 == key).map(|e| e.1)
}

#[test]
fn date_selector_should_return_year() -> Result<(), ReportError> {
    let date = date_selector("2023-11-01", ReportType::YEAR)?;
    assert_eq!(date, "2023-__-__");
    Ok(())
}

#[test]
fn date_selector_should_return_month() -> Result<(), ReportError> {
    let date = date_selector("2023-11-01", ReportType::MONTH)?;
    assert_eq!(date, "2023-11-__");
    Ok(())
}

#[test]
fn date_selector_should_return_error() -> Result<(), ReportError> {
    let date = date_selector("01-01", ReportType::MONTH);
    assert!(date.is_err());
    Ok(())
}

#[test]
fn should_return_correct_total_and_uncategorized() -> Result<(), ReportError> {
    let mut conn = init_db_in_memory()?;
    insert_transaction(&mut conn, 100, "test", None, "2023-11-01", vec![])?;

    let report = get_basic_report(&conn, ReportType::MONTH, "2023-11-01")?;

    assert_eq!(report.total, 100);
    assert_eq!(report.uncategorized, 100);

    Ok(())
}

#[test]
fn should_return_zero_for_uncategorized() -> Result<(), ReportError> {
    let mut conn = init_db_in_memory()?;
    insert_category(&mut conn, "test")?;
    let category = &finance_app::store::get_categories(&conn)?[0];

    insert_transaction(&mut conn, 100, "test", None, "2023-11-01", vec![category.id])?;

    let report = get_basic_report(&conn, ReportType::MONTH, "2023-11-01")?;

    assert_eq!(report.total, 100);
    assert_eq!(report.uncategorized, 0);

    Ok(())
}

#[test]
fn should_return_correct_total_when_mix_of_income_and_expenses() -> Result<(), ReportError> {
    let mut conn = init_db_in_memory()?;
    insert_category(&mut conn, "test")?;
    let category = finance_app::store::get_categories(&conn)?[0].clone();

    insert_transaction(&mut conn, 100, "test", None, "2023-11-01", vec![category.id])?;

    insert_transaction(&mut conn, -150, "test", None, "2023-11-01", vec![category.id])?;

    let report = get_basic_report(&conn, ReportType::MONTH, "2023-11-01")?;

    assert_eq!(report.total, -50);
    assert_eq!(report.uncategorized, 0); //should be 0 because we have categories

    finance_app::store::delete_category(&mut conn, category.id)?;

    let report = get_basic_report(&conn, ReportType::MONTH, "2023-11-01")?;

    assert_eq!(report.total, -50);
    assert_eq!(report.uncategorized, -50); //should be -50 because we have no categories

    Ok(())
}

#[test]
fn report_should_fill_dates_with_empty_values_for_month() -> Result<(), ReportError> {
    let conn = init_db_in_memory()?;
    let report = get_basic_report(&conn, ReportType::MONTH, "2023-11-01")?;
    assert_eq!(report.dates.len(), 30);
    Ok(())
}

#[test]
fn report_should_fill_dates_with_empty_values_for_year() -> Result<(), ReportError> {
    let conn = init_db_in_memory()?;
    let report = get_basic_report(&conn, ReportType::YEAR, "2023-11-01")?;
    assert_eq!(report.dates.len(), 12);
    Ok(())
}

#[test]
fn report_should_fill_dates_with_empty_values_for_month_content() -> Result<(), ReportError> {
    let conn = init_db_in_memory()?;
    let report = get_basic_report(&conn, ReportType::MONTH, "2023-11-01")?;
    for (_, sum) in report.dates.iter() {
        assert_eq!(*sum, 0);
    }

    let mut dates: Vec<String> = report.dates.iter().map(|e| e.0.clone()).collect();
    dates.sort();

    for (index, date) in dates.iter().enumerate() {
        assert!(date.starts_with("2023-11-"));
        let day = format!("{:02}", index + 1).to_string();
        assert!(date.ends_with(&day), "expected: {}, date: {}", day, date);
    }

    Ok(())
}

#[test]
fn year_report_should_combine_sums() -> Result<(), ReportError> {
    let mut conn = init_db_in_memory()?;
    insert_transaction(&mut conn, 100, "test", None, "2023-11-01", vec![])?;
    insert_transaction(&mut conn, 100, "test", None, "2023-11-02", vec![])?;

    let report = get_basic_report(&conn, ReportType::YEAR, "2023-11-01")?;

    assert_eq!(report.dates.len(), 12);
    assert_eq!(entry(&report.dates, "2023-11").unwrap(), 200);

    Ok(())
}

#[test]
fn month_report_should_combine_sums_for_days() -> Result<(), ReportError> {
    let mut conn = init_db_in_memory()?;
    insert_transaction(&mut conn, 100, "test", None, "2023-11-01", vec![])?;
    insert_transaction(&mut conn, 100, "test", None, "2023-11-01", vec![])?;

    let report = get_basic_report(&conn, ReportType::MONTH, "2023-11-01")?;

    assert_eq!(report.dates.len(), 30);
    assert_eq!(entry(&report.dates, "2023-11-01").unwrap(), 200);

    Ok(())
}

#[test]
fn supported_report_types_are_month_and_year() {
    let types = get_supported_report_types().unwrap();
    assert_eq!(types.len(), 2);
    assert!(types[0] == ReportType::MONTH);
    assert!(types[1] == ReportType::YEAR);
}

#[test]
fn days_from_month_handles_month_lengths_and_leap_years() {
    assert_eq!(get_days_from_month("2023-01"), 31);
    assert_eq!(get_days_from_month("2023-02"), 28);
    assert_eq!(get_days_from_month("2024-02"), 29);
    assert_eq!(get_days_from_month("2023-04"), 30);
    assert_eq!(get_days_from_month("2023-12"), 31);
    assert_eq!(get_days_from_month("1900-02"), 28);
    assert_eq!(get_days_from_month("2000-02"), 29);
    assert_eq!(get_days_from_month("2023-11-__"), 30);
}

#[test]
fn category_maps_split_income_and_expenses() -> Result<(), ReportError> {
    let mut conn = init_db_in_memory()?;
    insert_category(&mut conn, "test")?;
    let category = finance_app::store::get_categories(&conn)?[0].clone();

    insert_transaction(&mut conn, 100, "test", None, "2023-11-01", vec![category.id])?;
    insert_transaction(&mut conn, -150, "test", None, "2023-11-01", vec![category.id])?;

    let report = get_basic_report(&conn, ReportType::MONTH, "2023-11-01")?;

    assert_eq!(report.category_income.len(), 1);
    assert_eq!(entry(&report.category_income, "test").unwrap(), 100);
    assert_eq!(report.category_expenses.len(), 1);
    assert_eq!(entry(&report.category_expenses, "test").unwrap(), -150);
    Ok(())
}

#[test]
fn grouping_is_by_exact_category_combination() -> Result<(), ReportError> {
    let mut conn = init_db_in_memory()?;
    insert_category(&mut conn, "foo")?;
    insert_category(&mut conn, "bar")?;
    let cats = finance_app::store::get_categories(&conn)?;
    let foo = cats[0].id;
    let bar = cats[1].id;

    insert_transaction(&mut conn, 100, "a", None, "2023-11-01", vec![foo])?;
    insert_transaction(&mut conn, 200, "b", None, "2023-11-02", vec![foo, bar])?;
    insert_transaction(&mut conn, 300, "c", None, "2023-11-03", vec![bar])?;
    insert_transaction(&mut conn, 400, "d", None, "2023-11-04", vec![])?;

    let report = get_basic_report(&conn, ReportType::MONTH, "2023-11-01")?;

    assert_eq!(report.total, 1000);
    assert_eq!(report.uncategorized, 400);
    assert_eq!(report.category_income.len(), 3);
    assert_eq!(entry(&report.category_income, "foo").unwrap(), 100);
    assert_eq!(entry(&report.category_income, "foo, bar").unwrap(), 200);
    assert_eq!(entry(&report.category_income, "bar").unwrap(), 300);
    assert_eq!(report.category_expenses.len(), 0);
    Ok(())
}

#[test]
fn year_report_buckets_are_the_twelve_months() -> Result<(), ReportError> {
    let conn = init_db_in_memory()?;
    let report = get_basic_report(&conn, ReportType::YEAR, "2023-11-01")?;
    for m in 1..=12 {
        let key = format!("2023-{:02}", m);
        assert_eq!(entry(&report.dates, &key).unwrap(), 0);
    }
    Ok(())
}

#[test]
fn malformed_date_is_rejected() -> Result<(), ReportError> {
    let conn = init_db_in_memory()?;
    let r = get_basic_report(&conn, ReportType::MONTH, "2023/11/01");
    assert!(matches!(r, Err(ReportError::InvalidInput)));
    let r = get_basic_report(&conn, ReportType::MONTH, "aaaa-bb-cc");
    assert!(matches!(r, Err(ReportError::InvalidInput)));
    let r = get_basic_report(&conn, ReportType::MONTH, "2023-13-01");
    assert!(matches!(r, Err(ReportError::InvalidInput)));
    Ok(())
}

#[test]
fn missing_tables_surface_as_store_failure() {
    let conn = rusqlite::Connection::open_in_memory().unwrap();
    let r = get_basic_report(&conn, ReportType::MONTH, "2023-11-01");
    assert!(matches!(r, Err(ReportError::StoreFailure)));
}

fn same_report(a: &BasicReport, b: &BasicReport) -> bool {
    a.total == b.total && a.uncategorized == b.uncategorized && a.dates == b.dates
        && a.category_income == b.category_income && a.category_expenses == b.category_expenses
}

#[test]
fn repeated_requests_return_identical_reports() -> Result<(), ReportError> {
    let mut conn = init_db_in_memory()?;
    insert_category(&mut conn, "test")?;
    let category = finance_app::store::get_categories(&conn)?[0].clone();
    insert_transaction(&mut conn, 100, "a", None, "2023-11-01", vec![category.id])?;
    insert_transaction(&mut conn, -150, "b", None, "2023-11-02", vec![])?;

    let first = get_basic_report(&conn, ReportType::MONTH, "2023-11-01")?;
    let second = get_basic_report(&conn, ReportType::MONTH, "2023-11-01")?;
    assert!(same_report(&first, &second));

    let first = get_basic_report(&conn, ReportType::YEAR, "2023-11-01")?;
    let second = get_basic_report(&conn, ReportType::YEAR, "2023-11-01")?;
    assert!(same_report(&first, &second));
    Ok(())
}
