use finance_app::models::ReportError;
use finance_app::models::ReportType;
use finance_app::store::delete_transaction;
use finance_app::store::get_basic_report;
use finance_app::store::init_db_in_memory;
use finance_app::store::insert_transaction;

#[test]
fn transaction_service_insert_should_succeed() -> Result<(), ReportError> {
    let mut conn = init_db_in_memory()?;
    insert_transaction(&mut conn, 100, "test", None, "2023-11-01", vec![])?;
    Ok(())
}

#[test]
fn inserting_missing_categories_is_not_a_failure() -> Result<(), ReportError> {
    let mut conn = init_db_in_memory()?;
    insert_transaction(&mut conn, 100, "test", None, "2023-11-01", vec![1, 2])?;

    let report = get_basic_report(&conn, ReportType::MONTH, "2023-11-01")?;
    assert_eq!(report.total, 100);
    assert_eq!(report.uncategorized, 100);
    Ok(())
}

#[test]
fn reset_tables_empties_the_store() -> Result<(), ReportError> {
    let mut conn = init_db_in_memory()?;
    insert_transaction(&mut conn, 100, "test", None, "2023-11-01", vec![])?;
    finance_app::store::reset_tables(&mut conn)?;

    let report = get_basic_report(&conn, ReportType::MONTH, "2023-11-01")?;
    assert_eq!(report.total, 0);
    assert_eq!(report.dates.len(), 30);
    Ok(())
}

#[test]
fn deleted_transaction_no_longer_counts() -> Result<(), ReportError> {
    let mut conn = init_db_in_memory()?;
    insert_transaction(&mut conn, 100, "test", None, "2023-11-01", vec![])?;
    delete_transaction(&mut conn, 1)?;

    let report = get_basic_report(&conn, ReportType::MONTH, "2023-11-01")?;
    assert_eq!(report.total, 0);
    assert_eq!(report.uncategorized, 0);
    Ok(())
}
