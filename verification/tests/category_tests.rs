use finance_app::store::delete_category;
use finance_app::store::get_categories;
use finance_app::store::init_db_in_memory;
use finance_app::store::insert_category;

use finance_app::models::ReportError;

#[test]
fn category_service_insert_should_succeed() -> Result<(), ReportError> {
    let mut conn = init_db_in_memory()?;
    insert_category(&mut conn, "test")?;
    Ok(())
}

#[test]
fn category_service_query_should_return_nil_when_new() -> Result<(), ReportError> {
    let conn = init_db_in_memory()?;
    let list = get_categories(&conn)?;

    assert!(list.len() == 0, "Expected empty list, got {:?}", list);
    Ok(())
}

#[test]
fn after_insert_should_be_readable() -> Result<(), ReportError> {
    let mut conn = init_db_in_memory()?;
    insert_category(&mut conn, "test")?;
    let list = get_categories(&conn)?;

    assert!(list.len() == 1, "Expected list with one item, got {:?}", list);
    Ok(())
}

#[test]
fn insert_should_be_idempotent() -> Result<(), ReportError> {
    let mut conn = init_db_in_memory()?;
    insert_category(&mut conn, "test")?;
    insert_category(&mut conn, "test")?;
    let list = get_categories(&conn)?;

    assert!(list.len() == 1, "Expected list with one item, got {:?}", list);
    Ok(())
}

#[test]
fn insert_should_ignore_casing() -> Result<(), ReportError> {
    let mut conn = init_db_in_memory()?;
    insert_category(&mut conn, "test")?;
    insert_category(&mut conn, "TEST")?;
    let list = get_categories(&conn)?;

    assert!(list.len() == 1, "Expected list with one item, got {:?}", list);
    Ok(())
}

#[test]
fn insert_should_ignore_surrounding_whitespace() -> Result<(), ReportError> {
    let mut conn = init_db_in_memory()?;
    insert_category(&mut conn, "foobar")?;
    insert_category(&mut conn, " foobar")?;
    insert_category(&mut conn, "foobar")?;
    insert_category(&mut conn, " foobar")?;
    insert_category(&mut conn, "    foobar  ")?;
    insert_category(&mut conn, "foo bar")?;
    let list = get_categories(&conn)?;

    assert!(list.len() == 2, "Expected list with two items, got {:?}", list);
    Ok(())
}

#[test]
fn delete_should_remove_entry() -> Result<(), ReportError> {
    let mut conn = init_db_in_memory()?;
    insert_category(&mut conn, "test")?;
    let mut list = get_categories(&conn)?;
    assert!(list.len() == 1, "Expected list with one item, got {:?}", list);

    let entry = list.pop().unwrap();

    delete_category(&mut conn, entry.id)?;

    list = get_categories(&conn)?;

    assert!(list.len() == 0, "Expected list with no items, got {:?}", list);

    Ok(())
}

#[test]
fn normalized_label_is_stored() -> Result<(), ReportError> {
    let mut conn = init_db_in_memory()?;
    insert_category(&mut conn, "  GrOcErIeS ")?;
    let list = get_categories(&conn)?;

    assert_eq!(list.len(), 1);
    assert_eq!(list[0].label, "groceries");
    Ok(())
}
