//! Reporting engine for a small personal-finance ledger.
//!
//! Transactions carry a signed monetary amount (in minor currency units),
//! a creation date in `YYYY-MM-DD` form and a set of user-defined
//! categories.  The library resolves a report period (one month or one
//! year) from an anchor date, aggregates the matching transactions into a
//! zero-filled time series, splits income from expenses grouped by the
//! exact combination of categories on each transaction, and isolates the
//! uncategorized remainder.  The aggregation itself is verified; the
//! SQLite store behind it is reached only through a few trusted wrappers.

use vstd::prelude::*;

pub mod buckets;
pub mod engine;
pub mod kv;
pub mod models;
pub mod period;
pub mod report;
pub mod store;

verus! {

/// The report granularities that the engine supports, in the order they
/// are offered to callers.
pub fn get_supported_report_types() -> (r: Result<Vec<models::ReportType>, ()>)
    ensures
        r matches Ok(v) && v@ == seq![models::ReportType::MONTH, models::ReportType::YEAR],
{
    let mut types: Vec<models::ReportType> = Vec::new();
    types.push(models::ReportType::MONTH);
    types.push(models::ReportType::YEAR);
    assert(types@ =~= seq![models::ReportType::MONTH, models::ReportType::YEAR]);
    Ok(types)
}

} // verus!
