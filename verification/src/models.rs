//! Data types shared by the period resolver and the report aggregator.

use vstd::prelude::*;

verus! {

/// Report granularity: one calendar month or one calendar year.
#[allow(non_camel_case_types)]
#[derive(Clone, Copy, Debug, PartialEq, Eq, Structural)]
pub enum ReportType {
    MONTH,
    YEAR,
}

/// Why a report request failed.
///
/// `InvalidInput` covers a malformed anchor date; `StoreFailure` covers
/// any failure surfaced by the underlying store.  Both are terminal for
/// the request: there is no partial report.
#[derive(Clone, Copy, Debug, PartialEq, Eq, Structural)]
pub enum ReportError {
    InvalidInput,
    StoreFailure,
}

/// A user-defined category: a store-assigned id and a normalized label.
#[derive(Clone, Debug)]
pub struct Category {
    pub id: i64,
    pub label: String,
}

impl View for Category {
    type V = (int, Seq<char>);

    open spec fn view(&self) -> (int, Seq<char>) {
        (self.id as int, self.label@)
    }
}

/// The report for one period, assembled fresh on every request.
///
/// All amounts are in minor currency units.  The three keyed lists have
/// pairwise distinct keys; `dates` is dense (zero-filled) over the
/// period's calendar units.
pub struct BasicReport {
    pub total: i128,
    pub uncategorized: i128,
    pub dates: Vec<(String, i128)>,
    pub category_income: Vec<(String, i128)>,
    pub category_expenses: Vec<(String, i128)>,
}

/// Mathematical image of one transaction row: store id, signed amount
/// in minor currency units, and creation date.
pub ghost struct TxnRowV {
    pub id: int,
    pub value: int,
    pub date: Seq<char>,
}

/// One transaction row as the aggregator consumes it.
pub struct TxnRow {
    pub id: i64,
    pub value: i64,
    pub date_created: String,
}

impl View for TxnRow {
    type V = TxnRowV;

    open spec fn view(&self) -> TxnRowV {
        TxnRowV { id: self.id as int, value: self.value as int, date: self.date_created@ }
    }
}

/// Mathematical image of one transaction-to-category link, joined with
/// the category's label.
pub ghost struct LinkRowV {
    pub tid: int,
    pub cid: int,
    pub label: Seq<char>,
}

/// One transaction-to-category link as the aggregator consumes it.
pub struct LinkRow {
    pub transaction_id: i64,
    pub category_id: i64,
    pub label: String,
}

impl View for LinkRow {
    type V = LinkRowV;

    open spec fn view(&self) -> LinkRowV {
        LinkRowV {
            tid: self.transaction_id as int,
            cid: self.category_id as int,
            label: self.label@,
        }
    }
}

} // verus!
