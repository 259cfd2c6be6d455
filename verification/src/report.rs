//! Assembling a [`BasicReport`] from a snapshot of the store's rows.

use vstd::prelude::*;
use vstd::string::StringExecFns;

use crate::buckets::day_key;
use crate::buckets::month_bucket_sum;
use crate::buckets::month_dates;
use crate::buckets::month_key;
use crate::buckets::year_dates;
use crate::engine::cat_present;
use crate::engine::cat_sum;
use crate::engine::category_totals;
use crate::engine::date_present;
use crate::engine::date_sum;
use crate::engine::date_totals;
use crate::engine::links_view;
use crate::engine::pat_matches;
use crate::engine::rows_bounded;
use crate::engine::total_of;
use crate::engine::total_sum;
use crate::engine::txns_view;
use crate::engine::uncategorized_of;
use crate::engine::uncategorized_sum;
use crate::kv::kv_keys_unique;
use crate::kv::kv_view;
use crate::models::BasicReport;
use crate::models::LinkRow;
use crate::models::LinkRowV;
use crate::models::ReportError;
use crate::models::ReportType;
use crate::models::TxnRow;
use crate::models::TxnRowV;
use crate::period::dash_count;
use crate::period::date_selector;
use crate::period::days_in_month;
use crate::period::digits_val;
use crate::period::first_dash;
use crate::period::get_days_from_month;
use crate::period::lemma_dash_count_none;
use crate::period::lemma_first_dash_bounds;
use crate::period::month_field;
use crate::period::month_fields_check;
use crate::period::month_fields_ok;
use crate::period::month_pattern;
use crate::period::split_year_month;
use crate::period::year_field;
use crate::period::year_pattern;

verus! {

/// An anchor date the aggregator accepts: three dash-separated fields,
/// and, for a month report, numeric year and month fields.
pub open spec fn report_input_ok(s: Seq<char>, rt: ReportType) -> bool {
    dash_count(s) == 2 && (rt == ReportType::MONTH ==> month_fields_ok(s))
}

/// The match pattern that the resolver produces for this granularity.
pub open spec fn report_pattern(s: Seq<char>, rt: ReportType) -> Seq<char> {
    if rt == ReportType::YEAR {
        year_pattern(s)
    } else {
        month_pattern(s)
    }
}

/// The `dates` series of a year report: exactly the twelve month
/// buckets of the anchor year, each holding the sum of the matching
/// transactions whose date truncates to it.
pub open spec fn year_dates_ok(
    dates: Seq<(String, i128)>,
    rows: Seq<TxnRowV>,
    pat: Seq<char>,
    y: Seq<char>,
) -> bool {
    &&& dates.len() == 12
    &&& kv_keys_unique(dates)
    &&& forall|m: int| 1 <= m <= 12 ==> kv_view(dates).contains_key(#[trigger] month_key(y, m))
    &&& forall|k: Seq<char>| #[trigger]
        kv_view(dates).contains_key(k) ==> exists|m: int| 1 <= m <= 12 && k == month_key(y, m)
    &&& forall|m: int|
        1 <= m <= 12 ==> kv_view(dates)[#[trigger] month_key(y, m)] == month_bucket_sum(
            rows,
            pat,
            month_key(y, m),
        )
}

/// The `dates` series of a month report: one bucket per calendar day,
/// overwritten with the exact per-date sums; a matching date outside
/// the calendar keeps its own entry.
pub open spec fn month_dates_ok(
    dates: Seq<(String, i128)>,
    rows: Seq<TxnRowV>,
    pat: Seq<char>,
    y: Seq<char>,
    mo: Seq<char>,
    days: int,
) -> bool {
    &&& kv_keys_unique(dates)
    &&& dates.len() >= days
    &&& forall|d: int| 1 <= d <= days ==> kv_view(dates).contains_key(#[trigger] day_key(y, mo, d))
    &&& forall|k: Seq<char>| #[trigger]
        kv_view(dates).contains_key(k) ==> (exists|d: int| 1 <= d <= days && k == day_key(y, mo, d))
            || date_present(rows, pat, k)
    &&& forall|k: Seq<char>| #[trigger]
        date_present(rows, pat, k) ==> kv_view(dates).contains_key(k) && kv_view(dates)[k]
            == date_sum(rows, pat, k)
    &&& forall|k: Seq<char>|
        #[trigger] kv_view(dates).contains_key(k) && !date_present(rows, pat, k) ==> kv_view(
            dates,
        )[k] == 0
    &&& !(exists|k: Seq<char>| #[trigger]
        date_present(rows, pat, k) && !crate::buckets::is_day_key(k, y, mo, days))
        ==> dates.len() == days
}

/// Everything a successfully built report promises, over the row
/// snapshot it was built from.
pub open spec fn report_ok(
    rep: BasicReport,
    rows: Seq<TxnRowV>,
    ls: Seq<LinkRowV>,
    sel: Seq<char>,
    rt: ReportType,
) -> bool {
    let pat = report_pattern(sel, rt);
    &&& rep.total == total_sum(rows, pat)
    &&& rep.uncategorized == uncategorized_sum(rows, ls, pat)
    &&& kv_keys_unique(rep.category_income@)
    &&& forall|k: Seq<char>| #[trigger]
        kv_view(rep.category_income@).contains_key(k) <==> cat_present(rows, ls, pat, true, k)
    &&& forall|k: Seq<char>| #[trigger]
        kv_view(rep.category_income@).contains_key(k) ==> kv_view(rep.category_income@)[k]
            == cat_sum(rows, ls, pat, true, k)
    &&& kv_keys_unique(rep.category_expenses@)
    &&& forall|k: Seq<char>| #[trigger]
        kv_view(rep.category_expenses@).contains_key(k) <==> cat_present(rows, ls, pat, false, k)
    &&& forall|k: Seq<char>| #[trigger]
        kv_view(rep.category_expenses@).contains_key(k) ==> kv_view(rep.category_expenses@)[k]
            == cat_sum(rows, ls, pat, false, k)
    &&& (rt == ReportType::YEAR ==> year_dates_ok(rep.dates@, rows, pat, year_field(sel)))
    &&& (rt == ReportType::MONTH ==> month_dates_ok(
        rep.dates@,
        rows,
        pat,
        year_field(sel),
        month_field(sel),
        days_in_month(digits_val(year_field(sel)), digits_val(month_field(sel))),
    ))
}

/// Builds the report for the period of `selected_date` at granularity
/// `report_type` from a snapshot of the store: one transaction row per
/// transaction, and one link row per transaction-category pair, joined
/// with the category's label and ordered by category id within each
/// transaction.
///
/// A malformed anchor date is rejected; any snapshot is accepted.
pub fn build_report(
    rows: &Vec<TxnRow>,
    links: &Vec<LinkRow>,
    report_type: ReportType,
    selected_date: &str,
) -> (r: Result<BasicReport, ReportError>)
    ensures
        r is Ok <==> report_input_ok(selected_date@, report_type),
        r matches Err(e) ==> e == ReportError::InvalidInput,
        r matches Ok(rep) ==> report_ok(
            rep,
            txns_view(rows@),
            links_view(links@),
            selected_date@,
            report_type,
        ),
{
    let ghost tv = txns_view(rows@);
    let ghost lv = links_view(links@);
    let pattern = match date_selector(selected_date, report_type) {
        Ok(p) => p,
        Err(e) => {
            return Err(e);
        },
    };
    if matches!(report_type, ReportType::MONTH) && !month_fields_check(selected_date) {
        return Err(ReportError::InvalidInput);
    }
    let n = rows.len();
    proof {
        assert(rows_bounded(tv));
        assert(tv.len() == n as int);
    }
    let sparse = date_totals(rows, &pattern);
    let total = total_of(rows, &pattern);
    let uncategorized = uncategorized_of(rows, links, &pattern);
    let category_income = category_totals(rows, links, &pattern, true);
    let category_expenses = category_totals(rows, links, &pattern, false);
    let (year_s, month_s) = split_year_month(selected_date);
    let dates = match report_type {
        ReportType::YEAR => year_dates(&sparse, &year_s, Ghost(tv), Ghost(pattern@)),
        ReportType::MONTH => {
            proof {
                lemma_first_dash_bounds(selected_date@);
                if first_dash(selected_date@) == selected_date@.len() {
                    lemma_dash_count_none(selected_date@);
                }
            }
            let days = get_days_from_month(selected_date);
            assert(28 <= days <= 31);
            month_dates(&sparse, &year_s, &month_s, days as u32, Ghost(tv), Ghost(pattern@))
        },
    };
    Ok(BasicReport { total, uncategorized, dates, category_income, category_expenses })
}

/// The mathematical content of a report: its two totals and the three
/// keyed maps, stripped of entry order.
pub open spec fn report_view(rep: BasicReport) -> (
    int,
    int,
    Map<Seq<char>, int>,
    Map<Seq<char>, int>,
    Map<Seq<char>, int>,
) {
    (
        rep.total as int,
        rep.uncategorized as int,
        kv_view(rep.dates@),
        kv_view(rep.category_income@),
        kv_view(rep.category_expenses@),
    )
}

/// Zero-fill completeness: over a snapshot in which no row matches the
/// period, a report holds zero totals, empty category maps, and a dense
/// `dates` series — twelve buckets for a year, one per calendar day for
/// a month — every one of them zero.
pub proof fn lemma_report_zero_fill(
    rep: BasicReport,
    rows: Seq<TxnRowV>,
    ls: Seq<LinkRowV>,
    sel: Seq<char>,
    rt: ReportType,
)
    requires
        report_ok(rep, rows, ls, sel, rt),
        forall|i: int|
            0 <= i < rows.len() ==> !pat_matches((#[trigger] rows[i]).date, report_pattern(sel, rt)),
    ensures
        rep.total == 0,
        rep.uncategorized == 0,
        rep.category_income@.len() == 0,
        rep.category_expenses@.len() == 0,
        rt == ReportType::YEAR ==> rep.dates@.len() == 12,
        rt == ReportType::MONTH ==> rep.dates@.len() == days_in_month(
            digits_val(year_field(sel)),
            digits_val(month_field(sel)),
        ),
        forall|j: int| 0 <= j < rep.dates@.len() ==> (#[trigger] rep.dates@[j]).1 == 0,
{
    let pat = report_pattern(sel, rt);
    assert(rep.total == 0) by {
        crate::engine::lemma_sum_none(rows, |r: TxnRowV| pat_matches(r.date, pat));
    }
    assert(rep.uncategorized == 0) by {
        crate::engine::lemma_sum_none(
            rows,
            |r: TxnRowV| pat_matches(r.date, pat) && !crate::engine::has_link(ls, r.id),
        );
    }
    assert(rep.category_income@.len() == 0) by {
        if rep.category_income@.len() > 0 {
            crate::kv::lemma_kv_view_at(rep.category_income@, 0);
            let k = rep.category_income@[0].0@;
            assert(cat_present(rows, ls, pat, true, k));
            let i = choose|i: int|
                0 <= i < rows.len() && crate::engine::cat_row_in(#[trigger] rows[i], ls, pat, true)
                    && crate::engine::cat_key(ls, rows[i].id) == k;
            assert(false);
        }
    }
    assert(rep.category_expenses@.len() == 0) by {
        if rep.category_expenses@.len() > 0 {
            crate::kv::lemma_kv_view_at(rep.category_expenses@, 0);
            let k = rep.category_expenses@[0].0@;
            assert(cat_present(rows, ls, pat, false, k));
            let i = choose|i: int|
                0 <= i < rows.len() && crate::engine::cat_row_in(#[trigger] rows[i], ls, pat, false)
                    && crate::engine::cat_key(ls, rows[i].id) == k;
            assert(false);
        }
    }
    if rt == ReportType::MONTH {
        let y = year_field(sel);
        let mo = month_field(sel);
        let days = days_in_month(digits_val(y), digits_val(mo));
        assert(!(exists|k: Seq<char>| #[trigger]
            date_present(rows, pat, k) && !crate::buckets::is_day_key(k, y, mo, days))) by {
            if exists|k: Seq<char>| #[trigger]
                date_present(rows, pat, k) && !crate::buckets::is_day_key(k, y, mo, days) {
                let k = choose|k: Seq<char>|
                    #[trigger] date_present(rows, pat, k) && !crate::buckets::is_day_key(
                        k,
                        y,
                        mo,
                        days,
                    );
                let i = choose|i: int|
                    0 <= i < rows.len() && pat_matches((#[trigger] rows[i]).date, pat)
                        && rows[i].date == k;
                assert(false);
            }
        }
    }
    assert forall|j: int| 0 <= j < rep.dates@.len() implies (#[trigger] rep.dates@[j]).1 == 0 by {
        crate::kv::lemma_kv_view_at(rep.dates@, j);
        let k = rep.dates@[j].0@;
        if date_present(rows, pat, k) {
            let i = choose|i: int|
                0 <= i < rows.len() && pat_matches((#[trigger] rows[i]).date, pat) && rows[i].date
                    == k;
            assert(false);
        }
        if rt == ReportType::YEAR {
            let m = choose|m: int| 1 <= m <= 12 && k == month_key(year_field(sel), m);
            assert(kv_view(rep.dates@)[k] == month_bucket_sum(rows, pat, k));
            crate::engine::lemma_sum_none(
                rows,
                |r: TxnRowV| pat_matches(r.date, pat) && crate::buckets::ym_prefix(r.date) == k,
            );
        } else {
            assert(kv_view(rep.dates@)[k] == 0);
        }
    }
}

/// Determinism: two reports that both satisfy the aggregation contract
/// over the same snapshot and the same request have the same totals and
/// the same three maps.
pub proof fn lemma_report_deterministic(
    rep1: BasicReport,
    rep2: BasicReport,
    rows: Seq<TxnRowV>,
    ls: Seq<LinkRowV>,
    sel: Seq<char>,
    rt: ReportType,
)
    requires
        report_ok(rep1, rows, ls, sel, rt),
        report_ok(rep2, rows, ls, sel, rt),
    ensures
        report_view(rep1) == report_view(rep2),
{
    let pat = report_pattern(sel, rt);
    assert(kv_view(rep1.category_income@) =~= kv_view(rep2.category_income@)) by {
        assert forall|k: Seq<char>|
            kv_view(rep1.category_income@).contains_key(k) == kv_view(
                rep2.category_income@,
            ).contains_key(k) by {
            assert(kv_view(rep1.category_income@).contains_key(k) <==> cat_present(
                rows,
                ls,
                pat,
                true,
                k,
            ));
            assert(kv_view(rep2.category_income@).contains_key(k) <==> cat_present(
                rows,
                ls,
                pat,
                true,
                k,
            ));
        }
    }
    assert(kv_view(rep1.category_expenses@) =~= kv_view(rep2.category_expenses@)) by {
        assert forall|k: Seq<char>|
            kv_view(rep1.category_expenses@).contains_key(k) == kv_view(
                rep2.category_expenses@,
            ).contains_key(k) by {
            assert(kv_view(rep1.category_expenses@).contains_key(k) <==> cat_present(
                rows,
                ls,
                pat,
                false,
                k,
            ));
            assert(kv_view(rep2.category_expenses@).contains_key(k) <==> cat_present(
                rows,
                ls,
                pat,
                false,
                k,
            ));
        }
    }
    assert(kv_view(rep1.dates@) =~= kv_view(rep2.dates@)) by {
        if rt == ReportType::YEAR {
            let y = year_field(sel);
            assert forall|k: Seq<char>|
                kv_view(rep1.dates@).contains_key(k) == kv_view(rep2.dates@).contains_key(k) by {
                if kv_view(rep1.dates@).contains_key(k) {
                    let m = choose|m: int| 1 <= m <= 12 && k == month_key(y, m);
                    assert(kv_view(rep2.dates@).contains_key(month_key(y, m)));
                }
                if kv_view(rep2.dates@).contains_key(k) {
                    let m = choose|m: int| 1 <= m <= 12 && k == month_key(y, m);
                    assert(kv_view(rep1.dates@).contains_key(month_key(y, m)));
                }
            }
            assert forall|k: Seq<char>|
                #[trigger] kv_view(rep1.dates@).contains_key(k) implies kv_view(rep1.dates@)[k]
                == kv_view(rep2.dates@)[k] by {
                let m = choose|m: int| 1 <= m <= 12 && k == month_key(y, m);
                assert(kv_view(rep1.dates@)[month_key(y, m)] == month_bucket_sum(
                    rows,
                    pat,
                    month_key(y, m),
                ));
                assert(kv_view(rep2.dates@)[month_key(y, m)] == month_bucket_sum(
                    rows,
                    pat,
                    month_key(y, m),
                ));
            }
        } else {
            let y = year_field(sel);
            let mo = month_field(sel);
            let days = days_in_month(digits_val(y), digits_val(mo));
            assert forall|k: Seq<char>|
                kv_view(rep1.dates@).contains_key(k) == kv_view(rep2.dates@).contains_key(k) by {
                if kv_view(rep1.dates@).contains_key(k) && !date_present(rows, pat, k) {
                    let d = choose|d: int| 1 <= d <= days && k == day_key(y, mo, d);
                    assert(kv_view(rep2.dates@).contains_key(day_key(y, mo, d)));
                }
                if kv_view(rep2.dates@).contains_key(k) && !date_present(rows, pat, k) {
                    let d = choose|d: int| 1 <= d <= days && k == day_key(y, mo, d);
                    assert(kv_view(rep1.dates@).contains_key(day_key(y, mo, d)));
                }
            }
            assert forall|k: Seq<char>|
                #[trigger] kv_view(rep1.dates@).contains_key(k) implies kv_view(rep1.dates@)[k]
                == kv_view(rep2.dates@)[k] by {
                if !date_present(rows, pat, k) {
                    assert(kv_view(rep1.dates@)[k] == 0);
                    assert(kv_view(rep2.dates@)[k] == 0);
                }
            }
        }
    }
}

} // verus!
