//! Zero-filled time buckets.
//!
//! A year report has one bucket per month, keyed `YYYY-MM`; sums of days
//! in the same month accumulate into the month's bucket.  A month report
//! has one bucket per calendar day, keyed `YYYY-MM-DD`; each bucket is
//! overwritten with the exact per-date sum, which was already grouped by
//! full date.  The asymmetry is deliberate and is kept here.

use vstd::prelude::*;
use vstd::string::StrSliceExecFns;
use vstd::string::StringExecFns;

use crate::engine::date_present;
use crate::engine::date_sum;
use crate::engine::pat_matches;
use crate::engine::lemma_sum_congruence;
use crate::engine::lemma_sum_fits;
use crate::engine::lemma_sum_none;
use crate::engine::lemma_sum_split;
use crate::engine::rows_bounded;
use crate::engine::sum_filtered;
use crate::kv::kv_get_or_zero;
use crate::kv::kv_keys_unique;
use crate::kv::kv_view;
use crate::kv::kv_add_if_present;
use crate::kv::kv_put;
use crate::kv::lemma_kv_view_at;
use crate::kv::lemma_kv_view_dom;
use crate::models::TxnRowV;
use crate::period::digit_char;
use crate::period::month_field;
use crate::period::push_two_digit;
use crate::period::split_year_month;
use crate::period::two_digit_seq;
use crate::period::year_field;

verus! {

/// A date truncated to its year and month fields.
pub open spec fn ym_prefix(d: Seq<char>) -> Seq<char> {
    year_field(d) + seq!['-'] + month_field(d)
}

/// The bucket key for month `m` of the year `y`.
pub open spec fn month_key(y: Seq<char>, m: int) -> Seq<char> {
    y + seq!['-'] + two_digit_seq(m)
}

/// The bucket key for day `d` of the month `mo` of the year `y`.
pub open spec fn day_key(y: Seq<char>, mo: Seq<char>, d: int) -> Seq<char> {
    y + seq!['-'] + mo + seq!['-'] + two_digit_seq(d)
}

/// What a year bucket holds: the values of all matching rows whose date
/// truncates to the bucket's key.
pub open spec fn month_bucket_sum(rows: Seq<TxnRowV>, pat: Seq<char>, key: Seq<char>) -> int {
    sum_filtered(rows, |r: TxnRowV| pat_matches(r.date, pat) && ym_prefix(r.date) == key)
}

proof fn lemma_digit_char_inj(a: int, b: int)
    requires
        0 <= a <= 9,
        0 <= b <= 9,
        a != b,
    ensures
        digit_char(a) != digit_char(b),
{
}

proof fn lemma_two_digit_inj(a: int, b: int)
    requires
        0 <= a <= 99,
        0 <= b <= 99,
        a != b,
    ensures
        two_digit_seq(a) != two_digit_seq(b),
{
    if a / 10 != b / 10 {
        lemma_digit_char_inj(a / 10, b / 10);
        assert(two_digit_seq(a)[0] != two_digit_seq(b)[0]);
    } else {
        assert(a % 10 != b % 10);
        lemma_digit_char_inj(a % 10, b % 10);
        assert(two_digit_seq(a)[1] != two_digit_seq(b)[1]);
    }
}

proof fn lemma_month_key_inj(y: Seq<char>, m1: int, m2: int)
    requires
        0 <= m1 <= 99,
        0 <= m2 <= 99,
        m1 != m2,
    ensures
        month_key(y, m1) != month_key(y, m2),
{
    lemma_two_digit_inj(m1, m2);
    if month_key(y, m1) == month_key(y, m2) {
        assert(two_digit_seq(m1) =~= two_digit_seq(m2)) by {
            assert forall|i: int| 0 <= i < 2 implies two_digit_seq(m1)[i] == two_digit_seq(
                m2,
            )[i] by {
                assert(month_key(y, m1)[y.len() + 1 + i] == two_digit_seq(m1)[i]);
                assert(month_key(y, m2)[y.len() + 1 + i] == two_digit_seq(m2)[i]);
            }
        }
        assert(false);
    }
}

proof fn lemma_day_key_inj(y: Seq<char>, mo: Seq<char>, d1: int, d2: int)
    requires
        0 <= d1 <= 99,
        0 <= d2 <= 99,
        d1 != d2,
    ensures
        day_key(y, mo, d1) != day_key(y, mo, d2),
{
    lemma_two_digit_inj(d1, d2);
    if day_key(y, mo, d1) == day_key(y, mo, d2) {
        let off = y.len() + 1 + mo.len() + 1;
        assert(two_digit_seq(d1) =~= two_digit_seq(d2)) by {
            assert forall|i: int| 0 <= i < 2 implies two_digit_seq(d1)[i] == two_digit_seq(
                d2,
            )[i] by {
                assert(day_key(y, mo, d1)[off + i] == two_digit_seq(d1)[i]);
                assert(day_key(y, mo, d2)[off + i] == two_digit_seq(d2)[i]);
            }
        }
        assert(false);
    }
}

/// Truncates a date string to its `year-month` prefix.
fn ym_prefix_of(d: &str) -> (r: String)
    ensures
        r@ == ym_prefix(d@),
{
    let (y, mo) = split_year_month(d);
    let mut r = y;
    r.append("-");
    r.append(mo.as_str());
    proof {
        reveal_strlit("-");
        assert(("-")@ =~= seq!['-']);
        assert(r@ =~= ym_prefix(d@));
    }
    r
}

/// Whether some entry among the first `i` of `s` holds the key `d`.
pub open spec fn key_in_prefix(s: Seq<(String, i128)>, i: int, d: Seq<char>) -> bool {
    exists|j: int| 0 <= j < i && (#[trigger] s[j]).0@ == d
}

/// Whether `k` is one of the first `days` day-bucket keys.
pub open spec fn is_day_key(k: Seq<char>, y: Seq<char>, mo: Seq<char>, days: int) -> bool {
    exists|d: int| 1 <= d <= days && k == day_key(y, mo, d)
}

/// How many of the first `i` entries hold a key outside the day
/// buckets.
pub open spec fn stray_count(
    s: Seq<(String, i128)>,
    i: int,
    y: Seq<char>,
    mo: Seq<char>,
    days: int,
) -> int
    decreases i,
{
    if i <= 0 {
        0
    } else {
        stray_count(s, i - 1, y, mo, days) + if is_day_key(s[i - 1].0@, y, mo, days) {
            0int
        } else {
            1int
        }
    }
}

proof fn lemma_stray_count_zero(s: Seq<(String, i128)>, i: int, y: Seq<char>, mo: Seq<char>, days: int)
    requires
        forall|j: int| 0 <= j < i ==> is_day_key((#[trigger] s[j]).0@, y, mo, days),
    ensures
        stray_count(s, i, y, mo, days) == 0,
    decreases i,
{
    if i > 0 {
        lemma_stray_count_zero(s, i - 1, y, mo, days);
        assert(is_day_key(s[i - 1].0@, y, mo, days));
    }
}

/// Builds the twelve zero-filled month buckets of a year report and
/// accumulates every per-date sum into the bucket its month names.
/// Dates whose truncation is no bucket key are dropped.
pub(crate) fn year_dates(
    sparse: &Vec<(String, i128)>,
    year_s: &String,
    Ghost(rows): Ghost<Seq<TxnRowV>>,
    Ghost(pat): Ghost<Seq<char>>,
) -> (out: Vec<(String, i128)>)
    requires
        rows_bounded(rows),
        rows.len() <= usize::MAX,
        kv_keys_unique(sparse@),
        forall|k: Seq<char>| #[trigger] kv_view(sparse@).contains_key(k) <==> date_present(rows, pat, k),
        forall|k: Seq<char>| #[trigger]
            kv_view(sparse@).contains_key(k) ==> kv_view(sparse@)[k] == date_sum(rows, pat, k),
    ensures
        out@.len() == 12,
        kv_keys_unique(out@),
        forall|m: int| 1 <= m <= 12 ==> kv_view(out@).contains_key(#[trigger] month_key(year_s@, m)),
        forall|k: Seq<char>| #[trigger]
            kv_view(out@).contains_key(k) ==> exists|m: int| 1 <= m <= 12 && k == month_key(year_s@, m),
        forall|m: int|
            1 <= m <= 12 ==> kv_view(out@)[#[trigger] month_key(year_s@, m)] == month_bucket_sum(
                rows,
                pat,
                month_key(year_s@, m),
            ),
{
    let mut out: Vec<(String, i128)> = Vec::new();
    let mut m: u32 = 1;
    while m <= 12
        invariant
            1 <= m <= 13,
            out@.len() == m - 1,
            forall|j: int|
                0 <= j < out@.len() ==> (#[trigger] out@[j]).0@ == month_key(year_s@, j + 1)
                    && out@[j].1 == 0,
        decreases 13 - m,
    {
        let mut key = year_s.clone();
        key.append("-");
        push_two_digit(&mut key, m);
        proof {
            reveal_strlit("-");
            assert(("-")@ =~= seq!['-']);
            assert(key@ =~= month_key(year_s@, m as int));
        }
        out.push((key, 0));
        m = m + 1;
    }
    proof {
        assert(kv_keys_unique(out@)) by {
            assert forall|i: int, j: int| 0 <= i < j < out@.len() implies out@[i].0@
                != out@[j].0@ by {
                lemma_month_key_inj(year_s@, i + 1, j + 1);
            }
        }
        assert forall|mm: int| 1 <= mm <= 12 implies kv_view(out@).contains_key(
            #[trigger] month_key(year_s@, mm),
        ) && kv_view(out@)[month_key(year_s@, mm)] == 0 by {
            lemma_kv_view_at(out@, mm - 1);
        }
        assert forall|k: Seq<char>| #[trigger] kv_view(out@).contains_key(k) implies exists|mm: int|
            1 <= mm <= 12 && k == month_key(year_s@, mm) by {
            lemma_kv_view_dom(out@, k);
            let j = choose|j: int| 0 <= j < out@.len() && out@[j].0@ == k;
            assert(k == month_key(year_s@, j + 1));
        }
        assert forall|mm: int| 1 <= mm <= 12 implies kv_view(out@)[month_key(year_s@, mm)]
            == sum_filtered(
            rows,
            |r: TxnRowV|
                pat_matches(r.date, pat) && ym_prefix(r.date) == month_key(year_s@, mm)
                    && key_in_prefix(sparse@, 0, r.date),
        ) by {
            let f = |r: TxnRowV|
                pat_matches(r.date, pat) && ym_prefix(r.date) == month_key(year_s@, mm)
                    && key_in_prefix(sparse@, 0, r.date);
            assert forall|j: int| 0 <= j < rows.len() implies !f(#[trigger] rows[j]) by {}
            lemma_sum_none(rows, f);
        }
    }
    let n2 = sparse.len();
    let mut i: usize = 0;
    while i < n2
        invariant
            i <= n2,
            n2 == sparse@.len(),
            rows_bounded(rows),
            rows.len() <= usize::MAX,
            kv_keys_unique(sparse@),
            forall|k: Seq<char>| #[trigger] kv_view(sparse@).contains_key(k) <==> date_present(rows, pat, k),
            forall|k: Seq<char>| #[trigger]
                kv_view(sparse@).contains_key(k) ==> kv_view(sparse@)[k] == date_sum(rows, pat, k),
            out@.len() == 12,
            kv_keys_unique(out@),
            forall|mm: int|
                1 <= mm <= 12 ==> kv_view(out@).contains_key(#[trigger] month_key(year_s@, mm)),
            forall|k: Seq<char>| #[trigger]
                kv_view(out@).contains_key(k) ==> exists|mm: int|
                    1 <= mm <= 12 && k == month_key(year_s@, mm),
            forall|mm: int|
                1 <= mm <= 12 ==> kv_view(out@)[#[trigger] month_key(year_s@, mm)] == sum_filtered(
                    rows,
                    |r: TxnRowV|
                        pat_matches(r.date, pat) && ym_prefix(r.date) == month_key(year_s@, mm)
                            && key_in_prefix(sparse@, i as int, r.date),
                ),
        decreases n2 - i,
    {
        let ghost d = sparse@[i as int].0@;
        let ghost v = sparse@[i as int].1 as int;
        proof {
            lemma_kv_view_at(sparse@, i as int);
        }
        let kstr = ym_prefix_of(sparse[i].0.as_str());
        let ghost kk = kstr@;
        let ghost g = |r: TxnRowV| pat_matches(r.date, pat) && r.date == d;
        proof {
            assert(v == date_sum(rows, pat, d));
            assert(sum_filtered(rows, g) == v);
            lemma_sum_fits(rows, g);
            if kv_view(out@).contains_key(kk) {
                let mm = choose|mm: int| 1 <= mm <= 12 && kk == month_key(year_s@, mm);
                let f = |r: TxnRowV|
                    pat_matches(r.date, pat) && ym_prefix(r.date) == month_key(year_s@, mm)
                        && key_in_prefix(sparse@, i as int, r.date);
                let h = |r: TxnRowV|
                    pat_matches(r.date, pat) && ym_prefix(r.date) == month_key(year_s@, mm)
                        && key_in_prefix(sparse@, i as int + 1, r.date);
                assert forall|j: int| 0 <= j < rows.len() implies h(#[trigger] rows[j]) == (f(
                    rows[j],
                ) || g(rows[j])) by {
                    let r = rows[j];
                    if r.date == d {
                        assert(ym_prefix(r.date) == kk);
                        assert(sparse@[i as int].0@ == d);
                        assert(key_in_prefix(sparse@, i as int + 1, r.date));
                        if key_in_prefix(sparse@, i as int, r.date) {
                            let jj = choose|jj: int|
                                0 <= jj < i as int && (#[trigger] sparse@[jj]).0@ == r.date;
                            assert(sparse@[jj].0@ == sparse@[i as int].0@);
                            assert(false);
                        }
                    } else {
                        if key_in_prefix(sparse@, i as int + 1, r.date) {
                            let jj = choose|jj: int|
                                0 <= jj < i as int + 1 && (#[trigger] sparse@[jj]).0@ == r.date;
                            assert(jj < i as int);
                            assert(key_in_prefix(sparse@, i as int, r.date));
                        }
                        if key_in_prefix(sparse@, i as int, r.date) {
                            assert(key_in_prefix(sparse@, i as int + 1, r.date));
                        }
                    }
                }
                assert forall|j: int| 0 <= j < rows.len() implies !(f(#[trigger] rows[j]) && g(
                    rows[j],
                )) by {
                    let r = rows[j];
                    if g(r) && key_in_prefix(sparse@, i as int, r.date) {
                        let jj = choose|jj: int|
                            0 <= jj < i as int && (#[trigger] sparse@[jj]).0@ == r.date;
                        assert(sparse@[jj].0@ == sparse@[i as int].0@);
                        assert(false);
                    }
                }
                lemma_sum_split(rows, h, f, g);
                lemma_sum_fits(rows, h);
                assert(kv_get_or_zero(out@, kk) + v == sum_filtered(rows, h));
            }
        }
        let ghost oldout = out@;
        kv_add_if_present(&mut out, &kstr, sparse[i].1);
        proof {
            assert forall|mm: int| 1 <= mm <= 12 implies kv_view(out@)[#[trigger] month_key(
                year_s@,
                mm,
            )] == sum_filtered(
                rows,
                |r: TxnRowV|
                    pat_matches(r.date, pat) && ym_prefix(r.date) == month_key(year_s@, mm)
                        && key_in_prefix(sparse@, i as int + 1, r.date),
            ) by {
                let mk = month_key(year_s@, mm);
                let f = |r: TxnRowV|
                    pat_matches(r.date, pat) && ym_prefix(r.date) == mk && key_in_prefix(
                        sparse@,
                        i as int,
                        r.date,
                    );
                let h = |r: TxnRowV|
                    pat_matches(r.date, pat) && ym_prefix(r.date) == mk && key_in_prefix(
                        sparse@,
                        i as int + 1,
                        r.date,
                    );
                if mk == kk {
                    let g2 = |r: TxnRowV| pat_matches(r.date, pat) && r.date == d;
                    assert(kv_view(oldout).contains_key(kk));
                    assert(kv_view(out@)[kk] == kv_view(oldout)[kk] + v);
                    assert(kv_get_or_zero(oldout, kk) + v == sum_filtered(rows, h));
                } else {
                    assert(kv_view(out@)[mk] == kv_view(oldout)[mk]);
                    assert forall|j: int| 0 <= j < rows.len() implies f(#[trigger] rows[j]) == h(
                        rows[j],
                    ) by {
                        let r = rows[j];
                        if r.date == d {
                            assert(ym_prefix(r.date) == kk);
                        } else {
                            if key_in_prefix(sparse@, i as int + 1, r.date) {
                                let jj = choose|jj: int|
                                    0 <= jj < i as int + 1 && (#[trigger] sparse@[jj]).0@ == r.date;
                                assert(jj < i as int);
                                assert(key_in_prefix(sparse@, i as int, r.date));
                            }
                            if key_in_prefix(sparse@, i as int, r.date) {
                                assert(key_in_prefix(sparse@, i as int + 1, r.date));
                            }
                        }
                    }
                    lemma_sum_congruence(rows, f, h);
                }
            }
        }
        i = i + 1;
    }
    proof {
        assert forall|mm: int| 1 <= mm <= 12 implies kv_view(out@)[#[trigger] month_key(
            year_s@,
            mm,
        )] == month_bucket_sum(rows, pat, month_key(year_s@, mm)) by {
            let mk = month_key(year_s@, mm);
            let f = |r: TxnRowV|
                pat_matches(r.date, pat) && ym_prefix(r.date) == mk && key_in_prefix(
                    sparse@,
                    n2 as int,
                    r.date,
                );
            let h = |r: TxnRowV| pat_matches(r.date, pat) && ym_prefix(r.date) == mk;
            assert forall|j: int| 0 <= j < rows.len() implies f(#[trigger] rows[j]) == h(
                rows[j],
            ) by {
                let r = rows[j];
                if pat_matches(r.date, pat) {
                    assert(date_present(rows, pat, r.date));
                    assert(kv_view(sparse@).contains_key(r.date));
                    lemma_kv_view_dom(sparse@, r.date);
                }
            }
            lemma_sum_congruence(rows, f, h);
        }
    }
    out
}

/// Builds one zero-filled bucket per calendar day of a month report and
/// overwrites each bucket that has a per-date sum with that sum.  A date
/// outside the bucket range keeps its own entry.
pub(crate) fn month_dates(
    sparse: &Vec<(String, i128)>,
    year_s: &String,
    month_s: &String,
    days: u32,
    Ghost(rows): Ghost<Seq<TxnRowV>>,
    Ghost(pat): Ghost<Seq<char>>,
) -> (out: Vec<(String, i128)>)
    requires
        kv_keys_unique(sparse@),
        forall|k: Seq<char>| #[trigger] kv_view(sparse@).contains_key(k) <==> date_present(rows, pat, k),
        forall|k: Seq<char>| #[trigger]
            kv_view(sparse@).contains_key(k) ==> kv_view(sparse@)[k] == date_sum(rows, pat, k),
        1 <= days <= 31,
    ensures
        kv_keys_unique(out@),
        out@.len() >= days,
        forall|d: int|
            1 <= d <= days ==> kv_view(out@).contains_key(#[trigger] day_key(year_s@, month_s@, d)),
        forall|k: Seq<char>| #[trigger]
            kv_view(out@).contains_key(k) ==> (exists|d: int|
                1 <= d <= days && k == day_key(year_s@, month_s@, d)) || date_present(rows, pat, k),
        forall|k: Seq<char>| #[trigger]
            date_present(rows, pat, k) ==> kv_view(out@).contains_key(k) && kv_view(out@)[k]
                == date_sum(rows, pat, k),
        forall|k: Seq<char>|
            #[trigger] kv_view(out@).contains_key(k) && !date_present(rows, pat, k) ==> kv_view(
                out@,
            )[k] == 0,
        !(exists|k: Seq<char>| #[trigger]
            date_present(rows, pat, k) && !is_day_key(k, year_s@, month_s@, days as int))
            ==> out@.len() == days,
{
    let mut out: Vec<(String, i128)> = Vec::new();
    let mut dd: u32 = 1;
    while dd <= days
        invariant
            1 <= dd <= days + 1,
            days <= 31,
            out@.len() == dd - 1,
            forall|j: int|
                0 <= j < out@.len() ==> (#[trigger] out@[j]).0@ == day_key(year_s@, month_s@, j + 1)
                    && out@[j].1 == 0,
        decreases days + 1 - dd,
    {
        let mut key = year_s.clone();
        key.append("-");
        key.append(month_s.as_str());
        key.append("-");
        push_two_digit(&mut key, dd);
        proof {
            reveal_strlit("-");
            assert(("-")@ =~= seq!['-']);
            assert(key@ =~= day_key(year_s@, month_s@, dd as int));
        }
        out.push((key, 0));
        dd = dd + 1;
    }
    proof {
        assert(kv_keys_unique(out@)) by {
            assert forall|i: int, j: int| 0 <= i < j < out@.len() implies out@[i].0@
                != out@[j].0@ by {
                lemma_day_key_inj(year_s@, month_s@, i + 1, j + 1);
            }
        }
        assert forall|d: int| 1 <= d <= days implies kv_view(out@).contains_key(
            #[trigger] day_key(year_s@, month_s@, d),
        ) && kv_view(out@)[day_key(year_s@, month_s@, d)] == 0 by {
            lemma_kv_view_at(out@, d - 1);
        }
        assert forall|k: Seq<char>| #[trigger] kv_view(out@).contains_key(k) implies exists|d: int|
            1 <= d <= days && k == day_key(year_s@, month_s@, d) by {
            lemma_kv_view_dom(out@, k);
            let j = choose|j: int| 0 <= j < out@.len() && out@[j].0@ == k;
            assert(k == day_key(year_s@, month_s@, j + 1));
        }
    }
    let n2 = sparse.len();
    let mut i: usize = 0;
    while i < n2
        invariant
            i <= n2,
            n2 == sparse@.len(),
            kv_keys_unique(sparse@),
            forall|k: Seq<char>| #[trigger] kv_view(sparse@).contains_key(k) <==> date_present(rows, pat, k),
            forall|k: Seq<char>| #[trigger]
                kv_view(sparse@).contains_key(k) ==> kv_view(sparse@)[k] == date_sum(rows, pat, k),
            1 <= days <= 31,
            out@.len() >= days,
            kv_keys_unique(out@),
            forall|d: int|
                1 <= d <= days ==> kv_view(out@).contains_key(
                    #[trigger] day_key(year_s@, month_s@, d),
                ),
            forall|k: Seq<char>| #[trigger]
                kv_view(out@).contains_key(k) ==> (exists|d: int|
                    1 <= d <= days && k == day_key(year_s@, month_s@, d)) || key_in_prefix(
                    sparse@,
                    i as int,
                    k,
                ),
            forall|k: Seq<char>| #[trigger]
                key_in_prefix(sparse@, i as int, k) ==> kv_view(out@).contains_key(k) && kv_view(
                    out@,
                )[k] == kv_view(sparse@)[k],
            forall|k: Seq<char>|
                #[trigger] kv_view(out@).contains_key(k) && !key_in_prefix(sparse@, i as int, k)
                    ==> kv_view(out@)[k] == 0,
            out@.len() == days + stray_count(sparse@, i as int, year_s@, month_s@, days as int),
        decreases n2 - i,
    {
        let ghost d = sparse@[i as int].0@;
        proof {
            lemma_kv_view_at(sparse@, i as int);
            assert(kv_view(sparse@).contains_key(d));
        }
        let ghost oldout = out@;
        let key_ref = sparse[i].0.clone();
        kv_put(&mut out, &key_ref, sparse[i].1);
        proof {
            assert(kv_view(out@) == kv_view(oldout).insert(d, kv_view(sparse@)[d]));
            assert forall|k: Seq<char>| #[trigger]
                key_in_prefix(sparse@, i as int + 1, k) implies kv_view(out@).contains_key(k)
                && kv_view(out@)[k] == kv_view(sparse@)[k] by {
                if k == d {
                } else {
                    let jj = choose|jj: int|
                        0 <= jj < i as int + 1 && (#[trigger] sparse@[jj]).0@ == k;
                    assert(jj < i as int);
                    assert(key_in_prefix(sparse@, i as int, k));
                }
            }
            assert forall|k: Seq<char>| #[trigger]
                kv_view(out@).contains_key(k) && !key_in_prefix(sparse@, i as int + 1, k) implies
                kv_view(out@)[k] == 0 by {
                assert(k != d);
                if key_in_prefix(sparse@, i as int, k) {
                    let jj = choose|jj: int| 0 <= jj < i as int && (#[trigger] sparse@[jj]).0@ == k;
                    assert(key_in_prefix(sparse@, i as int + 1, k));
                }
            }
            assert forall|k: Seq<char>| #[trigger] kv_view(out@).contains_key(k) implies (exists|
                d2: int,
            |
                1 <= d2 <= days && k == day_key(year_s@, month_s@, d2)) || key_in_prefix(
                sparse@,
                i as int + 1,
                k,
            ) by {
                if k == d {
                    assert(sparse@[i as int].0@ == k);
                    assert(key_in_prefix(sparse@, i as int + 1, k));
                } else {
                    assert(kv_view(oldout).contains_key(k));
                    if key_in_prefix(sparse@, i as int, k) {
                        assert(key_in_prefix(sparse@, i as int + 1, k));
                    }
                }
            }
            assert(kv_view(oldout).contains_key(d) == is_day_key(d, year_s@, month_s@,
            days as int)) by {
                if kv_view(oldout).contains_key(d) && !is_day_key(d, year_s@, month_s@,
                days as int) {
                    assert(key_in_prefix(sparse@, i as int, d));
                    let jj = choose|jj: int| 0 <= jj < i as int && (#[trigger] sparse@[jj]).0@ == d;
                    assert(sparse@[jj].0@ == sparse@[i as int].0@);
                    assert(false);
                }
                if is_day_key(d, year_s@, month_s@, days as int) {
                    let d2 = choose|d2: int|
                        1 <= d2 <= days && d == day_key(year_s@, month_s@, d2);
                    assert(kv_view(oldout).contains_key(day_key(year_s@, month_s@, d2)));
                }
            }
            assert(stray_count(sparse@, i as int + 1, year_s@, month_s@, days as int)
                == stray_count(sparse@, i as int, year_s@, month_s@, days as int) + if is_day_key(
                d,
                year_s@,
                month_s@,
                days as int,
            ) {
                0int
            } else {
                1int
            });
        }
        i = i + 1;
    }
    proof {
        assert forall|k: Seq<char>| #[trigger] kv_view(out@).contains_key(k) implies (exists|
            d: int,
        |
            1 <= d <= days && k == day_key(year_s@, month_s@, d)) || date_present(rows, pat, k) by {
            if key_in_prefix(sparse@, n2 as int, k) {
                let j = choose|j: int| 0 <= j < n2 as int && (#[trigger] sparse@[j]).0@ == k;
                lemma_kv_view_at(sparse@, j);
                assert(kv_view(sparse@).contains_key(k));
            }
        }
        assert forall|k: Seq<char>| #[trigger] date_present(rows, pat, k) implies kv_view(
            out@,
        ).contains_key(k) && kv_view(out@)[k] == date_sum(rows, pat, k) by {
            assert(kv_view(sparse@).contains_key(k));
            lemma_kv_view_dom(sparse@, k);
            let j = choose|j: int| 0 <= j < sparse@.len() && sparse@[j].0@ == k;
            assert(key_in_prefix(sparse@, n2 as int, k));
        }
        assert forall|k: Seq<char>|
            #[trigger] kv_view(out@).contains_key(k) && !date_present(rows, pat, k) implies kv_view(
            out@,
        )[k] == 0 by {
            if key_in_prefix(sparse@, n2 as int, k) {
                let j = choose|j: int| 0 <= j < n2 as int && (#[trigger] sparse@[j]).0@ == k;
                lemma_kv_view_at(sparse@, j);
                assert(kv_view(sparse@).contains_key(k));
            }
        }
        if !(exists|k: Seq<char>| #[trigger]
            date_present(rows, pat, k) && !is_day_key(k, year_s@, month_s@, days as int)) {
            assert forall|j: int| 0 <= j < i implies is_day_key(
                (#[trigger] sparse@[j]).0@,
                year_s@,
                month_s@,
                days as int,
            ) by {
                lemma_kv_view_at(sparse@, j);
                assert(kv_view(sparse@).contains_key(sparse@[j].0@));
                assert(date_present(rows, pat, sparse@[j].0@));
                if !is_day_key(sparse@[j].0@, year_s@, month_s@, days as int) {
                    assert(date_present(rows, pat, sparse@[j].0@) && !is_day_key(
                        sparse@[j].0@,
                        year_s@,
                        month_s@,
                        days as int,
                    ));
                    assert(false);
                }
            }
            lemma_stray_count_zero(sparse@, i as int, year_s@, month_s@, days as int);
            assert(out@.len() == days);
        }
    }
    out
}

} // verus!
