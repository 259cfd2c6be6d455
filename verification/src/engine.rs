//! The report aggregator's verified core: date-pattern matching,
//! filtered sums over transaction rows, and category-set keys.

use vstd::prelude::*;
use vstd::string::StrSliceExecFns;
use vstd::string::StringExecFns;

use crate::models::LinkRow;
use crate::models::LinkRowV;
use crate::models::TxnRow;
use crate::models::TxnRowV;

verus! {

/// A date matches a pattern when they have the same length and every
/// pattern position is either the wildcard `_` or the same character.
pub open spec fn pat_matches(d: Seq<char>, p: Seq<char>) -> bool {
    d.len() == p.len() && forall|i: int| 0 <= i < p.len() ==> p[i] == '_' || p[i] == d[i]
}

pub open spec fn txns_view(s: Seq<TxnRow>) -> Seq<TxnRowV> {
    s.map_values(|t: TxnRow| t@)
}

pub open spec fn links_view(s: Seq<LinkRow>) -> Seq<LinkRowV> {
    s.map_values(|l: LinkRow| l@)
}

/// Sum of the values of the rows that satisfy `f`.
pub open spec fn sum_filtered(s: Seq<TxnRowV>, f: spec_fn(TxnRowV) -> bool) -> int
    decreases s.len(),
{
    if s.len() == 0 {
        0
    } else {
        sum_filtered(s.drop_last(), f) + if f(s.last()) {
            s.last().value
        } else {
            0int
        }
    }
}

/// A sum over rows that nowhere satisfy `f` is zero.
pub proof fn lemma_sum_none(s: Seq<TxnRowV>, f: spec_fn(TxnRowV) -> bool)
    requires
        forall|i: int| 0 <= i < s.len() ==> !f(#[trigger] s[i]),
    ensures
        sum_filtered(s, f) == 0,
    decreases s.len(),
{
    if s.len() != 0 {
        assert(!f(s[s.len() - 1]));
        lemma_sum_none(s.drop_last(), f);
    }
}

/// Sums over predicates that agree on every row are equal.
pub proof fn lemma_sum_congruence(
    s: Seq<TxnRowV>,
    f: spec_fn(TxnRowV) -> bool,
    g: spec_fn(TxnRowV) -> bool,
)
    requires
        forall|i: int| 0 <= i < s.len() ==> f(#[trigger] s[i]) == g(s[i]),
    ensures
        sum_filtered(s, f) == sum_filtered(s, g),
    decreases s.len(),
{
    if s.len() != 0 {
        assert(f(s[s.len() - 1]) == g(s[s.len() - 1]));
        lemma_sum_congruence(s.drop_last(), f, g);
    }
}

/// A sum splits over a disjoint case distinction of its predicate.
pub proof fn lemma_sum_split(
    s: Seq<TxnRowV>,
    h: spec_fn(TxnRowV) -> bool,
    f: spec_fn(TxnRowV) -> bool,
    g: spec_fn(TxnRowV) -> bool,
)
    requires
        forall|i: int| 0 <= i < s.len() ==> h(#[trigger] s[i]) == (f(s[i]) || g(s[i])),
        forall|i: int| 0 <= i < s.len() ==> !(f(#[trigger] s[i]) && g(s[i])),
    ensures
        sum_filtered(s, h) == sum_filtered(s, f) + sum_filtered(s, g),
    decreases s.len(),
{
    if s.len() != 0 {
        assert(h(s[s.len() - 1]) == (f(s[s.len() - 1]) || g(s[s.len() - 1])));
        assert(!(f(s[s.len() - 1]) && g(s[s.len() - 1])));
        lemma_sum_split(s.drop_last(), h, f, g);
    }
}

/// All row values in `s` fit in `i64`.
pub open spec fn rows_bounded(s: Seq<TxnRowV>) -> bool {
    forall|i: int| 0 <= i < s.len() ==> i64::MIN <= (#[trigger] s[i]).value <= i64::MAX
}

/// Whether `date` matches `pat` in the sense of [`pat_matches`].
pub fn matches_pattern(date: &str, pat: &str) -> (b: bool)
    ensures
        b == pat_matches(date@, pat@),
{
    let nd = date.unicode_len();
    let np = pat.unicode_len();
    if nd != np {
        return false;
    }
    let mut i: usize = 0;
    while i < np
        invariant
            i <= np,
            np == pat@.len(),
            nd == date@.len(),
            nd == np,
            forall|j: int| 0 <= j < i ==> pat@[j] == '_' || pat@[j] == date@[j],
        decreases np - i,
    {
        let pc = pat.get_char(i);
        if pc != '_' {
            let dc = date.get_char(i);
            if pc != dc {
                return false;
            }
        }
        i = i + 1;
    }
    true
}

/// Whether any link row names transaction `t`.
pub open spec fn has_link(ls: Seq<LinkRowV>, t: int) -> bool {
    exists|j: int| 0 <= j < ls.len() && ls[j].tid == t
}

fn has_link_exec(links: &Vec<LinkRow>, id: i64) -> (b: bool)
    ensures
        b == has_link(links_view(links@), id as int),
{
    let n = links.len();
    let mut j: usize = 0;
    while j < n
        invariant
            j <= n,
            n == links@.len(),
            forall|k: int| 0 <= k < j ==> links_view(links@)[k].tid != id as int,
        decreases n - j,
    {
        if links[j].transaction_id == id {
            assert(links_view(links@)[j as int].tid == id as int);
            return true;
        }
        j = j + 1;
    }
    false
}

pub proof fn lemma_sum_bound(s: Seq<TxnRowV>, f: spec_fn(TxnRowV) -> bool)
    requires
        rows_bounded(s),
    ensures
        s.len() * (i64::MIN as int) <= sum_filtered(s, f) <= s.len() * (i64::MAX as int),
    decreases s.len(),
{
    if s.len() != 0 {
        let t = s.drop_last();
        assert forall|j: int| 0 <= j < t.len() implies i64::MIN <= (#[trigger] t[j]).value
            <= i64::MAX by {
            assert(t[j] == s[j]);
        }
        lemma_sum_bound(t, f);
        assert(i64::MIN <= s[s.len() - 1].value <= i64::MAX);
        assert((s.len() - 1) * (i64::MIN as int) + (i64::MIN as int) == s.len() * (
        i64::MIN as int)) by (nonlinear_arith);
        assert((s.len() - 1) * (i64::MAX as int) + (i64::MAX as int) == s.len() * (
        i64::MAX as int)) by (nonlinear_arith);
    }
}

/// A partial sum of at most `usize::MAX` row values, plus one more row
/// value, stays far inside the `i128` range.
pub proof fn lemma_partial_sum_fits(s: Seq<TxnRowV>, f: spec_fn(TxnRowV) -> bool, i: int)
    requires
        rows_bounded(s),
        0 <= i < s.len(),
        s.len() <= usize::MAX,
    ensures
        i128::MIN <= sum_filtered(s.take(i), f) + s[i].value <= i128::MAX,
        i128::MIN <= sum_filtered(s.take(i), f) <= i128::MAX,
{
    let t = s.take(i);
    assert forall|j: int| 0 <= j < t.len() implies i64::MIN <= (#[trigger] t[j]).value
        <= i64::MAX by {
        assert(t[j] == s[j]);
    }
    lemma_sum_bound(t, f);
    assert(usize::MAX as int <= 0xFFFF_FFFF_FFFF_FFFF);
    assert((i + 1) * (i64::MIN as int) >= 0x1_0000_0000_0000_0000 * (i64::MIN as int))
        by (nonlinear_arith)
        requires
            0 <= i + 1 <= 0x1_0000_0000_0000_0000,
    ;
    assert((i + 1) * (i64::MAX as int) <= 0x1_0000_0000_0000_0000 * (i64::MAX as int))
        by (nonlinear_arith)
        requires
            0 <= i + 1 <= 0x1_0000_0000_0000_0000,
    ;
    assert(i * (i64::MIN as int) + (i64::MIN as int) == (i + 1) * (i64::MIN as int))
        by (nonlinear_arith);
    assert(i * (i64::MAX as int) + (i64::MAX as int) == (i + 1) * (i64::MAX as int))
        by (nonlinear_arith);
}

/// A sum of at most `usize::MAX` row values fits in `i128`.
pub proof fn lemma_sum_fits(s: Seq<TxnRowV>, f: spec_fn(TxnRowV) -> bool)
    requires
        rows_bounded(s),
        s.len() <= usize::MAX,
    ensures
        i128::MIN <= sum_filtered(s, f) <= i128::MAX,
{
    lemma_sum_bound(s, f);
    assert(usize::MAX as int <= 0xFFFF_FFFF_FFFF_FFFF);
    assert(s.len() * (i64::MIN as int) >= 0x1_0000_0000_0000_0000 * (i64::MIN as int))
        by (nonlinear_arith)
        requires
            0 <= s.len() <= 0x1_0000_0000_0000_0000,
    ;
    assert(s.len() * (i64::MAX as int) <= 0x1_0000_0000_0000_0000 * (i64::MAX as int))
        by (nonlinear_arith)
        requires
            0 <= s.len() <= 0x1_0000_0000_0000_0000,
    ;
}

/// Some matching row in `rows` carries the creation date `k`.
pub open spec fn date_present(rows: Seq<TxnRowV>, pat: Seq<char>, k: Seq<char>) -> bool {
    exists|i: int| 0 <= i < rows.len() && pat_matches((#[trigger] rows[i]).date, pat) && rows[i].date
        == k
}

/// Sum of the values of the matching rows dated `k`.
pub open spec fn date_sum(rows: Seq<TxnRowV>, pat: Seq<char>, k: Seq<char>) -> int {
    sum_filtered(rows, |r: TxnRowV| pat_matches(r.date, pat) && r.date == k)
}

/// Sum of the values of all matching rows.
pub open spec fn total_sum(rows: Seq<TxnRowV>, pat: Seq<char>) -> int {
    sum_filtered(rows, |r: TxnRowV| pat_matches(r.date, pat))
}

/// Sum of the values of the matching rows that have no category link.
pub open spec fn uncategorized_sum(rows: Seq<TxnRowV>, ls: Seq<LinkRowV>, pat: Seq<char>) -> int {
    sum_filtered(rows, |r: TxnRowV| pat_matches(r.date, pat) && !has_link(ls, r.id))
}

/// Sums the values of all transactions whose date matches `pat`.
pub fn total_of(rows: &Vec<TxnRow>, pat: &String) -> (t: i128)
    ensures
        t == total_sum(txns_view(rows@), pat@),
{
    let ghost tv = txns_view(rows@);
    let ghost f = |r: TxnRowV| pat_matches(r.date, pat@);
    proof {
        assert(rows_bounded(tv));
    }
    let n = rows.len();
    let mut acc: i128 = 0;
    let mut i: usize = 0;
    while i < n
        invariant
            i <= n,
            n == rows@.len(),
            tv == txns_view(rows@),
            rows_bounded(tv),
            f == (|r: TxnRowV| pat_matches(r.date, pat@)),
            acc == sum_filtered(tv.take(i as int), f),
        decreases n - i,
    {
        proof {
            lemma_partial_sum_fits(tv, f, i as int);
            assert(tv.take(i as int + 1).drop_last() =~= tv.take(i as int));
            assert(tv[i as int] == rows@[i as int]@);
        }
        let row = &rows[i];
        if matches_pattern(row.date_created.as_str(), pat.as_str()) {
            acc = acc + row.value as i128;
        }
        i = i + 1;
    }
    proof {
        assert(tv.take(n as int) =~= tv);
    }
    acc
}

/// Sums the values of the matching transactions that carry no category.
pub fn uncategorized_of(rows: &Vec<TxnRow>, links: &Vec<LinkRow>, pat: &String) -> (t: i128)
    ensures
        t == uncategorized_sum(txns_view(rows@), links_view(links@), pat@),
{
    let ghost tv = txns_view(rows@);
    let ghost lv = links_view(links@);
    let ghost f = |r: TxnRowV| pat_matches(r.date, pat@) && !has_link(lv, r.id);
    proof {
        assert(rows_bounded(tv));
    }
    let n = rows.len();
    let mut acc: i128 = 0;
    let mut i: usize = 0;
    while i < n
        invariant
            i <= n,
            n == rows@.len(),
            tv == txns_view(rows@),
            lv == links_view(links@),
            rows_bounded(tv),
            f == (|r: TxnRowV| pat_matches(r.date, pat@) && !has_link(lv, r.id)),
            acc == sum_filtered(tv.take(i as int), f),
        decreases n - i,
    {
        proof {
            lemma_partial_sum_fits(tv, f, i as int);
            assert(tv.take(i as int + 1).drop_last() =~= tv.take(i as int));
            assert(tv[i as int] == rows@[i as int]@);
        }
        let row = &rows[i];
        if matches_pattern(row.date_created.as_str(), pat.as_str()) && !has_link_exec(
            links,
            row.id,
        ) {
            acc = acc + row.value as i128;
        }
        i = i + 1;
    }
    proof {
        assert(tv.take(n as int) =~= tv);
    }
    acc
}

/// Groups the matching transactions by exact creation date and sums the
/// values per date.  The result is sparse: only dates with at least one
/// matching transaction appear.
pub fn date_totals(rows: &Vec<TxnRow>, pat: &String) -> (out: Vec<(String, i128)>)
    ensures
        crate::kv::kv_keys_unique(out@),
        forall|k: Seq<char>| #[trigger]
            crate::kv::kv_view(out@).contains_key(k) <==> date_present(
                txns_view(rows@),
                pat@,
                k,
            ),
        forall|k: Seq<char>| #[trigger]
            crate::kv::kv_view(out@).contains_key(k) ==> crate::kv::kv_view(out@)[k] == date_sum(
                txns_view(rows@),
                pat@,
                k,
            ),
{
    let ghost tv = txns_view(rows@);
    proof {
        assert(rows_bounded(tv));
    }
    let mut out: Vec<(String, i128)> = Vec::new();
    let n = rows.len();
    let mut i: usize = 0;
    while i < n
        invariant
            i <= n,
            n == rows@.len(),
            tv == txns_view(rows@),
            rows_bounded(tv),
            crate::kv::kv_keys_unique(out@),
            forall|k: Seq<char>| #[trigger]
                crate::kv::kv_view(out@).contains_key(k) <==> date_present(
                    tv.take(i as int),
                    pat@,
                    k,
                ),
            forall|k: Seq<char>| #[trigger]
                crate::kv::kv_view(out@).contains_key(k) ==> crate::kv::kv_view(out@)[k]
                    == date_sum(tv.take(i as int), pat@, k),
        decreases n - i,
    {
        let ghost pre = tv.take(i as int);
        let ghost post = tv.take(i as int + 1);
        proof {
            assert(post.drop_last() =~= pre);
            assert(post.last() == tv[i as int]);
            assert(tv[i as int] == rows@[i as int]@);
        }
        let row = &rows[i];
        if matches_pattern(row.date_created.as_str(), pat.as_str()) {
            let ghost key = row.date_created@;
            let ghost fk = |r: TxnRowV| pat_matches(r.date, pat@) && r.date == key;
            proof {
                if !crate::kv::kv_view(out@).contains_key(key) {
                    assert forall|j: int| 0 <= j < pre.len() implies !fk(#[trigger] pre[j]) by {
                        if fk(pre[j]) {
                            assert(date_present(pre, pat@, key));
                        }
                    }
                    lemma_sum_none(pre, fk);
                }
                assert(crate::kv::kv_get_or_zero(out@, key) == date_sum(pre, pat@, key));
                lemma_partial_sum_fits(tv, fk, i as int);
            }
            let ghost oldmap = crate::kv::kv_view(out@);
            crate::kv::kv_accumulate(&mut out, &row.date_created, row.value as i128);
            proof {
                assert forall|k: Seq<char>| #[trigger]
                    crate::kv::kv_view(out@).contains_key(k) <==> date_present(
                        post,
                        pat@,
                        k,
                    ) by {
                    if k == key {
                        assert(pat_matches(post[i as int].date, pat@) && post[i as int].date == k);
                        assert(date_present(post, pat@, k));
                    } else {
                        if date_present(post, pat@, k) {
                            let j = choose|j: int|
                                0 <= j < post.len() && pat_matches(
                                    (#[trigger] post[j]).date,
                                    pat@,
                                ) && post[j].date == k;
                            assert(j < i as int);
                            assert(pre[j] == post[j]);
                            assert(date_present(pre, pat@, k));
                        }
                        if date_present(pre, pat@, k) {
                            let j = choose|j: int|
                                0 <= j < pre.len() && pat_matches(
                                    (#[trigger] pre[j]).date,
                                    pat@,
                                ) && pre[j].date == k;
                            assert(post[j] == pre[j]);
                            assert(date_present(post, pat@, k));
                        }
                    }
                }
                assert forall|k: Seq<char>| #[trigger]
                    crate::kv::kv_view(out@).contains_key(k) implies crate::kv::kv_view(out@)[k]
                    == date_sum(post, pat@, k) by {
                    let fk2 = |r: TxnRowV| pat_matches(r.date, pat@) && r.date == k;
                    assert(date_sum(post, pat@, k) == date_sum(pre, pat@, k) + if fk2(
                        tv[i as int],
                    ) {
                        tv[i as int].value
                    } else {
                        0int
                    });
                    if k == key {
                        assert(crate::kv::kv_view(out@)[k] == date_sum(pre, pat@, key) + tv[
                            i as int].value);
                    } else {
                        assert(crate::kv::kv_view(out@)[k] == oldmap[k]);
                    }
                }
            }
        } else {
            proof {
                assert forall|k: Seq<char>| date_present(post, pat@, k) == date_present(
                    pre,
                    pat@,
                    k,
                ) by {
                    if date_present(post, pat@, k) {
                        let j = choose|j: int|
                            0 <= j < post.len() && pat_matches((#[trigger] post[j]).date, pat@)
                                && post[j].date == k;
                        assert(j < i as int);
                        assert(pre[j] == post[j]);
                        assert(date_present(pre, pat@, k));
                    }
                    if date_present(pre, pat@, k) {
                        let j = choose|j: int|
                            0 <= j < pre.len() && pat_matches((#[trigger] pre[j]).date, pat@)
                                && pre[j].date == k;
                        assert(post[j] == pre[j]);
                        assert(date_present(post, pat@, k));
                    }
                }
                assert forall|k: Seq<char>| #[trigger]
                    crate::kv::kv_view(out@).contains_key(k) implies crate::kv::kv_view(out@)[k]
                    == date_sum(post, pat@, k) by {
                    let fk2 = |r: TxnRowV| pat_matches(r.date, pat@) && r.date == k;
                    assert(!fk2(tv[i as int]));
                    assert(date_sum(post, pat@, k) == date_sum(pre, pat@, k));
                }
            }
        }
        i = i + 1;
    }
    proof {
        assert(tv.take(n as int) =~= tv);
    }
    out
}

/// The labels of the links that name transaction `t`, in link order.
pub open spec fn labels_of(ls: Seq<LinkRowV>, t: int) -> Seq<Seq<char>>
    decreases ls.len(),
{
    if ls.len() == 0 {
        Seq::empty()
    } else if ls.last().tid == t {
        labels_of(ls.drop_last(), t).push(ls.last().label)
    } else {
        labels_of(ls.drop_last(), t)
    }
}

/// Labels joined with a comma-and-space separator.
pub open spec fn join_labels(ls: Seq<Seq<char>>) -> Seq<char>
    decreases ls.len(),
{
    if ls.len() == 0 {
        Seq::empty()
    } else if ls.len() == 1 {
        ls[0]
    } else {
        join_labels(ls.drop_last()) + seq![',', ' '] + ls.last()
    }
}

/// The category-set grouping key of transaction `t`: its category
/// labels, in link order, comma-and-space joined.
pub open spec fn cat_key(ls: Seq<LinkRowV>, t: int) -> Seq<char> {
    join_labels(labels_of(ls, t))
}

pub proof fn lemma_labels_of_has(ls: Seq<LinkRowV>, t: int)
    ensures
        (labels_of(ls, t).len() > 0) == has_link(ls, t),
    decreases ls.len(),
{
    if ls.len() != 0 {
        let dl = ls.drop_last();
        lemma_labels_of_has(dl, t);
        if ls.last().tid == t {
            assert(ls[ls.len() - 1].tid == t);
        } else {
            if has_link(ls, t) {
                let j = choose|j: int| 0 <= j < ls.len() && ls[j].tid == t;
                assert(j < ls.len() - 1);
                assert(dl[j] == ls[j]);
                assert(has_link(dl, t));
            }
            if has_link(dl, t) {
                let j = choose|j: int| 0 <= j < dl.len() && dl[j].tid == t;
                assert(ls[j].tid == t);
            }
        }
    }
}

/// Builds the category-set key for transaction `id`, or `None` when the
/// transaction has no category link.
pub fn category_key(links: &Vec<LinkRow>, id: i64) -> (r: Option<String>)
    ensures
        r is Some <==> has_link(links_view(links@), id as int),
        r matches Some(k) ==> k@ == cat_key(links_view(links@), id as int),
{
    let ghost lv = links_view(links@);
    let mut key = String::new();
    let mut found = false;
    let n = links.len();
    let mut j: usize = 0;
    while j < n
        invariant
            j <= n,
            n == links@.len(),
            lv == links_view(links@),
            found == (labels_of(lv.take(j as int), id as int).len() > 0),
            key@ == join_labels(labels_of(lv.take(j as int), id as int)),
        decreases n - j,
    {
        let ghost labs = labels_of(lv.take(j as int), id as int);
        proof {
            assert(lv.take(j as int + 1).drop_last() =~= lv.take(j as int));
            assert(lv.take(j as int + 1).last() == lv[j as int]);
            assert(lv[j as int] == links@[j as int]@);
        }
        if links[j].transaction_id == id {
            if found {
                key.append(", ");
            }
            key.append(links[j].label.as_str());
            found = true;
            proof {
                reveal_strlit(", ");
                assert((", ")@ =~= seq![',', ' ']);
                let labs2 = labels_of(lv.take(j as int + 1), id as int);
                assert(labs2 == labs.push(lv[j as int].label));
                assert(labs2.drop_last() =~= labs);
                assert(labs2.last() == lv[j as int].label);
                if labs.len() == 0 {
                    assert(labs2[0] == lv[j as int].label);
                    assert(join_labels(labs2) == labs2[0]);
                }
            }
        }
        j = j + 1;
    }
    proof {
        assert(lv.take(n as int) =~= lv);
        lemma_labels_of_has(lv, id as int);
    }
    if found {
        Some(key)
    } else {
        None
    }
}

/// Sign filter: income keeps strictly positive values, expenses keep
/// the rest.
pub open spec fn sign_ok(v: int, income: bool) -> bool {
    if income {
        v > 0
    } else {
        v <= 0
    }
}

/// A row that contributes to the category breakdown for the given sign:
/// it matches the period, has the requested sign, and carries at least
/// one category.
pub open spec fn cat_row_in(r: TxnRowV, ls: Seq<LinkRowV>, pat: Seq<char>, income: bool) -> bool {
    pat_matches(r.date, pat) && sign_ok(r.value, income) && has_link(ls, r.id)
}

/// Some contributing row groups under key `k`.
pub open spec fn cat_present(
    rows: Seq<TxnRowV>,
    ls: Seq<LinkRowV>,
    pat: Seq<char>,
    income: bool,
    k: Seq<char>,
) -> bool {
    exists|i: int|
        0 <= i < rows.len() && cat_row_in(#[trigger] rows[i], ls, pat, income) && cat_key(
            ls,
            rows[i].id,
        ) == k
}

/// Sum of the values of the contributing rows that group under `k`.
pub open spec fn cat_sum(
    rows: Seq<TxnRowV>,
    ls: Seq<LinkRowV>,
    pat: Seq<char>,
    income: bool,
    k: Seq<char>,
) -> int {
    sum_filtered(
        rows,
        |r: TxnRowV| cat_row_in(r, ls, pat, income) && cat_key(ls, r.id) == k,
    )
}

/// Groups the matching transactions of the requested sign by their
/// exact category combination and sums the values per combination.
/// Transactions without categories are left out.
pub fn category_totals(rows: &Vec<TxnRow>, links: &Vec<LinkRow>, pat: &String, income: bool) -> (out:
    Vec<(String, i128)>)
    ensures
        crate::kv::kv_keys_unique(out@),
        forall|k: Seq<char>| #[trigger]
            crate::kv::kv_view(out@).contains_key(k) <==> cat_present(
                txns_view(rows@),
                links_view(links@),
                pat@,
                income,
                k,
            ),
        forall|k: Seq<char>| #[trigger]
            crate::kv::kv_view(out@).contains_key(k) ==> crate::kv::kv_view(out@)[k] == cat_sum(
                txns_view(rows@),
                links_view(links@),
                pat@,
                income,
                k,
            ),
{
    let ghost tv = txns_view(rows@);
    let ghost lv = links_view(links@);
    proof {
        assert(rows_bounded(tv));
    }
    let mut out: Vec<(String, i128)> = Vec::new();
    let n = rows.len();
    let mut i: usize = 0;
    while i < n
        invariant
            i <= n,
            n == rows@.len(),
            tv == txns_view(rows@),
            lv == links_view(links@),
            rows_bounded(tv),
            crate::kv::kv_keys_unique(out@),
            forall|k: Seq<char>| #[trigger]
                crate::kv::kv_view(out@).contains_key(k) <==> cat_present(
                    tv.take(i as int),
                    lv,
                    pat@,
                    income,
                    k,
                ),
            forall|k: Seq<char>| #[trigger]
                crate::kv::kv_view(out@).contains_key(k) ==> crate::kv::kv_view(out@)[k]
                    == cat_sum(tv.take(i as int), lv, pat@, income, k),
        decreases n - i,
    {
        let ghost pre = tv.take(i as int);
        let ghost post = tv.take(i as int + 1);
        proof {
            assert(post.drop_last() =~= pre);
            assert(post.last() == tv[i as int]);
            assert(tv[i as int] == rows@[i as int]@);
        }
        let row = &rows[i];
        let sign_fits = if income {
            row.value > 0
        } else {
            row.value <= 0
        };
        let in_period = matches_pattern(row.date_created.as_str(), pat.as_str());
        let key_opt = if in_period && sign_fits {
            category_key(links, row.id)
        } else {
            None
        };
        match key_opt {
            Some(kstr) => {
                let ghost key = kstr@;
                let ghost fk = |r: TxnRowV|
                    cat_row_in(r, lv, pat@, income) && cat_key(lv, r.id) == key;
                proof {
                    assert(cat_row_in(tv[i as int], lv, pat@, income));
                    assert(cat_key(lv, tv[i as int].id) == key);
                    if !crate::kv::kv_view(out@).contains_key(key) {
                        assert forall|j: int| 0 <= j < pre.len() implies !fk(#[trigger] pre[j]) by {
                            if fk(pre[j]) {
                                assert(cat_present(pre, lv, pat@, income, key));
                            }
                        }
                        lemma_sum_none(pre, fk);
                    }
                    assert(crate::kv::kv_get_or_zero(out@, key) == cat_sum(
                        pre,
                        lv,
                        pat@,
                        income,
                        key,
                    ));
                    lemma_partial_sum_fits(tv, fk, i as int);
                }
                let ghost oldmap = crate::kv::kv_view(out@);
                crate::kv::kv_accumulate(&mut out, &kstr, row.value as i128);
                proof {
                    assert forall|k: Seq<char>| #[trigger]
                        crate::kv::kv_view(out@).contains_key(k) <==> cat_present(
                            post,
                            lv,
                            pat@,
                            income,
                            k,
                        ) by {
                        if k == key {
                            assert(cat_present(post, lv, pat@, income, k));
                        } else {
                            if cat_present(post, lv, pat@, income, k) {
                                let j = choose|j: int|
                                    0 <= j < post.len() && cat_row_in(
                                        #[trigger] post[j],
                                        lv,
                                        pat@,
                                        income,
                                    ) && cat_key(lv, post[j].id) == k;
                                assert(j < i as int);
                                assert(pre[j] == post[j]);
                                assert(cat_present(pre, lv, pat@, income, k));
                            }
                            if cat_present(pre, lv, pat@, income, k) {
                                let j = choose|j: int|
                                    0 <= j < pre.len() && cat_row_in(
                                        #[trigger] pre[j],
                                        lv,
                                        pat@,
                                        income,
                                    ) && cat_key(lv, pre[j].id) == k;
                                assert(post[j] == pre[j]);
                                assert(cat_present(post, lv, pat@, income, k));
                            }
                        }
                    }
                    assert forall|k: Seq<char>| #[trigger]
                        crate::kv::kv_view(out@).contains_key(k) implies crate::kv::kv_view(out@)[k]
                        == cat_sum(post, lv, pat@, income, k) by {
                        let fk2 = |r: TxnRowV|
                            cat_row_in(r, lv, pat@, income) && cat_key(lv, r.id) == k;
                        assert(cat_sum(post, lv, pat@, income, k) == cat_sum(
                            pre,
                            lv,
                            pat@,
                            income,
                            k,
                        ) + if fk2(tv[i as int]) {
                            tv[i as int].value
                        } else {
                            0int
                        });
                        if k == key {
                            assert(crate::kv::kv_view(out@)[k] == cat_sum(pre, lv, pat@, income, key)
                                + tv[i as int].value);
                        } else {
                            assert(crate::kv::kv_view(out@)[k] == oldmap[k]);
                        }
                    }
                }
            },
            None => {
                proof {
                    assert(!cat_row_in(tv[i as int], lv, pat@, income));
                    assert forall|k: Seq<char>| cat_present(post, lv, pat@, income, k)
                        == cat_present(pre, lv, pat@, income, k) by {
                        if cat_present(post, lv, pat@, income, k) {
                            let j = choose|j: int|
                                0 <= j < post.len() && cat_row_in(
                                    #[trigger] post[j],
                                    lv,
                                    pat@,
                                    income,
                                ) && cat_key(lv, post[j].id) == k;
                            assert(j < i as int);
                            assert(pre[j] == post[j]);
                            assert(cat_present(pre, lv, pat@, income, k));
                        }
                        if cat_present(pre, lv, pat@, income, k) {
                            let j = choose|j: int|
                                0 <= j < pre.len() && cat_row_in(
                                    #[trigger] pre[j],
                                    lv,
                                    pat@,
                                    income,
                                ) && cat_key(lv, pre[j].id) == k;
                            assert(post[j] == pre[j]);
                            assert(cat_present(post, lv, pat@, income, k));
                        }
                    }
                    assert forall|k: Seq<char>| #[trigger]
                        crate::kv::kv_view(out@).contains_key(k) implies crate::kv::kv_view(out@)[k]
                        == cat_sum(post, lv, pat@, income, k) by {
                        let fk2 = |r: TxnRowV|
                            cat_row_in(r, lv, pat@, income) && cat_key(lv, r.id) == k;
                        assert(!fk2(tv[i as int]));
                        assert(cat_sum(post, lv, pat@, income, k) == cat_sum(
                            pre,
                            lv,
                            pat@,
                            income,
                            k,
                        ));
                    }
                }
            },
        }
        i = i + 1;
    }
    proof {
        assert(tv.take(n as int) =~= tv);
    }
    out
}

} // verus!
