//! Keyed running totals.
//!
//! The report maps (per-date sums, per-category-set sums, zero-filled
//! buckets) are kept as vectors of `(key, amount)` pairs with pairwise
//! distinct keys, viewed in specifications as a `Map<Seq<char>, int>`.

use vstd::prelude::*;

verus! {

/// The map denoted by a key/amount list; later entries win.
pub open spec fn kv_view(s: Seq<(String, i128)>) -> Map<Seq<char>, int>
    decreases s.len(),
{
    if s.len() == 0 {
        Map::empty()
    } else {
        kv_view(s.drop_last()).insert(s.last().0@, s.last().1 as int)
    }
}

/// No two entries share a key.
pub open spec fn kv_keys_unique(s: Seq<(String, i128)>) -> bool {
    forall|i: int, j: int| 0 <= i < j < s.len() ==> s[i].0@ != s[j].0@
}

/// The amount under `k`, or zero when `k` is absent.
pub open spec fn kv_get_or_zero(s: Seq<(String, i128)>, k: Seq<char>) -> int {
    if kv_view(s).contains_key(k) {
        kv_view(s)[k]
    } else {
        0
    }
}

/// A key is in the viewed map exactly when some entry holds it.
pub proof fn lemma_kv_view_dom(s: Seq<(String, i128)>, k: Seq<char>)
    ensures
        kv_view(s).contains_key(k) <==> exists|i: int| 0 <= i < s.len() && s[i].0@ == k,
    decreases s.len(),
{
    if s.len() != 0 {
        lemma_kv_view_dom(s.drop_last(), k);
        if s.last().0@ == k {
            assert(s[s.len() - 1].0@ == k);
        } else if exists|i: int| 0 <= i < s.len() && s[i].0@ == k {
            let i = choose|i: int| 0 <= i < s.len() && s[i].0@ == k;
            assert(s.drop_last()[i] == s[i]);
        }
    }
}

/// With distinct keys, the entry holding `k` gives the mapped amount.
pub proof fn lemma_kv_view_at(s: Seq<(String, i128)>, i: int)
    requires
        kv_keys_unique(s),
        0 <= i < s.len(),
    ensures
        kv_view(s).contains_key(s[i].0@),
        kv_view(s)[s[i].0@] == s[i].1 as int,
    decreases s.len(),
{
    if i == s.len() - 1 {
        lemma_kv_view_dom(s, s[i].0@);
    } else {
        assert(s.drop_last()[i] == s[i]);
        lemma_kv_view_at(s.drop_last(), i);
        assert(s[s.len() - 1].0@ != s[i].0@);
    }
}

/// Replacing the amount of the entry at `i` updates the viewed map at
/// that entry's key.
pub proof fn lemma_kv_view_update(s: Seq<(String, i128)>, i: int, e: (String, i128))
    requires
        kv_keys_unique(s),
        0 <= i < s.len(),
        e.0@ == s[i].0@,
    ensures
        kv_view(s.update(i, e)) == kv_view(s).insert(e.0@, e.1 as int),
    decreases s.len(),
{
    let t = s.update(i, e);
    if i == s.len() - 1 {
        assert(t.drop_last() =~= s.drop_last());
        assert(t.last() == e);
        assert(kv_view(t) =~= kv_view(s).insert(e.0@, e.1 as int));
    } else {
        assert(t.drop_last() =~= s.drop_last().update(i, e));
        assert(s.drop_last()[i] == s[i]);
        lemma_kv_view_update(s.drop_last(), i, e);
        assert(t.last() == s.last());
        assert(s[s.len() - 1].0@ != s[i].0@);
        assert(kv_view(t) =~= kv_view(s).insert(e.0@, e.1 as int));
    }
}

/// Finds the index of the entry holding `key`, if any.
fn kv_find(entries: &Vec<(String, i128)>, key: &String) -> (r: Option<usize>)
    ensures
        r matches Some(i) ==> i < entries@.len() && entries@[i as int].0@ == key@,
        r is None ==> forall|i: int| 0 <= i < entries@.len() ==> entries@[i].0@ != key@,
{
    let n = entries.len();
    let mut i: usize = 0;
    while i < n
        invariant
            i <= n,
            n == entries@.len(),
            forall|j: int| 0 <= j < i ==> entries@[j].0@ != key@,
        decreases n - i,
    {
        if entries[i].0 == *key {
            return Some(i);
        }
        i = i + 1;
    }
    None
}

/// Adds `amount` under `key`, inserting the key at the end if absent.
pub fn kv_accumulate(entries: &mut Vec<(String, i128)>, key: &String, amount: i128)
    requires
        kv_keys_unique(old(entries)@),
        i128::MIN <= kv_get_or_zero(old(entries)@, key@) + amount <= i128::MAX,
    ensures
        kv_keys_unique(final(entries)@),
        kv_view(final(entries)@) == kv_view(old(entries)@).insert(
            key@,
            kv_get_or_zero(old(entries)@, key@) + amount,
        ),
        final(entries)@.len() == old(entries)@.len() + (if kv_view(old(entries)@).contains_key(
            key@,
        ) {
            0int
        } else {
            1int
        }),
        forall|i: int|
            0 <= i < old(entries)@.len() ==> #[trigger] final(entries)@[i].0@ == old(
                entries,
            )@[i].0@,
{
    match kv_find(entries, key) {
        Some(i) => {
            proof {
                lemma_kv_view_at(entries@, i as int);
            }
            let k2 = entries[i].0.clone();
            let newv = entries[i].1 + amount;
            let ghost before = entries@;
            entries.set(i, (k2, newv));
            proof {
                lemma_kv_view_update(before, i as int, (k2, newv));
                lemma_kv_view_dom(before, key@);
                assert(final(entries)@ =~= before.update(i as int, (k2, newv)));
            }
        },
        None => {
            proof {
                lemma_kv_view_dom(entries@, key@);
            }
            let ghost before = entries@;
            entries.push((key.clone(), amount));
            proof {
                assert(final(entries)@.drop_last() =~= before);
                assert(kv_view(final(entries)@) == kv_view(before).insert(key@, amount as int));
            }
        },
    }
}

/// Puts `amount` under `key`, overwriting any previous amount.
pub fn kv_put(entries: &mut Vec<(String, i128)>, key: &String, amount: i128)
    requires
        kv_keys_unique(old(entries)@),
    ensures
        kv_keys_unique(final(entries)@),
        kv_view(final(entries)@) == kv_view(old(entries)@).insert(key@, amount as int),
        final(entries)@.len() == old(entries)@.len() + (if kv_view(old(entries)@).contains_key(
            key@,
        ) {
            0int
        } else {
            1int
        }),
        forall|i: int|
            0 <= i < old(entries)@.len() ==> #[trigger] final(entries)@[i].0@ == old(
                entries,
            )@[i].0@,
{
    match kv_find(entries, key) {
        Some(i) => {
            let k2 = entries[i].0.clone();
            let ghost before = entries@;
            entries.set(i, (k2, amount));
            proof {
                lemma_kv_view_update(before, i as int, (k2, amount));
                lemma_kv_view_dom(before, key@);
                assert(final(entries)@ =~= before.update(i as int, (k2, amount)));
            }
        },
        None => {
            proof {
                lemma_kv_view_dom(entries@, key@);
            }
            let ghost before = entries@;
            entries.push((key.clone(), amount));
            proof {
                assert(final(entries)@.drop_last() =~= before);
            }
        },
    }
}

/// Adds `amount` under `key` only where the key is already present.
pub fn kv_add_if_present(entries: &mut Vec<(String, i128)>, key: &String, amount: i128)
    requires
        kv_keys_unique(old(entries)@),
        i128::MIN <= kv_get_or_zero(old(entries)@, key@) + amount <= i128::MAX,
    ensures
        kv_keys_unique(final(entries)@),
        final(entries)@.len() == old(entries)@.len(),
        kv_view(old(entries)@).contains_key(key@) ==> kv_view(final(entries)@) == kv_view(
            old(entries)@,
        ).insert(key@, kv_view(old(entries)@)[key@] + amount),
        !kv_view(old(entries)@).contains_key(key@) ==> kv_view(final(entries)@) == kv_view(
            old(entries)@,
        ),
        forall|i: int|
            0 <= i < old(entries)@.len() ==> #[trigger] final(entries)@[i].0@ == old(
                entries,
            )@[i].0@,
{
    match kv_find(entries, key) {
        Some(i) => {
            proof {
                lemma_kv_view_at(entries@, i as int);
                lemma_kv_view_dom(entries@, key@);
            }
            let k2 = entries[i].0.clone();
            let newv = entries[i].1 + amount;
            let ghost before = entries@;
            entries.set(i, (k2, newv));
            proof {
                lemma_kv_view_update(before, i as int, (k2, newv));
                assert(final(entries)@ =~= before.update(i as int, (k2, newv)));
            }
        },
        None => {
            proof {
                lemma_kv_view_dom(entries@, key@);
            }
        },
    }
}

} // verus!
