//! Totals per key: the sums that the catalog statistics group by a text key.
use vstd::prelude::*;
use crate::text::str_eq;

verus! {

/// The plain content of a list of (text, count) entries.
pub open spec fn entries_view(items: Seq<(String, usize)>) -> Seq<(Seq<char>, nat)> {
    items.map_values(|e: (String, usize)| (e.0@, e.1 as nat))
}

pub proof fn lemma_entries_view_push(items: Seq<(String, usize)>, e: (String, usize))
    ensures
        entries_view(items.push(e)) == entries_view(items).push((e.0@, e.1 as nat)),
{
    assert(entries_view(items.push(e)) =~= entries_view(items).push((e.0@, e.1 as nat)));
}

/// The sum of the counts of the entries whose key is `key`.
pub open spec fn keyed_total(items: Seq<(Seq<char>, nat)>, key: Seq<char>) -> nat
    decreases items.len(),
{
    if items.len() == 0 {
        0
    } else {
        keyed_total(items.drop_last(), key) + if items.last().0 == key {
            items.last().1
        } else {
            0nat
        }
    }
}

/// Some entry has key `key`.
pub open spec fn has_key(items: Seq<(Seq<char>, nat)>, key: Seq<char>) -> bool {
    exists|i: int| 0 <= i < items.len() && (#[trigger] items[i]).0 == key
}

/// No two entries have the same key.
pub open spec fn keys_distinct(items: Seq<(String, usize)>) -> bool {
    forall|i: int, j: int| 0 <= i < j < items.len() ==> (#[trigger] items[i]).0@ != (#[trigger] items[j]).0@
}

/// `totals` holds, once per key of `items`, the total of that key.
pub open spec fn is_tally_of(totals: Seq<(String, usize)>, items: Seq<(Seq<char>, nat)>) -> bool {
    &&& keys_distinct(totals)
    &&& forall|i: int| 0 <= i < totals.len() ==> (#[trigger] totals[i]).1 == keyed_total(items, totals[i].0@)
    &&& forall|k: Seq<char>| #[trigger] has_key(items, k) <==> has_key(entries_view(totals), k)
}

/// Every total of `items` fits a `usize`.
pub open spec fn totals_fit(items: Seq<(Seq<char>, nat)>) -> bool {
    forall|k: Seq<char>| #[trigger] keyed_total(items, k) <= usize::MAX
}

pub proof fn lemma_keyed_total_prefix(items: Seq<(Seq<char>, nat)>, i: int, k: Seq<char>)
    requires
        0 <= i <= items.len(),
    ensures
        keyed_total(items.subrange(0, i), k) <= keyed_total(items, k),
    decreases items.len(),
{
    if i == items.len() {
        assert(items.subrange(0, i) =~= items);
    } else {
        assert(items.drop_last().subrange(0, i) =~= items.subrange(0, i));
        lemma_keyed_total_prefix(items.drop_last(), i, k);
    }
}

pub proof fn lemma_keyed_total_absent(items: Seq<(Seq<char>, nat)>, k: Seq<char>)
    requires
        !has_key(items, k),
    ensures
        keyed_total(items, k) == 0,
    decreases items.len(),
{
    if items.len() > 0 {
        assert(!has_key(items.drop_last(), k)) by {
            if has_key(items.drop_last(), k) {
                let w = choose|w: int| 0 <= w < items.drop_last().len() && (#[trigger] items.drop_last()[w]).0 == k;
                assert(items[w].0 == k);
            }
        }
        lemma_keyed_total_absent(items.drop_last(), k);
        assert(items[items.len() - 1].0 != k);
    }
}

/// Groups entries by key and sums their counts; keys keep the order of
/// their first appearance. `None` when some total does not fit a `usize`.
pub fn tally(items: &Vec<(String, usize)>) -> (r: Option<Vec<(String, usize)>>)
    ensures
        r is Some <==> totals_fit(entries_view(items@)),
        r matches Some(t) ==> is_tally_of(t@, entries_view(items@)),
{
    let ghost iv = entries_view(items@);
    let mut totals: Vec<(String, usize)> = Vec::new();
    let mut i: usize = 0;
    while i < items.len()
        invariant
            i <= items@.len(),
            iv == entries_view(items@),
            is_tally_of(totals@, iv.subrange(0, i as int)),
        decreases items@.len() - i,
    {
        let ghost prefix = iv.subrange(0, i as int);
        let ghost next = iv.subrange(0, i + 1);
        proof {
            assert(next.drop_last() =~= prefix);
            assert(next.last() == iv[i as int]);
            assert(iv[i as int] == (items@[i as int].0@, items@[i as int].1 as nat));
        }
        let key = &items[i].0;
        let n = items[i].1;
        let mut j: usize = 0;
        let mut found = false;
        while j < totals.len() && !found
            invariant
                j <= totals@.len(),
                found ==> j < totals@.len() && totals@[j as int].0@ == key@,
                forall|w: int| 0 <= w < j ==> (#[trigger] totals@[w]).0@ != key@,
            decreases totals@.len() - j + if found { 0int } else { 1int },
        {
            if str_eq(totals[j].0.as_str(), key.as_str()) {
                found = true;
            } else {
                j = j + 1;
            }
        }
        let ghost old_totals = totals@;
        if found {
            proof {
                assert(totals@[j as int].0@ == key@);
            }
            let (ref name, count) = totals[j];
            let sum = match count.checked_add(n) {
                Some(v) => v,
                None => {
                    proof {
                        assert(keyed_total(next, key@) > usize::MAX);
                        lemma_keyed_total_prefix(iv, i + 1, key@);
                        assert(!totals_fit(iv));
                    }
                    return None;
                },
            };
            let entry = (name.clone(), sum);
            totals.set(j, entry);
            proof {
                assert forall|w: int| 0 <= w < totals@.len() implies (#[trigger] totals@[w]).1 == keyed_total(next, totals@[w].0@) by {
                    if w != j {
                        assert(old_totals[w].0@ != key@);
                    }
                }
                assert forall|k: Seq<char>| #[trigger] has_key(next, k) <==> has_key(entries_view(totals@), k) by {
                    if has_key(next, k) {
                        let w = choose|w: int| 0 <= w < next.len() && (#[trigger] next[w]).0 == k;
                        if w < i {
                            assert(prefix[w] == next[w]);
                            assert(has_key(prefix, k));
                            let v = choose|v: int| 0 <= v < old_totals.len() && (#[trigger] entries_view(old_totals)[v]).0 == k;
                            assert(entries_view(totals@)[v].0 == k);
                        } else {
                            assert(entries_view(totals@)[j as int].0 == k);
                        }
                    }
                    if has_key(entries_view(totals@), k) {
                        let v = choose|v: int| 0 <= v < totals@.len() && (#[trigger] entries_view(totals@)[v]).0 == k;
                        assert(entries_view(old_totals)[v].0 == k);
                        assert(has_key(prefix, k));
                        let w = choose|w: int| 0 <= w < prefix.len() && (#[trigger] prefix[w]).0 == k;
                        assert(next[w] == prefix[w]);
                    }
                }
            }
        } else {
            proof {
                assert(!has_key(entries_view(old_totals), key@)) by {
                    if has_key(entries_view(old_totals), key@) {
                        let v = choose|v: int| 0 <= v < old_totals.len() && (#[trigger] entries_view(old_totals)[v]).0 == key@;
                        assert(old_totals[v].0@ == key@);
                    }
                }
                assert(!has_key(prefix, key@));
                lemma_keyed_total_absent(prefix, key@);
            }
            totals.push((key.clone(), n));
            proof {
                assert forall|w: int| 0 <= w < totals@.len() implies (#[trigger] totals@[w]).1 == keyed_total(next, totals@[w].0@) by {
                    if w < old_totals.len() {
                        assert(old_totals[w] == totals@[w]);
                    }
                }
                assert forall|k: Seq<char>| #[trigger] has_key(next, k) <==> has_key(entries_view(totals@), k) by {
                    if has_key(next, k) {
                        let w = choose|w: int| 0 <= w < next.len() && (#[trigger] next[w]).0 == k;
                        if w < i {
                            assert(prefix[w] == next[w]);
                            assert(has_key(prefix, k));
                            let v = choose|v: int| 0 <= v < old_totals.len() && (#[trigger] entries_view(old_totals)[v]).0 == k;
                            assert(entries_view(totals@)[v].0 == k);
                        } else {
                            assert(entries_view(totals@)[old_totals.len() as int].0 == k);
                        }
                    }
                    if has_key(entries_view(totals@), k) {
                        let v = choose|v: int| 0 <= v < totals@.len() && (#[trigger] entries_view(totals@)[v]).0 == k;
                        if v < old_totals.len() {
                            assert(entries_view(old_totals)[v].0 == k);
                            assert(has_key(prefix, k));
                            let w = choose|w: int| 0 <= w < prefix.len() && (#[trigger] prefix[w]).0 == k;
                            assert(next[w] == prefix[w]);
                        } else {
                            assert(next[i as int].0 == k);
                        }
                    }
                }
            }
        }
        i = i + 1;
    }
    proof {
        assert(iv.subrange(0, iv.len() as int) =~= iv);
        assert forall|k: Seq<char>| #[trigger] keyed_total(iv, k) <= usize::MAX by {
            if has_key(iv, k) {
                assert(has_key(entries_view(totals@), k));
                let v = choose|v: int| 0 <= v < totals@.len() && (#[trigger] entries_view(totals@)[v]).0 == k;
                assert(totals@[v].1 == keyed_total(iv, k));
            } else {
                lemma_keyed_total_absent(iv, k);
            }
        }
    }
    Some(totals)
}


/// The count held under `key`, if some entry has that key.
pub fn tally_get(totals: &Vec<(String, usize)>, key: &str) -> (r: Option<usize>)
    ensures
        r is Some <==> has_key(entries_view(totals@), key@),
        r matches Some(v) ==> exists|j: int| 0 <= j < totals@.len() && (#[trigger] totals@[j]).0@ == key@ && totals@[j].1 == v,
{
    let mut j: usize = 0;
    while j < totals.len()
        invariant
            j <= totals@.len(),
            forall|w: int| 0 <= w < j ==> (#[trigger] totals@[w]).0@ != key@,
        decreases totals@.len() - j,
    {
        if str_eq(totals[j].0.as_str(), key) {
            proof {
                assert(entries_view(totals@)[j as int].0 == key@);
            }
            return Some(totals[j].1);
        }
        j = j + 1;
    }
    proof {
        if has_key(entries_view(totals@), key@) {
            let v = choose|v: int| 0 <= v < totals@.len() && (#[trigger] entries_view(totals@)[v]).0 == key@;
            assert(totals@[v].0@ == key@);
        }
    }
    None
}

/// The sum of the counts of the entries.
pub open spec fn counts_total(items: Seq<(Seq<char>, nat)>) -> nat
    decreases items.len(),
{
    if items.len() == 0 {
        0
    } else {
        counts_total(items.drop_last()) + items.last().1
    }
}

/// The sum, over `keys`, of the totals of `items` under each key.
pub open spec fn totals_over(keys: Seq<Seq<char>>, items: Seq<(Seq<char>, nat)>) -> nat
    decreases keys.len(),
{
    if keys.len() == 0 {
        0
    } else {
        totals_over(keys.drop_last(), items) + keyed_total(items, keys.last())
    }
}

/// How many of `keys` are `k`.
pub open spec fn occurrences(keys: Seq<Seq<char>>, k: Seq<char>) -> nat
    decreases keys.len(),
{
    if keys.len() == 0 {
        0
    } else {
        occurrences(keys.drop_last(), k) + if keys.last() == k { 1nat } else { 0nat }
    }
}

proof fn lemma_totals_over_push_item(keys: Seq<Seq<char>>, items: Seq<(Seq<char>, nat)>, x: (Seq<char>, nat))
    ensures
        totals_over(keys, items.push(x)) == totals_over(keys, items) + occurrences(keys, x.0) * x.1,
    decreases keys.len(),
{
    assert(items.push(x).drop_last() =~= items);
    if keys.len() > 0 {
        lemma_totals_over_push_item(keys.drop_last(), items, x);
        let k = keys.last();
        let init = keys.drop_last();
        assert(keyed_total(items.push(x), k) == keyed_total(items, k) + if x.0 == k { x.1 } else { 0nat });
        if k == x.0 {
            let a = occurrences(init, x.0);
            assert(occurrences(keys, x.0) == a + 1);
            assert((a + 1) * x.1 == a * x.1 + x.1) by (nonlinear_arith);
        } else {
            assert(occurrences(keys, x.0) == occurrences(init, x.0));
        }
        assert(totals_over(keys, items.push(x)) == totals_over(init, items.push(x)) + keyed_total(items.push(x), k));
        assert(totals_over(keys, items) == totals_over(init, items) + keyed_total(items, k));
    } else {
        assert(occurrences(keys, x.0) == 0);
        assert(occurrences(keys, x.0) * x.1 == 0) by (nonlinear_arith)
            requires
                occurrences(keys, x.0) == 0;
    }
}

proof fn lemma_occurrences_distinct(keys: Seq<Seq<char>>, k: Seq<char>)
    requires
        forall|i: int, j: int| 0 <= i < j < keys.len() ==> keys[i] != keys[j],
    ensures
        keys.contains(k) ==> occurrences(keys, k) == 1,
        !keys.contains(k) ==> occurrences(keys, k) == 0,
    decreases keys.len(),
{
    if keys.len() > 0 {
        let init = keys.drop_last();
        assert forall|i: int, j: int| 0 <= i < j < init.len() implies init[i] != init[j] by {
            assert(init[i] == keys[i] && init[j] == keys[j]);
        }
        lemma_occurrences_distinct(init, k);
        if keys.last() == k {
            assert(!init.contains(k)) by {
                if init.contains(k) {
                    let i = choose|i: int| 0 <= i < init.len() && init[i] == k;
                    assert(keys[i] == keys[keys.len() - 1]);
                }
            }
        } else {
            if keys.contains(k) {
                let i = choose|i: int| 0 <= i < keys.len() && keys[i] == k;
                assert(init[i] == k);
            }
            if init.contains(k) {
                let i = choose|i: int| 0 <= i < init.len() && init[i] == k;
                assert(keys[i] == k);
            }
        }
    }
}

/// Summing, over distinct keys that cover every key of `items`, the totals
/// of each key gives the sum of all the counts.
pub proof fn lemma_totals_over_distinct_keys(keys: Seq<Seq<char>>, items: Seq<(Seq<char>, nat)>)
    requires
        forall|i: int, j: int| 0 <= i < j < keys.len() ==> keys[i] != keys[j],
        forall|i: int| 0 <= i < items.len() ==> keys.contains(#[trigger] items[i].0),
    ensures
        totals_over(keys, items) == counts_total(items),
    decreases items.len(),
{
    if items.len() == 0 {
        lemma_totals_over_empty(keys, items);
    } else {
        let init = items.drop_last();
        let x = items.last();
        assert forall|i: int| 0 <= i < init.len() implies keys.contains(#[trigger] init[i].0) by {
            assert(init[i] == items[i]);
        }
        lemma_totals_over_distinct_keys(keys, init);
        assert(items == init.push(x));
        lemma_totals_over_push_item(keys, init, x);
        assert(keys.contains(items[items.len() - 1].0));
        lemma_occurrences_distinct(keys, x.0);
    }
}

proof fn lemma_totals_over_empty(keys: Seq<Seq<char>>, items: Seq<(Seq<char>, nat)>)
    requires
        items.len() == 0,
    ensures
        totals_over(keys, items) == 0,
    decreases keys.len(),
{
    if keys.len() > 0 {
        lemma_totals_over_empty(keys.drop_last(), items);
    }
}

/// The keys of a list of totals.
pub open spec fn keys_of(totals: Seq<(String, usize)>) -> Seq<Seq<char>> {
    totals.map_values(|e: (String, usize)| e.0@)
}

proof fn lemma_totals_over_tally(totals: Seq<(String, usize)>, items: Seq<(Seq<char>, nat)>)
    requires
        forall|i: int| 0 <= i < totals.len() ==> (#[trigger] totals[i]).1 == keyed_total(items, totals[i].0@),
    ensures
        totals_over(keys_of(totals), items) == counts_total(entries_view(totals)),
    decreases totals.len(),
{
    if totals.len() > 0 {
        let init = totals.drop_last();
        assert(keys_of(totals).drop_last() =~= keys_of(init));
        assert(entries_view(totals).drop_last() =~= entries_view(init));
        assert forall|i: int| 0 <= i < init.len() implies (#[trigger] init[i]).1 == keyed_total(items, init[i].0@) by {
            assert(init[i] == totals[i]);
        }
        lemma_totals_over_tally(init, items);
        assert(totals[totals.len() - 1].1 == keyed_total(items, totals[totals.len() - 1].0@));
    }
}

/// Tallying keeps the sum: the totals per key of a tally add up to the sum
/// of the counts that were tallied.
pub proof fn law_tally_keeps_sum(totals: Seq<(String, usize)>, items: Seq<(Seq<char>, nat)>)
    requires
        is_tally_of(totals, items),
    ensures
        counts_total(entries_view(totals)) == counts_total(items),
{
    let keys = keys_of(totals);
    assert forall|i: int, j: int| 0 <= i < j < keys.len() implies keys[i] != keys[j] by {
        assert(keys[i] == totals[i].0@);
        assert(keys[j] == totals[j].0@);
    }
    assert forall|i: int| 0 <= i < items.len() implies keys.contains(#[trigger] items[i].0) by {
        assert(has_key(items, items[i].0));
        assert(has_key(entries_view(totals), items[i].0));
        let v = choose|v: int| 0 <= v < totals.len() && (#[trigger] entries_view(totals)[v]).0 == items[i].0;
        assert(keys[v] == items[i].0);
    }
    lemma_totals_over_distinct_keys(keys, items);
    lemma_totals_over_tally(totals, items);
}
} // verus!
