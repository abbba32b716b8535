//! Distinct values in order of first appearance, and counts of occurrences.
use vstd::prelude::*;

verus! {

/// `acc` followed by the values of `s` that are not yet present, each once,
/// in order of first appearance.
pub open spec fn insert_new_from<K>(acc: Seq<K>, s: Seq<K>) -> Seq<K>
    decreases s.len(),
{
    if s.len() == 0 {
        acc
    } else {
        let d = insert_new_from(acc, s.drop_last());
        if d.contains(s.last()) {
            d
        } else {
            d.push(s.last())
        }
    }
}

/// The distinct values of `s` in order of first appearance.
pub open spec fn distinct_in_order<K>(s: Seq<K>) -> Seq<K> {
    insert_new_from(Seq::empty(), s)
}

/// The number of positions of `s` that hold `k`.
pub open spec fn occurrences<K>(s: Seq<K>, k: K) -> nat
    decreases s.len(),
{
    if s.len() == 0 {
        0
    } else {
        occurrences(s.drop_last(), k) + if s.last() == k { 1nat } else { 0nat }
    }
}

pub open spec fn sum_nat(s: Seq<nat>) -> nat
    decreases s.len(),
{
    if s.len() == 0 {
        0
    } else {
        sum_nat(s.drop_last()) + s.last()
    }
}

/// Inserting keeps what was there, adds only values of `s`, and misses none.
pub proof fn lemma_insert_new_from<K>(acc: Seq<K>, s: Seq<K>)
    ensures
        insert_new_from(acc, s).len() >= acc.len(),
        insert_new_from(acc, s).take(acc.len() as int) == acc,
        forall|k: K| #[trigger] insert_new_from(acc, s).contains(k) <==> (acc.contains(k) || s.contains(k)),
        acc.no_duplicates() ==> insert_new_from(acc, s).no_duplicates(),
    decreases s.len(),
{
    if s.len() > 0 {
        lemma_insert_new_from(acc, s.drop_last());
        let d = insert_new_from(acc, s.drop_last());
        assert(d.push(s.last()).take(acc.len() as int) =~= d.take(acc.len() as int));
        assert forall|k: K| #[trigger] insert_new_from(acc, s).contains(k) <==> (acc.contains(k) || s.contains(k)) by {
            if s.contains(k) && !s.drop_last().contains(k) {
                let i = choose|i: int| 0 <= i < s.len() && s[i] == k;
                if i < s.len() - 1 {
                    assert(s.drop_last()[i] == k);
                }
            }
            if s.drop_last().contains(k) {
                let i = choose|i: int| 0 <= i < s.drop_last().len() && s.drop_last()[i] == k;
                assert(s[i] == k);
            }
            if insert_new_from(acc, s).contains(k) && !d.contains(k) {
                assert(k == s.last());
                assert(s[s.len() - 1] == k);
            }
            if d.contains(k) {
                let i = choose|i: int| 0 <= i < d.len() && d[i] == k;
                if !d.contains(s.last()) {
                    assert(d.push(s.last())[i] == k);
                }
            }
            if k == s.last() && !d.contains(k) {
                assert(d.push(s.last())[d.len() as int] == k);
            }
        }
    } else {
        assert(acc.take(acc.len() as int) =~= acc);
    }
}

pub proof fn lemma_occurrences_bound<K>(s: Seq<K>, k: K)
    ensures
        occurrences(s, k) <= s.len(),
        occurrences(s, k) > 0 <==> s.contains(k),
    decreases s.len(),
{
    if s.len() > 0 {
        lemma_occurrences_bound(s.drop_last(), k);
        if s.drop_last().contains(k) {
            let i = choose|i: int| 0 <= i < s.drop_last().len() && s.drop_last()[i] == k;
            assert(s[i] == k);
        }
        if s.contains(k) && !s.drop_last().contains(k) {
            let i = choose|i: int| 0 <= i < s.len() && s[i] == k;
            if i < s.len() - 1 {
                assert(s.drop_last()[i] == k);
            }
        }
    }
}

} // verus!

verus! {

pub proof fn lemma_sum_update(s: Seq<nat>, j: int, v: nat)
    requires
        0 <= j < s.len(),
    ensures
        sum_nat(s.update(j, v)) + s[j] == sum_nat(s) + v,
    decreases s.len(),
{
    if j == s.len() - 1 {
        assert(s.update(j, v).drop_last() =~= s.drop_last());
    } else {
        lemma_sum_update(s.drop_last(), j, v);
        assert(s.update(j, v).drop_last() =~= s.drop_last().update(j, v));
    }
}

} // verus!
