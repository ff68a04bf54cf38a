//! Sums over the values of a finite map.

use vstd::prelude::*;
use crate::storage::value_or;

verus! {

/// The sum of the values that a finite map holds.
pub open spec fn sum_of<K>(m: Map<K, u64>) -> nat
    decreases m.dom().len(),
    when m.dom().finite()
    via sum_of_decreases::<K>
{
    if m.dom().len() == 0 {
        0
    } else {
        let k = m.dom().choose();
        m[k] as nat + sum_of(m.remove(k))
    }
}

#[via_fn]
proof fn sum_of_decreases<K>(m: Map<K, u64>) {
    if m.dom().len() != 0 {
        let k = m.dom().choose();
        vstd::set_lib::lemma_set_empty_equivalency_len(m.dom());
        assert(m.dom().contains(k));
        assert(m.remove(k).dom() =~= m.dom().remove(k));
    }
}

/// The sum is the value at any one key plus the sum of the rest.
pub proof fn lemma_sum_of_remove<K>(m: Map<K, u64>, k: K)
    requires
        m.dom().finite(),
        m.contains_key(k),
    ensures
        sum_of(m) == m[k] + sum_of(m.remove(k)),
    decreases m.dom().len(),
{
    vstd::set_lib::lemma_set_empty_equivalency_len(m.dom());
    let c = m.dom().choose();
    assert(m.dom().contains(c));
    if c != k {
        let without_c = m.remove(c);
        let without_k = m.remove(k);
        assert(without_c.dom() =~= m.dom().remove(c));
        assert(without_k.dom() =~= m.dom().remove(k));
        lemma_sum_of_remove(without_c, k);
        lemma_sum_of_remove(without_k, c);
        assert(without_c.remove(k) =~= without_k.remove(c));
    }
}

/// Writing one value changes the sum by the difference to what was held.
pub proof fn lemma_sum_of_insert<K>(m: Map<K, u64>, k: K, v: u64)
    requires
        m.dom().finite(),
    ensures
        m.insert(k, v).dom().finite(),
        sum_of(m.insert(k, v)) + value_or(m, k, 0) == sum_of(m) + v,
{
    let after = m.insert(k, v);
    assert(after.dom() =~= m.dom().insert(k));
    lemma_sum_of_remove(after, k);
    assert(after.remove(k) =~= m.remove(k));
    if m.contains_key(k) {
        lemma_sum_of_remove(m, k);
    } else {
        assert(m.remove(k) =~= m);
    }
}

/// No value exceeds the sum.
pub proof fn lemma_value_at_most_sum<K>(m: Map<K, u64>, k: K)
    requires
        m.dom().finite(),
    ensures
        value_or(m, k, 0) <= sum_of(m),
{
    if m.contains_key(k) {
        lemma_sum_of_remove(m, k);
    }
}

/// A map of zeros sums to zero.
pub proof fn lemma_sum_of_zeros<K>(m: Map<K, u64>)
    requires
        m.dom().finite(),
        forall|k: K| m.contains_key(k) ==> m[k] == 0,
    ensures
        sum_of(m) == 0,
    decreases m.dom().len(),
{
    if m.dom().len() != 0 {
        vstd::set_lib::lemma_set_empty_equivalency_len(m.dom());
        let k = m.dom().choose();
        assert(m.contains_key(k));
        assert(m.remove(k).dom() =~= m.dom().remove(k));
        lemma_sum_of_zeros(m.remove(k));
    }
}

/// The map that holds, for each key, what `a` and `b` hold for it together.
/// It has the keys of `a` and those for which `b` holds more than zero.
pub open spec fn merged<K>(a: Map<K, u64>, b: Map<K, u64>) -> Map<K, u64> {
    Map::new(
        |k: K| a.contains_key(k) || value_or(b, k, 0) > 0,
        |k: K| value_or(a, k, 0).saturating_add(value_or(b, k, 0)),
    )
}

/// Where the sums of two maps together fit an amount, merging them loses
/// nothing: the merged map sums to the two sums together.
pub proof fn lemma_sum_of_merged<K>(a: Map<K, u64>, b: Map<K, u64>)
    requires
        a.dom().finite(),
        b.dom().finite(),
        sum_of(a) + sum_of(b) <= u64::MAX,
    ensures
        merged(a, b).dom().finite(),
        sum_of(merged(a, b)) == sum_of(a) + sum_of(b),
    decreases b.dom().len(),
{
    let m = merged(a, b);
    if b.dom().len() == 0 {
        vstd::set_lib::lemma_set_empty_equivalency_len(b.dom());
        assert(m =~= a);
    } else {
        vstd::set_lib::lemma_set_empty_equivalency_len(b.dom());
        let k = b.dom().choose();
        assert(b.contains_key(k));
        let rest = b.remove(k);
        assert(rest.dom() =~= b.dom().remove(k));
        lemma_sum_of_remove(b, k);
        lemma_sum_of_merged(a, rest);
        let partly = merged(a, rest);
        if b[k] == 0 {
            assert(m =~= partly);
        } else {
            lemma_value_at_most_sum(a, k);
            let both = value_or(a, k, 0).saturating_add(b[k]);
            assert(both == value_or(a, k, 0) + b[k]);
            assert(m =~= partly.insert(k, both));
            lemma_sum_of_insert(partly, k, both);
        }
    }
}

} // verus!
