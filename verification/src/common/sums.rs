//! Sums over finite sets.

use vstd::prelude::*;

verus! {

/// The sum of `value(k)` over the members `k` of a finite set.
pub open spec fn sum_over<K>(keys: Set<K>, value: spec_fn(K) -> int) -> int
    decreases keys.len(),
    when keys.finite()
{
    if keys.len() == 0 {
        0
    } else {
        let k = keys.choose();
        value(k) + sum_over(keys.remove(k), value)
    }
}

/// Any member can be taken out of a sum.
pub proof fn lemma_sum_remove<K>(keys: Set<K>, value: spec_fn(K) -> int, key: K)
    requires
        keys.finite(),
        keys.contains(key),
    ensures
        sum_over(keys, value) == value(key) + sum_over(keys.remove(key), value),
    decreases keys.len(),
{
    let chosen = keys.choose();
    if chosen != key {
        lemma_sum_remove(keys.remove(chosen), value, key);
        lemma_sum_remove(keys.remove(key), value, chosen);
        assert(keys.remove(chosen).remove(key) =~= keys.remove(key).remove(chosen));
    }
}

/// A new member adds its value to a sum.
pub proof fn lemma_sum_insert<K>(keys: Set<K>, value: spec_fn(K) -> int, key: K)
    requires
        keys.finite(),
        !keys.contains(key),
    ensures
        sum_over(keys.insert(key), value) == sum_over(keys, value) + value(key),
{
    lemma_sum_remove(keys.insert(key), value, key);
    assert(keys.insert(key).remove(key) =~= keys);
}

/// Two sums over the same set agree if their values agree on it.
pub proof fn lemma_sum_same<K>(keys: Set<K>, a: spec_fn(K) -> int, b: spec_fn(K) -> int)
    requires
        keys.finite(),
        forall|k: K| keys.contains(k) ==> #[trigger] a(k) == b(k),
    ensures
        sum_over(keys, a) == sum_over(keys, b),
    decreases keys.len(),
{
    if keys.len() > 0 {
        let k = keys.choose();
        lemma_sum_same(keys.remove(k), a, b);
    }
}

} // verus!
