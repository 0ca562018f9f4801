//! Sums over the values of finite maps.

use vstd::prelude::*;

verus! {

/// One where `counted` holds, else zero.
pub open spec fn one_if(counted: bool) -> nat {
    if counted {
        1
    } else {
        0
    }
}

/// The sum of the values of a finite map.
pub open spec fn map_sum<K>(counts: Map<K, nat>) -> nat
    decreases counts.dom().len(),
    when counts.dom().finite()
{
    if counts.dom().is_empty() {
        0
    } else {
        let key = counts.dom().choose();
        counts[key] + map_sum(counts.remove(key))
    }
}

/// Adds the two components of a pair.
pub open spec fn pair_total() -> spec_fn((nat, nat)) -> nat {
    |pair: (nat, nat)| pair.0 + pair.1
}

/// The sum of both components of the values of a finite map of pairs.
pub open spec fn pair_sum<K>(counts: Map<K, (nat, nat)>) -> nat {
    map_sum(counts.map_values(pair_total()))
}

/// Any one key can be taken out of the sum.
pub proof fn lemma_map_sum_remove<K>(counts: Map<K, nat>, key: K)
    requires
        counts.dom().finite(),
        counts.contains_key(key),
    ensures
        map_sum(counts) == counts[key] + map_sum(counts.remove(key)),
    decreases counts.dom().len(),
{
    let chosen = counts.dom().choose();
    if chosen != key {
        lemma_map_sum_remove(counts.remove(chosen), key);
        lemma_map_sum_remove(counts.remove(key), chosen);
        assert(counts.remove(chosen).remove(key) =~= counts.remove(key).remove(chosen));
    }
}

/// Setting one value changes the sum by the difference to the value that
/// was there, an absent key counting as zero.
pub proof fn lemma_map_sum_insert<K>(counts: Map<K, nat>, key: K, value: nat)
    requires
        counts.dom().finite(),
    ensures
        map_sum(counts.insert(key, value)) + (if counts.contains_key(key) {
            counts[key]
        } else {
            0
        }) == map_sum(counts) + value,
{
    let after = counts.insert(key, value);
    lemma_map_sum_remove(after, key);
    assert(after.remove(key) =~= counts.remove(key));
    if counts.contains_key(key) {
        lemma_map_sum_remove(counts, key);
    } else {
        assert(counts.remove(key) =~= counts);
    }
}

/// No value exceeds the sum.
pub proof fn lemma_map_sum_bounds<K>(counts: Map<K, nat>, key: K)
    requires
        counts.dom().finite(),
        counts.contains_key(key),
    ensures
        counts[key] <= map_sum(counts),
{
    lemma_map_sum_remove(counts, key);
}

/// Setting one pair changes the sum of pairs by the difference to the pair
/// that was there, an absent key counting as zero.
pub proof fn lemma_pair_sum_insert<K>(counts: Map<K, (nat, nat)>, key: K, pair: (nat, nat))
    requires
        counts.dom().finite(),
    ensures
        pair_sum(counts.insert(key, pair)) + (if counts.contains_key(key) {
            counts[key].0 + counts[key].1
        } else {
            0
        }) == pair_sum(counts) + pair.0 + pair.1,
{
    let totals = counts.map_values(pair_total());
    assert(totals.dom() =~= counts.dom());
    assert(counts.insert(key, pair).map_values(pair_total()) =~= totals.insert(
        key,
        pair.0 + pair.1,
    ));
    lemma_map_sum_insert(totals, key, pair.0 + pair.1);
}

/// No pair exceeds the sum of pairs.
pub proof fn lemma_pair_sum_bounds<K>(counts: Map<K, (nat, nat)>, key: K)
    requires
        counts.dom().finite(),
        counts.contains_key(key),
    ensures
        counts[key].0 + counts[key].1 <= pair_sum(counts),
{
    let totals = counts.map_values(pair_total());
    assert(totals.dom() =~= counts.dom());
    lemma_map_sum_bounds(totals, key);
}

/// The sum of pairs of the empty map is zero.
pub proof fn lemma_pair_sum_empty<K>()
    ensures
        pair_sum(Map::<K, (nat, nat)>::empty()) == 0,
{
    assert(Map::<K, (nat, nat)>::empty().map_values(pair_total()) =~= Map::<K, nat>::empty());
}

} // verus!
