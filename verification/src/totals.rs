//! Sums of counts.

use vstd::prelude::*;

verus! {

/// The counts of a table together.
pub open spec fn total<K>(counts: Map<K, u64>) -> int
    decreases counts.dom().len(),
    when counts.dom().finite()
{
    if counts.dom().len() == 0 {
        0
    } else {
        let key = counts.dom().choose();
        counts[key] + total(counts.remove(key))
    }
}

/// The counts of a table are that of one key and those of the others together.
pub proof fn total_without_key<K>(counts: Map<K, u64>, key: K)
    requires
        counts.dom().finite(),
        counts.contains_key(key),
    ensures
        total(counts) == counts[key] + total(counts.remove(key)),
    decreases counts.dom().len(),
{
    let chosen = counts.dom().choose();
    assert(counts.dom().len() > 0) by {
        vstd::set_lib::lemma_set_empty_equivalency_len(counts.dom());
    }
    if chosen != key {
        let rest = counts.remove(chosen);
        total_without_key(rest, key);
        total_without_key(counts.remove(key), chosen);
        assert(rest.remove(key) =~= counts.remove(key).remove(chosen));
    }
}

/// A count that is added to that of one key is added to the total.
pub proof fn total_with_count<K>(counts: Map<K, u64>, key: K, count: u64, sum: u64)
    requires
        counts.dom().finite(),
        sum == (if counts.contains_key(key) {
            counts[key] as int
        } else {
            0
        }) + count,
    ensures
        counts.insert(key, sum).dom().finite(),
        total(counts.insert(key, sum)) == total(counts) + count,
{
    let with = counts.insert(key, sum);
    total_without_key(with, key);
    if counts.contains_key(key) {
        total_without_key(counts, key);
        assert(with.remove(key) =~= counts.remove(key));
    } else {
        assert(with.remove(key) =~= counts);
    }
}

/// No count is larger than the total.
pub proof fn count_within_total<K>(counts: Map<K, u64>, key: K)
    requires
        counts.dom().finite(),
        counts.contains_key(key),
    ensures
        counts[key] <= total(counts),
{
    total_without_key(counts, key);
    total_is_natural(counts.remove(key));
}

proof fn total_is_natural<K>(counts: Map<K, u64>)
    requires
        counts.dom().finite(),
    ensures
        0 <= total(counts),
    decreases counts.dom().len(),
{
    if counts.dom().len() > 0 {
        total_is_natural(counts.remove(counts.dom().choose()));
    }
}

} // verus!
