//! Sums of per-lockup amounts over a set of lockups.

use vstd::prelude::*;
use crate::LockupIndex;

verus! {

/// The sum of `values` at the positions below `n` that `listed` holds.
pub open spec fn sum_listed(values: Seq<int>, listed: Set<LockupIndex>, n: nat) -> int
    decreases n,
{
    if n == 0 {
        0
    } else {
        sum_listed(values, listed, (n - 1) as nat) + if listed.contains((n - 1) as LockupIndex) {
            values[n - 1]
        } else {
            0
        }
    }
}

/// The sum of `values` at the positions that `indices` gives, one after the
/// other.
pub open spec fn sum_at(values: Seq<int>, indices: Seq<LockupIndex>) -> int
    decreases indices.len(),
{
    if indices.len() == 0 {
        0
    } else {
        sum_at(values, indices.drop_last()) + values[indices.last() as int]
    }
}

/// The sum over no positions is zero.
pub proof fn lemma_sum_listed_empty(values: Seq<int>, n: nat)
    ensures
        sum_listed(values, Set::empty(), n) == 0,
    decreases n,
{
    if n > 0 {
        lemma_sum_listed_empty(values, (n - 1) as nat);
    }
}

/// One more position adds its value to the sum.
pub proof fn lemma_sum_listed_insert(
    values: Seq<int>,
    listed: Set<LockupIndex>,
    x: LockupIndex,
    n: nat,
)
    requires
        !listed.contains(x),
        n <= u32::MAX + 1,
    ensures
        sum_listed(values, listed.insert(x), n) == sum_listed(values, listed, n) + if x < n {
            values[x as int]
        } else {
            0
        },
    decreases n,
{
    if n > 0 {
        lemma_sum_listed_insert(values, listed, x, (n - 1) as nat);
    }
}

/// Summing along a list that names each position once gives the sum over
/// the set of those positions.
pub proof fn lemma_sum_at_is_sum_listed(values: Seq<int>, indices: Seq<LockupIndex>)
    requires
        indices.no_duplicates(),
        values.len() <= u32::MAX,
        forall|k: int| 0 <= k < indices.len() ==> indices[k] < values.len(),
    ensures
        sum_at(values, indices) == sum_listed(values, indices.to_set(), values.len()),
    decreases indices.len(),
{
    if indices.len() == 0 {
        assert(indices.to_set() =~= Set::<LockupIndex>::empty());
        lemma_sum_listed_empty(values, values.len());
    } else {
        let rest = indices.drop_last();
        let x = indices.last();
        lemma_sum_at_is_sum_listed(values, rest);
        assert(!rest.to_set().contains(x)) by {
            if rest.contains(x) {
                let k = choose|k: int| 0 <= k < rest.len() && rest[k] == x;
                assert(indices[k] == indices[indices.len() - 1]);
            }
        }
        rest.lemma_push_to_set_commute(x);
        assert(rest.push(x) =~= indices);
        lemma_sum_listed_insert(values, rest.to_set(), x, values.len());
    }
}

/// Where no value along the list is negative, the sum along a prefix is at
/// most the sum along the whole.
pub proof fn lemma_sum_at_prefix(values: Seq<int>, indices: Seq<LockupIndex>, k: int)
    requires
        0 <= k <= indices.len(),
        forall|j: int|
            0 <= j < indices.len() ==> 0 <= indices[j] < values.len() && values[indices[j] as int]
                >= 0,
    ensures
        0 <= sum_at(values, indices.take(k)) <= sum_at(values, indices),
    decreases indices.len() - k,
{
    if k == indices.len() {
        assert(indices.take(k) =~= indices);
        lemma_sum_at_nonneg(values, indices);
    } else {
        lemma_sum_at_prefix(values, indices, k + 1);
        assert(indices.take(k + 1).drop_last() =~= indices.take(k));
        lemma_sum_at_nonneg(values, indices.take(k));
    }
}

/// Where no value along the list is negative, neither is the sum.
pub proof fn lemma_sum_at_nonneg(values: Seq<int>, indices: Seq<LockupIndex>)
    requires
        forall|j: int|
            0 <= j < indices.len() ==> 0 <= indices[j] < values.len() && values[indices[j] as int]
                >= 0,
    ensures
        0 <= sum_at(values, indices),
    decreases indices.len(),
{
    if indices.len() > 0 {
        let rest = indices.drop_last();
        assert forall|j: int| 0 <= j < rest.len() implies 0 <= rest[j] < values.len()
            && values[rest[j] as int] >= 0 by {
            assert(rest[j] == indices[j]);
        }
        lemma_sum_at_nonneg(values, rest);
    }
}

} // verus!
