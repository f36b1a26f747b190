//! Sorting pairs of integers.

use vstd::prelude::*;

verus! {

/// `a` comes no later than `b`: by first field, then by second.
pub open spec fn pair_le(a: (u64, u64), b: (u64, u64)) -> bool {
    a.0 < b.0 || (a.0 == b.0 && a.1 <= b.1)
}

/// Relies on `slice::sort_unstable` for `(u64, u64)`: the same pairs, in the
/// ascending order of tuples, which compare by first field, then second.
#[verifier::external_body]
pub(crate) fn sort_pairs(v: &mut Vec<(u64, u64)>)
    ensures
        final(v)@.to_multiset() == old(v)@.to_multiset(),
        forall|i: int, j: int|
            0 <= i <= j < final(v)@.len() ==> pair_le(#[trigger] final(v)@[i], #[trigger] final(v)@[j]),
{
    v.sort_unstable();
}

/// Each pair of the sorted vector was among the pairs before.
pub(crate) proof fn lemma_sorted_from(before: Seq<(u64, u64)>, after: Seq<(u64, u64)>, i: int)
    requires
        after.to_multiset() == before.to_multiset(),
        0 <= i < after.len(),
    ensures
        before.contains(after[i]),
        after.len() == before.len(),
{
    after.to_multiset_ensures();
    before.to_multiset_ensures();
    assert(after.contains(after[i]));
    assert(after.to_multiset().count(after[i]) > 0);
}

} // verus!
