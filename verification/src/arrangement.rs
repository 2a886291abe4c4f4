//! Sorting permutations of the permutation crate.

use permutation::Permutation;
use vstd::prelude::*;

verus! {

/// The permutation of the permutation crate.
#[verifier::external_type_specification]
#[verifier::external_body]
pub struct ExPermutation(permutation::Permutation);

/// The indices that a permutation holds: at each position of its output, the
/// position in its input that the item there comes from.
pub uninterp spec fn arrangement(permutation: Permutation) -> Seq<int>;

/// Every position of a sequence occurs exactly once.
pub open spec fn rearranges(indices: Seq<int>, len: nat) -> bool {
    &&& indices.len() == len
    &&& forall|i: int| 0 <= i < len ==> 0 <= #[trigger] indices[i] < len
    &&& forall|i: int, j: int|
        0 <= i < j < len ==> #[trigger] indices[i] != #[trigger] indices[j]
    &&& forall|k: int| 0 <= k < len ==> #[trigger] indices.contains(k)
}

/// `permutation::sort` gives a permutation that puts the items of a slice in
/// ascending order.
#[verifier::external_body]
pub(crate) fn sorting_permutation(values: &[u64]) -> (result: Permutation)
    ensures
        rearranges(arrangement(result), values@.len()),
        forall|i: int, j: int|
            0 <= i < j < values@.len() ==> values@[#[trigger] arrangement(result)[i]]
                <= values@[#[trigger] arrangement(result)[j]],
{
    permutation::sort(values)
}

/// `Permutation::apply_slice` copies the items of a slice in the order of the
/// permutation. It panics unless the slice has the length of the permutation.
#[verifier::external_body]
pub(crate) fn apply_slice(permutation: &Permutation, values: &[u64]) -> (result: Vec<u64>)
    requires
        rearranges(arrangement(*permutation), values@.len()),
    ensures
        result@ == arrangement(*permutation).map_values(|index: int| values@[index]),
{
    permutation.apply_slice(values)
}

/// `Permutation::apply_inv_slice_in_place` undoes the permutation on the items
/// of a vector and leaves the permutation as it was. It panics unless the
/// vector has the length of the permutation, and for more than `isize::MAX`
/// items.
#[verifier::external_body]
pub(crate) fn apply_inv_slice_in_place(permutation: &mut Permutation, values: &mut Vec<u64>)
    requires
        rearranges(arrangement(*old(permutation)), old(values)@.len()),
        old(values)@.len() <= isize::MAX,
    ensures
        arrangement(*final(permutation)) == arrangement(*old(permutation)),
        final(values)@.len() == old(values)@.len(),
        forall|i: int|
            0 <= i < old(values)@.len() ==> final(values)@[#[trigger] arrangement(
                *old(permutation),
            )[i]] == old(values)@[i],
{
    permutation.apply_inv_slice_in_place(values)
}

} // verus!
