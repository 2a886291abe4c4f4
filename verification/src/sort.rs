//! Sorting by a total order.

use vstd::prelude::*;
use vstd::relations::*;

verus! {

/// A type with a total order of its values.
pub trait TotalOrder: Copy {
    /// `self` comes before `other` or equals it.
    spec fn before(self, other: Self) -> bool;

    proof fn before_is_total_order()
        ensures
            total_ordering(|left: Self, right: Self| left.before(right)),
    ;

    fn is_before(&self, other: &Self) -> (result: bool)
        ensures
            result == self.before(*other),
    ;
}

/// The order of a type as a relation.
pub open spec fn order<T: TotalOrder>() -> spec_fn(T, T) -> bool {
    |left: T, right: T| left.before(right)
}

/// The values of a sequence in ascending order.
pub open spec fn ascending<T: TotalOrder>(values: Seq<T>) -> Seq<T> {
    values.sort_by(order::<T>())
}

impl TotalOrder for u32 {
    open spec fn before(self, other: Self) -> bool {
        self <= other
    }

    proof fn before_is_total_order() {
    }

    fn is_before(&self, other: &Self) -> (result: bool) {
        *self <= *other
    }
}

impl TotalOrder for u64 {
    open spec fn before(self, other: Self) -> bool {
        self <= other
    }

    proof fn before_is_total_order() {
    }

    fn is_before(&self, other: &Self) -> (result: bool) {
        *self <= *other
    }
}

/// Merges two ascending runs into one.
fn merge<T: TotalOrder>(left: &Vec<T>, right: &Vec<T>) -> (result: Vec<T>)
    requires
        sorted_by(left@, order::<T>()),
        sorted_by(right@, order::<T>()),
    ensures
        sorted_by(result@, order::<T>()),
        result@.to_multiset() == left@.to_multiset().add(right@.to_multiset()),
{
    proof {
        T::before_is_total_order();
        broadcast use vstd::seq_lib::group_to_multiset_ensures;
        broadcast use vstd::multiset::group_multiset_axioms;

    }
    let mut result: Vec<T> = Vec::new();
    let mut i: usize = 0;
    let mut j: usize = 0;
    assert(left@.take(0) =~= Seq::<T>::empty());
    assert(right@.take(0) =~= Seq::<T>::empty());
    assert(result@.to_multiset() =~= left@.take(0).to_multiset().add(right@.take(0).to_multiset()));
    while i < left.len() || j < right.len()
        invariant
            i <= left@.len(),
            j <= right@.len(),
            total_ordering(order::<T>()),
            sorted_by(left@, order::<T>()),
            sorted_by(right@, order::<T>()),
            sorted_by(result@, order::<T>()),
            forall|k: int, l: int|
                0 <= k < result@.len() && i <= l < left@.len() ==> #[trigger] result@[k].before(
                    #[trigger] left@[l],
                ),
            forall|k: int, l: int|
                0 <= k < result@.len() && j <= l < right@.len() ==> #[trigger] result@[k].before(
                    #[trigger] right@[l],
                ),
            result@.to_multiset() == left@.take(i as int).to_multiset().add(
                right@.take(j as int).to_multiset(),
            ),
        decreases (left@.len() - i) + (right@.len() - j),
    {
        broadcast use vstd::seq_lib::group_to_multiset_ensures;
        broadcast use vstd::multiset::group_multiset_axioms;

        let take_left = if i >= left.len() {
            false
        } else if j >= right.len() {
            true
        } else {
            left[i].is_before(&right[j])
        };
        let ghost earlier = result@;
        if take_left {
            let value = left[i];
            assert(left@.take(i + 1) =~= left@.take(i as int).push(value));
            proof {
                assert forall|l: int| i < l < left@.len() implies value.before(
                    #[trigger] left@[l],
                ) by {
                    assert(order::<T>()(left@[i as int], left@[l]));
                }
                assert forall|l: int| j <= l < right@.len() implies value.before(
                    #[trigger] right@[l],
                ) by {
                    assert(order::<T>()(right@[j as int], right@[l]));
                    assert(order::<T>()(value, right@[j as int]));
                    assert(order::<T>()(value, right@[l]));
                }
            }
            result.push(value);
            i += 1;
            assert(result@.to_multiset() =~= left@.take(i as int).to_multiset().add(
                right@.take(j as int).to_multiset(),
            ));
        } else {
            let value = right[j];
            assert(right@.take(j + 1) =~= right@.take(j as int).push(value));
            proof {
                assert forall|l: int| j < l < right@.len() implies value.before(
                    #[trigger] right@[l],
                ) by {
                    assert(order::<T>()(right@[j as int], right@[l]));
                }
                assert forall|l: int| i <= l < left@.len() implies value.before(
                    #[trigger] left@[l],
                ) by {
                    assert(order::<T>()(left@[i as int], left@[l]));
                    assert(order::<T>()(value, left@[i as int]) || order::<T>()(
                        left@[i as int],
                        value,
                    ));
                    assert(order::<T>()(value, left@[l]));
                }
            }
            result.push(value);
            j += 1;
            assert(result@.to_multiset() =~= left@.take(i as int).to_multiset().add(
                right@.take(j as int).to_multiset(),
            ));
        }
        assert(sorted_by(result@, order::<T>())) by {
            assert forall|a: int, b: int| 0 <= a < b < result@.len() implies #[trigger] order::<
                T,
            >()(result@[a], result@[b]) by {
                if b < earlier.len() {
                    assert(order::<T>()(earlier[a], earlier[b]));
                } else {
                    assert(earlier[a].before(result@[b]));
                }
            }
        }
    }
    assert(left@.take(i as int) =~= left@);
    assert(right@.take(j as int) =~= right@);
    result
}

/// Sorts the values between two positions.
fn sort_between<T: TotalOrder>(values: &Vec<T>, start: usize, end: usize) -> (result: Vec<T>)
    requires
        start <= end <= values@.len(),
    ensures
        sorted_by(result@, order::<T>()),
        result@.to_multiset() == values@.subrange(start as int, end as int).to_multiset(),
    decreases end - start,
{
    if end - start < 2 {
        let mut result: Vec<T> = Vec::new();
        if start < end {
            result.push(values[start]);
        }
        assert(result@ =~= values@.subrange(start as int, end as int));
        return result;
    }
    let middle: usize = start + (end - start) / 2;
    let left = sort_between(values, start, middle);
    let right = sort_between(values, middle, end);
    proof {
        let whole = values@.subrange(start as int, end as int);
        let first = values@.subrange(start as int, middle as int);
        let second = values@.subrange(middle as int, end as int);
        assert(whole =~= first + second);
        vstd::seq_lib::lemma_multiset_commutative(first, second);
    }
    merge(&left, &right)
}

/// Sorts values in ascending order.
pub fn sort<T: TotalOrder>(values: &Vec<T>) -> (result: Vec<T>)
    ensures
        result@ == ascending(values@),
{
    let result = sort_between(values, 0, values.len());
    proof {
        T::before_is_total_order();
        assert(values@.subrange(0, values@.len() as int) =~= values@);
        values@.lemma_sort_by_ensures(order::<T>());
        vstd::seq_lib::lemma_sorted_unique(result@, ascending(values@), order::<T>());
    }
    result
}

/// Sorting keeps every value as often as it occurs and puts earlier values
/// first.
pub proof fn ascending_is_sorted_permutation<T: TotalOrder>(values: Seq<T>)
    ensures
        ascending(values).to_multiset() == values.to_multiset(),
        ascending(values).len() == values.len(),
        forall|i: int, j: int|
            0 <= i < j < values.len() ==> (#[trigger] ascending(values)[i]).before(
                #[trigger] ascending(values)[j],
            ),
        forall|value: T| #[trigger] ascending(values).contains(value) <==> values.contains(value),
{
    T::before_is_total_order();
    values.lemma_sort_by_ensures(order::<T>());
    values.to_multiset_ensures();
    ascending(values).to_multiset_ensures();
    assert forall|i: int, j: int| 0 <= i < j < values.len() implies (#[trigger] ascending(
        values,
    )[i]).before(#[trigger] ascending(values)[j]) by {
        assert(order::<T>()(ascending(values)[i], ascending(values)[j]));
    }
    assert forall|value: T| #[trigger] ascending(values).contains(value) <==> values.contains(
        value,
    ) by {
        assert(ascending(values).contains(value) <==> ascending(values).to_multiset().contains(
            value,
        ));
        assert(values.contains(value) <==> values.to_multiset().contains(value));
    }
}

/// The order in which values arrive does not matter to sorting.
pub proof fn ascending_ignores_arrival_order<T: TotalOrder>(left: Seq<T>, right: Seq<T>)
    requires
        left.to_multiset() == right.to_multiset(),
    ensures
        ascending(left) == ascending(right),
{
    T::before_is_total_order();
    left.lemma_sort_by_ensures(order::<T>());
    right.lemma_sort_by_ensures(order::<T>());
    vstd::seq_lib::lemma_sorted_unique(ascending(left), ascending(right), order::<T>());
}

/// Sorted numbers are the same numbers, none before a smaller one.
pub proof fn numbers_sort_by_size(shorts: Seq<u32>, longs: Seq<u64>)
    ensures
        ascending(shorts).to_multiset() == shorts.to_multiset(),
        ascending(longs).to_multiset() == longs.to_multiset(),
        forall|i: int, j: int|
            0 <= i < j < ascending(shorts).len() ==> #[trigger] ascending(shorts)[i]
                <= #[trigger] ascending(shorts)[j],
        forall|i: int, j: int|
            0 <= i < j < ascending(longs).len() ==> #[trigger] ascending(longs)[i]
                <= #[trigger] ascending(longs)[j],
{
    ascending_is_sorted_permutation(shorts);
    ascending_is_sorted_permutation(longs);
    assert forall|i: int, j: int| 0 <= i < j < ascending(shorts).len() implies
        #[trigger] ascending(shorts)[i] <= #[trigger] ascending(shorts)[j] by {
        assert(ascending(shorts)[i].before(ascending(shorts)[j]));
    }
    assert forall|i: int, j: int| 0 <= i < j < ascending(longs).len() implies
        #[trigger] ascending(longs)[i] <= #[trigger] ascending(longs)[j] by {
        assert(ascending(longs)[i].before(ascending(longs)[j]));
    }
}

} // verus!
