//! Compressed bitmaps of the roaring crate.

use crate::postings::strictly_increasing;
use roaring::{RoaringBitmap, RoaringTreemap};
use vstd::prelude::*;

verus! {

/// The compressed 32-bit bitmap of the roaring crate.
#[verifier::external_type_specification]
#[verifier::external_body]
pub struct ExRoaringBitmap(roaring::RoaringBitmap);

/// The compressed 64-bit bitmap of the roaring crate.
#[verifier::external_type_specification]
#[verifier::external_body]
pub struct ExRoaringTreemap(roaring::RoaringTreemap);

/// The values that a 32-bit bitmap holds.
pub uninterp spec fn bitmap_values(bitmap: RoaringBitmap) -> Set<u32>;

/// The values that a 64-bit bitmap holds.
pub uninterp spec fn treemap_values(treemap: RoaringTreemap) -> Set<u64>;

/// `RoaringBitmap::new` creates a bitmap without values.
pub assume_specification[ RoaringBitmap::new ]() -> (result: RoaringBitmap)
    ensures
        bitmap_values(result) == Set::<u32>::empty(),
;

/// `RoaringBitmap::insert` adds a value and tells whether it was absent.
pub assume_specification[ RoaringBitmap::insert ](bitmap: &mut RoaringBitmap, value: u32) -> (result:
    bool)
    ensures
        bitmap_values(*final(bitmap)) == bitmap_values(*old(bitmap)).insert(value),
        result == !bitmap_values(*old(bitmap)).contains(value),
;

/// `RoaringBitmap::len` counts the values.
pub assume_specification[ RoaringBitmap::len ](bitmap: &RoaringBitmap) -> (result: u64)
    ensures
        result as nat == bitmap_values(*bitmap).len(),
;

/// `RoaringBitmap::iter` yields each value once, in ascending order.
#[verifier::external_body]
pub(crate) fn bitmap_to_vec(bitmap: &RoaringBitmap) -> (result: Vec<u32>)
    ensures
        strictly_increasing(result@),
        result@.to_set() == bitmap_values(*bitmap),
{
    bitmap.iter().collect()
}

/// Collecting an iterator into a `RoaringTreemap` holds exactly the values that
/// the iterator yields.
#[verifier::external_body]
pub(crate) fn treemap_from_vec(values: Vec<u64>) -> (result: RoaringTreemap)
    ensures
        treemap_values(result) == values@.to_set(),
{
    values.into_iter().collect()
}

/// `RoaringTreemap::contains` tells whether a value is held.
pub assume_specification[ RoaringTreemap::contains ](treemap: &RoaringTreemap, value: u64) -> (result:
    bool)
    ensures
        result == treemap_values(*treemap).contains(value),
;

/// `RoaringTreemap::len` counts the values, which must be fewer than two to the
/// power of 64.
pub assume_specification[ RoaringTreemap::len ](treemap: &RoaringTreemap) -> (result: u64)
    requires
        treemap_values(*treemap).finite(),
        treemap_values(*treemap).len() <= u64::MAX,
    ensures
        result as nat == treemap_values(*treemap).len(),
;

} // verus!
