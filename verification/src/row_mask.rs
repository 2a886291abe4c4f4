//! Row masks in terms of where rows lie.

use crate::database::{
    increasing, AddressSet, DatabaseError, DatabaseResult, RowAddrMask, Trouble,
};
use crate::take::distinct_addresses;
use vstd::prelude::*;

verus! {

/// Where the live rows of a dataset lie.
#[derive(Debug)]
pub struct RowIdIndex {
    /// Stable row identifiers in ascending order.
    pub row_ids: Vec<u64>,
    /// The address of each of these rows.
    pub addresses: Vec<u64>,
}

impl RowIdIndex {
    /// Every identifier occurs once and has an address.
    pub open spec fn wf(self) -> bool {
        increasing(self.row_ids@) && self.row_ids@.len() == self.addresses@.len()
    }

    /// A row has an address.
    pub open spec fn places(self, row_id: u64, address: u64) -> bool {
        exists|i: int|
            0 <= i < self.row_ids@.len() && #[trigger] self.row_ids@[i] == row_id
                && self.addresses@[i] == address
    }

    /// No two rows have the same address.
    pub open spec fn one_to_one(self) -> bool {
        self.addresses@.no_duplicates()
    }

    /// The address of a row.
    pub fn get(&self, row_id: u64) -> (result: Option<u64>)
        requires
            self.wf(),
        ensures
            match result {
                Some(address) => forall|other: u64| #[trigger]
                    self.places(row_id, other) <==> other == address,
                None => forall|other: u64| !#[trigger] self.places(row_id, other),
            },
    {
        let mut low: usize = 0;
        let mut high: usize = self.row_ids.len();
        while low < high
            invariant
                self.wf(),
                low <= high <= self.row_ids@.len(),
                forall|j: int| 0 <= j < low ==> #[trigger] self.row_ids@[j] < row_id,
                forall|j: int| high <= j < self.row_ids@.len() ==> #[trigger] self.row_ids@[j] > row_id,
            decreases high - low,
        {
            let middle: usize = low + (high - low) / 2;
            let value: u64 = self.row_ids[middle];
            if value == row_id {
                let address: u64 = self.addresses[middle];
                assert forall|other: u64| #[trigger]
                    self.places(row_id, other) <==> other == address by {
                    if self.places(row_id, other) {
                        let i = choose|i: int|
                            0 <= i < self.row_ids@.len() && #[trigger] self.row_ids@[i] == row_id
                                && self.addresses@[i] == other;
                        if i < middle {
                            assert(self.row_ids@[i] < self.row_ids@[middle as int]);
                        } else if middle < i {
                            assert(self.row_ids@[middle as int] < self.row_ids@[i]);
                        }
                    }
                    if other == address {
                        assert(self.row_ids@[middle as int] == row_id);
                    }
                }
                return Some(address);
            }
            if value < row_id {
                assert forall|j: int| 0 <= j < middle + 1 implies #[trigger] self.row_ids@[j]
                    < row_id by {
                    if j < middle {
                        assert(self.row_ids@[j] < self.row_ids@[middle as int]);
                    }
                }
                low = middle + 1;
            } else {
                assert forall|j: int| middle <= j < self.row_ids@.len() implies #[trigger] self.row_ids@[j]
                    > row_id by {
                    if j > middle {
                        assert(self.row_ids@[middle as int] < self.row_ids@[j]);
                    }
                }
                high = middle;
            }
        }
        None
    }

    /// The addresses of listed rows, each once and in ascending order. Rows that
    /// are not live have none.
    pub open spec fn translates(self, row_ids: Seq<u64>, addresses: Seq<u64>) -> bool {
        &&& increasing(addresses)
        &&& forall|address: u64| #[trigger]
            addresses.contains(address) <==> exists|row_id: u64|
                row_ids.contains(row_id) && #[trigger] self.places(row_id, address)
    }

    /// The addresses of the live rows that a mask of identifiers selects, each
    /// once and in ascending order.
    pub open spec fn selects_live(self, mask: RowAddrMask, addresses: Seq<u64>) -> bool {
        &&& increasing(addresses)
        &&& forall|address: u64| #[trigger]
            addresses.contains(address) <==> exists|row_id: u64|
                mask.selects(row_id) && #[trigger] self.places(row_id, address)
    }

    fn translate(&self, row_ids: &Vec<u64>) -> (result: Vec<u64>)
        requires
            self.wf(),
        ensures
            self.translates(row_ids@, result@),
    {
        let mut found: Vec<u64> = Vec::new();
        let mut i: usize = 0;
        while i < row_ids.len()
            invariant
                self.wf(),
                i <= row_ids@.len(),
                forall|address: u64| #[trigger]
                    found@.contains(address) <==> exists|k: int|
                        0 <= k < i && self.places(#[trigger] row_ids@[k], address),
            decreases row_ids@.len() - i,
        {
            let ghost before = found@;
            let row_id: u64 = row_ids[i];
            let answer = self.get(row_id);
            if let Some(address) = answer {
                found.push(address);
            }
            proof {
                assert forall|address: u64| #[trigger] found@.contains(address) <==> exists|k: int|
                    0 <= k < i + 1 && self.places(#[trigger] row_ids@[k], address) by {
                    if found@.contains(address) {
                        let p = choose|p: int| 0 <= p < found@.len() && found@[p] == address;
                        if p < before.len() {
                            assert(before[p] == address);
                            assert(before.contains(address));
                            let k = choose|k: int|
                                0 <= k < i && self.places(#[trigger] row_ids@[k], address);
                            assert(self.places(row_ids@[k], address));
                        } else {
                            assert(self.places(row_ids@[i as int], address));
                        }
                    }
                    if exists|k: int| 0 <= k < i + 1 && self.places(#[trigger] row_ids@[k], address) {
                        let k = choose|k: int|
                            0 <= k < i + 1 && self.places(#[trigger] row_ids@[k], address);
                        if k < i {
                            assert(before.contains(address));
                            let p = choose|p: int| 0 <= p < before.len() && before[p] == address;
                            assert(found@[p] == address);
                        } else {
                            assert(found@[before.len() as int] == address);
                        }
                    }
                }
            }
            i += 1;
        }
        let result = distinct_addresses(&found);
        assert forall|address: u64| #[trigger] result@.contains(address) <==> exists|row_id: u64|
            row_ids@.contains(row_id) && #[trigger] self.places(row_id, address) by {
            if found@.contains(address) {
                let k = choose|k: int|
                    0 <= k < row_ids@.len() && self.places(#[trigger] row_ids@[k], address);
                assert(row_ids@.contains(row_ids@[k]));
            }
            if exists|row_id: u64|
                row_ids@.contains(row_id) && #[trigger] self.places(row_id, address) {
                let row_id = choose|row_id: u64|
                    row_ids@.contains(row_id) && #[trigger] self.places(row_id, address);
                let k = choose|k: int| 0 <= k < row_ids@.len() && row_ids@[k] == row_id;
                assert(self.places(row_ids@[k], address));
            }
        }
        result
    }

    fn live_selection(&self, mask: &RowAddrMask) -> (result: Vec<u64>)
        requires
            self.wf(),
            mask.wf(),
        ensures
            self.selects_live(*mask, result@),
    {
        let mut found: Vec<u64> = Vec::new();
        let mut i: usize = 0;
        while i < self.row_ids.len()
            invariant
                self.wf(),
                mask.wf(),
                i <= self.row_ids@.len(),
                forall|address: u64| #[trigger]
                    found@.contains(address) <==> exists|k: int|
                        0 <= k < i && mask.selects(#[trigger] self.row_ids@[k])
                            && self.addresses@[k] == address,
            decreases self.row_ids@.len() - i,
        {
            let ghost before = found@;
            let row_id: u64 = self.row_ids[i];
            let chosen = mask.selected(row_id);
            if chosen {
                found.push(self.addresses[i]);
            }
            proof {
                assert forall|address: u64| #[trigger] found@.contains(address) <==> exists|k: int|
                    0 <= k < i + 1 && mask.selects(#[trigger] self.row_ids@[k])
                        && self.addresses@[k] == address by {
                    if found@.contains(address) {
                        let p = choose|p: int| 0 <= p < found@.len() && found@[p] == address;
                        if p < before.len() {
                            assert(before[p] == address);
                            assert(before.contains(address));
                            let k = choose|k: int|
                                0 <= k < i && mask.selects(#[trigger] self.row_ids@[k])
                                    && self.addresses@[k] == address;
                            assert(mask.selects(self.row_ids@[k]));
                        } else {
                            assert(mask.selects(self.row_ids@[i as int]));
                        }
                    }
                    if exists|k: int|
                        0 <= k < i + 1 && mask.selects(#[trigger] self.row_ids@[k])
                            && self.addresses@[k] == address {
                        let k = choose|k: int|
                            0 <= k < i + 1 && mask.selects(#[trigger] self.row_ids@[k])
                                && self.addresses@[k] == address;
                        if k < i {
                            assert(before.contains(address));
                            let p = choose|p: int| 0 <= p < before.len() && before[p] == address;
                            assert(found@[p] == address);
                        } else {
                            assert(found@[before.len() as int] == address);
                        }
                    }
                }
            }
            i += 1;
        }
        let result = distinct_addresses(&found);
        assert forall|address: u64| #[trigger] result@.contains(address) <==> exists|row_id: u64|
            mask.selects(row_id) && #[trigger] self.places(row_id, address) by {
            if found@.contains(address) {
                let k = choose|k: int|
                    0 <= k < self.row_ids@.len() && mask.selects(#[trigger] self.row_ids@[k])
                        && self.addresses@[k] == address;
                assert(self.places(self.row_ids@[k], address));
            }
            if exists|row_id: u64| mask.selects(row_id) && #[trigger] self.places(row_id, address) {
                let row_id = choose|row_id: u64|
                    mask.selects(row_id) && #[trigger] self.places(row_id, address);
                let k = choose|k: int|
                    0 <= k < self.row_ids@.len() && #[trigger] self.row_ids@[k] == row_id
                        && self.addresses@[k] == address;
                assert(mask.selects(self.row_ids@[k]));
            }
        }
        result
    }
}

/// The set of some addresses.
fn address_set(addresses: Vec<u64>) -> (result: AddressSet)
    ensures
        result.addresses == addresses,
        result.enumerable(),
{
    AddressSet { addresses, whole_fragments: Vec::new() }
}

/// A mask of addresses stands for a mask of identifiers: listed identifiers are
/// translated one by one. Where they are not listed, or where a block list would
/// let deleted rows through, the selected live rows are listed instead.
pub open spec fn stands_for(
    index: RowIdIndex,
    has_deletions: bool,
    mask: RowAddrMask,
    translated: RowAddrMask,
) -> bool {
    match mask {
        RowAddrMask::AllowList(set) => match translated {
            RowAddrMask::AllowList(out) => out.enumerable() && if set.enumerable() {
                index.translates(set.addresses@, out.addresses@)
            } else {
                index.selects_live(mask, out.addresses@)
            },
            RowAddrMask::BlockList(_) => false,
        },
        RowAddrMask::BlockList(set) => if !has_deletions && set.enumerable() {
            match translated {
                RowAddrMask::BlockList(out) => out.enumerable() && index.translates(
                    set.addresses@,
                    out.addresses@,
                ),
                RowAddrMask::AllowList(_) => false,
            }
        } else {
            match translated {
                RowAddrMask::AllowList(out) => out.enumerable() && index.selects_live(
                    mask,
                    out.addresses@,
                ),
                RowAddrMask::BlockList(_) => false,
            }
        },
    }
}

/// Makes a mask of addresses of a mask that a filter delivered. Where a dataset
/// has no stable row identifiers, its rows are known by address already.
pub fn plaid_address_mask(
    uses_stable_row_ids: bool,
    row_id_index: Option<&RowIdIndex>,
    has_deletions: bool,
    mask: RowAddrMask,
) -> (result: DatabaseResult<RowAddrMask>)
    requires
        mask.wf(),
        row_id_index is Some ==> (row_id_index->0).wf(),
    ensures
        match result {
            Ok(translated) => translated.wf() && if uses_stable_row_ids {
                row_id_index is Some && stands_for(
                    *(row_id_index->0),
                    has_deletions,
                    mask,
                    translated,
                )
            } else {
                translated == mask
            },
            Err(error) => uses_stable_row_ids && row_id_index is None && error@
                == Trouble::Internal("stable-row-id dataset has no row-id index"@),
        },
{
    if !uses_stable_row_ids {
        return Ok(mask);
    }
    let index = match row_id_index {
        Some(index) => index,
        None => {
            return Err(DatabaseError::internal("stable-row-id dataset has no row-id index"));
        },
    };
    match &mask {
        RowAddrMask::AllowList(set) => {
            if set.whole_fragments.len() == 0 {
                let addresses = index.translate(&set.addresses);
                return Ok(RowAddrMask::AllowList(address_set(addresses)));
            }
        },
        RowAddrMask::BlockList(set) => {
            if !has_deletions && set.whole_fragments.len() == 0 {
                let addresses = index.translate(&set.addresses);
                return Ok(RowAddrMask::BlockList(address_set(addresses)));
            }
        },
    }
    let addresses = index.live_selection(&mask);
    Ok(RowAddrMask::AllowList(address_set(addresses)))
}

/// A live row is selected by its address exactly where it was selected by its
/// identifier.
pub proof fn live_rows_stay_selected(
    index: RowIdIndex,
    has_deletions: bool,
    mask: RowAddrMask,
    translated: RowAddrMask,
    row_id: u64,
    address: u64,
)
    requires
        index.wf(),
        index.one_to_one(),
        stands_for(index, has_deletions, mask, translated),
        index.places(row_id, address),
    ensures
        translated.selects(address) <==> mask.selects(row_id),
{
    assert forall|other: u64| #[trigger] index.places(other, address) implies other == row_id by {
        let i = choose|i: int|
            0 <= i < index.row_ids@.len() && #[trigger] index.row_ids@[i] == row_id
                && index.addresses@[i] == address;
        let j = choose|j: int|
            0 <= j < index.row_ids@.len() && #[trigger] index.row_ids@[j] == other
                && index.addresses@[j] == address;
        if i != j {
            assert(index.addresses@[i] != index.addresses@[j]);
        }
    }
    assert(index.places(row_id, address));
}

/// A deleted row, which no identifier leads to, is not selected where the
/// dataset has deletions.
pub proof fn deleted_rows_stay_invisible(
    index: RowIdIndex,
    mask: RowAddrMask,
    translated: RowAddrMask,
    address: u64,
)
    requires
        index.wf(),
        stands_for(index, true, mask, translated),
        forall|row_id: u64| !#[trigger] index.places(row_id, address),
    ensures
        !translated.selects(address),
{
}

} // verus!
