//! Row visibility as the search kernel sees it.

use crate::bitmap::{treemap_from_vec, treemap_values};
use roaring::RoaringTreemap;
use vstd::prelude::*;

verus! {

/// Supplies database row visibility to the storage-independent PLAID kernel.
///
/// Both the dense document ordinal and the durable database row address are
/// supplied. A database adapter uses the row address for predicate and deletion
/// masks while tests and other engines may use either identifier.
pub trait Eligibility: Send + Sync {
    /// The documents that may participate in the query.
    spec fn admits(&self, document_ordinal: u32, row_address: u64) -> bool;

    /// The selected documents can be counted.
    spec fn countable(&self) -> bool;

    /// Returns true when a document may participate in the query.
    fn includes(&self, document_ordinal: u32, row_address: u64) -> (result: bool)
        ensures
            result == self.admits(document_ordinal, row_address),
    ;

    /// Returns an exact selected-document count when cheaply available.
    fn selected_count_hint(&self) -> (result: Option<u64>)
        requires
            self.countable(),
        default_ensures
            result is None,
    {
        None
    }
}

/// Eligibility implementation that admits every indexed document.
#[derive(Clone, Copy, Debug, Default)]
pub struct AllEligible;

impl Eligibility for AllEligible {
    open spec fn admits(&self, document_ordinal: u32, row_address: u64) -> bool {
        true
    }

    open spec fn countable(&self) -> bool {
        true
    }

    fn includes(&self, _document_ordinal: u32, _row_address: u64) -> (result: bool) {
        true
    }
}

/// Address-based allow or block mask backed by a compressed 64-bit bitmap.
#[derive(Debug)]
pub enum AddressEligibility {
    /// Only addresses present in the bitmap are selected.
    Allow(RoaringTreemap),
    /// Addresses present in the bitmap are excluded.
    Block(RoaringTreemap),
}

impl AddressEligibility {
    /// The addresses that are selected.
    pub open spec fn selects(&self, row_address: u64) -> bool {
        match self {
            AddressEligibility::Allow(addresses) => treemap_values(*addresses).contains(row_address),
            AddressEligibility::Block(addresses) => !treemap_values(*addresses).contains(
                row_address,
            ),
        }
    }

    /// Creates an address allow-list.
    pub fn allow(addresses: Vec<u64>) -> (result: AddressEligibility)
        ensures
            result is Allow,
            treemap_values(result->Allow_0) == addresses@.to_set(),
            result.countable(),
            forall|address: u64| #[trigger]
                result.selects(address) <==> addresses@.contains(address),
    {
        assert(addresses@.len() == addresses.len());
        proof {
            addresses@.lemma_cardinality_of_set();
            vstd::seq_lib::seq_to_set_is_finite(addresses@);
        }
        AddressEligibility::Allow(treemap_from_vec(addresses))
    }

    /// Creates an address block-list.
    pub fn block(addresses: Vec<u64>) -> (result: AddressEligibility)
        ensures
            result is Block,
            treemap_values(result->Block_0) == addresses@.to_set(),
            result.countable(),
            forall|address: u64| #[trigger]
                result.selects(address) <==> !addresses@.contains(address),
    {
        AddressEligibility::Block(treemap_from_vec(addresses))
    }
}

impl Eligibility for AddressEligibility {
    open spec fn admits(&self, document_ordinal: u32, row_address: u64) -> bool {
        self.selects(row_address)
    }

    /// An allow-list of every possible address has one address too many.
    open spec fn countable(&self) -> bool {
        match self {
            AddressEligibility::Allow(addresses) => treemap_values(*addresses).finite()
                && treemap_values(*addresses).len() <= u64::MAX,
            AddressEligibility::Block(_) => true,
        }
    }

    fn includes(&self, _document_ordinal: u32, row_address: u64) -> (result: bool) {
        match self {
            AddressEligibility::Allow(addresses) => addresses.contains(row_address),
            AddressEligibility::Block(addresses) => !addresses.contains(row_address),
        }
    }

    fn selected_count_hint(&self) -> (result: Option<u64>)
        ensures
            match self {
                AddressEligibility::Allow(addresses) => result is Some && result->0
                    == treemap_values(*addresses).len(),
                AddressEligibility::Block(_) => result is None,
            },
    {
        match self {
            AddressEligibility::Allow(addresses) => Some(addresses.len()),
            AddressEligibility::Block(_) => None,
        }
    }
}

/// An allow-list and a block-list of the same addresses admit complementary
/// documents.
pub proof fn allow_and_block_are_complementary(
    allow: AddressEligibility,
    block: AddressEligibility,
    document_ordinal: u32,
    row_address: u64,
)
    requires
        allow is Allow,
        block is Block,
        treemap_values(allow->Allow_0) == treemap_values(block->Block_0),
    ensures
        allow.admits(document_ordinal, row_address) != block.admits(document_ordinal, row_address),
{
}

/// Without a filter every document may be returned. An allow list lets those through
/// whose addresses it holds, and a block list those whose addresses it does not.
pub proof fn lists_admit_by_address(
    all: AllEligible,
    list: AddressEligibility,
    document_ordinal: u32,
    row_address: u64,
)
    ensures
        all.admits(document_ordinal, row_address),
        match list {
            AddressEligibility::Allow(addresses) => list.admits(document_ordinal, row_address)
                <==> treemap_values(addresses).contains(row_address),
            AddressEligibility::Block(addresses) => list.admits(document_ordinal, row_address)
                <==> !treemap_values(addresses).contains(row_address),
        },
{
}

} // verus!
