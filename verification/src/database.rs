//! Errors, row addresses and row masks of the surrounding database.

use crate::error::{Error, Fault};
use vstd::prelude::*;

verus! {

/// Errors that reach a user of the database.
#[derive(Debug)]
pub enum DatabaseError {
    /// The request is invalid.
    InvalidInput(String),
    /// An index could not be built or read.
    Index(String),
    /// An invariant of the database is broken.
    Internal(String),
    /// The request is valid but not supported.
    NotSupported(String),
}

/// Result type of database operations.
pub type DatabaseResult<T> = std::result::Result<T, DatabaseError>;

/// What a [`DatabaseError`] says, with its text as a sequence of characters.
pub enum Trouble {
    InvalidInput(Seq<char>),
    Index(Seq<char>),
    Internal(Seq<char>),
    NotSupported(Seq<char>),
}

impl View for DatabaseError {
    type V = Trouble;

    open spec fn view(&self) -> Trouble {
        match self {
            DatabaseError::InvalidInput(message) => Trouble::InvalidInput(message@),
            DatabaseError::Index(message) => Trouble::Index(message@),
            DatabaseError::Internal(message) => Trouble::Internal(message@),
            DatabaseError::NotSupported(message) => Trouble::NotSupported(message@),
        }
    }
}

impl Trouble {
    /// The message without the kind of error.
    pub open spec fn message(self) -> Seq<char> {
        match self {
            Trouble::InvalidInput(message) => message,
            Trouble::Index(message) => message,
            Trouble::Internal(message) => message,
            Trouble::NotSupported(message) => message,
        }
    }
}

/// An error of the PLAID kernel as the database reports it.
pub open spec fn kernel_trouble(fault: Fault) -> Trouble {
    Trouble::Index("PLAID index error: "@ + fault.rendered())
}

impl DatabaseError {
    /// The message shown to a user.
    pub fn to_string(&self) -> (result: String)
        ensures
            result@ == self@.message(),
    {
        match self {
            DatabaseError::InvalidInput(message) => message.clone(),
            DatabaseError::Index(message) => message.clone(),
            DatabaseError::Internal(message) => message.clone(),
            DatabaseError::NotSupported(message) => message.clone(),
        }
    }

    /// A [`DatabaseError::InvalidInput`] with a fixed text.
    pub fn invalid_input(message: &str) -> (result: DatabaseError)
        ensures
            result@ == Trouble::InvalidInput(message@),
    {
        DatabaseError::InvalidInput(message.to_owned())
    }

    /// A [`DatabaseError::Index`] with a fixed text.
    pub fn index(message: &str) -> (result: DatabaseError)
        ensures
            result@ == Trouble::Index(message@),
    {
        DatabaseError::Index(message.to_owned())
    }

    /// A [`DatabaseError::Internal`] with a fixed text.
    pub fn internal(message: &str) -> (result: DatabaseError)
        ensures
            result@ == Trouble::Internal(message@),
    {
        DatabaseError::Internal(message.to_owned())
    }

    /// A [`DatabaseError::NotSupported`] with a fixed text.
    pub fn not_supported(message: &str) -> (result: DatabaseError)
        ensures
            result@ == Trouble::NotSupported(message@),
    {
        DatabaseError::NotSupported(message.to_owned())
    }
}

/// Reports an error of the PLAID kernel.
pub fn plaid_error(error: Error) -> (result: DatabaseError)
    ensures
        result@ == kernel_trouble(error@),
{
    let mut text = "PLAID index error: ".to_owned();
    let rendered = error.to_string();
    text.push_str(rendered.as_str());
    DatabaseError::Index(text)
}

/// The process soft limit for open file descriptors, from what the platform
/// answered.
///
/// A failure to query the platform limit is represented as unbounded so callers
/// can retain their own conservative fixed ceiling.
pub fn file_descriptor_soft_limit(queried: Option<u64>) -> (result: u64)
    ensures
        result == match queried {
            Some(limit) => limit,
            None => u64::MAX,
        },
{
    match queried {
        Some(limit) => limit,
        None => u64::MAX,
    }
}

/// Address that no row has.
pub const TOMBSTONE_ROW: u64 = 0xffff_ffff_ffff_ffff;

/// The fragment of a row address: its upper half.
pub open spec fn fragment_of(address: u64) -> u32 {
    (address / 0x1_0000_0000) as u32
}

/// The position of a row in its fragment: the lower half of its address.
pub open spec fn offset_of(address: u64) -> u32 {
    (address % 0x1_0000_0000) as u32
}

/// The address of a row in a fragment.
pub open spec fn address_of(fragment: u32, offset: u32) -> u64 {
    (fragment * 0x1_0000_0000 + offset) as u64
}

/// An address is made up of its fragment and its offset, and these can be told
/// apart again.
pub proof fn addresses_split(address: u64, fragment: u32, offset: u32)
    ensures
        address_of(fragment_of(address), offset_of(address)) == address,
        fragment_of(address_of(fragment, offset)) == fragment,
        offset_of(address_of(fragment, offset)) == offset,
{
}

/// The fragment of a row address.
pub fn fragment_id(address: u64) -> (result: u32)
    ensures
        result == fragment_of(address),
{
    (address / 0x1_0000_0000) as u32
}

/// The position of a row in its fragment.
pub fn row_offset(address: u64) -> (result: u32)
    ensures
        result == offset_of(address),
{
    (address % 0x1_0000_0000) as u32
}

/// The address of a row in a fragment.
pub fn new_from_parts(fragment: u32, offset: u32) -> (result: u64)
    ensures
        result == address_of(fragment, offset),
{
    fragment as u64 * 0x1_0000_0000 + offset as u64
}

/// Each value is larger than every earlier one.
pub open spec fn increasing(values: Seq<u64>) -> bool {
    forall|i: int, j: int| 0 <= i < j < values.len() ==> #[trigger] values[i] < #[trigger] values[j]
}

/// A set of addresses: single ones, and whole fragments.
#[derive(Debug)]
pub struct AddressSet {
    /// Single addresses in ascending order.
    pub addresses: Vec<u64>,
    /// Fragments of which every address belongs to the set.
    pub whole_fragments: Vec<u32>,
}

impl AddressSet {
    /// The single addresses are in ascending order without repetition.
    pub open spec fn wf(self) -> bool {
        increasing(self.addresses@)
    }

    /// An address belongs to the set.
    pub open spec fn has(self, address: u64) -> bool {
        self.addresses@.contains(address) || self.whole_fragments@.contains(fragment_of(address))
    }

    /// The addresses are known one by one.
    pub open spec fn enumerable(self) -> bool {
        self.whole_fragments@.len() == 0
    }

    /// Whether an address belongs to the set.
    pub fn contains(&self, address: u64) -> (result: bool)
        requires
            self.wf(),
        ensures
            result == self.has(address),
    {
        let fragment: u32 = fragment_id(address);
        let mut i: usize = 0;
        while i < self.whole_fragments.len()
            invariant
                i <= self.whole_fragments@.len(),
                fragment == fragment_of(address),
                forall|j: int| 0 <= j < i ==> #[trigger] self.whole_fragments@[j] != fragment,
            decreases self.whole_fragments@.len() - i,
        {
            if self.whole_fragments[i] == fragment {
                return true;
            }
            i += 1;
        }
        assert(!self.whole_fragments@.contains(fragment));
        let mut low: usize = 0;
        let mut high: usize = self.addresses.len();
        while low < high
            invariant
                self.wf(),
                low <= high <= self.addresses@.len(),
                forall|j: int| 0 <= j < low ==> #[trigger] self.addresses@[j] < address,
                forall|j: int|
                    high <= j < self.addresses@.len() ==> #[trigger] self.addresses@[j] > address,
            decreases high - low,
        {
            let middle: usize = low + (high - low) / 2;
            let value: u64 = self.addresses[middle];
            if value == address {
                return true;
            }
            if value < address {
                assert forall|j: int| 0 <= j < middle + 1 implies #[trigger] self.addresses@[j]
                    < address by {
                    if j < middle {
                        assert(self.addresses@[j] < self.addresses@[middle as int]);
                    }
                }
                low = middle + 1;
            } else {
                assert forall|j: int| middle <= j < self.addresses@.len() implies #[trigger] self.addresses@[j]
                    > address by {
                    if j > middle {
                        assert(self.addresses@[middle as int] < self.addresses@[j]);
                    }
                }
                high = middle;
            }
        }
        false
    }
}

/// Which rows a query may see.
#[derive(Debug)]
pub enum RowAddrMask {
    /// Only these rows.
    AllowList(AddressSet),
    /// All rows but these.
    BlockList(AddressSet),
}

impl RowAddrMask {
    pub open spec fn wf(self) -> bool {
        match self {
            RowAddrMask::AllowList(set) => set.wf(),
            RowAddrMask::BlockList(set) => set.wf(),
        }
    }

    /// The mask lets a row through.
    pub open spec fn selects(self, address: u64) -> bool {
        match self {
            RowAddrMask::AllowList(set) => set.has(address),
            RowAddrMask::BlockList(set) => !set.has(address),
        }
    }

    /// The selected addresses, where they are known one by one.
    pub open spec fn listed(self) -> Option<Seq<u64>> {
        match self {
            RowAddrMask::AllowList(set) => if set.enumerable() {
                Some(set.addresses@)
            } else {
                None
            },
            RowAddrMask::BlockList(_) => None,
        }
    }

    /// The mask blocks nothing.
    pub open spec fn select_all(self) -> bool {
        match self {
            RowAddrMask::AllowList(_) => false,
            RowAddrMask::BlockList(set) => set.addresses@.len() == 0 && set.enumerable(),
        }
    }

    /// Whether the mask lets a row through.
    pub fn selected(&self, address: u64) -> (result: bool)
        requires
            self.wf(),
        ensures
            result == self.selects(address),
    {
        match self {
            RowAddrMask::AllowList(set) => set.contains(address),
            RowAddrMask::BlockList(set) => !set.contains(address),
        }
    }

    /// The selected addresses, where they are known one by one.
    pub fn iter_addrs(&self) -> (result: Option<&Vec<u64>>)
        ensures
            match result {
                Some(addresses) => self.listed() == Some(addresses@),
                None => self.listed() is None,
            },
    {
        match self {
            RowAddrMask::AllowList(set) => if set.whole_fragments.len() == 0 {
                Some(&set.addresses)
            } else {
                None
            },
            RowAddrMask::BlockList(_) => None,
        }
    }

    /// Whether the mask blocks nothing.
    pub fn is_select_all(&self) -> (result: bool)
        ensures
            result == self.select_all(),
    {
        match self {
            RowAddrMask::AllowList(_) => false,
            RowAddrMask::BlockList(set) => set.addresses.len() == 0 && set.whole_fragments.len()
                == 0,
        }
    }

    /// How many rows the mask can select, where that is known.
    pub fn max_len(&self) -> (result: Option<u64>)
        ensures
            match result {
                Some(count) => self.listed() is Some && count == (self.listed()->0).len(),
                None => self.listed() is None,
            },
    {
        match self.iter_addrs() {
            Some(addresses) => Some(addresses.len() as u64),
            None => None,
        }
    }
}

/// A mask that lists its addresses selects exactly those.
pub proof fn listed_addresses_are_selected(mask: RowAddrMask, address: u64)
    requires
        mask.listed() is Some,
    ensures
        mask.selects(address) <==> (mask.listed()->0).contains(address),
{
}

/// An address holds its fragment in the upper half and its offset in the lower.
pub proof fn addresses_hold_fragment_and_offset(address: u64, fragment: u32, offset: u32)
    ensures
        address_of(fragment, offset) == fragment * 0x1_0000_0000 + offset,
        fragment_of(address) == address as int / 0x1_0000_0000,
        offset_of(address) == address as int % 0x1_0000_0000,
{
    addresses_split(address, fragment, offset);
}

/// A list names single rows and whole fragments. An allow list selects the rows
/// that it names, and a block list all others. A mask that selects all rows blocks
/// nothing, and only an allow list of single rows can list what it selects.
pub proof fn masks_select_named_rows(set: AddressSet, mask: RowAddrMask, address: u64)
    ensures
        (RowAddrMask::AllowList(set)).selects(address) <==> set.addresses@.contains(address)
            || set.whole_fragments@.contains((address / 0x1_0000_0000) as u32),
        (RowAddrMask::BlockList(set)).selects(address) <==> !set.addresses@.contains(address)
            && !set.whole_fragments@.contains((address / 0x1_0000_0000) as u32),
        mask.select_all() ==> mask.selects(address),
        mask.select_all() <==> match mask {
            RowAddrMask::AllowList(_) => false,
            RowAddrMask::BlockList(blocked) => blocked.addresses@.len() == 0
                && blocked.whole_fragments@.len() == 0,
        },
        mask.listed() is Some <==> match mask {
            RowAddrMask::AllowList(allowed) => allowed.whole_fragments@.len() == 0,
            RowAddrMask::BlockList(_) => false,
        },
{
}

} // verus!
