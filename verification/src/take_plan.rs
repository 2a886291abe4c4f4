//! How a take is read and put back in order.

use crate::database::{
    fragment_id, fragment_of, row_offset, DatabaseError, DatabaseResult, Trouble,
};
use crate::take::{
    addresses_contiguous, addresses_sorted, check_row_addrs, divides_by_fragment, fragment_views,
    group_addresses, group_by_fragment, group_by_request, group_views, groups_by_request, row_at,
    row_offsets_to_row_addresses, rows_before, FragmentGroup, FragmentRows,
};
use crate::text::{decimal, text_two_numbers};
use std::collections::HashMap;
use vstd::prelude::*;

verus! {

/// How the rows of a take are read.
#[derive(Debug)]
pub enum TakePlan {
    /// All rows follow each other in one fragment.
    Range {
        fragment_id: u32,
        /// Position of the first row.
        start: u32,
        /// Position behind the last row.
        end: u64,
    },
    /// The rows are read fragment by fragment and stand in the right order.
    Concatenate(Vec<FragmentGroup>),
    /// The rows are read fragment by fragment, with their addresses, and are put
    /// in the right order afterwards.
    Reorder(Vec<FragmentGroup>),
}

/// The first address of which the dataset has no fragment.
pub open spec fn first_missing(addresses: Seq<u64>, fragments: Seq<u32>) -> Option<u64>
    decreases addresses.len(),
{
    if addresses.len() == 0 {
        None
    } else {
        match first_missing(addresses.drop_last(), fragments) {
            Some(address) => Some(address),
            None => if fragments.contains(fragment_of(addresses.last())) {
                None
            } else {
                Some(addresses.last())
            },
        }
    }
}

/// The trouble with a contiguous take from a fragment that does not exist.
pub open spec fn missing_range(address: u64) -> Trouble {
    Trouble::InvalidInput(
        "rowaddr start: "@ + decimal(address as nat) + " belongs to non-existent fragment: "@
            + decimal(fragment_of(address) as nat),
    )
}

/// The trouble with a row of a fragment that does not exist.
pub open spec fn missing_row(address: u64) -> Trouble {
    Trouble::InvalidInput(
        "rowaddr "@ + decimal(address as nat) + " belongs to non-existent fragment: "@ + decimal(
            fragment_of(address) as nat,
        ),
    )
}

/// A plan reads the requested rows.
pub open spec fn plan_reads(plan: TakePlan, addresses: Seq<u64>, fragments: Seq<u32>) -> bool {
    match plan {
        TakePlan::Range { fragment_id, start, end } => {
            &&& addresses_contiguous(addresses)
            &&& fragments.contains(fragment_id)
            &&& end - start == addresses.len()
            &&& forall|i: int|
                0 <= i < addresses.len() ==> #[trigger] addresses[i] == fragment_id
                    * 0x1_0000_0000 + start + i
        },
        TakePlan::Concatenate(groups) => {
            &&& !addresses_contiguous(addresses)
            &&& addresses_sorted(addresses)
            &&& first_missing(addresses, fragments) is None
            &&& divides_by_fragment(group_views(groups@), addresses)
        },
        TakePlan::Reorder(groups) => {
            &&& !addresses_sorted(addresses)
            &&& groups_by_request(group_views(groups@), fragments, addresses)
        },
    }
}

/// What planning a non-empty take comes to: a plan that reads the requested rows,
/// or the trouble of a row whose fragment is missing.
pub open spec fn plans_take(
    addresses: Seq<u64>,
    fragments: Seq<u32>,
    result: DatabaseResult<TakePlan>,
) -> bool {
    match result {
        Ok(plan) => plan_reads(plan, addresses, fragments),
        Err(error) => if addresses_contiguous(addresses) {
            !fragments.contains(fragment_of(addresses[0])) && error@ == missing_range(addresses[0])
        } else {
            addresses_sorted(addresses) && first_missing(addresses, fragments) is Some && error@
                == missing_row(first_missing(addresses, fragments)->0)
        },
    }
}

/// The addresses of the rows that a plan reads, in the order in which they are
/// read.
pub open spec fn rows_read(plan: TakePlan) -> Seq<u64> {
    match plan {
        TakePlan::Range { fragment_id, start, end } => Seq::new(
            (end - start) as nat,
            |i: int| (fragment_id * 0x1_0000_0000 + start + i) as u64,
        ),
        TakePlan::Concatenate(groups) => group_addresses(group_views(groups@)),
        TakePlan::Reorder(groups) => group_addresses(group_views(groups@)),
    }
}

/// The rows of ascending addresses are read as they are requested.
pub proof fn sorted_takes_read_requested_rows(
    plan: TakePlan,
    addresses: Seq<u64>,
    fragments: Seq<u32>,
)
    requires
        plan_reads(plan, addresses, fragments),
        addresses_sorted(addresses),
    ensures
        rows_read(plan) == addresses,
        !(plan is Reorder),
{
    match plan {
        TakePlan::Range { .. } => {
            assert(rows_read(plan) =~= addresses);
        },
        _ => {},
    }
}

fn has_fragment(fragments: &[u32], fragment: u32) -> (result: bool)
    ensures
        result == fragments@.contains(fragment),
{
    let mut i: usize = 0;
    while i < fragments.len()
        invariant
            i <= fragments@.len(),
            forall|j: int| 0 <= j < i ==> #[trigger] fragments@[j] != fragment,
        decreases fragments@.len() - i,
    {
        if fragments[i] == fragment {
            return true;
        }
        i += 1;
    }
    false
}

/// Finds the first address of which the dataset has no fragment.
fn find_missing(row_addrs: &[u64], fragments: &[u32]) -> (result: Option<u64>)
    ensures
        result == first_missing(row_addrs@, fragments@),
{
    let mut i: usize = 0;
    let mut missing: Option<u64> = None;
    assert(row_addrs@.take(0) =~= Seq::<u64>::empty());
    while i < row_addrs.len()
        invariant
            i <= row_addrs@.len(),
            missing == first_missing(row_addrs@.take(i as int), fragments@),
        decreases row_addrs@.len() - i,
    {
        assert(row_addrs@.take(i + 1).drop_last() =~= row_addrs@.take(i as int));
        if missing.is_none() && !has_fragment(fragments, fragment_id(row_addrs[i])) {
            missing = Some(row_addrs[i]);
        }
        i += 1;
    }
    assert(row_addrs@.take(i as int) =~= row_addrs@);
    missing
}

/// Plans how the rows of a non-empty take are read from the fragments of a
/// dataset.
pub fn plan_take(row_addrs: &Vec<u64>, fragments: &[u32]) -> (result: DatabaseResult<TakePlan>)
    requires
        row_addrs@.len() > 0,
    ensures
        plans_take(row_addrs@, fragments@, result),
{
    let stats = check_row_addrs(row_addrs.as_slice());
    if stats.contiguous {
        let first: u64 = row_addrs[0];
        let last: u64 = row_addrs[row_addrs.len() - 1];
        let fragment: u32 = fragment_id(first);
        if !has_fragment(fragments, fragment) {
            return Err(
                DatabaseError::InvalidInput(
                    text_two_numbers(
                        "rowaddr start: ",
                        first,
                        " belongs to non-existent fragment: ",
                        fragment as u64,
                    ),
                ),
            );
        }
        proof {
            assert(row_addrs@[row_addrs@.len() - 1] == row_addrs@[0] + (row_addrs@.len() - 1));
            assert(row_addrs@[0] == row_addrs@[0] + 0);
        }
        return Ok(
            TakePlan::Range {
                fragment_id: fragment,
                start: row_offset(first),
                end: row_offset(last) as u64 + 1,
            },
        );
    }
    if stats.sorted {
        if let Some(address) = find_missing(row_addrs.as_slice(), fragments) {
            return Err(
                DatabaseError::InvalidInput(
                    text_two_numbers(
                        "rowaddr ",
                        address,
                        " belongs to non-existent fragment: ",
                        fragment_id(address) as u64,
                    ),
                ),
            );
        }
        return Ok(TakePlan::Concatenate(group_by_fragment(row_addrs.as_slice())));
    }
    Ok(TakePlan::Reorder(group_by_request(row_addrs, fragments)))
}

/// The last position of an address.
pub open spec fn last_position(returned: Seq<u64>, address: u64) -> Option<u64>
    decreases returned.len(),
{
    if returned.len() == 0 {
        None
    } else if returned.last() == address {
        Some((returned.len() - 1) as u64)
    } else {
        last_position(returned.drop_last(), address)
    }
}

/// For each requested address that was returned, its position among the
/// returned ones.
pub open spec fn remapped(returned: Seq<u64>, requested: Seq<u64>) -> Seq<u64>
    decreases requested.len(),
{
    if requested.len() == 0 {
        Seq::empty()
    } else {
        let earlier = remapped(returned, requested.drop_last());
        match last_position(returned, requested.last()) {
            Some(position) => earlier.push(position),
            None => earlier,
        }
    }
}

/// The position of an address is where it stands, and an address without a
/// position does not occur.
pub proof fn last_position_finds(returned: Seq<u64>, address: u64)
    requires
        returned.len() <= u64::MAX,
    ensures
        match last_position(returned, address) {
            Some(position) => position < returned.len() && returned[position as int] == address,
            None => !returned.contains(address),
        },
    decreases returned.len(),
{
    if returned.len() > 0 && returned.last() != address {
        let shorter = returned.drop_last();
        last_position_finds(shorter, address);
        match last_position(shorter, address) {
            Some(position) => {
                assert(shorter[position as int] == returned[position as int]);
            },
            None => {
                if returned.contains(address) {
                    let i = choose|i: int| 0 <= i < returned.len() && returned[i] == address;
                    assert(shorter[i] == address);
                }
            },
        }
    }
}

/// Taking the returned rows at the remapped positions gives the requested rows
/// in the requested order, without those that were not returned.
pub proof fn remapping_restores_requested_order(returned: Seq<u64>, requested: Seq<u64>)
    requires
        returned.len() <= u64::MAX,
    ensures
        remapped(returned, requested).map_values(|position: u64| returned[position as int])
            == requested.filter(|address: u64| returned.contains(address)),
    decreases requested.len(),
{
    let known = |address: u64| returned.contains(address);
    let pick = |position: u64| returned[position as int];
    reveal(Seq::filter);
    if requested.len() > 0 {
        let shorter = requested.drop_last();
        let last = requested.last();
        remapping_restores_requested_order(returned, shorter);
        last_position_finds(returned, last);
        match last_position(returned, last) {
            Some(position) => {
                assert(returned[position as int] == last);
                assert(returned.contains(last));
                assert(remapped(returned, requested).map_values(pick) =~= remapped(
                    returned,
                    shorter,
                ).map_values(pick).push(last));
            },
            None => {},
        }
        assert(requested.filter(known) == if known(last) {
            shorter.filter(known).push(last)
        } else {
            shorter.filter(known)
        });
    } else {
        assert(remapped(returned, requested).map_values(pick) =~= requested.filter(known));
    }
}

/// Finds where the requested rows stand among the returned ones. Rows that were
/// not returned are left out, and rows requested twice occur twice.
pub fn remap_rows(returned: &[u64], requested: &[u64]) -> (result: Vec<u64>)
    ensures
        result@ == remapped(returned@, requested@),
{
    broadcast use vstd::std_specs::hash::group_hash_axioms;

    let mut positions: HashMap<u64, u64> = HashMap::new();
    let mut i: usize = 0;
    assert(returned@.take(0) =~= Seq::<u64>::empty());
    while i < returned.len()
        invariant
            i <= returned@.len(),
            forall|address: u64| #[trigger]
                positions@.dom().contains(address) <==> last_position(
                    returned@.take(i as int),
                    address,
                ) is Some,
            forall|address: u64| #[trigger]
                positions@.dom().contains(address) ==> last_position(
                    returned@.take(i as int),
                    address,
                ) == Some(positions@[address]),
        decreases returned@.len() - i,
    {
        assert(returned@.take(i + 1).drop_last() =~= returned@.take(i as int));
        positions.insert(returned[i], i as u64);
        i += 1;
    }
    assert(returned@.take(i as int) =~= returned@);
    let mut remapping: Vec<u64> = Vec::new();
    let mut k: usize = 0;
    assert(requested@.take(0) =~= Seq::<u64>::empty());
    while k < requested.len()
        invariant
            k <= requested@.len(),
            forall|address: u64| #[trigger]
                positions@.dom().contains(address) <==> last_position(returned@, address) is Some,
            forall|address: u64| #[trigger]
                positions@.dom().contains(address) ==> last_position(returned@, address) == Some(
                    positions@[address],
                ),
            remapping@ == remapped(returned@, requested@.take(k as int)),
        decreases requested@.len() - k,
    {
        broadcast use vstd::std_specs::hash::group_hash_axioms;

        assert(requested@.take(k + 1).drop_last() =~= requested@.take(k as int));
        assert(requested@.take(k + 1).last() == requested@[k as int]);
        let address: u64 = requested[k];
        match positions.get(&address) {
            Some(position) => {
                assert(positions@.dom().contains(address));
                remapping.push(*position);
            },
            None => {
                assert(!positions@.dom().contains(address));
            },
        }
        k += 1;
    }
    assert(requested@.take(k as int) =~= requested@);
    remapping
}

/// Which rows of a nullable column are valid after it was taken at some
/// positions. A missing position gives a null row.
pub fn taken_validity(valid: &[bool], indices: &[Option<u64>]) -> (result: Vec<bool>)
    requires
        forall|i: int|
            0 <= i < indices@.len() ==> (#[trigger] indices@[i] is None || indices@[i]->0
                < valid@.len()),
    ensures
        result@ == indices@.map_values(
            |index: Option<u64>| index is Some && valid@[index->0 as int],
        ),
{
    let mut taken: Vec<bool> = Vec::new();
    let mut i: usize = 0;
    while i < indices.len()
        invariant
            forall|i: int|
                0 <= i < indices@.len() ==> (#[trigger] indices@[i] is None || indices@[i]->0
                    < valid@.len()),
            i <= indices@.len(),
            taken@ == indices@.take(i as int).map_values(
                |index: Option<u64>| index is Some && valid@[index->0 as int],
            ),
        decreases indices@.len() - i,
    {
        assert(indices@[i as int] is None || indices@[i as int]->0 < valid@.len());
        let is_valid = match indices[i] {
            Some(index) => valid[index as usize],
            None => false,
        };
        taken.push(is_valid);
        i += 1;
        assert(taken@ =~= indices@.take(i as int).map_values(
            |index: Option<u64>| index is Some && valid@[index->0 as int],
        ));
    }
    assert(indices@.take(i as int) =~= indices@);
    taken
}

/// What a projection asks of a read.
#[derive(Clone, Copy, Debug, PartialEq, Eq, Structural)]
pub struct ProjectionFlags {
    pub with_row_id: bool,
    pub with_row_addr: bool,
    pub with_row_created_at_version: bool,
    pub with_row_last_updated_at_version: bool,
    pub must_add_row_offset: bool,
}

/// Which columns are added to the rows that were read.
#[derive(Clone, Copy, Debug, PartialEq, Eq, Structural)]
pub struct AddedColumns {
    pub row_offset: bool,
    pub row_address: bool,
}

/// The trouble with addresses of deleted rows where each row needs its address.
pub open spec fn deleted_rows(expected: nat, got: nat) -> Trouble {
    Trouble::NotSupported(
        "Expected "@ + decimal(expected) + " rows, got "@ + decimal(got)
            + ".  A take operation that includes row addresses must not target deleted rows."@,
    )
}

/// Reports that fewer rows were read than were requested.
pub(crate) fn deleted_rows_error(expected: usize, got: usize) -> (result: DatabaseError)
    ensures
        result@ == deleted_rows(expected as nat, got as nat),
{
    let mut text = text_two_numbers("Expected ", expected as u64, " rows, got ", got as u64);
    text.push_str(".  A take operation that includes row addresses must not target deleted rows.");
    DatabaseError::NotSupported(text)
}

/// Builder for the `take` operation.
#[derive(Debug)]
pub struct TakeBuilder {
    row_ids: Option<Vec<u64>>,
    row_addrs: Option<Vec<u64>>,
    projection: ProjectionFlags,
    with_row_address: bool,
}

/// A take request as a mathematical object.
#[verifier::ext_equal]
pub struct TakeRequest {
    pub row_ids: Option<Seq<u64>>,
    pub row_addrs: Option<Seq<u64>>,
    pub projection: ProjectionFlags,
    pub with_row_address: bool,
}

/// An optional list as a mathematical object.
pub open spec fn list_view(list: Option<Vec<u64>>) -> Option<Seq<u64>> {
    match list {
        Some(list) => Some(list@),
        None => None,
    }
}

impl View for TakeBuilder {
    type V = TakeRequest;

    closed spec fn view(&self) -> TakeRequest {
        TakeRequest {
            row_ids: list_view(self.row_ids),
            row_addrs: list_view(self.row_addrs),
            projection: self.projection,
            with_row_address: self.with_row_address,
        }
    }
}

/// The addresses found for identifiers, without those that have none.
pub open spec fn found_addresses(lookups: Seq<Option<u64>>) -> Seq<u64>
    decreases lookups.len(),
{
    if lookups.len() == 0 {
        Seq::empty()
    } else {
        let earlier = found_addresses(lookups.drop_last());
        match lookups.last() {
            Some(address) => earlier.push(address),
            None => earlier,
        }
    }
}

impl TakeBuilder {
    /// Rows are named by identifier or by address.
    #[verifier::type_invariant]
    pub open spec fn wf(self) -> bool {
        self@.row_ids is Some || self@.row_addrs is Some
    }

    /// Create a new `TakeBuilder` for taking by id
    pub fn try_new_from_ids(row_ids: Vec<u64>, projection: ProjectionFlags) -> (result:
        DatabaseResult<TakeBuilder>)
        ensures
            result is Ok,
            result->Ok_0@ == (TakeRequest {
                row_ids: Some(row_ids@),
                row_addrs: None,
                projection,
                with_row_address: false,
            }),
    {
        Ok(
            TakeBuilder {
                row_ids: Some(row_ids),
                row_addrs: None,
                projection,
                with_row_address: false,
            },
        )
    }

    /// Create a new `TakeBuilder` for taking by address
    pub fn try_new_from_addresses(addresses: Vec<u64>, projection: ProjectionFlags) -> (result:
        DatabaseResult<TakeBuilder>)
        ensures
            result is Ok,
            result->Ok_0@ == (TakeRequest {
                row_ids: None,
                row_addrs: Some(addresses@),
                projection,
                with_row_address: false,
            }),
    {
        Ok(
            TakeBuilder {
                row_ids: None,
                row_addrs: Some(addresses),
                projection,
                with_row_address: false,
            },
        )
    }

    /// Adds row addresses to the output
    pub fn with_row_address(self, with_row_address: bool) -> (result: TakeBuilder)
        ensures
            result@ == (TakeRequest { with_row_address, ..self@ }),
    {
        proof {
            use_type_invariant(&self);
        }
        TakeBuilder {
            row_ids: self.row_ids,
            row_addrs: self.row_addrs,
            projection: self.projection,
            with_row_address,
        }
    }

    /// Whether no row is requested.
    pub fn is_empty(&self) -> (result: bool)
        ensures
            result == match self@.row_ids {
                Some(ids) => ids.len() == 0,
                None => (self@.row_addrs->0).len() == 0,
            },
    {
        proof {
            use_type_invariant(self);
        }
        match &self.row_ids {
            Some(ids) => ids.len() == 0,
            None => match &self.row_addrs {
                Some(addrs) => addrs.len() == 0,
                None => true,
            },
        }
    }

    /// The identifiers whose addresses have to be looked up.
    pub fn unresolved_row_ids(&self) -> (result: Option<&Vec<u64>>)
        ensures
            match result {
                Some(ids) => self@.row_addrs is None && self@.row_ids == Some(ids@),
                None => self@.row_addrs is Some,
            },
    {
        proof {
            use_type_invariant(self);
        }
        match &self.row_addrs {
            Some(_) => None,
            None => match &self.row_ids {
                Some(ids) => Some(ids),
                None => None,
            },
        }
    }

    /// The addresses of the requested rows. Where rows are named by identifier,
    /// these come from a lookup of each identifier, or are the identifiers
    /// themselves where the dataset keeps no lookup.
    pub fn get_row_addrs(&mut self, lookups: Option<&Vec<Option<u64>>>) -> (result: Vec<u64>)
        ensures
            final(self)@ == (TakeRequest { row_addrs: Some(result@), ..old(self)@ }),
            result@ == match old(self)@.row_addrs {
                Some(addrs) => addrs,
                None => match lookups {
                    Some(lookups) => found_addresses(lookups@),
                    None => old(self)@.row_ids->0,
                },
            },
    {
        proof {
            use_type_invariant(&*self);
        }
        let addrs: Vec<u64> = match &self.row_addrs {
            Some(addrs) => copy_list(addrs),
            None => match lookups {
                Some(lookups) => keep_found(lookups),
                None => match &self.row_ids {
                    Some(ids) => copy_list(ids),
                    None => Vec::new(),
                },
            },
        };
        let kept = copy_list(&addrs);
        self.row_addrs = Some(kept);
        addrs
    }

    /// The addresses that are requested once identifiers are looked up.
    pub open spec fn resolved(self, lookups: Option<&Vec<Option<u64>>>) -> Seq<u64> {
        match self@.row_addrs {
            Some(addrs) => addrs,
            None => match lookups {
                Some(lookups) => found_addresses(lookups@),
                None => self@.row_ids->0,
            },
        }
    }

    /// No row is requested.
    pub open spec fn empty(self) -> bool {
        match self@.row_ids {
            Some(ids) => ids.len() == 0,
            None => (self@.row_addrs->0).len() == 0,
        }
    }

    /// Plans how the take is read. Without rows there is nothing to read: none
    /// was requested, or all requested ones are gone.
    pub fn execute(&mut self, lookups: Option<&Vec<Option<u64>>>, fragments: &[u32]) -> (result:
        DatabaseResult<Option<TakePlan>>)
        ensures
            ({
                let addresses = old(self).resolved(lookups);
                &&& final(self)@ == if old(self).empty() {
                    old(self)@
                } else {
                    TakeRequest { row_addrs: Some(addresses), ..old(self)@ }
                }
                &&& match result {
                    Ok(None) => old(self).empty() || addresses.len() == 0,
                    Ok(Some(plan)) => !old(self).empty() && addresses.len() > 0 && plans_take(
                        addresses,
                        fragments@,
                        Ok(plan),
                    ),
                    Err(error) => !old(self).empty() && addresses.len() > 0 && plans_take(
                        addresses,
                        fragments@,
                        Err(error),
                    ),
                }
            }),
    {
        if self.is_empty() {
            return Ok(None);
        }
        let row_addrs = self.get_row_addrs(lookups);
        if row_addrs.len() == 0 {
            return Ok(None);
        }
        match plan_take(&row_addrs, fragments) {
            Ok(plan) => Ok(Some(plan)),
            Err(error) => Err(error),
        }
    }

    /// Whether a result without rows gets the column of row addresses: where rows
    /// were requested, and all of them are gone.
    pub fn empty_result_has_row_address(&self) -> (result: bool)
        ensures
            result == (self@.with_row_address && !self.empty()),
    {
        self.with_row_address && !self.is_empty()
    }

    /// Whether the column of row addresses is appended to the columns of the
    /// output.
    pub fn appends_row_address(&self, output_names: &Vec<String>) -> (result: bool)
        ensures
            result == (self@.with_row_address && forall|i: int|
                0 <= i < output_names@.len() ==> (#[trigger] output_names@[i])@ != "_rowaddr"@),
    {
        if !self.with_row_address {
            return false;
        }
        let wanted = "_rowaddr".to_owned();
        let mut i: usize = 0;
        while i < output_names.len()
            invariant
                wanted@ == "_rowaddr"@,
                i <= output_names@.len(),
                forall|j: int| 0 <= j < i ==> (#[trigger] output_names@[j])@ != "_rowaddr"@,
            decreases output_names@.len() - i,
        {
            if output_names[i] == wanted {
                return false;
            }
            i += 1;
        }
        true
    }

    /// The addresses of a take that can be read as one batch for each fragment,
    /// without reordering: addresses in ascending order, and no column of
    /// addresses.
    pub fn grouped_read_addresses(&self) -> (result: Option<&Vec<u64>>)
        ensures
            match result {
                Some(addrs) => {
                    &&& self@.row_ids is None
                    &&& !self@.with_row_address
                    &&& self@.row_addrs == Some(addrs@)
                    &&& addrs@.len() > 0
                    &&& addresses_sorted(addrs@)
                },
                None => {
                    ||| self@.row_ids is Some
                    ||| self@.with_row_address
                    ||| self@.row_addrs is None
                    ||| (self@.row_addrs->0).len() == 0
                    ||| !addresses_sorted(self@.row_addrs->0)
                },
            },
    {
        if self.row_ids.is_some() || self.with_row_address {
            return None;
        }
        match &self.row_addrs {
            Some(addrs) => if addrs.len() > 0 && check_row_addrs(addrs.as_slice()).sorted {
                Some(addrs)
            } else {
                None
            },
            None => None,
        }
    }

    /// The projection of the take.
    pub fn projection(&self) -> (result: ProjectionFlags)
        ensures
            result == self@.projection,
    {
        self.projection
    }

    /// Decides which columns are added to the rows that were read, and refuses
    /// to add any where rows are missing.
    pub fn added_columns(
        &self,
        requested_rows: usize,
        returned_rows: usize,
        has_row_offset: bool,
        has_row_address: bool,
    ) -> (result: DatabaseResult<AddedColumns>)
        ensures
            ({
                let wanted = self@.with_row_address || self@.projection.must_add_row_offset;
                match result {
                    Ok(columns) => (wanted ==> requested_rows == returned_rows) && columns == (
                    AddedColumns {
                        row_offset: self@.projection.must_add_row_offset && !has_row_offset,
                        row_address: self@.with_row_address && !has_row_address,
                    }),
                    Err(error) => wanted && requested_rows != returned_rows && error@
                        == deleted_rows(requested_rows as nat, returned_rows as nat),
                }
            }),
    {
        let wanted = self.with_row_address || self.projection.must_add_row_offset;
        if wanted && requested_rows != returned_rows {
            return Err(deleted_rows_error(requested_rows, returned_rows));
        }
        Ok(
            AddedColumns {
                row_offset: self.projection.must_add_row_offset && !has_row_offset,
                row_address: self.with_row_address && !has_row_address,
            },
        )
    }
}

/// The request for rows by their position among all live rows of a dataset.
/// Without positions there is nothing to request.
pub fn take(fragments: &[FragmentRows], offsets: &[u64], projection: ProjectionFlags) -> (result:
    Option<TakeBuilder>)
    requires
        forall|i: int| 0 <= i < fragments@.len() ==> (#[trigger] fragments@[i])@.wf(),
        rows_before(fragment_views(fragments@), fragments@.len() as int) <= u64::MAX,
        offsets@.len() <= isize::MAX,
    ensures
        match result {
            None => offsets@.len() == 0,
            Some(builder) => offsets@.len() > 0 && builder@ == (TakeRequest {
                row_ids: None,
                row_addrs: Some(
                    offsets@.map_values(
                        |offset: u64| row_at(fragment_views(fragments@), 0, offset as int),
                    ),
                ),
                projection,
                with_row_address: false,
            }),
        },
{
    if offsets.len() == 0 {
        return None;
    }
    let addresses = row_offsets_to_row_addresses(fragments, offsets);
    match TakeBuilder::try_new_from_addresses(addresses, projection) {
        Ok(builder) => Some(builder),
        Err(_) => None,
    }
}

/// The positions of a range of rows.
pub fn take_scan(start: u64, end: u64) -> (result: Vec<u64>)
    requires
        end - start <= usize::MAX,
    ensures
        result@ == Seq::new(
            if start < end {
                (end - start) as nat
            } else {
                0
            },
            |i: int| (start + i) as u64,
        ),
{
    let mut positions: Vec<u64> = Vec::new();
    let mut next: u64 = start;
    while next < end
        invariant
            start <= next,
            start < end ==> next <= end,
            start >= end ==> next == start,
            positions@ =~= Seq::new((next - start) as nat, |i: int| (start + i) as u64),
        decreases end - next,
    {
        positions.push(next);
        next += 1;
    }
    positions
}

fn copy_list(list: &Vec<u64>) -> (result: Vec<u64>)
    ensures
        result@ == list@,
{
    let copy = list.clone();
    assert(copy@ =~= list@);
    copy
}

fn keep_found(lookups: &Vec<Option<u64>>) -> (result: Vec<u64>)
    ensures
        result@ == found_addresses(lookups@),
{
    let mut found: Vec<u64> = Vec::new();
    let mut i: usize = 0;
    assert(lookups@.take(0) =~= Seq::<Option<u64>>::empty());
    while i < lookups.len()
        invariant
            i <= lookups@.len(),
            found@ == found_addresses(lookups@.take(i as int)),
        decreases lookups@.len() - i,
    {
        assert(lookups@.take(i + 1).drop_last() =~= lookups@.take(i as int));
        if let Some(address) = lookups[i] {
            found.push(address);
        }
        i += 1;
    }
    assert(lookups@.take(i as int) =~= lookups@);
    found
}

/// A row is missing where none of the fragments is its own. The first such row is
/// the one reported.
pub proof fn first_missing_row_is_reported(addresses: Seq<u64>, fragments: Seq<u32>)
    ensures
        first_missing(addresses, fragments) is None <==> forall|i: int|
            0 <= i < addresses.len() ==> fragments.contains(
                ((#[trigger] addresses[i]) / 0x1_0000_0000) as u32,
            ),
        first_missing(addresses, fragments) is Some ==> exists|i: int|
            {
                &&& 0 <= i < addresses.len()
                &&& #[trigger] addresses[i] == first_missing(addresses, fragments)->0
                &&& !fragments.contains((addresses[i] / 0x1_0000_0000) as u32)
                &&& first_missing(addresses.take(i), fragments) is None
            },
    decreases addresses.len(),
{
    if addresses.len() > 0 {
        let shorter = addresses.drop_last();
        let last = addresses.len() - 1;
        first_missing_row_is_reported(shorter, fragments);
        if first_missing(shorter, fragments) is Some {
            let i = choose|i: int|
                {
                    &&& 0 <= i < shorter.len()
                    &&& #[trigger] shorter[i] == first_missing(shorter, fragments)->0
                    &&& !fragments.contains((shorter[i] / 0x1_0000_0000) as u32)
                    &&& first_missing(shorter.take(i), fragments) is None
                };
            assert(shorter.take(i) =~= addresses.take(i));
            assert(addresses[i] == shorter[i]);
        } else {
            assert(addresses.take(last) =~= shorter);
            assert(addresses[last] == addresses.last());
            if first_missing(addresses, fragments) is None {
                assert forall|i: int| 0 <= i < addresses.len() implies fragments.contains(
                    ((#[trigger] addresses[i]) / 0x1_0000_0000) as u32,
                ) by {
                    if i < last {
                        assert(shorter[i] == addresses[i]);
                    }
                }
            }
        }
    }
}

/// Of rows that were looked up, those that were found are kept in order.
pub proof fn found_rows_keep_their_order(lookups: Seq<Option<u64>>)
    ensures
        found_addresses(lookups) == lookups.filter(|lookup: Option<u64>| lookup is Some).map_values(
            |lookup: Option<u64>| lookup->0,
        ),
    decreases lookups.len(),
{
    reveal(Seq::filter);
    let found = |lookup: Option<u64>| lookup is Some;
    let address = |lookup: Option<u64>| lookup->0;
    if lookups.len() > 0 {
        found_rows_keep_their_order(lookups.drop_last());
        let earlier = lookups.drop_last().filter(found);
        if lookups.last() is Some {
            assert(earlier.push(lookups.last()).map_values(address) =~= earlier.map_values(
                address,
            ).push(lookups.last()->0));
        }
    } else {
        assert(lookups.filter(found).map_values(address) =~= Seq::<u64>::empty());
    }
}

/// A row that was returned more than once is taken from where it came last.
pub proof fn repeated_rows_are_taken_from_the_last(returned: Seq<u64>, address: u64)
    requires
        returned.len() <= u64::MAX,
    ensures
        match last_position(returned, address) {
            Some(position) => forall|later: int|
                position < later < returned.len() ==> #[trigger] returned[later] != address,
            None => true,
        },
    decreases returned.len(),
{
    if returned.len() > 0 && returned.last() != address {
        repeated_rows_are_taken_from_the_last(returned.drop_last(), address);
        if let Some(position) = last_position(returned, address) {
            assert forall|later: int| position < later < returned.len() implies
                #[trigger] returned[later] != address by {
                if later < returned.len() - 1 {
                    assert(returned.drop_last()[later] == returned[later]);
                }
            }
        }
    }
}

/// A take reads the addresses that it was given, else those that its rows were
/// found at, else its rows as addresses. It is empty where no row is asked for.
pub proof fn takes_read_given_addresses_first(
    builder: TakeBuilder,
    lookups: Option<&Vec<Option<u64>>>,
)
    ensures
        builder@.row_addrs is Some ==> builder.resolved(lookups) == builder@.row_addrs->0,
        builder@.row_addrs is None && lookups is Some ==> builder.resolved(lookups)
            == found_addresses((lookups->0)@),
        builder@.row_addrs is None && lookups is None ==> builder.resolved(lookups)
            == builder@.row_ids->0,
        builder@.row_ids is Some ==> (builder.empty() <==> (builder@.row_ids->0).len() == 0),
        builder@.row_ids is None ==> (builder.empty() <==> (builder@.row_addrs->0).len() == 0),
{
}

} // verus!
