//! Taking rows by position, address or identifier.

use crate::arrangement::{
    apply_inv_slice_in_place, apply_slice, arrangement, sorting_permutation,
};
use crate::database::{
    address_of, fragment_id, fragment_of, increasing, new_from_parts, offset_of, row_offset,
    TOMBSTONE_ROW,
};
use crate::joined::{joined, joined_holds_part};
use crate::postings::strictly_increasing;
use crate::sort::{ascending, ascending_is_sorted_permutation, sort};
use vstd::prelude::*;

verus! {

/// The rows of a fragment, as a mathematical object.
#[verifier::ext_equal]
pub struct FragmentView {
    pub id: u32,
    pub live_rows: nat,
    pub deleted: Seq<u32>,
}

impl FragmentView {
    /// Deleted positions are in ascending order, and all positions fit 32 bits.
    pub open spec fn wf(self) -> bool {
        strictly_increasing(self.deleted) && self.live_rows + self.deleted.len() <= 0x1_0000_0000
    }
}

/// What is known of a fragment's rows.
#[derive(Debug)]
pub struct FragmentRows {
    /// Identifier of the fragment.
    pub id: u32,
    /// Number of rows that are not deleted.
    pub live_rows: u64,
    /// Positions of the deleted rows in ascending order.
    pub deleted: Vec<u32>,
}

impl View for FragmentRows {
    type V = FragmentView;

    open spec fn view(&self) -> FragmentView {
        FragmentView { id: self.id, live_rows: self.live_rows as nat, deleted: self.deleted@ }
    }
}

/// The position of the live row with a number: it moves up by one for every
/// deleted position that it passes.
pub open spec fn live_position(deleted: Seq<u32>, number: int) -> int
    decreases deleted.len(),
{
    if deleted.len() == 0 || deleted[0] > number {
        number
    } else {
        live_position(deleted.drop_first(), number + 1)
    }
}

/// How many values lie below a bound.
pub open spec fn count_below(values: Seq<u32>, bound: int) -> nat
    decreases values.len(),
{
    if values.len() == 0 {
        0
    } else {
        count_below(values.drop_last(), bound) + if values.last() < bound {
            1nat
        } else {
            0nat
        }
    }
}

proof fn count_below_from_front(values: Seq<u32>, bound: int)
    requires
        values.len() > 0,
    ensures
        count_below(values, bound) == count_below(values.drop_first(), bound) + if values[0]
            < bound {
            1nat
        } else {
            0nat
        },
    decreases values.len(),
{
    if values.len() > 1 {
        count_below_from_front(values.drop_last(), bound);
        assert(values.drop_last().drop_first() =~= values.drop_first().drop_last());
    } else {
        assert(values.drop_last() =~= Seq::<u32>::empty());
        assert(values.drop_first() =~= Seq::<u32>::empty());
    }
}

proof fn count_below_none(values: Seq<u32>, bound: int)
    requires
        forall|i: int| 0 <= i < values.len() ==> #[trigger] values[i] >= bound,
    ensures
        count_below(values, bound) == 0,
    decreases values.len(),
{
    if values.len() > 0 {
        assert(values[values.len() - 1] >= bound);
        count_below_none(values.drop_last(), bound);
    }
}

/// The live row with a number is not deleted, and exactly that many live rows
/// precede it.
pub proof fn live_position_skips_deletions(deleted: Seq<u32>, number: int)
    requires
        strictly_increasing(deleted),
        number >= 0,
    ensures
        number <= live_position(deleted, number) <= number + deleted.len(),
        forall|i: int| 0 <= i < deleted.len() ==> #[trigger] deleted[i] != live_position(deleted, number),
        live_position(deleted, number) - count_below(deleted, live_position(deleted, number))
            == number,
    decreases deleted.len(),
{
    if deleted.len() == 0 {
    } else if deleted[0] > number {
        assert forall|i: int| 0 <= i < deleted.len() implies #[trigger] deleted[i] >= number + 1 by {
            if i > 0 {
                assert(deleted[0] < deleted[i]);
            }
        }
        assert forall|i: int| 0 <= i < deleted.len() implies #[trigger] deleted[i] >= number by {}
        count_below_none(deleted, number);
    } else {
        let rest = deleted.drop_first();
        assert(strictly_increasing(rest));
        live_position_skips_deletions(rest, number + 1);
        let position = live_position(deleted, number);
        assert forall|i: int| 0 <= i < deleted.len() implies #[trigger] deleted[i] != position by {
            if i > 0 {
                assert(rest[i - 1] == deleted[i]);
            }
        }
        count_below_from_front(deleted, position);
    }
}

/// Later live rows stand at later positions.
pub proof fn live_positions_increase(deleted: Seq<u32>, earlier: int, later: int)
    requires
        earlier < later,
    ensures
        live_position(deleted, earlier) < live_position(deleted, later),
    decreases deleted.len(),
{
    if deleted.len() > 0 {
        let rest = deleted.drop_first();
        if deleted[0] <= earlier {
            live_positions_increase(rest, earlier + 1, later + 1);
        } else if deleted[0] <= later {
            live_position_grows(rest, later + 1);
        }
    }
}

proof fn live_position_grows(deleted: Seq<u32>, number: int)
    ensures
        number <= live_position(deleted, number) <= number + deleted.len(),
    decreases deleted.len(),
{
    if deleted.len() > 0 && deleted[0] <= number {
        live_position_grows(deleted.drop_first(), number + 1);
    }
}

/// The address of the live row with a number, counted from a fragment on. Rows
/// beyond the last fragment have the tombstone address.
pub open spec fn row_at(fragments: Seq<FragmentView>, from: int, number: int) -> u64
    decreases fragments.len() - from,
{
    if from >= fragments.len() {
        TOMBSTONE_ROW
    } else if number < fragments[from].live_rows {
        address_of(fragments[from].id, live_position(fragments[from].deleted, number) as u32)
    } else {
        row_at(fragments, from + 1, number - fragments[from].live_rows)
    }
}

/// Live rows of the first fragments.
pub open spec fn rows_before(fragments: Seq<FragmentView>, count: int) -> nat
    decreases count,
{
    if count <= 0 {
        0
    } else {
        rows_before(fragments, count - 1) + fragments[count - 1].live_rows
    }
}

proof fn rows_before_grows(fragments: Seq<FragmentView>, count: int, later: int)
    requires
        0 <= count <= later <= fragments.len(),
    ensures
        rows_before(fragments, count) <= rows_before(fragments, later),
    decreases later - count,
{
    if count < later {
        rows_before_grows(fragments, count, later - 1);
    }
}

/// The fragments as mathematical objects.
pub open spec fn fragment_views(fragments: Seq<FragmentRows>) -> Seq<FragmentView> {
    fragments.map_values(|fragment: FragmentRows| fragment@)
}

/// The rows of different numbers are different rows, and stand in the order of
/// their numbers where fragments are in the order of their identifiers.
pub proof fn addresses_follow_row_numbers(
    fragments: Seq<FragmentView>,
    from: int,
    earlier: int,
    later: int,
)
    requires
        0 <= from <= fragments.len(),
        0 <= earlier < later,
        forall|i: int| 0 <= i < fragments.len() ==> (#[trigger] fragments[i]).wf(),
        forall|i: int, j: int|
            0 <= i < j < fragments.len() ==> (#[trigger] fragments[i]).id < (
            #[trigger] fragments[j]).id,
        row_at(fragments, from, later) != TOMBSTONE_ROW,
    ensures
        row_at(fragments, from, earlier) < row_at(fragments, from, later),
    decreases fragments.len() - from,
{
    if from < fragments.len() {
        let first = fragments[from];
        assert(first.wf());
        if later < first.live_rows {
            live_positions_increase(first.deleted, earlier, later);
            live_position_skips_deletions(first.deleted, earlier);
            live_position_skips_deletions(first.deleted, later);
        } else if earlier < first.live_rows {
            live_position_skips_deletions(first.deleted, earlier);
            row_in_later_fragment(fragments, from + 1, later - first.live_rows, first.id);
        } else {
            addresses_follow_row_numbers(
                fragments,
                from + 1,
                earlier - first.live_rows,
                later - first.live_rows,
            );
        }
    }
}

proof fn row_in_later_fragment(fragments: Seq<FragmentView>, from: int, number: int, id: u32)
    requires
        0 <= from <= fragments.len(),
        number >= 0,
        forall|i: int| 0 <= i < fragments.len() ==> (#[trigger] fragments[i]).wf(),
        forall|i: int| from <= i < fragments.len() ==> (#[trigger] fragments[i]).id > id,
        row_at(fragments, from, number) != TOMBSTONE_ROW,
    ensures
        row_at(fragments, from, number) >= (id + 1) * 0x1_0000_0000,
    decreases fragments.len() - from,
{
    if from < fragments.len() {
        assert(fragments[from].id > id);
        assert(fragments[from].wf());
        if number < fragments[from].live_rows {
            live_position_skips_deletions(fragments[from].deleted, number);
        } else {
            row_in_later_fragment(fragments, from + 1, number - fragments[from].live_rows, id);
        }
    }
}

/// Maps the number of a live row to its position.
fn map_offset(deleted: &Vec<u32>, number: u32) -> (result: u32)
    requires
        strictly_increasing(deleted@),
        number + deleted@.len() <= u32::MAX,
    ensures
        result == live_position(deleted@, number as int),
{
    let mut position: u32 = number;
    let mut i: usize = 0;
    assert(deleted@.skip(0) =~= deleted@);
    while i < deleted.len() && deleted[i] <= position
        invariant
            i <= deleted@.len(),
            position == number + i,
            number + deleted@.len() <= u32::MAX,
            live_position(deleted@, number as int) == live_position(
                deleted@.skip(i as int),
                position as int,
            ),
        decreases deleted@.len() - i,
    {
        assert(deleted@.skip(i as int).drop_first() =~= deleted@.skip(i + 1));
        position = position + 1;
        i += 1;
    }
    position
}

/// Convert a list of row offsets to a list of row addresses
///
/// A row offset counts the live rows of all fragments in order. For example, if
/// there are two fragments, each with 100 rows, then the row offset 150 maps to
/// the address (1, 50).
///
/// Deletions are accounted for. Offsets beyond the end of the dataset map to
/// the tombstone row address.
pub fn row_offsets_to_row_addresses(fragments: &[FragmentRows], row_indices: &[u64]) -> (result: Vec<
    u64,
>)
    requires
        forall|i: int| 0 <= i < fragments@.len() ==> (#[trigger] fragments@[i])@.wf(),
        rows_before(fragment_views(fragments@), fragments@.len() as int) <= u64::MAX,
        row_indices@.len() <= isize::MAX,
    ensures
        result@ == row_indices@.map_values(
            |offset: u64| row_at(fragment_views(fragments@), 0, offset as int),
        ),
{
    let mut perm = sorting_permutation(row_indices);
    let sorted_offsets = apply_slice(&perm, row_indices);
    let ghost order = arrangement(perm);
    let ghost views = fragment_views(fragments@);
    let mut current: usize = 0;
    let mut frag_offset: u64 = 0;
    let mut addrs: Vec<u64> = Vec::new();
    let mut i: usize = 0;
    while i < sorted_offsets.len()
        invariant
            i <= sorted_offsets@.len(),
            addrs@.len() == i,
            views == fragment_views(fragments@),
            forall|k: int| 0 <= k < fragments@.len() ==> (#[trigger] fragments@[k])@.wf(),
            rows_before(views, fragments@.len() as int) <= u64::MAX,
            current <= fragments@.len(),
            frag_offset == rows_before(views, current as int),
            forall|a: int, b: int|
                0 <= a < b < sorted_offsets@.len() ==> #[trigger] sorted_offsets@[a]
                    <= #[trigger] sorted_offsets@[b],
            forall|k: int| i <= k < sorted_offsets@.len() ==> frag_offset <= #[trigger] sorted_offsets@[k],
            forall|number: int|
                number >= frag_offset ==> #[trigger] row_at(views, 0, number) == row_at(
                    views,
                    current as int,
                    number - frag_offset,
                ),
            forall|k: int|
                0 <= k < i ==> #[trigger] addrs@[k] == row_at(views, 0, sorted_offsets@[k] as int),
        decreases sorted_offsets@.len() - i,
    {
        let sorted_offset: u64 = sorted_offsets[i];
        while current < fragments.len() && sorted_offset - frag_offset
            >= fragments[current].live_rows
            invariant
                views == fragment_views(fragments@),
                rows_before(views, fragments@.len() as int) <= u64::MAX,
                current <= fragments@.len(),
                frag_offset == rows_before(views, current as int),
                frag_offset <= sorted_offset,
                forall|number: int|
                    number >= frag_offset ==> #[trigger] row_at(views, 0, number) == row_at(
                        views,
                        current as int,
                        number - frag_offset,
                    ),
            decreases fragments@.len() - current,
        {
            proof {
                rows_before_grows(views, current + 1, fragments@.len() as int);
                let rows = fragments@[current as int].live_rows;
                assert(views[current as int].live_rows == rows);
                assert forall|number: int| number >= frag_offset + rows implies #[trigger] row_at(
                    views,
                    0,
                    number,
                ) == row_at(views, current + 1, number - (frag_offset + rows)) by {
                    assert(row_at(views, 0, number) == row_at(
                        views,
                        current as int,
                        number - frag_offset,
                    ));
                }
            }
            frag_offset = frag_offset + fragments[current].live_rows;
            current += 1;
        }
        let address: u64 = if current < fragments.len() {
            let fragment = &fragments[current];
            proof {
                assert(fragments@[current as int]@.wf());
                assert(views[current as int] == fragment@);
                live_position_skips_deletions(
                    fragment.deleted@,
                    sorted_offset - frag_offset,
                );
            }
            let local_offset: u32 = (sorted_offset - frag_offset) as u32;
            new_from_parts(fragment.id, map_offset(&fragment.deleted, local_offset))
        } else {
            TOMBSTONE_ROW
        };
        assert(address == row_at(views, 0, sorted_offset as int)) by {
            assert(row_at(views, 0, sorted_offset as int) == row_at(
                views,
                current as int,
                sorted_offset - frag_offset,
            ));
        }
        assert forall|k: int| i + 1 <= k < sorted_offsets@.len() implies frag_offset
            <= #[trigger] sorted_offsets@[k] by {
            assert(sorted_offsets@[i as int] <= sorted_offsets@[k]);
        }
        addrs.push(address);
        i += 1;
    }
    apply_inv_slice_in_place(&mut perm, &mut addrs);
    proof {
        assert forall|k: int| 0 <= k < row_indices@.len() implies #[trigger] addrs@[k] == row_at(
            views,
            0,
            row_indices@[k] as int,
        ) by {
            assert(order.contains(k));
            let p = choose|p: int| 0 <= p < order.len() && order[p] == k;
            assert(sorted_offsets@[p] == row_indices@[order[p]]);
        }
        assert(addrs@ =~= row_indices@.map_values(
            |offset: u64| row_at(fragment_views(fragments@), 0, offset as int),
        ));
    }
    addrs
}

/// How a list of addresses is ordered.
#[derive(Clone, Copy, Debug)]
pub struct RowAddressStats {
    /// No address is smaller than the one before it.
    pub sorted: bool,
    /// Each address directly follows the one before it, in one fragment.
    pub contiguous: bool,
}

/// No address is smaller than an earlier one.
pub open spec fn addresses_sorted(addresses: Seq<u64>) -> bool {
    forall|i: int, j: int|
        0 <= i <= j < addresses.len() ==> #[trigger] addresses[i] <= #[trigger] addresses[j]
}

/// Addresses count up by one inside one fragment.
pub open spec fn addresses_contiguous(addresses: Seq<u64>) -> bool {
    forall|i: int|
        0 <= i < addresses.len() ==> #[trigger] addresses[i] == addresses[0] + i && fragment_of(
            addresses[i],
        ) == fragment_of(addresses[0])
}

/// Tells how a list of addresses is ordered.
pub fn check_row_addrs(row_addrs: &[u64]) -> (result: RowAddressStats)
    ensures
        result.sorted == addresses_sorted(row_addrs@),
        result.contiguous == addresses_contiguous(row_addrs@),
{
    let mut sorted = true;
    let mut contiguous = true;
    if row_addrs.len() == 0 {
        return RowAddressStats { sorted, contiguous };
    }
    let first_fragment_id: u32 = fragment_id(row_addrs[0]);
    let mut i: usize = 1;
    while i < row_addrs.len()
        invariant
            1 <= i <= row_addrs@.len(),
            first_fragment_id == fragment_of(row_addrs@[0]),
            sorted == addresses_sorted(row_addrs@.take(i as int)),
            contiguous == addresses_contiguous(row_addrs@.take(i as int)),
        decreases row_addrs@.len() - i,
    {
        let last: u64 = row_addrs[i - 1];
        let addr: u64 = row_addrs[i];
        let ghost shorter = row_addrs@.take(i as int);
        let ghost longer = row_addrs@.take(i + 1);
        proof {
            if addresses_sorted(longer) {
                assert forall|a: int, b: int| 0 <= a <= b < shorter.len() implies #[trigger] shorter[a]
                    <= #[trigger] shorter[b] by {
                    assert(longer[a] <= longer[b]);
                }
                assert(longer[i - 1] <= longer[i as int]);
            }
            if sorted && last <= addr {
                assert forall|a: int, b: int| 0 <= a <= b < longer.len() implies #[trigger] longer[a]
                    <= #[trigger] longer[b] by {
                    if b == i && a < i {
                        assert(shorter[a] <= shorter[i - 1]);
                    } else if b < i {
                        assert(shorter[a] <= shorter[b]);
                    }
                }
            }
            if addresses_contiguous(longer) {
                assert forall|a: int| 0 <= a < shorter.len() implies #[trigger] shorter[a]
                    == shorter[0] + a && fragment_of(shorter[a]) == fragment_of(shorter[0]) by {
                    assert(longer[a] == longer[0] + a);
                }
                assert(longer[i as int] == longer[0] + i);
                assert(longer[i - 1] == longer[0] + (i - 1));
            }
            if contiguous && last < u64::MAX && addr == last + 1 && fragment_of(addr)
                == first_fragment_id {
                assert forall|a: int| 0 <= a < longer.len() implies #[trigger] longer[a]
                    == longer[0] + a && fragment_of(longer[a]) == fragment_of(longer[0]) by {
                    if a < i {
                        assert(shorter[a] == shorter[0] + a);
                    } else {
                        assert(shorter[i - 1] == shorter[0] + (i - 1));
                    }
                }
            }
        }
        sorted = sorted && addr >= last;
        contiguous = contiguous && last < u64::MAX && addr == last + 1 && fragment_id(addr)
            == first_fragment_id;
        i += 1;
    }
    assert(row_addrs@.take(i as int) =~= row_addrs@);
    RowAddressStats { sorted, contiguous }
}

/// Rows of one fragment, as a mathematical object.
#[verifier::ext_equal]
pub struct Group {
    pub fragment: u32,
    pub offsets: Seq<u32>,
}

impl Group {
    /// The addresses of the rows.
    pub open spec fn addresses(self) -> Seq<u64> {
        self.offsets.map_values(|offset: u32| address_of(self.fragment, offset))
    }
}

/// Rows of one fragment.
#[derive(Debug)]
pub struct FragmentGroup {
    /// Identifier of the fragment.
    pub fragment_id: u32,
    /// Positions of the rows in the fragment.
    pub row_offsets: Vec<u32>,
}

impl View for FragmentGroup {
    type V = Group;

    open spec fn view(&self) -> Group {
        Group { fragment: self.fragment_id, offsets: self.row_offsets@ }
    }
}

impl Clone for FragmentGroup {
    fn clone(&self) -> (result: FragmentGroup)
        ensures
            result@ == self@,
    {
        let row_offsets = self.row_offsets.clone();
        assert(row_offsets@ =~= self.row_offsets@);
        FragmentGroup { fragment_id: self.fragment_id, row_offsets }
    }
}

/// The groups as mathematical objects.
pub open spec fn group_views(groups: Seq<FragmentGroup>) -> Seq<Group> {
    groups.map_values(|group: FragmentGroup| group@)
}

/// The addresses of all groups, one group after the other.
pub open spec fn group_addresses(groups: Seq<Group>) -> Seq<u64> {
    joined(groups.map_values(|group: Group| group.addresses()), groups.len())
}

/// Groups that divide a list of addresses where the fragment changes.
pub open spec fn divides_by_fragment(groups: Seq<Group>, addresses: Seq<u64>) -> bool {
    &&& group_addresses(groups) == addresses
    &&& forall|i: int| 0 <= i < groups.len() ==> (#[trigger] groups[i]).offsets.len() > 0
    &&& forall|i: int|
        0 < i < groups.len() ==> (#[trigger] groups[i]).fragment != groups[i - 1].fragment
}

proof fn joined_depends_on_prefix<T>(left: Seq<Seq<T>>, right: Seq<Seq<T>>, count: nat)
    requires
        count <= left.len(),
        count <= right.len(),
        forall|i: int| 0 <= i < count ==> #[trigger] left[i] == right[i],
    ensures
        joined(left, count) == joined(right, count),
    decreases count,
{
    if count > 0 {
        joined_depends_on_prefix(left, right, (count - 1) as nat);
    }
}

proof fn group_addresses_of_push(groups: Seq<Group>, group: Group)
    ensures
        group_addresses(groups.push(group)) == group_addresses(groups) + group.addresses(),
{
    let parts = groups.map_values(|group: Group| group.addresses());
    let longer = groups.push(group).map_values(|group: Group| group.addresses());
    joined_depends_on_prefix(parts, longer, groups.len());
    assert(longer[groups.len() as int] == group.addresses());
}

/// Divides a list of addresses where the fragment changes.
pub fn group_by_fragment(row_addrs: &[u64]) -> (result: Vec<FragmentGroup>)
    ensures
        divides_by_fragment(group_views(result@), row_addrs@),
{
    let mut groups: Vec<FragmentGroup> = Vec::new();
    let mut start: usize = 0;
    assert(group_views(groups@) =~= Seq::<Group>::empty());
    assert(row_addrs@.take(0) =~= Seq::<u64>::empty());
    while start < row_addrs.len()
        invariant
            start <= row_addrs@.len(),
            divides_by_fragment(group_views(groups@), row_addrs@.take(start as int)),
            groups@.len() == 0 ==> start == 0,
            groups@.len() > 0 && start < row_addrs@.len() ==> groups@[groups@.len() - 1].fragment_id
                != fragment_of(row_addrs@[start as int]),
        decreases row_addrs@.len() - start,
    {
        let fragment: u32 = fragment_id(row_addrs[start]);
        let mut row_offsets: Vec<u32> = Vec::new();
        let mut end: usize = start;
        let ghost group = Group { fragment, offsets: row_offsets@ };
        assert(group.addresses() =~= row_addrs@.subrange(start as int, end as int));
        while end < row_addrs.len() && fragment_id(row_addrs[end]) == fragment
            invariant
                start <= end <= row_addrs@.len(),
                start < row_addrs@.len(),
                fragment == fragment_of(row_addrs@[start as int]),
                row_offsets@.len() == end - start,
                (Group { fragment, offsets: row_offsets@ }).addresses() == row_addrs@.subrange(
                    start as int,
                    end as int,
                ),
            ensures
                start <= end <= row_addrs@.len(),
                row_offsets@.len() == end - start,
                end > start,
                (Group { fragment, offsets: row_offsets@ }).addresses() == row_addrs@.subrange(
                    start as int,
                    end as int,
                ),
                end < row_addrs@.len() ==> fragment_of(row_addrs@[end as int]) != fragment,
            decreases row_addrs@.len() - end,
        {
            row_offsets.push(row_offset(row_addrs[end]));
            end += 1;
            assert((Group { fragment, offsets: row_offsets@ }).addresses() =~= row_addrs@.subrange(
                start as int,
                end as int,
            ));
        }
        let ghost before = group_views(groups@);
        let ghost own = Group { fragment, offsets: row_offsets@ };
        groups.push(FragmentGroup { fragment_id: fragment, row_offsets });
        proof {
            assert(group_views(groups@) =~= before.push(own));
            group_addresses_of_push(before, own);
            assert(row_addrs@.take(end as int) =~= row_addrs@.take(start as int)
                + row_addrs@.subrange(start as int, end as int));
            let views = group_views(groups@);
            assert forall|i: int| 0 <= i < views.len() implies (#[trigger] views[i]).offsets.len()
                > 0 by {
                if i < before.len() {
                    assert(before[i].offsets.len() > 0);
                }
            }
            assert forall|i: int| 0 < i < views.len() implies (#[trigger] views[i]).fragment
                != views[i - 1].fragment by {
                if i < before.len() {
                    assert(before[i].fragment != before[i - 1].fragment);
                } else {
                    assert(views[i - 1] == groups@[i - 1]@);
                }
            }
        }
        start = end;
    }
    assert(row_addrs@.take(start as int) =~= row_addrs@);
    groups
}

/// The positions requested from one fragment, in ascending order.
pub open spec fn requested_offsets(addresses: Seq<u64>, fragment: u32, offsets: Seq<u32>) -> bool {
    &&& strictly_increasing(offsets)
    &&& forall|offset: u32| #[trigger]
        offsets.contains(offset) <==> addresses.contains(address_of(fragment, offset))
}

/// Groups with the rows requested from each fragment, in the order of the
/// fragments, without fragments from which nothing is requested.
pub open spec fn groups_by_request(groups: Seq<Group>, fragments: Seq<u32>, addresses: Seq<u64>) -> bool {
    &&& forall|i: int|
        0 <= i < groups.len() ==> (#[trigger] groups[i]).offsets.len() > 0 && requested_offsets(
            addresses,
            groups[i].fragment,
            groups[i].offsets,
        )
    &&& groups.map_values(|group: Group| group.fragment) == requested_fragments(fragments, addresses)
}

/// Something is requested from a fragment.
pub open spec fn is_requested(fragment: u32, addresses: Seq<u64>) -> bool {
    exists|i: int| 0 <= i < addresses.len() && fragment_of(#[trigger] addresses[i]) == fragment
}

/// The fragments from which something is requested.
pub open spec fn requested_fragments(fragments: Seq<u32>, addresses: Seq<u64>) -> Seq<u32>
    decreases fragments.len(),
{
    if fragments.len() == 0 {
        Seq::empty()
    } else {
        let earlier = requested_fragments(fragments.drop_last(), addresses);
        if is_requested(fragments.last(), addresses) {
            earlier.push(fragments.last())
        } else {
            earlier
        }
    }
}

/// Sorts addresses and drops repeated ones.
pub fn distinct_addresses(addresses: &Vec<u64>) -> (result: Vec<u64>)
    ensures
        increasing(result@),
        forall|address: u64| #[trigger] result@.contains(address) <==> addresses@.contains(address),
{
    let sorted = sort(addresses);
    proof {
        ascending_is_sorted_permutation(addresses@);
    }
    let mut result: Vec<u64> = Vec::new();
    let mut j: usize = 0;
    while j < sorted.len()
        invariant
            sorted@ == ascending(addresses@),
            sorted@.len() == addresses@.len(),
            forall|a: int, b: int|
                0 <= a < b < sorted@.len() ==> #[trigger] sorted@[a] <= #[trigger] sorted@[b],
            j <= sorted@.len(),
            increasing(result@),
            j == 0 ==> result@.len() == 0,
            j > 0 ==> result@.len() > 0 && result@.last() == sorted@[j - 1],
            forall|address: u64| #[trigger]
                result@.contains(address) <==> sorted@.take(j as int).contains(address),
        decreases sorted@.len() - j,
    {
        let address: u64 = sorted[j];
        let ghost before = result@;
        let ghost prefix = sorted@.take(j as int);
        let ghost longer = sorted@.take(j + 1);
        assert(longer =~= prefix.push(address));
        let repeated = result.len() > 0 && result[result.len() - 1] == address;
        if !repeated {
            result.push(address);
            proof {
                if before.len() > 0 {
                    assert(before.last() == sorted@[j - 1]);
                    assert(sorted@[j - 1] <= sorted@[j as int]);
                }
                assert forall|a: int, b: int| 0 <= a < b < result@.len() implies #[trigger] result@[a]
                    < #[trigger] result@[b] by {
                    if b == before.len() && a < before.len() - 1 {
                        assert(before[a] < before[before.len() - 1]);
                    }
                }
            }
        }
        proof {
            assert forall|other: u64| #[trigger] result@.contains(other) <==> longer.contains(
                other,
            ) by {
                if result@.contains(other) {
                    let k = choose|k: int| 0 <= k < result@.len() && result@[k] == other;
                    if k < before.len() {
                        assert(before.contains(other));
                        let p = choose|p: int| 0 <= p < prefix.len() && prefix[p] == other;
                        assert(longer[p] == other);
                    } else {
                        assert(longer[j as int] == other);
                    }
                }
                if longer.contains(other) {
                    let p = choose|p: int| 0 <= p < longer.len() && longer[p] == other;
                    if p < j {
                        assert(prefix[p] == other);
                        assert(before.contains(other));
                        let k = choose|k: int| 0 <= k < before.len() && before[k] == other;
                        assert(result@[k] == other);
                    } else {
                        assert(result@[result@.len() - 1] == address);
                    }
                }
            }
        }
        j += 1;
    }
    assert(sorted@.take(j as int) =~= sorted@);
    result
}

/// The rows of one fragment among ascending addresses.
fn offsets_in_fragment(addresses: &Vec<u64>, fragment: u32) -> (result: Vec<u32>)
    requires
        increasing(addresses@),
    ensures
        requested_offsets(addresses@, fragment, result@),
        result@.len() > 0 <==> is_requested(fragment, addresses@),
{
    let mut offsets: Vec<u32> = Vec::new();
    let mut i: usize = 0;
    assert(addresses@.take(0) =~= Seq::<u64>::empty());
    while i < addresses.len()
        invariant
            i <= addresses@.len(),
            increasing(addresses@),
            requested_offsets(addresses@.take(i as int), fragment, offsets@),
            forall|k: int|
                0 <= k < offsets@.len() ==> addresses@.take(i as int).contains(
                    address_of(fragment, #[trigger] offsets@[k]),
                ),
        decreases addresses@.len() - i,
    {
        let address: u64 = addresses[i];
        let ghost before = offsets@;
        let ghost shorter = addresses@.take(i as int);
        let ghost longer = addresses@.take(i + 1);
        assert(longer =~= shorter.push(address));
        if fragment_id(address) == fragment {
            offsets.push(row_offset(address));
        }
        proof {
            assert forall|offset: u32| #[trigger] offsets@.contains(offset) <==> longer.contains(
                address_of(fragment, offset),
            ) by {
                let own = address_of(fragment, offset);
                if before.contains(offset) {
                    let k = choose|k: int| 0 <= k < before.len() && before[k] == offset;
                    assert(offsets@[k] == offset);
                }
                if shorter.contains(own) {
                    let k = choose|k: int| 0 <= k < shorter.len() && shorter[k] == own;
                    assert(longer[k] == own);
                }
                if longer.contains(own) {
                    let k = choose|k: int| 0 <= k < longer.len() && longer[k] == own;
                    if k < i {
                        assert(shorter[k] == own);
                    } else {
                        assert(offsets@[before.len() as int] == offset);
                    }
                }
                if offsets@.contains(offset) {
                    let k = choose|k: int| 0 <= k < offsets@.len() && offsets@[k] == offset;
                    if k < before.len() {
                        assert(before.contains(offset));
                    } else {
                        assert(longer[i as int] == own);
                    }
                }
            }
            assert forall|a: int, b: int| 0 <= a < b < offsets@.len() implies #[trigger] offsets@[a]
                < #[trigger] offsets@[b] by {
                if b == before.len() {
                    assert(before.contains(before[a]));
                    let own = address_of(fragment, before[a]);
                    let k = choose|k: int| 0 <= k < shorter.len() && shorter[k] == own;
                    assert(addresses@[k] < addresses@[i as int]);
                }
            }
            assert forall|k: int| 0 <= k < offsets@.len() implies longer.contains(
                address_of(fragment, #[trigger] offsets@[k]),
            ) by {
                assert(offsets@.contains(offsets@[k]));
            }
        }
        i += 1;
    }
    proof {
        assert(addresses@.take(i as int) =~= addresses@);
        if offsets@.len() > 0 {
            assert(offsets@.contains(offsets@[0]));
            let own = address_of(fragment, offsets@[0]);
            let k = choose|k: int| 0 <= k < addresses@.len() && addresses@[k] == own;
            assert(fragment_of(addresses@[k]) == fragment);
        }
        if is_requested(fragment, addresses@) {
            let k = choose|k: int|
                0 <= k < addresses@.len() && fragment_of(#[trigger] addresses@[k]) == fragment;
            assert(addresses@[k] == address_of(fragment, offset_of(addresses@[k])));
            assert(addresses@.contains(address_of(fragment, offset_of(addresses@[k]))));
            assert(offsets@.contains(offset_of(addresses@[k])));
        }
    }
    offsets
}

/// The rows requested from each fragment, in the order of the fragments.
/// Requests for other fragments are left out.
pub fn group_by_request(row_addrs: &Vec<u64>, fragments: &[u32]) -> (result: Vec<FragmentGroup>)
    ensures
        groups_by_request(group_views(result@), fragments@, row_addrs@),
{
    let distinct = distinct_addresses(row_addrs);
    let mut groups: Vec<FragmentGroup> = Vec::new();
    let mut i: usize = 0;
    assert(fragments@.take(0) =~= Seq::<u32>::empty());
    assert(group_views(groups@).map_values(|group: Group| group.fragment) =~= Seq::<u32>::empty());
    while i < fragments.len()
        invariant
            i <= fragments@.len(),
            increasing(distinct@),
            forall|address: u64| #[trigger]
                distinct@.contains(address) <==> row_addrs@.contains(address),
            groups_by_request(group_views(groups@), fragments@.take(i as int), row_addrs@),
        decreases fragments@.len() - i,
    {
        let fragment: u32 = fragments[i];
        let offsets = offsets_in_fragment(&distinct, fragment);
        let ghost before = group_views(groups@);
        let ghost own = Group { fragment, offsets: offsets@ };
        proof {
            assert(fragments@.take(i + 1).drop_last() =~= fragments@.take(i as int));
            if is_requested(fragment, distinct@) {
                let k = choose|k: int|
                    0 <= k < distinct@.len() && fragment_of(#[trigger] distinct@[k]) == fragment;
                assert(distinct@.contains(distinct@[k]));
                let p = choose|p: int| 0 <= p < row_addrs@.len() && row_addrs@[p] == distinct@[k];
                assert(fragment_of(row_addrs@[p]) == fragment);
            }
            if is_requested(fragment, row_addrs@) {
                let k = choose|k: int|
                    0 <= k < row_addrs@.len() && fragment_of(#[trigger] row_addrs@[k]) == fragment;
                assert(row_addrs@.contains(row_addrs@[k]));
                assert(distinct@.contains(row_addrs@[k]));
                let p = choose|p: int| 0 <= p < distinct@.len() && distinct@[p] == row_addrs@[k];
                assert(fragment_of(distinct@[p]) == fragment);
            }
            assert(requested_offsets(row_addrs@, fragment, offsets@)) by {
                assert forall|offset: u32| #[trigger] offsets@.contains(offset) <==>
                    row_addrs@.contains(address_of(fragment, offset)) by {
                    assert(distinct@.contains(address_of(fragment, offset))
                        <==> row_addrs@.contains(address_of(fragment, offset)));
                }
            }
        }
        if offsets.len() > 0 {
            groups.push(FragmentGroup { fragment_id: fragment, row_offsets: offsets });
            proof {
                let views = group_views(groups@);
                assert(views =~= before.push(own));
                assert(views.map_values(|group: Group| group.fragment) =~= before.map_values(
                    |group: Group| group.fragment,
                ).push(fragment));
                assert forall|k: int| 0 <= k < views.len() implies (#[trigger] views[k]).offsets.len()
                    > 0 && requested_offsets(row_addrs@, views[k].fragment, views[k].offsets) by {
                    if k < before.len() {
                        assert(before[k].offsets.len() > 0);
                    }
                }
            }
        }
        i += 1;
    }
    assert(fragments@.take(i as int) =~= fragments@);
    groups
}

/// In ascending addresses every fragment has one group.
pub proof fn sorted_addresses_have_one_group_per_fragment(groups: Seq<Group>, addresses: Seq<u64>)
    requires
        divides_by_fragment(groups, addresses),
        addresses_sorted(addresses),
    ensures
        forall|i: int, j: int|
            0 <= i < j < groups.len() ==> (#[trigger] groups[i]).fragment < (
            #[trigger] groups[j]).fragment,
{
    let parts = groups.map_values(|group: Group| group.addresses());
    assert forall|i: int| 0 < i < groups.len() implies (#[trigger] groups[i]).fragment > groups[i
        - 1].fragment by {
        joined_holds_part(parts, i, groups.len());
        joined_holds_part(parts, i - 1, groups.len());
        let end = joined(parts, i as nat).len() as int;
        assert(groups[i].offsets.len() > 0);
        assert(groups[i - 1].offsets.len() > 0);
        let whole = joined(parts, groups.len());
        let start = joined(parts, (i - 1) as nat).len() as int;
        assert(whole.subrange(start, end) == parts[i - 1]);
        let after = joined(parts, (i + 1) as nat).len() as int;
        assert(whole.subrange(end, after) == parts[i]);
        assert(whole[end - 1] == parts[i - 1][parts[i - 1].len() - 1]) by {
            assert(whole.subrange(start, end)[parts[i - 1].len() - 1] == whole[end - 1]);
        }
        assert(whole[end] == parts[i][0]) by {
            assert(whole.subrange(end, after)[0] == whole[end]);
        }
        assert(addresses[end - 1] <= addresses[end]);
        assert(groups[i].fragment != groups[i - 1].fragment);
    }
    assert forall|i: int, j: int| 0 <= i < j < groups.len() implies (#[trigger] groups[i]).fragment
        < (#[trigger] groups[j]).fragment by {
        fragments_increase(groups, i, j);
    }
}

proof fn fragments_increase(groups: Seq<Group>, i: int, j: int)
    requires
        0 <= i < j < groups.len(),
        forall|k: int| 0 < k < groups.len() ==> (#[trigger] groups[k]).fragment > groups[k - 1].fragment,
    ensures
        groups[i].fragment < groups[j].fragment,
    decreases j - i,
{
    assert(groups[j].fragment > groups[j - 1].fragment);
    if i < j - 1 {
        fragments_increase(groups, i, j - 1);
    }
}

/// The last group of a division holds the end of the addresses, and the earlier
/// groups divide what comes before it.
proof fn division_ends_with_last_group(groups: Seq<Group>, addresses: Seq<u64>)
    requires
        divides_by_fragment(groups, addresses),
        groups.len() > 0,
    ensures
        ({
            let own = groups.last().addresses();
            let start = addresses.len() - own.len();
            &&& 0 <= start < addresses.len()
            &&& own.len() == groups.last().offsets.len()
            &&& addresses.skip(start) == own
            &&& divides_by_fragment(groups.drop_last(), addresses.take(start))
            &&& forall|i: int|
                start <= i < addresses.len() ==> fragment_of(#[trigger] addresses[i])
                    == groups.last().fragment
            &&& start > 0 ==> groups.len() > 1 && fragment_of(addresses[start - 1]) == groups[
            groups.len() - 2].fragment && groups[groups.len() - 2].fragment != groups.last().fragment
            &&& start == 0 ==> groups.len() == 1
        }),
{
    let last = groups.last();
    let earlier = groups.drop_last();
    let own = last.addresses();
    let start = addresses.len() - own.len();
    assert(earlier.push(last) =~= groups);
    group_addresses_of_push(earlier, last);
    assert(groups[groups.len() - 1].offsets.len() > 0);
    assert(addresses == group_addresses(earlier) + own);
    assert(addresses.skip(start) =~= own);
    assert(addresses.take(start) =~= group_addresses(earlier));
    assert forall|i: int| 0 <= i < earlier.len() implies (#[trigger] earlier[i]).offsets.len()
        > 0 by {
        assert(groups[i].offsets.len() > 0);
    }
    assert forall|i: int| 0 < i < earlier.len() implies (#[trigger] earlier[i]).fragment != earlier[i
        - 1].fragment by {
        assert(groups[i].fragment != groups[i - 1].fragment);
    }
    assert forall|i: int| start <= i < addresses.len() implies fragment_of(#[trigger] addresses[i])
        == last.fragment by {
        assert(addresses[i] == own[i - start]);
    }
    if earlier.len() > 0 {
        let before = earlier.last();
        assert(earlier.drop_last().push(before) =~= earlier);
        group_addresses_of_push(earlier.drop_last(), before);
        assert(before.offsets.len() > 0) by {
            assert(groups[groups.len() - 2].offsets.len() > 0);
        }
        assert(addresses[start - 1] == before.addresses()[before.offsets.len() - 1]);
        assert(groups[groups.len() - 1].fragment != groups[groups.len() - 2].fragment);
    } else {
        assert(group_addresses(earlier) =~= Seq::<u64>::empty());
    }
}

/// A list of addresses is divided by fragment in one way only.
pub proof fn division_is_unique(a: Seq<Group>, b: Seq<Group>, addresses: Seq<u64>)
    requires
        divides_by_fragment(a, addresses),
        divides_by_fragment(b, addresses),
    ensures
        a == b,
    decreases addresses.len(),
{
    if a.len() == 0 {
        assert(addresses =~= Seq::<u64>::empty());
        if b.len() > 0 {
            division_ends_with_last_group(b, addresses);
        }
        assert(a =~= b);
    } else {
        division_ends_with_last_group(a, addresses);
        if b.len() == 0 {
            assert(addresses =~= Seq::<u64>::empty());
        } else {
            division_ends_with_last_group(b, addresses);
            let start = addresses.len() - a.last().offsets.len();
            let other = addresses.len() - b.last().offsets.len();
            assert(fragment_of(addresses[addresses.len() - 1]) == a.last().fragment);
            assert(fragment_of(addresses[addresses.len() - 1]) == b.last().fragment);
            if start > other {
                assert(fragment_of(addresses[start - 1]) == b.last().fragment);
            } else if other > start {
                assert(fragment_of(addresses[other - 1]) == a.last().fragment);
            }
            assert(start == other);
            assert forall|i: int| 0 <= i < a.last().offsets.len() implies #[trigger] a.last().offsets[i]
                == b.last().offsets[i] by {
                assert(a.last().addresses()[i] == b.last().addresses()[i]);
                assert(a.last().addresses()[i] == address_of(
                    a.last().fragment,
                    a.last().offsets[i],
                ));
                assert(b.last().addresses()[i] == address_of(
                    b.last().fragment,
                    b.last().offsets[i],
                ));
            }
            assert(a.last().offsets =~= b.last().offsets);
            division_is_unique(a.drop_last(), b.drop_last(), addresses.take(start));
            assert(a =~= a.drop_last().push(a.last()));
            assert(b =~= b.drop_last().push(b.last()));
        }
    }
}

/// Addresses of one fragment are all kept, and those of others all left out.
proof fn filter_by_fragment(addresses: Seq<u64>, fragment: u32)
    ensures
        (forall|i: int|
            0 <= i < addresses.len() ==> fragment_of(#[trigger] addresses[i]) == fragment)
            ==> addresses.filter(|address: u64| fragment_of(address) == fragment) == addresses,
        (forall|i: int|
            0 <= i < addresses.len() ==> fragment_of(#[trigger] addresses[i]) != fragment)
            ==> addresses.filter(|address: u64| fragment_of(address) == fragment)
            == Seq::<u64>::empty(),
    decreases addresses.len(),
{
    reveal(Seq::filter);
    if addresses.len() > 0 {
        let shorter = addresses.drop_last();
        filter_by_fragment(shorter, fragment);
        assert(addresses[addresses.len() - 1] == addresses.last());
        assert(forall|i: int|
            0 <= i < shorter.len() ==> #[trigger] shorter[i] == addresses[i]);
        assert(shorter.push(addresses.last()) =~= addresses);
    } else {
        assert(addresses =~= Seq::<u64>::empty());
    }
}

/// Each group of ascending addresses holds all rows of its fragment, in the order
/// of the addresses.
pub proof fn sorted_groups_hold_their_fragments(
    groups: Seq<Group>,
    addresses: Seq<u64>,
    position: int,
)
    requires
        divides_by_fragment(groups, addresses),
        addresses_sorted(addresses),
        0 <= position < groups.len(),
    ensures
        groups[position].addresses() == addresses.filter(
            |address: u64| fragment_of(address) == groups[position].fragment,
        ),
    decreases groups.len(),
{
    let fragment = groups[position].fragment;
    let own = |address: u64| fragment_of(address) == fragment;
    division_ends_with_last_group(groups, addresses);
    sorted_addresses_have_one_group_per_fragment(groups, addresses);
    let start = addresses.len() - groups.last().offsets.len();
    let earlier = addresses.take(start);
    let rest = addresses.skip(start);
    assert(earlier + rest =~= addresses);
    Seq::filter_distributes_over_add(earlier, rest, own);
    assert(forall|i: int| 0 <= i < rest.len() ==> #[trigger] rest[i] == addresses[start + i]);
    filter_by_fragment(rest, fragment);
    if position < groups.len() - 1 {
        assert(groups[position].fragment < groups[groups.len() - 1].fragment);
        assert(groups.drop_last()[position] == groups[position]);
        assert(addresses_sorted(earlier));
        sorted_groups_hold_their_fragments(groups.drop_last(), earlier, position);
        assert(rest.filter(own) == Seq::<u64>::empty());
        assert(earlier.filter(own) + Seq::<u64>::empty() =~= earlier.filter(own));
    } else {
        assert forall|i: int| 0 <= i < earlier.len() implies fragment_of(#[trigger] earlier[i])
            != fragment by {
            let g = group_of_address(groups.drop_last(), earlier, i);
            assert(groups[g].fragment < groups[groups.len() - 1].fragment);
        }
        filter_by_fragment(earlier, fragment);
        assert(Seq::<u64>::empty() + rest =~= rest);
    }
}

/// The group in which an address lies.
proof fn group_of_address(groups: Seq<Group>, addresses: Seq<u64>, position: int) -> (result: int)
    requires
        divides_by_fragment(groups, addresses),
        0 <= position < addresses.len(),
    ensures
        0 <= result < groups.len(),
        fragment_of(addresses[position]) == groups[result].fragment,
    decreases groups.len(),
{
    if groups.len() == 0 {
        assert(addresses =~= Seq::<u64>::empty());
    }
    division_ends_with_last_group(groups, addresses);
    let start = addresses.len() - groups.last().offsets.len();
    if position < start {
        assert(addresses.take(start)[position] == addresses[position]);
        group_of_address(groups.drop_last(), addresses.take(start), position)
    } else {
        groups.len() - 1
    }
}

/// Ascending addresses are divided into as many groups as they have distinct
/// fragments.
pub proof fn sorted_groups_count_fragments(groups: Seq<Group>, addresses: Seq<u64>)
    requires
        divides_by_fragment(groups, addresses),
        addresses_sorted(addresses),
    ensures
        groups.len() == addresses.map_values(|address: u64| fragment_of(address)).to_set().len(),
{
    let fragments = groups.map_values(|group: Group| group.fragment);
    let named = addresses.map_values(|address: u64| fragment_of(address));
    sorted_addresses_have_one_group_per_fragment(groups, addresses);
    assert forall|i: int, j: int|
        0 <= i < fragments.len() && 0 <= j < fragments.len() && i != j implies fragments[i]
        != fragments[j] by {
        if i < j {
            assert(groups[i].fragment < groups[j].fragment);
        } else {
            assert(groups[j].fragment < groups[i].fragment);
        }
    }
    fragments.unique_seq_to_set();
    assert forall|fragment: u32| fragments.contains(fragment) implies named.contains(fragment) by {
        let g = choose|g: int| 0 <= g < fragments.len() && fragments[g] == fragment;
        let parts = groups.map_values(|group: Group| group.addresses());
        joined_holds_part(parts, g, groups.len());
        let start = joined(parts, g as nat).len() as int;
        let end = joined(parts, (g + 1) as nat).len() as int;
        assert(groups[g].offsets.len() > 0);
        assert(addresses.subrange(start, end)[0] == parts[g][0]);
        assert(named[start] == fragment);
    }
    assert forall|fragment: u32| named.contains(fragment) implies fragments.contains(fragment) by {
        let k = choose|k: int| 0 <= k < named.len() && named[k] == fragment;
        let g = group_of_address(groups, addresses, k);
        assert(fragments[g] == fragment);
    }
    assert(fragments.to_set() =~= named.to_set());
}

/// An address is that of the live row with a number, in a fragment: its position
/// there is not deleted, and as many live rows come before it as the number says.
/// Those are the live rows of all earlier fragments, and the positions before it
/// in its own that are not deleted.
pub open spec fn is_live_row(
    fragments: Seq<FragmentView>,
    fragment: int,
    number: int,
    address: u64,
) -> bool {
    let position = address as int % 0x1_0000_0000;
    let deleted = fragments[fragment].deleted;
    &&& 0 <= fragment < fragments.len()
    &&& address as int / 0x1_0000_0000 == fragments[fragment].id
    &&& forall|i: int| 0 <= i < deleted.len() ==> #[trigger] deleted[i] != position
    &&& rows_before(fragments, fragment) + position - count_below(deleted, position) == number
    &&& rows_before(fragments, fragment) <= number < rows_before(fragments, fragment)
        + fragments[fragment].live_rows
}

/// Row offsets count live rows, whichever fragment they fall into: the address for
/// an offset is that of a row that is not deleted, with exactly that many live rows
/// before it. Only offsets beyond all live rows have no row.
pub proof fn row_offsets_count_live_rows(fragments: Seq<FragmentView>, number: int)
    requires
        forall|i: int| 0 <= i < fragments.len() ==> (#[trigger] fragments[i]).wf(),
        number >= 0,
    ensures
        number < rows_before(fragments, fragments.len() as int) ==> exists|fragment: int| #[trigger]
            is_live_row(fragments, fragment, number, row_at(fragments, 0, number)),
        number >= rows_before(fragments, fragments.len() as int) ==> row_at(fragments, 0, number)
            == 0xffff_ffff_ffff_ffffu64,
{
    live_rows_from(fragments, 0, number);
}

proof fn live_rows_from(fragments: Seq<FragmentView>, from: int, number: int)
    requires
        forall|i: int| 0 <= i < fragments.len() ==> (#[trigger] fragments[i]).wf(),
        0 <= from <= fragments.len(),
        number >= 0,
    ensures
        rows_before(fragments, from) + number < rows_before(fragments, fragments.len() as int) ==> (
        exists|fragment: int| #[trigger]
            is_live_row(
                fragments,
                fragment,
                rows_before(fragments, from) + number,
                row_at(fragments, from, number),
            )),
        rows_before(fragments, from) + number >= rows_before(fragments, fragments.len() as int)
            ==> row_at(fragments, from, number) == 0xffff_ffff_ffff_ffffu64,
    decreases fragments.len() - from,
{
    if from < fragments.len() {
        let own = fragments[from];
        assert(own.wf());
        if number < own.live_rows {
            live_position_skips_deletions(own.deleted, number);
            rows_before_grows(fragments, from + 1, fragments.len() as int);
            assert(rows_before(fragments, from + 1) == rows_before(fragments, from)
                + own.live_rows);
            let position = live_position(own.deleted, number);
            let address = row_at(fragments, from, number);
            assert(0 <= position < 0x1_0000_0000);
            assert(address as int == own.id * 0x1_0000_0000 + position);
            assert(address as int % 0x1_0000_0000 == position);
            assert(is_live_row(
                fragments,
                from,
                rows_before(fragments, from) + number,
                address,
            ));
        } else {
            assert(rows_before(fragments, from + 1) == rows_before(fragments, from)
                + own.live_rows);
            live_rows_from(fragments, from + 1, number - own.live_rows);
            assert(row_at(fragments, from, number) == row_at(
                fragments,
                from + 1,
                number - own.live_rows,
            ));
            assert(rows_before(fragments, from) + number == rows_before(fragments, from + 1) + (
            number - own.live_rows));
        }
    }
}

/// Live rows are counted fragment by fragment, and positions one by one.
pub proof fn rows_and_positions_are_counted_one_by_one(
    fragments: Seq<FragmentView>,
    count: int,
    values: Seq<u32>,
    value: u32,
    bound: int,
)
    requires
        0 <= count < fragments.len(),
    ensures
        rows_before(fragments, 0) == 0,
        rows_before(fragments, count + 1) == rows_before(fragments, count)
            + fragments[count].live_rows,
        count_below(Seq::empty(), bound) == 0,
        count_below(values.push(value), bound) == count_below(values, bound) + if value < bound {
            1int
        } else {
            0int
        },
{
    assert(values.push(value).drop_last() =~= values);
}

/// A fragment from which rows are requested is read once for every time that the
/// dataset lists it, others are not read, and the order of the fragments stays.
pub proof fn requested_fragments_are_those_with_rows(
    fragments: Seq<u32>,
    addresses: Seq<u64>,
)
    ensures
        requested_fragments(fragments, addresses) == fragments.filter(
            |fragment: u32|
                exists|i: int|
                    0 <= i < addresses.len() && (#[trigger] addresses[i]) / 0x1_0000_0000
                        == fragment,
        ),
    decreases fragments.len(),
{
    reveal(Seq::filter);
    let wanted = |fragment: u32|
        exists|i: int|
            0 <= i < addresses.len() && (#[trigger] addresses[i]) / 0x1_0000_0000 == fragment;
    if fragments.len() > 0 {
        let last = fragments.last();
        requested_fragments_are_those_with_rows(fragments.drop_last(), addresses);
        assert(is_requested(last, addresses) == wanted(last)) by {
            if is_requested(last, addresses) {
                let i = choose|i: int|
                    0 <= i < addresses.len() && fragment_of(#[trigger] addresses[i]) == last;
                assert(addresses[i] / 0x1_0000_0000 == last);
            }
            if wanted(last) {
                let i = choose|i: int|
                    0 <= i < addresses.len() && (#[trigger] addresses[i]) / 0x1_0000_0000 == last;
                assert(fragment_of(addresses[i]) == last);
            }
        }
    } else {
        assert(fragments.filter(wanted) =~= Seq::<u32>::empty());
    }
}

/// Rows that are read out of order are the requested rows of existing fragments:
/// an address is among those of the groups exactly where it was requested and its
/// fragment exists.
pub proof fn reordered_takes_read_requested_rows(
    groups: Seq<Group>,
    fragments: Seq<u32>,
    addresses: Seq<u64>,
    address: u64,
)
    requires
        groups_by_request(groups, fragments, addresses),
    ensures
        (exists|g: int, k: int|
            0 <= g < groups.len() && 0 <= k < groups[g].offsets.len() && (
            #[trigger] groups[g]).fragment * 0x1_0000_0000 + #[trigger] groups[g].offsets[k]
                == address) <==> addresses.contains(address) && fragments.contains(
            (address / 0x1_0000_0000) as u32,
        ),
        forall|g: int, k: int, l: int|
            0 <= g < groups.len() && 0 <= k < l < groups[g].offsets.len() ==> #[trigger] groups[g].offsets[k]
                < #[trigger] groups[g].offsets[l],
{
    let own = (address / 0x1_0000_0000) as u32;
    let place = (address % 0x1_0000_0000) as u32;
    let named = groups.map_values(|group: Group| group.fragment);
    let wanted = |fragment: u32|
        exists|i: int|
            0 <= i < addresses.len() && (#[trigger] addresses[i]) / 0x1_0000_0000 == fragment;
    requested_fragments_are_those_with_rows(fragments, addresses);
    requested_are_contained(fragments, addresses, own);
    if exists|g: int, k: int|
        0 <= g < groups.len() && 0 <= k < groups[g].offsets.len() && (
        #[trigger] groups[g]).fragment * 0x1_0000_0000 + #[trigger] groups[g].offsets[k]
            == address {
        let (g, k) = choose|g: int, k: int|
            0 <= g < groups.len() && 0 <= k < groups[g].offsets.len() && (
            #[trigger] groups[g]).fragment * 0x1_0000_0000 + #[trigger] groups[g].offsets[k]
                == address;
        assert(groups[g].fragment == own && groups[g].offsets[k] == place);
        assert(requested_offsets(addresses, groups[g].fragment, groups[g].offsets));
        assert(groups[g].offsets.contains(place));
        assert(addresses.contains(address_of(own, place)));
        assert(named[g] == own);
        assert(requested_fragments(fragments, addresses).contains(own));
    }
    if addresses.contains(address) && fragments.contains(own) {
        let i = choose|i: int| 0 <= i < addresses.len() && addresses[i] == address;
        assert(fragment_of(addresses[i]) == own);
        assert(is_requested(own, addresses));
        assert(requested_fragments(fragments, addresses).contains(own));
        let g = choose|g: int| 0 <= g < named.len() && named[g] == own;
        assert(groups[g].fragment == own);
        assert(requested_offsets(addresses, groups[g].fragment, groups[g].offsets));
        assert(address_of(own, place) == address);
        assert(groups[g].offsets.contains(place));
        let k = choose|k: int| 0 <= k < groups[g].offsets.len() && groups[g].offsets[k] == place;
        assert(groups[g].fragment * 0x1_0000_0000 + groups[g].offsets[k] == address);
    }
    assert forall|g: int, k: int, l: int|
        0 <= g < groups.len() && 0 <= k < l < groups[g].offsets.len() implies
        #[trigger] groups[g].offsets[k] < #[trigger] groups[g].offsets[l] by {
        assert(requested_offsets(addresses, groups[g].fragment, groups[g].offsets));
    }
}

proof fn requested_are_contained(fragments: Seq<u32>, addresses: Seq<u64>, fragment: u32)
    ensures
        requested_fragments(fragments, addresses).contains(fragment) <==> fragments.contains(
            fragment,
        ) && is_requested(fragment, addresses),
    decreases fragments.len(),
{
    if fragments.len() > 0 {
        let shorter = fragments.drop_last();
        let last = fragments.last();
        requested_are_contained(shorter, addresses, fragment);
        let earlier = requested_fragments(shorter, addresses);
        let all = requested_fragments(fragments, addresses);
        if fragments.contains(fragment) && is_requested(fragment, addresses) {
            let i = choose|i: int| 0 <= i < fragments.len() && fragments[i] == fragment;
            if i < shorter.len() {
                assert(shorter[i] == fragment);
                let k = choose|k: int| 0 <= k < earlier.len() && earlier[k] == fragment;
                assert(all[k] == fragment);
            } else {
                assert(all[all.len() - 1] == fragment);
            }
        }
        if all.contains(fragment) {
            let k = choose|k: int| 0 <= k < all.len() && all[k] == fragment;
            if k < earlier.len() {
                assert(earlier[k] == fragment);
                let i = choose|i: int| 0 <= i < shorter.len() && shorter[i] == fragment;
                assert(fragments[i] == fragment);
            } else {
                assert(fragments[fragments.len() - 1] == fragment);
            }
        }
    }
}

/// Addresses are contiguous where each follows the one before in one fragment, and
/// a group reads the rows of its fragment at its offsets.
pub proof fn groups_and_ranges_hold_addresses(
    addresses: Seq<u64>,
    group: Group,
    place: int,
)
    ensures
        addresses_contiguous(addresses) <==> forall|i: int|
            0 <= i < addresses.len() ==> (#[trigger] addresses[i]) == addresses[0] + i
                && addresses[i] as int / 0x1_0000_0000 == addresses[0] as int / 0x1_0000_0000,
        group.addresses().len() == group.offsets.len(),
        0 <= place < group.offsets.len() ==> group.addresses()[place] == group.fragment
            * 0x1_0000_0000 + group.offsets[place],
{
    if addresses_contiguous(addresses) {
        assert forall|i: int| 0 <= i < addresses.len() implies (#[trigger] addresses[i])
            == addresses[0] + i && addresses[i] as int / 0x1_0000_0000 == addresses[0] as int
            / 0x1_0000_0000 by {
            assert(fragment_of(addresses[i]) == fragment_of(addresses[0]));
        }
    }
}

/// A fragment is known by its identifier, its live rows and its deleted positions.
pub proof fn fragments_are_viewed_one_by_one(fragments: Seq<FragmentRows>, place: int)
    requires
        0 <= place < fragments.len(),
    ensures
        fragment_views(fragments).len() == fragments.len(),
        fragment_views(fragments)[place].id == fragments[place].id,
        fragment_views(fragments)[place].live_rows == fragments[place].live_rows,
        fragment_views(fragments)[place].deleted == fragments[place].deleted@,
{
}

} // verus!
