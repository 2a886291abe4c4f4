//! Reading a sorted take as one batch for each fragment.

use crate::database::{address_of, fragment_of, new_from_parts, DatabaseError, DatabaseResult};
use crate::joined::{joined, joined_holds_part};
use crate::reader_cache::ReaderCacheQueryStatsSnapshot;
use crate::search::capped;
use crate::take::{
    addresses_contiguous, addresses_sorted, divides_by_fragment, division_is_unique,
    group_addresses, group_by_fragment, group_views, sorted_addresses_have_one_group_per_fragment,
    sorted_groups_count_fragments, sorted_groups_hold_their_fragments, FragmentGroup, Group,
};
use crate::take_plan::{
    deleted_rows, deleted_rows_error, first_missing, missing_row, plans_take, rows_read,
    sorted_takes_read_requested_rows, TakeBuilder, TakePlan, TakeRequest,
};
use crate::text::text_two_numbers;
use vstd::prelude::*;

verus! {

/// Whether a fragment can be read through a scheduler that fragments share.
#[derive(Clone, Copy, Debug, PartialEq, Eq, Structural)]
pub enum FragmentSharedSchedulerEligibility {
    Eligible,
    /// A file has a legacy format.
    Legacy,
    /// A file lies outside the primary base.
    NonPrimaryBase,
    /// It cannot be told, or not be done.
    Unsupported,
}

/// Whether a fragment can be read through cached readers.
#[derive(Clone, Copy, Debug, PartialEq, Eq, Structural)]
pub enum FragmentReaderCacheEligibility {
    Eligible { files: usize },
    /// A file has a legacy format.
    Legacy,
    /// A file lies outside the primary base.
    NonPrimaryBase,
    /// A file lies in a store that is not local.
    NonLocalStore,
    /// The size of a file is not known.
    UnknownSize,
    /// A file is too small.
    SmallFile,
    /// It cannot be told, or not be done.
    Unsupported,
}

/// What a fragment answers about itself. A missing answer is a failed one.
#[derive(Clone, Copy, Debug)]
pub struct FragmentAnswers {
    pub id: u32,
    pub shared_scheduler: Option<FragmentSharedSchedulerEligibility>,
    pub reader_cache: Option<FragmentReaderCacheEligibility>,
}

/// How one fragment is read.
#[derive(Debug)]
pub struct FragmentTakePlan {
    pub group: FragmentGroup,
    /// Place of the fragment among all that are read.
    pub reader_priority: u32,
    pub shared_scheduler_eligibility: FragmentSharedSchedulerEligibility,
    pub reader_cache_eligibility: FragmentReaderCacheEligibility,
}

/// How one fragment is read, as a mathematical object.
#[verifier::ext_equal]
pub struct FragmentPlan {
    pub group: Group,
    pub reader_priority: u32,
    pub shared: FragmentSharedSchedulerEligibility,
    pub cache: FragmentReaderCacheEligibility,
}

impl View for FragmentTakePlan {
    type V = FragmentPlan;

    open spec fn view(&self) -> FragmentPlan {
        FragmentPlan {
            group: self.group@,
            reader_priority: self.reader_priority,
            shared: self.shared_scheduler_eligibility,
            cache: self.reader_cache_eligibility,
        }
    }
}

/// The answers of a fragment.
pub open spec fn answers_of(fragments: Seq<FragmentAnswers>, id: u32) -> Option<FragmentAnswers>
    decreases fragments.len(),
{
    if fragments.len() == 0 {
        None
    } else {
        match answers_of(fragments.drop_last(), id) {
            Some(answers) => Some(answers),
            None => if fragments.last().id == id {
                Some(fragments.last())
            } else {
                None
            },
        }
    }
}

/// The identifiers of fragments.
pub open spec fn fragment_ids(fragments: Seq<FragmentAnswers>) -> Seq<u32> {
    fragments.map_values(|fragment: FragmentAnswers| fragment.id)
}

/// How one fragment is read.
pub open spec fn fragment_plan(
    group: Group,
    position: int,
    fragments: Seq<FragmentAnswers>,
    shared_scheduler_enabled: bool,
    reader_cache_enabled: bool,
) -> FragmentPlan {
    let answers = answers_of(fragments, group.fragment)->0;
    FragmentPlan {
        group,
        reader_priority: if position > u32::MAX {
            u32::MAX
        } else {
            position as u32
        },
        shared: if !shared_scheduler_enabled {
            FragmentSharedSchedulerEligibility::Eligible
        } else if position > u32::MAX || answers.shared_scheduler is None {
            FragmentSharedSchedulerEligibility::Unsupported
        } else {
            answers.shared_scheduler->0
        },
        cache: if !reader_cache_enabled {
            FragmentReaderCacheEligibility::Eligible { files: 0 }
        } else if answers.reader_cache is None {
            FragmentReaderCacheEligibility::Unsupported
        } else {
            answers.reader_cache->0
        },
    }
}

/// Fragments with one answer about sharing a scheduler.
pub open spec fn count_shared(
    plans: Seq<FragmentPlan>,
    wanted: FragmentSharedSchedulerEligibility,
) -> nat
    decreases plans.len(),
{
    if plans.len() == 0 {
        0
    } else {
        count_shared(plans.drop_last(), wanted) + if plans.last().shared == wanted {
            1nat
        } else {
            0nat
        }
    }
}

/// Fragments with one answer about cached readers.
pub open spec fn count_cache(
    plans: Seq<FragmentPlan>,
    wanted: FragmentReaderCacheEligibility,
) -> nat
    decreases plans.len(),
{
    if plans.len() == 0 {
        0
    } else {
        count_cache(plans.drop_last(), wanted) + if plans.last().cache == wanted {
            1nat
        } else {
            0nat
        }
    }
}

/// Files that can be read through cached readers.
pub open spec fn eligible_files(plans: Seq<FragmentPlan>) -> nat
    decreases plans.len(),
{
    if plans.len() == 0 {
        0
    } else {
        eligible_files(plans.drop_last()) + match plans.last().cache {
            FragmentReaderCacheEligibility::Eligible { files } => files as nat,
            _ => 0,
        }
    }
}

/// Every fragment can share a scheduler.
pub open spec fn all_shared(plans: Seq<FragmentPlan>) -> bool {
    forall|i: int|
        0 <= i < plans.len() ==> (#[trigger] plans[i]).shared
            == FragmentSharedSchedulerEligibility::Eligible
}

/// Every fragment can be read through cached readers.
pub open spec fn all_cached(plans: Seq<FragmentPlan>) -> bool {
    forall|i: int| 0 <= i < plans.len() ==> (#[trigger] plans[i]).cache is Eligible
}

/// How a grouped read is done, as a mathematical object.
#[verifier::ext_equal]
pub struct ReadPlan {
    pub plans: Seq<FragmentPlan>,
    pub shared_scheduler_enabled: bool,
    pub reader_cache_enabled: bool,
    pub max_eligible_files: nat,
    pub use_shared_scheduler: bool,
    pub use_reader_cache: bool,
}

impl ReadPlan {
    /// The rows that are read, fragment by fragment.
    pub open spec fn groups(self) -> Seq<Group> {
        self.plans.map_values(|plan: FragmentPlan| plan.group)
    }

    /// Both optimizations are taken for the whole query or not at all.
    pub open spec fn decided(self) -> bool {
        &&& self.use_shared_scheduler == (self.shared_scheduler_enabled && all_shared(self.plans))
        &&& self.use_reader_cache == (self.reader_cache_enabled && all_cached(self.plans)
            && 0 < eligible_files(self.plans) <= self.max_eligible_files)
    }

    /// Only the number of files keeps the query from the reader cache.
    pub open spec fn over_capacity(self) -> bool {
        self.reader_cache_enabled && all_cached(self.plans) && eligible_files(self.plans)
            > self.max_eligible_files && eligible_files(self.plans) > 0
    }
}

/// How a grouped read is done.
#[derive(Debug)]
pub struct GroupedReadPlan {
    pub plans: Vec<FragmentTakePlan>,
    pub shared_scheduler_enabled: bool,
    pub reader_cache_enabled: bool,
    pub max_eligible_files: usize,
    pub use_shared_scheduler: bool,
    pub use_reader_cache: bool,
    pub eligible_files: usize,
    pub all_cached: bool,
    pub shared_legacy: usize,
    pub shared_nonprimary: usize,
    pub shared_unsupported: usize,
    pub cache_legacy: usize,
    pub cache_nonprimary: usize,
    pub cache_nonlocal: usize,
    pub cache_unknown_size: usize,
    pub cache_small_file: usize,
    pub cache_unsupported: usize,
}

/// The plans of fragments as mathematical objects.
pub open spec fn plan_views(plans: Seq<FragmentTakePlan>) -> Seq<FragmentPlan> {
    plans.map_values(|plan: FragmentTakePlan| plan@)
}

impl View for GroupedReadPlan {
    type V = ReadPlan;

    open spec fn view(&self) -> ReadPlan {
        ReadPlan {
            plans: plan_views(self.plans@),
            shared_scheduler_enabled: self.shared_scheduler_enabled,
            reader_cache_enabled: self.reader_cache_enabled,
            max_eligible_files: self.max_eligible_files as nat,
            use_shared_scheduler: self.use_shared_scheduler,
            use_reader_cache: self.use_reader_cache,
        }
    }
}

impl GroupedReadPlan {
    /// The decisions and counts follow from the plans of the fragments.
    pub open spec fn wf(self) -> bool {
        let plans = plan_views(self.plans@);
        &&& self@.decided()
        &&& self.eligible_files == eligible_files(plans)
        &&& self.all_cached == all_cached(plans)
        &&& self.shared_legacy == count_shared(plans, FragmentSharedSchedulerEligibility::Legacy)
        &&& self.shared_nonprimary == count_shared(
            plans,
            FragmentSharedSchedulerEligibility::NonPrimaryBase,
        )
        &&& self.shared_unsupported == count_shared(
            plans,
            FragmentSharedSchedulerEligibility::Unsupported,
        )
        &&& self.cache_legacy == count_cache(plans, FragmentReaderCacheEligibility::Legacy)
        &&& self.cache_nonprimary == count_cache(
            plans,
            FragmentReaderCacheEligibility::NonPrimaryBase,
        )
        &&& self.cache_nonlocal == count_cache(plans, FragmentReaderCacheEligibility::NonLocalStore)
        &&& self.cache_unknown_size == count_cache(plans, FragmentReaderCacheEligibility::UnknownSize)
        &&& self.cache_small_file == count_cache(plans, FragmentReaderCacheEligibility::SmallFile)
        &&& self.cache_unsupported == count_cache(plans, FragmentReaderCacheEligibility::Unsupported)
    }
}

fn tally_shared(plans: &Vec<FragmentTakePlan>, wanted: FragmentSharedSchedulerEligibility) -> (result:
    usize)
    ensures
        result == count_shared(plan_views(plans@), wanted),
        result <= plans@.len(),
{
    let ghost views = plan_views(plans@);
    let mut count: usize = 0;
    let mut i: usize = 0;
    assert(views.take(0) =~= Seq::<FragmentPlan>::empty());
    while i < plans.len()
        invariant
            views == plan_views(plans@),
            i <= plans@.len(),
            count <= i,
            count == count_shared(views.take(i as int), wanted),
        decreases plans@.len() - i,
    {
        assert(views.take(i + 1).drop_last() =~= views.take(i as int));
        if plans[i].shared_scheduler_eligibility == wanted {
            count += 1;
        }
        i += 1;
    }
    assert(views.take(i as int) =~= views);
    count
}

fn tally_cache(plans: &Vec<FragmentTakePlan>, wanted: FragmentReaderCacheEligibility) -> (result:
    usize)
    ensures
        result == count_cache(plan_views(plans@), wanted),
        result <= plans@.len(),
{
    let ghost views = plan_views(plans@);
    let mut count: usize = 0;
    let mut i: usize = 0;
    assert(views.take(0) =~= Seq::<FragmentPlan>::empty());
    while i < plans.len()
        invariant
            views == plan_views(plans@),
            i <= plans@.len(),
            count <= i,
            count == count_cache(views.take(i as int), wanted),
        decreases plans@.len() - i,
    {
        assert(views.take(i + 1).drop_last() =~= views.take(i as int));
        if plans[i].reader_cache_eligibility == wanted {
            count += 1;
        }
        i += 1;
    }
    assert(views.take(i as int) =~= views);
    count
}

proof fn eligible_files_grow(plans: Seq<FragmentPlan>, count: int)
    requires
        0 <= count <= plans.len(),
    ensures
        eligible_files(plans.take(count)) <= eligible_files(plans),
    decreases plans.len() - count,
{
    if count == plans.len() {
        assert(plans.take(count) =~= plans);
    } else {
        eligible_files_grow(plans, count + 1);
        assert(plans.take(count + 1).drop_last() =~= plans.take(count));
    }
}

fn sum_eligible_files(plans: &Vec<FragmentTakePlan>) -> (result: usize)
    requires
        eligible_files(plan_views(plans@)) <= usize::MAX,
    ensures
        result == eligible_files(plan_views(plans@)),
{
    let ghost views = plan_views(plans@);
    let mut sum: usize = 0;
    let mut i: usize = 0;
    assert(views.take(0) =~= Seq::<FragmentPlan>::empty());
    while i < plans.len()
        invariant
            views == plan_views(plans@),
            eligible_files(views) <= usize::MAX,
            i <= plans@.len(),
            sum == eligible_files(views.take(i as int)),
        decreases plans@.len() - i,
    {
        proof {
            assert(views.take(i + 1).drop_last() =~= views.take(i as int));
            eligible_files_grow(views, i + 1);
        }
        if let FragmentReaderCacheEligibility::Eligible { files } = plans[i].reader_cache_eligibility {
            sum += files;
        }
        i += 1;
    }
    assert(views.take(i as int) =~= views);
    sum
}

fn are_all_shared(plans: &Vec<FragmentTakePlan>) -> (result: bool)
    ensures
        result == all_shared(plan_views(plans@)),
{
    let mut i: usize = 0;
    while i < plans.len()
        invariant
            i <= plans@.len(),
            forall|j: int|
                0 <= j < i ==> (#[trigger] plan_views(plans@)[j]).shared
                    == FragmentSharedSchedulerEligibility::Eligible,
        decreases plans@.len() - i,
    {
        if plans[i].shared_scheduler_eligibility != FragmentSharedSchedulerEligibility::Eligible {
            assert(plan_views(plans@)[i as int].shared
                != FragmentSharedSchedulerEligibility::Eligible);
            return false;
        }
        i += 1;
    }
    true
}

fn are_all_cached(plans: &Vec<FragmentTakePlan>) -> (result: bool)
    ensures
        result == all_cached(plan_views(plans@)),
{
    let mut i: usize = 0;
    while i < plans.len()
        invariant
            i <= plans@.len(),
            forall|j: int| 0 <= j < i ==> (#[trigger] plan_views(plans@)[j]).cache is Eligible,
        decreases plans@.len() - i,
    {
        let eligible = match plans[i].reader_cache_eligibility {
            FragmentReaderCacheEligibility::Eligible { .. } => true,
            _ => false,
        };
        if !eligible {
            assert(!(plan_views(plans@)[i as int].cache is Eligible));
            return false;
        }
        i += 1;
    }
    true
}

fn find_answers(fragments: &[FragmentAnswers], id: u32) -> (result: Option<FragmentAnswers>)
    ensures
        result == answers_of(fragments@, id),
        result is Some <==> fragment_ids(fragments@).contains(id),
{
    let mut found: Option<FragmentAnswers> = None;
    let mut i: usize = 0;
    assert(fragments@.take(0) =~= Seq::<FragmentAnswers>::empty());
    while i < fragments.len()
        invariant
            i <= fragments@.len(),
            found == answers_of(fragments@.take(i as int), id),
            found is Some <==> exists|j: int| 0 <= j < i && (#[trigger] fragments@[j]).id == id,
        decreases fragments@.len() - i,
    {
        assert(fragments@.take(i + 1).drop_last() =~= fragments@.take(i as int));
        if found.is_none() && fragments[i].id == id {
            found = Some(fragments[i]);
        }
        i += 1;
    }
    proof {
        assert(fragments@.take(i as int) =~= fragments@);
        let ids = fragment_ids(fragments@);
        if ids.contains(id) {
            let j = choose|j: int| 0 <= j < ids.len() && ids[j] == id;
            assert(fragments@[j].id == id);
        }
        if found is Some {
            let j = choose|j: int| 0 <= j < i && (#[trigger] fragments@[j]).id == id;
            assert(ids[j] == id);
        }
    }
    found
}

/// The first group of a list whose fragment is missing starts with the first
/// address whose fragment is missing.
proof fn missing_group_has_missing_address(
    groups: Seq<Group>,
    addresses: Seq<u64>,
    fragments: Seq<u32>,
    position: int,
)
    requires
        divides_by_fragment(groups, addresses),
        0 <= position < groups.len(),
        forall|i: int| 0 <= i < position ==> fragments.contains((#[trigger] groups[i]).fragment),
        !fragments.contains(groups[position].fragment),
    ensures
        groups[position].offsets.len() > 0,
        first_missing(addresses, fragments) == Some(groups[position].addresses()[0]),
{
    let parts = groups.map_values(|group: Group| group.addresses());
    joined_holds_part(parts, position, groups.len());
    let start = joined(parts, position as nat).len() as int;
    let end = joined(parts, (position + 1) as nat).len() as int;
    assert(groups[position].offsets.len() > 0);
    assert(addresses.subrange(start, end) == parts[position]);
    assert(addresses[start] == parts[position][0]) by {
        assert(addresses.subrange(start, end)[0] == addresses[start]);
    }
    assert forall|k: int| 0 <= k < start implies fragments.contains(
        fragment_of(#[trigger] addresses[k]),
    ) by {
        let g = group_of_row(groups, addresses, position as nat, k);
        assert(fragments.contains(groups[g].fragment));
    }
    first_missing_at(addresses, fragments, start);
}

/// The group in which a row of the first groups lies.
proof fn group_of_row(groups: Seq<Group>, addresses: Seq<u64>, count: nat, row: int) -> (result:
    int)
    requires
        divides_by_fragment(groups, addresses),
        count <= groups.len(),
        0 <= row < joined(groups.map_values(|group: Group| group.addresses()), count).len(),
    ensures
        0 <= result < count,
        fragment_of(addresses[row]) == groups[result].fragment,
{
    let parts = groups.map_values(|group: Group| group.addresses());
    let g = group_at(parts, count, row);
    joined_holds_part(parts, g, groups.len());
    let from = joined(parts, g as nat).len() as int;
    let to = joined(parts, (g + 1) as nat).len() as int;
    assert(addresses.subrange(from, to)[row - from] == addresses[row]);
    assert(parts[g][row - from] == address_of(groups[g].fragment, groups[g].offsets[row - from]));
    g
}

/// The part in which a position of the joined parts lies.
proof fn group_at(parts: Seq<Seq<u64>>, count: nat, position: int) -> (result: int)
    requires
        count <= parts.len(),
        0 <= position < joined(parts, count).len(),
    ensures
        0 <= result < count,
        joined(parts, result as nat).len() <= position < joined(
            parts,
            (result + 1) as nat,
        ).len(),
    decreases count,
{
    let last = (count - 1) as nat;
    if position < joined(parts, last).len() {
        group_at(parts, last, position)
    } else {
        last as int
    }
}

proof fn first_missing_at(addresses: Seq<u64>, fragments: Seq<u32>, position: int)
    requires
        0 <= position < addresses.len(),
        forall|k: int|
            0 <= k < position ==> fragments.contains(fragment_of(#[trigger] addresses[k])),
        !fragments.contains(fragment_of(addresses[position])),
    ensures
        first_missing(addresses, fragments) == Some(addresses[position]),
    decreases addresses.len(),
{
    let shorter = addresses.drop_last();
    if position < addresses.len() - 1 {
        assert forall|k: int| 0 <= k < position implies fragments.contains(
            fragment_of(#[trigger] shorter[k]),
        ) by {
            assert(shorter[k] == addresses[k]);
        }
        first_missing_at(shorter, fragments, position);
    } else {
        none_missing(shorter, fragments);
    }
}

proof fn none_missing(addresses: Seq<u64>, fragments: Seq<u32>)
    requires
        forall|k: int|
            0 <= k < addresses.len() ==> fragments.contains(fragment_of(#[trigger] addresses[k])),
    ensures
        first_missing(addresses, fragments) is None,
    decreases addresses.len(),
{
    if addresses.len() > 0 {
        let shorter = addresses.drop_last();
        assert forall|k: int| 0 <= k < shorter.len() implies fragments.contains(
            fragment_of(#[trigger] shorter[k]),
        ) by {
            assert(shorter[k] == addresses[k]);
        }
        none_missing(shorter, fragments);
        assert(addresses[addresses.len() - 1] == addresses.last());
    }
}

proof fn known_groups_have_known_addresses(
    groups: Seq<Group>,
    addresses: Seq<u64>,
    fragments: Seq<u32>,
)
    requires
        divides_by_fragment(groups, addresses),
        forall|i: int| 0 <= i < groups.len() ==> fragments.contains((#[trigger] groups[i]).fragment),
    ensures
        first_missing(addresses, fragments) is None,
{
    assert forall|k: int| 0 <= k < addresses.len() implies fragments.contains(
        fragment_of(#[trigger] addresses[k]),
    ) by {
        let g = group_of_row(groups, addresses, groups.len(), k);
        assert(fragments.contains(groups[g].fragment));
    }
    none_missing(addresses, fragments);
}

/// A take that is not read in groups.
pub open spec fn declines_groups(request: TakeRequest) -> bool {
    ||| request.row_ids is Some
    ||| request.with_row_address
    ||| request.row_addrs is None
    ||| (request.row_addrs->0).len() == 0
    ||| !addresses_sorted(request.row_addrs->0)
}

/// The plans follow the groups of a request.
pub open spec fn plans_groups(
    plans: Seq<FragmentPlan>,
    groups: Seq<Group>,
    fragments: Seq<FragmentAnswers>,
    shared_scheduler_enabled: bool,
    reader_cache_enabled: bool,
) -> bool {
    &&& plans.len() == groups.len()
    &&& forall|i: int|
        0 <= i < plans.len() ==> #[trigger] plans[i] == fragment_plan(
            groups[i],
            i,
            fragments,
            shared_scheduler_enabled,
            reader_cache_enabled,
        )
}

/// Files of a fragment that can be read through cached readers.
pub open spec fn cached_files(fragments: Seq<FragmentAnswers>, id: u32) -> nat {
    match answers_of(fragments, id) {
        Some(answers) => match answers.reader_cache {
            Some(FragmentReaderCacheEligibility::Eligible { files }) => files as nat,
            _ => 0,
        },
        None => 0,
    }
}

/// Files of the fragments of some groups that can be read through cached
/// readers.
pub open spec fn group_files(groups: Seq<Group>, fragments: Seq<FragmentAnswers>) -> nat
    decreases groups.len(),
{
    if groups.len() == 0 {
        0
    } else {
        group_files(groups.drop_last(), fragments) + cached_files(
            fragments,
            groups.last().fragment,
        )
    }
}

/// The files of all fragments of a take can be counted.
pub open spec fn files_fit(fragments: Seq<FragmentAnswers>, addresses: Seq<u64>) -> bool {
    forall|groups: Seq<Group>| #[trigger]
        divides_by_fragment(groups, addresses) ==> group_files(groups, fragments) <= usize::MAX
}

impl TakeBuilder {
    /// What planning a grouped read comes to: nothing where the take is not read
    /// in groups, the trouble of the first row whose fragment is missing, or a
    /// plan with one group for each run of rows of one fragment.
    pub open spec fn plans_grouped_read(
        self,
        fragments: Seq<FragmentAnswers>,
        shared_scheduler_enabled: bool,
        reader_cache_enabled: bool,
        max_eligible_files: usize,
        result: DatabaseResult<Option<GroupedReadPlan>>,
    ) -> bool {
        match result {
            Ok(None) => declines_groups(self@),
            Ok(Some(plan)) => {
                let addresses = self@.row_addrs->0;
                let groups = plan@.groups();
                &&& !declines_groups(self@)
                &&& first_missing(addresses, fragment_ids(fragments)) is None
                &&& divides_by_fragment(groups, addresses)
                &&& plans_groups(
                    plan@.plans,
                    groups,
                    fragments,
                    shared_scheduler_enabled,
                    reader_cache_enabled,
                )
                &&& plan@.shared_scheduler_enabled == shared_scheduler_enabled
                &&& plan@.reader_cache_enabled == reader_cache_enabled
                &&& plan@.max_eligible_files == max_eligible_files
                &&& plan.wf()
            },
            Err(error) => {
                let missing = first_missing(self@.row_addrs->0, fragment_ids(fragments));
                &&& !declines_groups(self@)
                &&& missing is Some
                &&& error@ == missing_row(missing->0)
            },
        }
    }

    /// Plans a read of one batch for each fragment. `None` means that the take
    /// needs identifiers resolved, rows reordered, addresses added, or the schema
    /// of an empty result.
    pub fn read_sorted_physical_by_fragment_with_options(
        &self,
        fragments: &[FragmentAnswers],
        shared_scheduler_enabled: bool,
        reader_cache_enabled: bool,
        max_eligible_files: usize,
    ) -> (result: DatabaseResult<Option<GroupedReadPlan>>)
        requires
            reader_cache_enabled && !declines_groups(self@) ==> files_fit(
                fragments@,
                self@.row_addrs->0,
            ),
        ensures
            self.plans_grouped_read(
                fragments@,
                shared_scheduler_enabled,
                reader_cache_enabled,
                max_eligible_files,
                result,
            ),
    {
        let row_addrs = match self.grouped_read_addresses() {
            Some(row_addrs) => row_addrs,
            None => {
                return Ok(None);
            },
        };
        let groups = group_by_fragment(row_addrs.as_slice());
        let ghost group_list = group_views(groups@);
        let mut plans: Vec<FragmentTakePlan> = Vec::new();
        let mut i: usize = 0;
        while i < groups.len()
            invariant
                i <= groups@.len(),
                group_list == group_views(groups@),
                divides_by_fragment(group_list, row_addrs@),
                self@.row_addrs == Some(row_addrs@),
                !declines_groups(self@),
                forall|j: int|
                    0 <= j < i ==> fragment_ids(fragments@).contains(
                        (#[trigger] group_list[j]).fragment,
                    ),
                plans@.len() == i,
                forall|j: int|
                    0 <= j < i ==> (#[trigger] plans@[j])@ == fragment_plan(
                        group_list[j],
                        j,
                        fragments@,
                        shared_scheduler_enabled,
                        reader_cache_enabled,
                    ),
            decreases groups@.len() - i,
        {
            let group = &groups[i];
            let answers = match find_answers(fragments, group.fragment_id) {
                Some(answers) => answers,
                None => {
                    proof {
                        missing_group_has_missing_address(
                            group_list,
                            row_addrs@,
                            fragment_ids(fragments@),
                            i as int,
                        );
                    }
                    let address: u64 = new_from_parts(
                        group.fragment_id,
                        group.row_offsets[0],
                    );
                    return Err(
                        DatabaseError::InvalidInput(
                            text_two_numbers(
                                "rowaddr ",
                                address,
                                " belongs to non-existent fragment: ",
                                group.fragment_id as u64,
                            ),
                        ),
                    );
                },
            };
            let countable = i as u64 <= u32::MAX as u64;
            let reader_priority: u32 = if countable {
                i as u32
            } else {
                u32::MAX
            };
            let shared_scheduler_eligibility = if !shared_scheduler_enabled {
                FragmentSharedSchedulerEligibility::Eligible
            } else if !countable {
                FragmentSharedSchedulerEligibility::Unsupported
            } else {
                match answers.shared_scheduler {
                    Some(eligibility) => eligibility,
                    None => FragmentSharedSchedulerEligibility::Unsupported,
                }
            };
            let reader_cache_eligibility = if !reader_cache_enabled {
                FragmentReaderCacheEligibility::Eligible { files: 0 }
            } else {
                match answers.reader_cache {
                    Some(eligibility) => eligibility,
                    None => FragmentReaderCacheEligibility::Unsupported,
                }
            };
            plans.push(
                FragmentTakePlan {
                    group: group.clone(),
                    reader_priority,
                    shared_scheduler_eligibility,
                    reader_cache_eligibility,
                },
            );
            i += 1;
        }
        proof {
            known_groups_have_known_addresses(group_list, row_addrs@, fragment_ids(fragments@));
            let views = plan_views(plans@);
            assert(views.map_values(|plan: FragmentPlan| plan.group) =~= group_list);
            assert forall|j: int| 0 <= j < views.len() implies #[trigger] views[j] == fragment_plan(
                group_list[j],
                j,
                fragments@,
                shared_scheduler_enabled,
                reader_cache_enabled,
            ) by {
                assert(plans@[j]@ == views[j]);
            }
            plans_have_group_files(
                views,
                group_list,
                fragments@,
                shared_scheduler_enabled,
                reader_cache_enabled,
            );
        }
        Ok(
            Some(
                Self::decide_read(
                    plans,
                    shared_scheduler_enabled,
                    reader_cache_enabled,
                    max_eligible_files,
                ),
            ),
        )
    }

    /// Decides for the whole query whether it shares a scheduler and whether it
    /// uses cached readers.
    fn decide_read(
        plans: Vec<FragmentTakePlan>,
        shared_scheduler_enabled: bool,
        reader_cache_enabled: bool,
        max_eligible_files: usize,
    ) -> (result: GroupedReadPlan)
        requires
            eligible_files(plan_views(plans@)) <= usize::MAX,
        ensures
            result.wf(),
            result.plans == plans,
            result.shared_scheduler_enabled == shared_scheduler_enabled,
            result.reader_cache_enabled == reader_cache_enabled,
            result.max_eligible_files == max_eligible_files,
    {
        let all_cached = are_all_cached(&plans);
        let eligible_files: usize = sum_eligible_files(&plans);
        let use_shared_scheduler = shared_scheduler_enabled && are_all_shared(&plans);
        let use_reader_cache = reader_cache_enabled && all_cached && eligible_files > 0
            && eligible_files <= max_eligible_files;
        let shared_legacy: usize = tally_shared(&plans, FragmentSharedSchedulerEligibility::Legacy);
        let shared_nonprimary: usize = tally_shared(
            &plans,
            FragmentSharedSchedulerEligibility::NonPrimaryBase,
        );
        let shared_unsupported: usize = tally_shared(
            &plans,
            FragmentSharedSchedulerEligibility::Unsupported,
        );
        let cache_legacy: usize = tally_cache(&plans, FragmentReaderCacheEligibility::Legacy);
        let cache_nonprimary: usize = tally_cache(
            &plans,
            FragmentReaderCacheEligibility::NonPrimaryBase,
        );
        let cache_nonlocal: usize = tally_cache(
            &plans,
            FragmentReaderCacheEligibility::NonLocalStore,
        );
        let cache_unknown_size: usize = tally_cache(
            &plans,
            FragmentReaderCacheEligibility::UnknownSize,
        );
        let cache_small_file: usize = tally_cache(&plans, FragmentReaderCacheEligibility::SmallFile);
        let cache_unsupported: usize = tally_cache(
            &plans,
            FragmentReaderCacheEligibility::Unsupported,
        );
        GroupedReadPlan {
            plans,
            shared_scheduler_enabled,
            reader_cache_enabled,
            max_eligible_files,
            use_shared_scheduler,
            use_reader_cache,
            eligible_files,
            all_cached,
            shared_legacy,
            shared_nonprimary,
            shared_unsupported,
            cache_legacy,
            cache_nonprimary,
            cache_nonlocal,
            cache_unknown_size,
            cache_small_file,
            cache_unsupported,
        }
    }
}

/// Known fragments have answers.
proof fn known_fragments_answer(fragments: Seq<FragmentAnswers>, id: u32)
    requires
        fragment_ids(fragments).contains(id),
    ensures
        answers_of(fragments, id) is Some,
    decreases fragments.len(),
{
    let ids = fragment_ids(fragments);
    let i = choose|i: int| 0 <= i < ids.len() && ids[i] == id;
    if i < fragments.len() - 1 {
        let shorter = fragments.drop_last();
        assert(fragment_ids(shorter)[i] == id);
        known_fragments_answer(shorter, id);
    }
}

proof fn plans_have_group_files(
    plans: Seq<FragmentPlan>,
    groups: Seq<Group>,
    fragments: Seq<FragmentAnswers>,
    shared_scheduler_enabled: bool,
    reader_cache_enabled: bool,
)
    requires
        plans_groups(plans, groups, fragments, shared_scheduler_enabled, reader_cache_enabled),
        forall|i: int|
            0 <= i < groups.len() ==> fragment_ids(fragments).contains(
                (#[trigger] groups[i]).fragment,
            ),
    ensures
        eligible_files(plans) == if reader_cache_enabled {
            group_files(groups, fragments)
        } else {
            0
        },
    decreases plans.len(),
{
    if plans.len() > 0 {
        let last = plans.len() - 1;
        let fewer_plans = plans.drop_last();
        let fewer_groups = groups.drop_last();
        assert forall|i: int| 0 <= i < fewer_groups.len() implies fragment_ids(fragments).contains(
            (#[trigger] fewer_groups[i]).fragment,
        ) by {
            assert(fewer_groups[i] == groups[i]);
        }
        assert forall|i: int| 0 <= i < fewer_plans.len() implies #[trigger] fewer_plans[i]
            == fragment_plan(
            fewer_groups[i],
            i,
            fragments,
            shared_scheduler_enabled,
            reader_cache_enabled,
        ) by {
            assert(fewer_plans[i] == plans[i]);
        }
        plans_have_group_files(
            fewer_plans,
            fewer_groups,
            fragments,
            shared_scheduler_enabled,
            reader_cache_enabled,
        );
        assert(plans[last] == fragment_plan(
            groups[last],
            last,
            fragments,
            shared_scheduler_enabled,
            reader_cache_enabled,
        ));
        assert(fragment_ids(fragments).contains(groups[last].fragment));
        known_fragments_answer(fragments, groups[last].fragment);
    }
}

/// There are no more groups than addresses.
proof fn groups_are_few(groups: Seq<Group>, addresses: Seq<u64>)
    requires
        divides_by_fragment(groups, addresses),
    ensures
        groups.len() <= addresses.len(),
{
    let parts = groups.map_values(|group: Group| group.addresses());
    parts_are_few(parts, groups, groups.len());
}

proof fn parts_are_few(parts: Seq<Seq<u64>>, groups: Seq<Group>, count: nat)
    requires
        parts == groups.map_values(|group: Group| group.addresses()),
        count <= groups.len(),
        forall|i: int| 0 <= i < groups.len() ==> (#[trigger] groups[i]).offsets.len() > 0,
    ensures
        count <= joined(parts, count).len(),
    decreases count,
{
    if count > 0 {
        parts_are_few(parts, groups, (count - 1) as nat);
        assert(groups[count - 1].offsets.len() > 0);
    }
}

/// The files of a take can be counted where no fragment has more than its share
/// of what can be counted.
pub proof fn few_files_fit(fragments: Seq<FragmentAnswers>, addresses: Seq<u64>)
    requires
        forall|id: u32| addresses.len() * #[trigger] cached_files(fragments, id) <= usize::MAX,
    ensures
        files_fit(fragments, addresses),
{
    assert forall|groups: Seq<Group>| #[trigger]
        divides_by_fragment(groups, addresses) implies group_files(groups, fragments)
        <= usize::MAX by {
        groups_are_few(groups, addresses);
        if addresses.len() > 0 {
            let rows = addresses.len() as int;
            let count = groups.len() as int;
            let all = group_files(groups, fragments) as int;
            files_are_bounded(fragments, groups, addresses.len());
            assert(all <= usize::MAX) by (nonlinear_arith)
                requires
                    rows * all <= count * usize::MAX,
                    count <= rows,
                    rows > 0,
                    all >= 0,
            ;
        }
    }
}

proof fn files_are_bounded(fragments: Seq<FragmentAnswers>, groups: Seq<Group>, rows: nat)
    requires
        forall|id: u32| rows * #[trigger] cached_files(fragments, id) <= usize::MAX,
    ensures
        rows * group_files(groups, fragments) <= groups.len() * usize::MAX,
    decreases groups.len(),
{
    if groups.len() == 0 {
        assert(rows * 0 == 0);
    } else {
        files_are_bounded(fragments, groups.drop_last(), rows);
        let earlier = group_files(groups.drop_last(), fragments) as int;
        let own = cached_files(fragments, groups.last().fragment) as int;
        let count = groups.len() as int;
        assert(rows * own <= usize::MAX);
        assert(rows * (earlier + own) <= count * usize::MAX) by (nonlinear_arith)
            requires
                rows * earlier <= (count - 1) * usize::MAX,
                rows * own <= usize::MAX,
        ;
    }
}

/// What came of reading one fragment.
#[derive(Clone, Copy, Debug)]
pub struct FragmentOutcome {
    pub open_nanos: u64,
    pub read_nanos: u64,
    pub total_elapsed_nanos: u64,
    pub rows: usize,
    pub bytes: usize,
}

/// Times of a grouped read that are measured once.
#[derive(Clone, Copy, Debug)]
pub struct ReadTimings {
    pub parent_wall_nanos: u64,
    pub plan_nanos: u64,
    pub grouping_nanos: u64,
    pub scheduler_create_wall_nanos: u64,
    pub fanout_collect_wall_nanos: u64,
    pub row_offset_injection_wall_nanos: u64,
}

/// What a shared scheduler counted.
#[derive(Clone, Copy, Debug)]
pub struct SchedulerCounters {
    pub iops: u64,
    pub requests: u64,
    pub bytes_read: u64,
}

/// Profile for one successful grouped physical read.
#[derive(Clone, Copy, Debug, PartialEq, Eq, Structural)]
pub struct GroupedPhysicalReadStats {
    /// Time of the complete read.
    pub parent_wall_nanos: u64,
    /// Time spent on the request.
    pub plan_nanos: u64,
    /// Time spent on grouping.
    pub grouping_nanos: u64,
    /// Time spent on the shared scheduler.
    pub scheduler_create_wall_nanos: u64,
    /// Time of all fragment opens together.
    pub fragment_open_aggregate_nanos: u64,
    /// Time of the longest fragment open.
    pub fragment_open_max_nanos: u64,
    /// Time of all fragment reads together.
    pub fragment_read_aggregate_nanos: u64,
    /// Time of the longest fragment read.
    pub fragment_read_max_nanos: u64,
    /// Time of all fragments together.
    pub fragment_total_elapsed_aggregate_nanos: u64,
    /// Time of the longest fragment.
    pub fragment_total_elapsed_max_nanos: u64,
    /// Time until all fragments were read.
    pub fanout_collect_wall_nanos: u64,
    /// Fragments read at one time.
    pub fanout_concurrency_limit: usize,
    /// Time spent adding row offsets.
    pub row_offset_injection_wall_nanos: u64,
    /// Fragments read.
    pub fragments: usize,
    /// Rows read.
    pub rows: usize,
    /// Bytes of the rows read.
    pub batch_bytes: usize,
    /// Fewest rows of a fragment.
    pub rows_per_fragment_min: usize,
    /// Most rows of a fragment.
    pub rows_per_fragment_max: usize,
    /// Physical reads of the shared scheduler.
    pub scheduler_scoped_iops: u64,
    /// Requests to the shared scheduler.
    pub scheduler_scoped_requests: u64,
    /// Bytes read through the shared scheduler.
    pub scheduler_scoped_bytes_read: u64,
    /// Fragments that the shared scheduler counted.
    pub scheduler_stats_covered_fragments: usize,
    /// Queries with a shared scheduler.
    pub shared_scheduler_queries: usize,
    /// Fragments read through a shared scheduler.
    pub shared_scheduler_fragments: usize,
    /// Queries with a scheduler for each fragment.
    pub per_fragment_scheduler_queries: usize,
    /// Fragments with a scheduler of their own.
    pub per_fragment_scheduler_fragments: usize,
    /// Queries that asked for a shared scheduler in vain.
    pub shared_scheduler_fallback_queries: usize,
    /// Fragments of a legacy format.
    pub shared_scheduler_fallback_legacy_fragments: usize,
    /// Fragments outside the primary base.
    pub shared_scheduler_fallback_nonprimary_fragments: usize,
    /// Fragments that cannot share a scheduler.
    pub shared_scheduler_fallback_unsupported_fragments: usize,
    /// Queries that used the reader cache.
    pub reader_cache_queries: usize,
    /// Files eligible for the reader cache.
    pub reader_cache_eligible_files: u64,
    /// Files looked up in the reader cache.
    pub reader_cache_lookup_files: u64,
    /// Files found in the reader cache.
    pub reader_cache_hit_files: u64,
    /// Files opened for the reader cache.
    pub reader_cache_miss_open_files: u64,
    /// Files that another query was opening.
    pub reader_cache_coalesced_files: u64,
    /// Files read without the reader cache.
    pub reader_cache_bypass_files: u64,
    /// Files opened in the ordinary way.
    pub reader_cache_fallback_open_files: u64,
    /// Opens that failed.
    pub reader_cache_open_failures: u64,
    /// Cached readers before the query.
    pub reader_cache_resident_entries_start_approx: u64,
    /// Cached readers after the query.
    pub reader_cache_resident_entries_end_approx: u64,
    /// Capacity of the reader cache.
    pub reader_cache_capacity: u64,
    /// Limit of open file descriptors.
    pub reader_cache_fd_soft_limit: u64,
    /// Time of lookups.
    pub reader_cache_lookup_nanos: u64,
    /// Time spent waiting for permits.
    pub reader_cache_acquire_nanos: u64,
    /// Time of physical opens.
    pub reader_cache_physical_open_nanos: u64,
    /// Time spent binding readers.
    pub reader_cache_bind_nanos: u64,
    /// Queries that asked for the reader cache in vain.
    pub reader_cache_fallback_queries: usize,
    /// Fragments of a legacy format.
    pub reader_cache_fallback_legacy_fragments: usize,
    /// Fragments outside the primary base.
    pub reader_cache_fallback_nonprimary_fragments: usize,
    /// Fragments in a store that is not local.
    pub reader_cache_fallback_nonlocal_fragments: usize,
    /// Fragments of unknown size.
    pub reader_cache_fallback_unknown_size_fragments: usize,
    /// Fragments too small to be cached.
    pub reader_cache_fallback_small_file_fragments: usize,
    /// Fragments that cannot be cached.
    pub reader_cache_fallback_unsupported_fragments: usize,
    /// Queries with more files than the reader cache admits.
    pub reader_cache_fallback_capacity_queries: usize,
}

/// A sum of a measure that stops at the largest 64-bit number.
pub open spec fn saturated_sum(
    outcomes: Seq<FragmentOutcome>,
    measure: spec_fn(FragmentOutcome) -> u64,
) -> u64
    decreases outcomes.len(),
{
    if outcomes.len() == 0 {
        0
    } else {
        capped(
            saturated_sum(outcomes.drop_last(), measure) as nat + measure(outcomes.last()) as nat,
        )
    }
}

/// The largest value of a measure, or zero.
pub open spec fn largest(
    outcomes: Seq<FragmentOutcome>,
    measure: spec_fn(FragmentOutcome) -> u64,
) -> u64
    decreases outcomes.len(),
{
    if outcomes.len() == 0 {
        0
    } else {
        let earlier = largest(outcomes.drop_last(), measure);
        if measure(outcomes.last()) > earlier {
            measure(outcomes.last())
        } else {
            earlier
        }
    }
}

/// All rows that were read.
pub open spec fn row_sum(outcomes: Seq<FragmentOutcome>) -> nat
    decreases outcomes.len(),
{
    if outcomes.len() == 0 {
        0
    } else {
        row_sum(outcomes.drop_last()) + outcomes.last().rows as nat
    }
}

/// All bytes that were read.
pub open spec fn byte_sum(outcomes: Seq<FragmentOutcome>) -> nat
    decreases outcomes.len(),
{
    if outcomes.len() == 0 {
        0
    } else {
        byte_sum(outcomes.drop_last()) + outcomes.last().bytes as nat
    }
}

/// Most rows of a fragment, or zero.
pub open spec fn most_rows(outcomes: Seq<FragmentOutcome>) -> usize
    decreases outcomes.len(),
{
    if outcomes.len() == 0 {
        0
    } else {
        let earlier = most_rows(outcomes.drop_last());
        if outcomes.last().rows > earlier {
            outcomes.last().rows
        } else {
            earlier
        }
    }
}

/// Fewest rows of a fragment, or zero where there is none.
pub open spec fn fewest_rows(outcomes: Seq<FragmentOutcome>) -> usize
    decreases outcomes.len(),
{
    if outcomes.len() == 0 {
        0
    } else if outcomes.len() == 1 {
        outcomes.last().rows
    } else {
        let earlier = fewest_rows(outcomes.drop_last());
        if outcomes.last().rows < earlier {
            outcomes.last().rows
        } else {
            earlier
        }
    }
}

/// The smaller of a count and a limit.
pub open spec fn smaller_count(count: nat, limit: nat) -> usize {
    if count < limit {
        count as usize
    } else {
        limit as usize
    }
}

/// One where something holds, else zero.
pub open spec fn one_if(holds: bool) -> usize {
    if holds {
        1
    } else {
        0
    }
}

/// A counter of the reader cache, or zero where it was not used.
pub open spec fn cache_counter(used: bool, counter: u64) -> u64 {
    if used {
        counter
    } else {
        0
    }
}

/// The profile of a grouped read.
pub open spec fn grouped_stats(
    plan: ReadPlan,
    outcomes: Seq<FragmentOutcome>,
    timings: ReadTimings,
    scheduler: SchedulerCounters,
    snapshot: ReaderCacheQueryStatsSnapshot,
    io_parallelism: usize,
    must_add_row_offset: bool,
) -> GroupedPhysicalReadStats {
    GroupedPhysicalReadStats {
        parent_wall_nanos: timings.parent_wall_nanos,
        plan_nanos: timings.plan_nanos,
        grouping_nanos: timings.grouping_nanos,
        scheduler_create_wall_nanos: if plan.use_shared_scheduler {
            timings.scheduler_create_wall_nanos
        } else {
            0
        },
        fragment_open_aggregate_nanos: saturated_sum(
            outcomes,
            |outcome: FragmentOutcome| outcome.open_nanos,
        ),
        fragment_open_max_nanos: largest(outcomes, |outcome: FragmentOutcome| outcome.open_nanos),
        fragment_read_aggregate_nanos: saturated_sum(
            outcomes,
            |outcome: FragmentOutcome| outcome.read_nanos,
        ),
        fragment_read_max_nanos: largest(outcomes, |outcome: FragmentOutcome| outcome.read_nanos),
        fragment_total_elapsed_aggregate_nanos: saturated_sum(
            outcomes,
            |outcome: FragmentOutcome| outcome.total_elapsed_nanos,
        ),
        fragment_total_elapsed_max_nanos: largest(
            outcomes,
            |outcome: FragmentOutcome| outcome.total_elapsed_nanos,
        ),
        fanout_collect_wall_nanos: timings.fanout_collect_wall_nanos,
        fanout_concurrency_limit: smaller_count(outcomes.len(), io_parallelism as nat),
        row_offset_injection_wall_nanos: if must_add_row_offset {
            timings.row_offset_injection_wall_nanos
        } else {
            0
        },
        fragments: outcomes.len() as usize,
        rows: row_sum(outcomes) as usize,
        batch_bytes: byte_sum(outcomes) as usize,
        rows_per_fragment_min: fewest_rows(outcomes),
        rows_per_fragment_max: most_rows(outcomes),
        scheduler_scoped_iops: if plan.use_shared_scheduler { scheduler.iops } else { 0 },
        scheduler_scoped_requests: if plan.use_shared_scheduler { scheduler.requests } else { 0 },
        scheduler_scoped_bytes_read: if plan.use_shared_scheduler {
            scheduler.bytes_read
        } else {
            0
        },
        scheduler_stats_covered_fragments: if plan.use_shared_scheduler {
            outcomes.len() as usize
        } else {
            0
        },
        shared_scheduler_queries: one_if(plan.use_shared_scheduler),
        shared_scheduler_fragments: if plan.use_shared_scheduler {
            outcomes.len() as usize
        } else {
            0
        },
        per_fragment_scheduler_queries: one_if(!plan.use_shared_scheduler),
        per_fragment_scheduler_fragments: if plan.use_shared_scheduler {
            0
        } else {
            outcomes.len() as usize
        },
        shared_scheduler_fallback_queries: one_if(
            plan.shared_scheduler_enabled && !plan.use_shared_scheduler,
        ),
        shared_scheduler_fallback_legacy_fragments: count_shared(
            plan.plans,
            FragmentSharedSchedulerEligibility::Legacy,
        ) as usize,
        shared_scheduler_fallback_nonprimary_fragments: count_shared(
            plan.plans,
            FragmentSharedSchedulerEligibility::NonPrimaryBase,
        ) as usize,
        shared_scheduler_fallback_unsupported_fragments: count_shared(
            plan.plans,
            FragmentSharedSchedulerEligibility::Unsupported,
        ) as usize,
        reader_cache_queries: one_if(plan.use_reader_cache),
        reader_cache_eligible_files: cache_counter(
            plan.use_reader_cache,
            snapshot.counters.eligible_files,
        ),
        reader_cache_lookup_files: cache_counter(
            plan.use_reader_cache,
            snapshot.counters.lookup_files,
        ),
        reader_cache_hit_files: cache_counter(plan.use_reader_cache, snapshot.counters.hit_files),
        reader_cache_miss_open_files: cache_counter(
            plan.use_reader_cache,
            snapshot.counters.miss_open_files,
        ),
        reader_cache_coalesced_files: cache_counter(
            plan.use_reader_cache,
            snapshot.counters.coalesced_files,
        ),
        reader_cache_bypass_files: cache_counter(
            plan.use_reader_cache,
            snapshot.counters.bypass_files,
        ),
        reader_cache_fallback_open_files: cache_counter(
            plan.use_reader_cache,
            snapshot.counters.fallback_open_files,
        ),
        reader_cache_open_failures: cache_counter(
            plan.use_reader_cache,
            snapshot.counters.open_failures,
        ),
        reader_cache_resident_entries_start_approx: cache_counter(
            plan.use_reader_cache,
            snapshot.counters.resident_entries_start_approx,
        ),
        reader_cache_resident_entries_end_approx: cache_counter(
            plan.use_reader_cache,
            snapshot.resident_entries_end_approx,
        ),
        reader_cache_capacity: cache_counter(plan.use_reader_cache, snapshot.counters.capacity),
        reader_cache_fd_soft_limit: cache_counter(
            plan.use_reader_cache,
            snapshot.counters.fd_soft_limit,
        ),
        reader_cache_lookup_nanos: cache_counter(
            plan.use_reader_cache,
            snapshot.counters.lookup_nanos,
        ),
        reader_cache_acquire_nanos: cache_counter(
            plan.use_reader_cache,
            snapshot.counters.acquire_nanos,
        ),
        reader_cache_physical_open_nanos: cache_counter(
            plan.use_reader_cache,
            snapshot.counters.physical_open_nanos,
        ),
        reader_cache_bind_nanos: cache_counter(plan.use_reader_cache, snapshot.counters.bind_nanos),
        reader_cache_fallback_queries: one_if(plan.reader_cache_enabled && !plan.use_reader_cache),
        reader_cache_fallback_legacy_fragments: count_cache(
            plan.plans,
            FragmentReaderCacheEligibility::Legacy,
        ) as usize,
        reader_cache_fallback_nonprimary_fragments: count_cache(
            plan.plans,
            FragmentReaderCacheEligibility::NonPrimaryBase,
        ) as usize,
        reader_cache_fallback_nonlocal_fragments: count_cache(
            plan.plans,
            FragmentReaderCacheEligibility::NonLocalStore,
        ) as usize,
        reader_cache_fallback_unknown_size_fragments: count_cache(
            plan.plans,
            FragmentReaderCacheEligibility::UnknownSize,
        ) as usize,
        reader_cache_fallback_small_file_fragments: count_cache(
            plan.plans,
            FragmentReaderCacheEligibility::SmallFile,
        ) as usize,
        reader_cache_fallback_unsupported_fragments: count_cache(
            plan.plans,
            FragmentReaderCacheEligibility::Unsupported,
        ) as usize,
        reader_cache_fallback_capacity_queries: one_if(plan.over_capacity()),
    }
}

fn count_one(holds: bool) -> (result: usize)
    ensures
        result == one_if(holds),
{
    if holds {
        1
    } else {
        0
    }
}

fn keep_if(used: bool, counter: u64) -> (result: u64)
    ensures
        result == cache_counter(used, counter),
{
    if used {
        counter
    } else {
        0
    }
}

/// Measures of all fragments together.
struct Totals {
    open_sum: u64,
    open_max: u64,
    read_sum: u64,
    read_max: u64,
    elapsed_sum: u64,
    elapsed_max: u64,
    rows_min: usize,
    rows_max: usize,
}

impl Totals {
    spec fn of(self, outcomes: Seq<FragmentOutcome>) -> bool {
        &&& self.open_sum == saturated_sum(
            outcomes,
            |outcome: FragmentOutcome| outcome.open_nanos,
        )
        &&& self.open_max == largest(outcomes, |outcome: FragmentOutcome| outcome.open_nanos)
        &&& self.read_sum == saturated_sum(
            outcomes,
            |outcome: FragmentOutcome| outcome.read_nanos,
        )
        &&& self.read_max == largest(outcomes, |outcome: FragmentOutcome| outcome.read_nanos)
        &&& self.elapsed_sum == saturated_sum(
            outcomes,
            |outcome: FragmentOutcome| outcome.total_elapsed_nanos,
        )
        &&& self.elapsed_max == largest(
            outcomes,
            |outcome: FragmentOutcome| outcome.total_elapsed_nanos,
        )
        &&& self.rows_min == fewest_rows(outcomes)
        &&& self.rows_max == most_rows(outcomes)
    }
}

fn total_up(outcomes: &[FragmentOutcome]) -> (result: Totals)
    ensures
        result.of(outcomes@),
{
    let mut totals = Totals {
        open_sum: 0,
        open_max: 0,
        read_sum: 0,
        read_max: 0,
        elapsed_sum: 0,
        elapsed_max: 0,
        rows_min: 0,
        rows_max: 0,
    };
    let mut i: usize = 0;
    assert(outcomes@.take(0) =~= Seq::<FragmentOutcome>::empty());
    while i < outcomes.len()
        invariant
            i <= outcomes@.len(),
            totals.of(outcomes@.take(i as int)),
        decreases outcomes@.len() - i,
    {
        let outcome = outcomes[i];
        assert(outcomes@.take(i + 1).drop_last() =~= outcomes@.take(i as int));
        totals.open_sum = totals.open_sum.saturating_add(outcome.open_nanos);
        totals.read_sum = totals.read_sum.saturating_add(outcome.read_nanos);
        totals.elapsed_sum = totals.elapsed_sum.saturating_add(outcome.total_elapsed_nanos);
        if outcome.open_nanos > totals.open_max {
            totals.open_max = outcome.open_nanos;
        }
        if outcome.read_nanos > totals.read_max {
            totals.read_max = outcome.read_nanos;
        }
        if outcome.total_elapsed_nanos > totals.elapsed_max {
            totals.elapsed_max = outcome.total_elapsed_nanos;
        }
        if i == 0 || outcome.rows < totals.rows_min {
            totals.rows_min = outcome.rows;
        }
        if outcome.rows > totals.rows_max {
            totals.rows_max = outcome.rows;
        }
        i += 1;
    }
    assert(outcomes@.take(i as int) =~= outcomes@);
    totals
}

proof fn sums_grow(outcomes: Seq<FragmentOutcome>, count: int)
    requires
        0 <= count <= outcomes.len(),
    ensures
        row_sum(outcomes.take(count)) <= row_sum(outcomes),
        byte_sum(outcomes.take(count)) <= byte_sum(outcomes),
    decreases outcomes.len() - count,
{
    if count == outcomes.len() {
        assert(outcomes.take(count) =~= outcomes);
    } else {
        sums_grow(outcomes, count + 1);
        assert(outcomes.take(count + 1).drop_last() =~= outcomes.take(count));
    }
}

fn sum_rows_and_bytes(outcomes: &[FragmentOutcome]) -> (result: (usize, usize))
    requires
        row_sum(outcomes@) <= usize::MAX,
        byte_sum(outcomes@) <= usize::MAX,
    ensures
        result.0 == row_sum(outcomes@),
        result.1 == byte_sum(outcomes@),
{
    let mut rows: usize = 0;
    let mut bytes: usize = 0;
    let mut i: usize = 0;
    assert(outcomes@.take(0) =~= Seq::<FragmentOutcome>::empty());
    while i < outcomes.len()
        invariant
            row_sum(outcomes@) <= usize::MAX,
            byte_sum(outcomes@) <= usize::MAX,
            i <= outcomes@.len(),
            rows == row_sum(outcomes@.take(i as int)),
            bytes == byte_sum(outcomes@.take(i as int)),
        decreases outcomes@.len() - i,
    {
        proof {
            assert(outcomes@.take(i + 1).drop_last() =~= outcomes@.take(i as int));
            sums_grow(outcomes@, i + 1);
        }
        rows += outcomes[i].rows;
        bytes += outcomes[i].bytes;
        i += 1;
    }
    assert(outcomes@.take(i as int) =~= outcomes@);
    (rows, bytes)
}

impl TakeBuilder {
    /// Plans a grouped read in which every fragment has a scheduler of its own.
    pub fn read_sorted_physical_by_fragment(&self, fragments: &[FragmentAnswers]) -> (result:
        DatabaseResult<Option<GroupedReadPlan>>)
        ensures
            self.plans_grouped_read(fragments@, false, false, 0, result),
    {
        self.read_sorted_physical_by_fragment_with_options(fragments, false, false, 0)
    }

    /// Plans a grouped read whose fragments may share a scheduler.
    pub fn read_sorted_physical_by_fragment_with_shared_scheduler(
        &self,
        fragments: &[FragmentAnswers],
        shared_scheduler_enabled: bool,
    ) -> (result: DatabaseResult<Option<GroupedReadPlan>>)
        ensures
            self.plans_grouped_read(fragments@, shared_scheduler_enabled, false, 0, result),
    {
        self.read_sorted_physical_by_fragment_with_options(
            fragments,
            shared_scheduler_enabled,
            false,
            0,
        )
    }
}

/// Where the rows of each fragment lie among all rows that were read: how many
/// come before them, and how many there are.
pub fn row_offset_ranges(outcomes: &[FragmentOutcome]) -> (result: Vec<(usize, usize)>)
    requires
        row_sum(outcomes@) <= usize::MAX,
    ensures
        result@.len() == outcomes@.len(),
        forall|i: int|
            0 <= i < outcomes@.len() ==> (#[trigger] result@[i]).0 == row_sum(outcomes@.take(i))
                && result@[i].1 == outcomes@[i].rows,
{
    let mut ranges: Vec<(usize, usize)> = Vec::new();
    let mut start: usize = 0;
    let mut i: usize = 0;
    assert(outcomes@.take(0) =~= Seq::<FragmentOutcome>::empty());
    while i < outcomes.len()
        invariant
            row_sum(outcomes@) <= usize::MAX,
            i <= outcomes@.len(),
            start == row_sum(outcomes@.take(i as int)),
            ranges@.len() == i,
            forall|j: int|
                0 <= j < i ==> (#[trigger] ranges@[j]).0 == row_sum(outcomes@.take(j))
                    && ranges@[j].1 == outcomes@[j].rows,
        decreases outcomes@.len() - i,
    {
        proof {
            assert(outcomes@.take(i + 1).drop_last() =~= outcomes@.take(i as int));
            sums_grow(outcomes@, i + 1);
        }
        ranges.push((start, outcomes[i].rows));
        start += outcomes[i].rows;
        i += 1;
    }
    ranges
}

impl GroupedReadPlan {
    /// Sums up a grouped read, and refuses to add row offsets where rows are
    /// missing.
    pub fn finish(
        &self,
        requested_rows: usize,
        must_add_row_offset: bool,
        outcomes: &[FragmentOutcome],
        timings: ReadTimings,
        scheduler: SchedulerCounters,
        snapshot: ReaderCacheQueryStatsSnapshot,
        io_parallelism: usize,
    ) -> (result: DatabaseResult<GroupedPhysicalReadStats>)
        requires
            self.wf(),
            row_sum(outcomes@) <= usize::MAX,
            byte_sum(outcomes@) <= usize::MAX,
        ensures
            match result {
                Ok(stats) => (must_add_row_offset ==> row_sum(outcomes@) == requested_rows) && stats
                    == grouped_stats(
                    self@,
                    outcomes@,
                    timings,
                    scheduler,
                    snapshot,
                    io_parallelism,
                    must_add_row_offset,
                ),
                Err(error) => must_add_row_offset && row_sum(outcomes@) != requested_rows && error@
                    == deleted_rows(requested_rows as nat, row_sum(outcomes@)),
            },
    {
        let (rows, bytes) = sum_rows_and_bytes(outcomes);
        if must_add_row_offset && rows != requested_rows {
            return Err(deleted_rows_error(requested_rows, rows));
        }
        let totals = total_up(outcomes);
        let concurrency: usize = if outcomes.len() < io_parallelism {
            outcomes.len()
        } else {
            io_parallelism
        };
        let over_capacity = self.reader_cache_enabled && self.all_cached && self.eligible_files > 0
            && self.eligible_files > self.max_eligible_files;
        let plan = self;
        Ok(
            GroupedPhysicalReadStats {
                parent_wall_nanos: timings.parent_wall_nanos,
                plan_nanos: timings.plan_nanos,
                grouping_nanos: timings.grouping_nanos,
                scheduler_create_wall_nanos: if plan.use_shared_scheduler {
            timings.scheduler_create_wall_nanos
        } else {
            0
        },
                fragment_open_aggregate_nanos: totals.open_sum,
                fragment_open_max_nanos: totals.open_max,
                fragment_read_aggregate_nanos: totals.read_sum,
                fragment_read_max_nanos: totals.read_max,
                fragment_total_elapsed_aggregate_nanos: totals.elapsed_sum,
                fragment_total_elapsed_max_nanos: totals.elapsed_max,
                fanout_collect_wall_nanos: timings.fanout_collect_wall_nanos,
                fanout_concurrency_limit: concurrency,
                row_offset_injection_wall_nanos: if must_add_row_offset {
                    timings.row_offset_injection_wall_nanos
                } else {
                    0
                },
                fragments: outcomes.len(),
                rows: rows,
                batch_bytes: bytes,
                rows_per_fragment_min: totals.rows_min,
                rows_per_fragment_max: totals.rows_max,
                scheduler_scoped_iops: if plan.use_shared_scheduler { scheduler.iops } else { 0 },
                scheduler_scoped_requests: if plan.use_shared_scheduler {
                    scheduler.requests
                } else {
                    0
                },
                scheduler_scoped_bytes_read: if plan.use_shared_scheduler {
                    scheduler.bytes_read
                } else {
                    0
                },
                scheduler_stats_covered_fragments: if plan.use_shared_scheduler {
                    outcomes.len()
                } else {
                    0
                },
                shared_scheduler_queries: count_one(plan.use_shared_scheduler),
                shared_scheduler_fragments: if plan.use_shared_scheduler {
                    outcomes.len()
                } else {
                    0
                },
                per_fragment_scheduler_queries: count_one(!plan.use_shared_scheduler),
                per_fragment_scheduler_fragments: if plan.use_shared_scheduler {
                    0
                } else {
                    outcomes.len()
                },
                shared_scheduler_fallback_queries: count_one(
                    plan.shared_scheduler_enabled && !plan.use_shared_scheduler,
                ),
                shared_scheduler_fallback_legacy_fragments: plan.shared_legacy,
                shared_scheduler_fallback_nonprimary_fragments: plan.shared_nonprimary,
                shared_scheduler_fallback_unsupported_fragments: plan.shared_unsupported,
                reader_cache_queries: count_one(plan.use_reader_cache),
                reader_cache_eligible_files: keep_if(
                    plan.use_reader_cache,
                    snapshot.counters.eligible_files,
                ),
                reader_cache_lookup_files: keep_if(
                    plan.use_reader_cache,
                    snapshot.counters.lookup_files,
                ),
                reader_cache_hit_files: keep_if(plan.use_reader_cache, snapshot.counters.hit_files),
                reader_cache_miss_open_files: keep_if(
                    plan.use_reader_cache,
                    snapshot.counters.miss_open_files,
                ),
                reader_cache_coalesced_files: keep_if(
                    plan.use_reader_cache,
                    snapshot.counters.coalesced_files,
                ),
                reader_cache_bypass_files: keep_if(
                    plan.use_reader_cache,
                    snapshot.counters.bypass_files,
                ),
                reader_cache_fallback_open_files: keep_if(
                    plan.use_reader_cache,
                    snapshot.counters.fallback_open_files,
                ),
                reader_cache_open_failures: keep_if(
                    plan.use_reader_cache,
                    snapshot.counters.open_failures,
                ),
                reader_cache_resident_entries_start_approx: keep_if(
                    plan.use_reader_cache,
                    snapshot.counters.resident_entries_start_approx,
                ),
                reader_cache_resident_entries_end_approx: keep_if(
                    plan.use_reader_cache,
                    snapshot.resident_entries_end_approx,
                ),
                reader_cache_capacity: keep_if(plan.use_reader_cache, snapshot.counters.capacity),
                reader_cache_fd_soft_limit: keep_if(
                    plan.use_reader_cache,
                    snapshot.counters.fd_soft_limit,
                ),
                reader_cache_lookup_nanos: keep_if(
                    plan.use_reader_cache,
                    snapshot.counters.lookup_nanos,
                ),
                reader_cache_acquire_nanos: keep_if(
                    plan.use_reader_cache,
                    snapshot.counters.acquire_nanos,
                ),
                reader_cache_physical_open_nanos: keep_if(
                    plan.use_reader_cache,
                    snapshot.counters.physical_open_nanos,
                ),
                reader_cache_bind_nanos: keep_if(
                    plan.use_reader_cache,
                    snapshot.counters.bind_nanos,
                ),
                reader_cache_fallback_queries: count_one(
                    plan.reader_cache_enabled && !plan.use_reader_cache,
                ),
                reader_cache_fallback_legacy_fragments: plan.cache_legacy,
                reader_cache_fallback_nonprimary_fragments: plan.cache_nonprimary,
                reader_cache_fallback_nonlocal_fragments: plan.cache_nonlocal,
                reader_cache_fallback_unknown_size_fragments: plan.cache_unknown_size,
                reader_cache_fallback_small_file_fragments: plan.cache_small_file,
                reader_cache_fallback_unsupported_fragments: plan.cache_unsupported,
                reader_cache_fallback_capacity_queries: count_one(over_capacity),
            },
        )
    }
}

/// Neither the scheduler nor the reader cache changes which rows are read and how
/// they are grouped, whether the take is read in groups at all, or how it fails.
pub proof fn switches_keep_the_groups(
    builder: TakeBuilder,
    fragments: Seq<FragmentAnswers>,
    shared_scheduler: (bool, bool),
    reader_cache: (bool, bool),
    max_eligible_files: (usize, usize),
    one: DatabaseResult<Option<GroupedReadPlan>>,
    other: DatabaseResult<Option<GroupedReadPlan>>,
)
    requires
        builder.plans_grouped_read(
            fragments,
            shared_scheduler.0,
            reader_cache.0,
            max_eligible_files.0,
            one,
        ),
        builder.plans_grouped_read(
            fragments,
            shared_scheduler.1,
            reader_cache.1,
            max_eligible_files.1,
            other,
        ),
    ensures
        match (one, other) {
            (Ok(None), Ok(None)) => true,
            (Ok(Some(one)), Ok(Some(other))) => one@.groups() == other@.groups(),
            (Err(one), Err(other)) => one@ == other@,
            _ => false,
        },
{
    match (one, other) {
        (Ok(Some(one)), Ok(Some(other))) => {
            division_is_unique(one@.groups(), other@.groups(), builder@.row_addrs->0);
        },
        _ => {},
    }
}

/// A grouped read and a plain take of the same addresses both succeed or both
/// fail, and read the same rows in the same order: the requested ones as they
/// were requested.
pub proof fn grouped_read_agrees_with_take(
    builder: TakeBuilder,
    fragments: Seq<FragmentAnswers>,
    shared_scheduler_enabled: bool,
    reader_cache_enabled: bool,
    max_eligible_files: usize,
    grouped: DatabaseResult<Option<GroupedReadPlan>>,
    plain: DatabaseResult<TakePlan>,
)
    requires
        builder.plans_grouped_read(
            fragments,
            shared_scheduler_enabled,
            reader_cache_enabled,
            max_eligible_files,
            grouped,
        ),
        grouped != Ok::<Option<GroupedReadPlan>, DatabaseError>(None),
        plans_take(builder@.row_addrs->0, fragment_ids(fragments), plain),
    ensures
        match (grouped, plain) {
            (Ok(Some(grouped)), Ok(plain)) => group_addresses(grouped@.groups()) == rows_read(plain)
                && rows_read(plain) == builder@.row_addrs->0,
            (Err(_), Err(_)) => true,
            _ => false,
        },
{
    let addresses = builder@.row_addrs->0;
    let ids = fragment_ids(fragments);
    assert(addresses.len() > 0 && addresses_sorted(addresses));
    if addresses_contiguous(addresses) {
        assert forall|k: int|
            0 <= k < addresses.len() && ids.contains(fragment_of(addresses[0])) implies ids.contains(
            fragment_of(#[trigger] addresses[k]),
        ) by {}
        if ids.contains(fragment_of(addresses[0])) {
            none_missing(addresses, ids);
        } else {
            first_missing_at(addresses, ids, 0);
        }
    }
    match plain {
        Ok(plan) => {
            sorted_takes_read_requested_rows(plan, addresses, ids);
            match plan {
                TakePlan::Range { fragment_id, start, end } => {
                    assert(addresses[0] == fragment_id * 0x1_0000_0000 + start + 0);
                },
                _ => {},
            }
        },
        Err(_) => {},
    }
}

/// A grouped read has one batch for each fragment of the requested rows, and the
/// batch of a fragment holds its rows in the order of their addresses.
pub proof fn grouped_read_has_one_batch_per_fragment(
    builder: TakeBuilder,
    fragments: Seq<FragmentAnswers>,
    shared_scheduler_enabled: bool,
    reader_cache_enabled: bool,
    max_eligible_files: usize,
    plan: GroupedReadPlan,
)
    requires
        builder.plans_grouped_read(
            fragments,
            shared_scheduler_enabled,
            reader_cache_enabled,
            max_eligible_files,
            Ok(Some(plan)),
        ),
    ensures
        ({
            let addresses = builder@.row_addrs->0;
            let groups = plan@.groups();
            &&& plan@.plans.len() == addresses.map_values(
                |address: u64| fragment_of(address),
            ).to_set().len()
            &&& forall|i: int, j: int|
                0 <= i < j < groups.len() ==> (#[trigger] groups[i]).fragment < (
                #[trigger] groups[j]).fragment
            &&& forall|i: int|
                0 <= i < groups.len() ==> (#[trigger] groups[i]).addresses() == addresses.filter(
                    |address: u64| fragment_of(address) == groups[i].fragment,
                )
        }),
{
    let addresses = builder@.row_addrs->0;
    let groups = plan@.groups();
    sorted_groups_count_fragments(groups, addresses);
    sorted_addresses_have_one_group_per_fragment(groups, addresses);
    assert forall|i: int| 0 <= i < groups.len() implies (#[trigger] groups[i]).addresses()
        == addresses.filter(|address: u64| fragment_of(address) == groups[i].fragment) by {
        sorted_groups_hold_their_fragments(groups, addresses, i);
    }
}

/// Every batch holds the rows of its group.
pub open spec fn batches_are_complete(
    outcomes: Seq<FragmentOutcome>,
    groups: Seq<Group>,
) -> bool {
    &&& outcomes.len() == groups.len()
    &&& forall|i: int|
        0 <= i < outcomes.len() ==> (#[trigger] outcomes[i]).rows == groups[i].offsets.len()
}

/// Complete batches hold as many rows as there are addresses.
proof fn complete_batches_have_all_rows(
    outcomes: Seq<FragmentOutcome>,
    groups: Seq<Group>,
    addresses: Seq<u64>,
)
    requires
        divides_by_fragment(groups, addresses),
        batches_are_complete(outcomes, groups),
    ensures
        row_sum(outcomes) == addresses.len(),
{
    rows_of_first_batches(outcomes, groups, groups.len());
    assert(outcomes.take(groups.len() as int) =~= outcomes);
}

proof fn rows_of_first_batches(outcomes: Seq<FragmentOutcome>, groups: Seq<Group>, count: nat)
    requires
        batches_are_complete(outcomes, groups),
        count <= groups.len(),
    ensures
        row_sum(outcomes.take(count as int)) == joined(
            groups.map_values(|group: Group| group.addresses()),
            count,
        ).len(),
    decreases count,
{
    if count > 0 {
        rows_of_first_batches(outcomes, groups, (count - 1) as nat);
        assert(outcomes.take(count as int).drop_last() =~= outcomes.take(count - 1));
        assert(outcomes[count - 1].rows == groups[count - 1].offsets.len());
    }
}

/// The profile of a complete grouped read counts every fragment and every
/// requested row.
pub proof fn complete_reads_count_all_rows(
    builder: TakeBuilder,
    fragments: Seq<FragmentAnswers>,
    shared_scheduler_enabled: bool,
    reader_cache_enabled: bool,
    max_eligible_files: usize,
    plan: GroupedReadPlan,
    outcomes: Seq<FragmentOutcome>,
    timings: ReadTimings,
    scheduler: SchedulerCounters,
    snapshot: ReaderCacheQueryStatsSnapshot,
    io_parallelism: usize,
    must_add_row_offset: bool,
)
    requires
        builder.plans_grouped_read(
            fragments,
            shared_scheduler_enabled,
            reader_cache_enabled,
            max_eligible_files,
            Ok(Some(plan)),
        ),
        (builder@.row_addrs->0).len() <= usize::MAX,
        batches_are_complete(outcomes, plan@.groups()),
    ensures
        ({
            let stats = grouped_stats(
                plan@,
                outcomes,
                timings,
                scheduler,
                snapshot,
                io_parallelism,
                must_add_row_offset,
            );
            &&& stats.fragments == plan@.plans.len()
            &&& stats.rows == (builder@.row_addrs->0).len()
            &&& stats.rows == row_sum(outcomes)
        }),
{
    complete_batches_have_all_rows(outcomes, plan@.groups(), builder@.row_addrs->0);
    groups_are_few(plan@.groups(), builder@.row_addrs->0);
}

/// What is known of a fragment is what the first entry for it says.
pub proof fn first_entry_of_a_fragment_counts(fragments: Seq<FragmentAnswers>, id: u32)
    ensures
        answers_of(fragments, id) is None <==> forall|i: int|
            0 <= i < fragments.len() ==> (#[trigger] fragments[i]).id != id,
        answers_of(fragments, id) is Some ==> exists|i: int|
            {
                &&& 0 <= i < fragments.len()
                &&& #[trigger] fragments[i] == answers_of(fragments, id)->0
                &&& fragments[i].id == id
                &&& forall|j: int| 0 <= j < i ==> (#[trigger] fragments[j]).id != id
            },
    decreases fragments.len(),
{
    if fragments.len() > 0 {
        let shorter = fragments.drop_last();
        let last = fragments.len() - 1;
        first_entry_of_a_fragment_counts(shorter, id);
        assert(fragments[last] == fragments.last());
        assert forall|i: int| 0 <= i < last implies #[trigger] fragments[i] == shorter[i] by {}
        if answers_of(shorter, id) is Some {
            let i = choose|i: int|
                {
                    &&& 0 <= i < shorter.len()
                    &&& #[trigger] shorter[i] == answers_of(shorter, id)->0
                    &&& shorter[i].id == id
                    &&& forall|j: int| 0 <= j < i ==> (#[trigger] shorter[j]).id != id
                };
            assert(fragments[i] == shorter[i]);
        } else {
            assert forall|j: int| 0 <= j < last implies (#[trigger] fragments[j]).id != id by {
                assert(shorter[j].id != id);
            }
        }
    }
}

/// Fragments are counted one by one, under the answer that was given for each, and
/// so are the files of those that can be cached.
pub proof fn fragments_count_under_their_answer(
    plans: Seq<FragmentPlan>,
    plan: FragmentPlan,
    shared: FragmentSharedSchedulerEligibility,
    cache: FragmentReaderCacheEligibility,
)
    ensures
        count_shared(plans, shared) == plans.filter(
            |one: FragmentPlan| one.shared == shared,
        ).len(),
        count_cache(plans, cache) == plans.filter(|one: FragmentPlan| one.cache == cache).len(),
        eligible_files(Seq::empty()) == 0,
        eligible_files(plans.push(plan)) == eligible_files(plans) + match plan.cache {
            FragmentReaderCacheEligibility::Eligible { files } => files as int,
            _ => 0int,
        },
{
    assert(plans.push(plan).drop_last() =~= plans);
    shared_counts_are_filters(plans, shared);
    cache_counts_are_filters(plans, cache);
}

/// The scheduler is shared exactly where that is enabled and every fragment allows
/// it. Readers are cached exactly where that is enabled, every fragment allows it,
/// and there are files to cache, but no more than a query may cache.
pub proof fn reads_share_only_where_all_fragments_do(plan: ReadPlan)
    requires
        plan.decided(),
    ensures
        plan.use_shared_scheduler <==> plan.shared_scheduler_enabled && forall|i: int|
            0 <= i < plan.plans.len() ==> (#[trigger] plan.plans[i]).shared
                == FragmentSharedSchedulerEligibility::Eligible,
        plan.use_reader_cache <==> plan.reader_cache_enabled && (forall|i: int|
            0 <= i < plan.plans.len() ==> (#[trigger] plan.plans[i]).cache is Eligible) && 1
            <= eligible_files(plan.plans) <= plan.max_eligible_files,
        plan.over_capacity() ==> plan.reader_cache_enabled && !plan.use_reader_cache
            && eligible_files(plan.plans) > plan.max_eligible_files,
        plan.reader_cache_enabled && !plan.use_reader_cache && !plan.over_capacity() ==> (exists|
            i: int,
        |
            0 <= i < plan.plans.len() && !((#[trigger] plan.plans[i]).cache is Eligible))
            || eligible_files(plan.plans) == 0,
{
}

/// Rows are read in groups exactly where they are asked for by address, without the
/// addresses in the answer, and there are some and all in order.
pub proof fn grouped_reads_need_sorted_addresses(request: TakeRequest)
    ensures
        declines_groups(request) <==> !{
            &&& request.row_ids is None
            &&& !request.with_row_address
            &&& request.row_addrs is Some
            &&& (request.row_addrs->0).len() > 0
            &&& forall|i: int, j: int|
                0 <= i <= j < (request.row_addrs->0).len() ==> #[trigger] (request.row_addrs->0)[i]
                    <= #[trigger] (request.row_addrs->0)[j]
        },
{
}

/// Later fragments are read with later priority, and a fragment that gives no answer
/// counts as unsupported where an answer is needed.
pub proof fn fragments_are_planned_by_their_answers(
    group: Group,
    position: int,
    fragments: Seq<FragmentAnswers>,
    shared_scheduler_enabled: bool,
    reader_cache_enabled: bool,
)
    requires
        0 <= position <= u32::MAX,
        answers_of(fragments, group.fragment) is Some,
    ensures
        ({
            let answers = answers_of(fragments, group.fragment)->0;
            let plan = fragment_plan(
                group,
                position,
                fragments,
                shared_scheduler_enabled,
                reader_cache_enabled,
            );
            &&& plan.group == group
            &&& plan.reader_priority == position
            &&& !shared_scheduler_enabled ==> plan.shared
                == FragmentSharedSchedulerEligibility::Eligible
            &&& shared_scheduler_enabled && answers.shared_scheduler is Some ==> plan.shared
                == answers.shared_scheduler->0
            &&& shared_scheduler_enabled && answers.shared_scheduler is None ==> plan.shared
                == FragmentSharedSchedulerEligibility::Unsupported
            &&& !reader_cache_enabled ==> plan.cache == FragmentReaderCacheEligibility::Eligible {
                files: 0,
            }
            &&& reader_cache_enabled && answers.reader_cache is Some ==> plan.cache
                == answers.reader_cache->0
            &&& reader_cache_enabled && answers.reader_cache is None ==> plan.cache
                == FragmentReaderCacheEligibility::Unsupported
        }),
{
}

/// Times and rows of fragments add up, and the largest and the smallest are attained
/// by some fragment and passed by none.
pub proof fn outcomes_add_up(
    outcomes: Seq<FragmentOutcome>,
    outcome: FragmentOutcome,
    measure: spec_fn(FragmentOutcome) -> u64,
)
    ensures
        saturated_sum(Seq::empty(), measure) == 0,
        saturated_sum(outcomes.push(outcome), measure) == if saturated_sum(outcomes, measure)
            + measure(outcome) <= u64::MAX {
            saturated_sum(outcomes, measure) + measure(outcome)
        } else {
            u64::MAX as int
        },
        row_sum(Seq::empty()) == 0,
        row_sum(outcomes.push(outcome)) == row_sum(outcomes) + outcome.rows,
        byte_sum(Seq::empty()) == 0,
        byte_sum(outcomes.push(outcome)) == byte_sum(outcomes) + outcome.bytes,
{
    assert(outcomes.push(outcome).drop_last() =~= outcomes);
}

/// The largest measure, and the largest and smallest numbers of rows, are those of
/// some fragment, and no fragment passes them.
pub proof fn outcomes_have_extremes(
    outcomes: Seq<FragmentOutcome>,
    measure: spec_fn(FragmentOutcome) -> u64,
)
    requires
        outcomes.len() > 0,
    ensures
        forall|i: int|
            0 <= i < outcomes.len() ==> measure(#[trigger] outcomes[i]) <= largest(
                outcomes,
                measure,
            ) && fewest_rows(outcomes) <= outcomes[i].rows <= most_rows(outcomes),
        largest(outcomes, measure) == 0 || exists|i: int|
            0 <= i < outcomes.len() && measure(#[trigger] outcomes[i]) == largest(
                outcomes,
                measure,
            ),
        exists|i: int|
            0 <= i < outcomes.len() && (#[trigger] outcomes[i]).rows == fewest_rows(outcomes),
        most_rows(outcomes) == 0 || exists|i: int|
            0 <= i < outcomes.len() && (#[trigger] outcomes[i]).rows == most_rows(outcomes),
    decreases outcomes.len(),
{
    let shorter = outcomes.drop_last();
    let last = outcomes.len() - 1;
    assert(outcomes[last] == outcomes.last());
    assert forall|i: int| 0 <= i < last implies #[trigger] outcomes[i] == shorter[i] by {}
    if shorter.len() > 0 {
        outcomes_have_extremes(shorter, measure);
        let few = choose|i: int|
            0 <= i < shorter.len() && (#[trigger] shorter[i]).rows == fewest_rows(shorter);
        assert(outcomes[few].rows == fewest_rows(shorter));
        if most_rows(shorter) != 0 {
            let most = choose|i: int|
                0 <= i < shorter.len() && (#[trigger] shorter[i]).rows == most_rows(shorter);
            assert(outcomes[most].rows == most_rows(shorter));
        }
        if largest(shorter, measure) != 0 {
            let top = choose|i: int|
                0 <= i < shorter.len() && measure(#[trigger] shorter[i]) == largest(
                    shorter,
                    measure,
                );
            assert(measure(outcomes[top]) == largest(shorter, measure));
        }
    } else {
        assert(outcomes.len() == 1);
    }
}

/// A grouped read reports how many fragments, rows and bytes it has read, the fewest
/// and the most rows of a fragment, and the times that its parts took together and
/// at most. No more fragments are read at a time than there are, or than it may.
#[verifier::spinoff_prover]
pub proof fn grouped_reads_report_their_outcomes(
    plan: ReadPlan,
    outcomes: Seq<FragmentOutcome>,
    timings: ReadTimings,
    scheduler: SchedulerCounters,
    snapshot: ReaderCacheQueryStatsSnapshot,
    io_parallelism: usize,
    must_add_row_offset: bool,
)
    requires
        outcomes.len() > 0,
        outcomes.len() <= usize::MAX,
        row_sum(outcomes) <= usize::MAX,
        byte_sum(outcomes) <= usize::MAX,
    ensures
        ({
            let stats = grouped_stats(
                plan,
                outcomes,
                timings,
                scheduler,
                snapshot,
                io_parallelism,
                must_add_row_offset,
            );
            &&& stats.fragments == outcomes.len()
            &&& stats.rows == row_sum(outcomes)
            &&& stats.batch_bytes == byte_sum(outcomes)
            &&& forall|i: int|
                0 <= i < outcomes.len() ==> {
                    &&& stats.rows_per_fragment_min <= (#[trigger] outcomes[i]).rows
                        <= stats.rows_per_fragment_max
                    &&& outcomes[i].open_nanos <= stats.fragment_open_max_nanos
                    &&& outcomes[i].read_nanos <= stats.fragment_read_max_nanos
                    &&& outcomes[i].total_elapsed_nanos <= stats.fragment_total_elapsed_max_nanos
                }
            &&& exists|i: int|
                0 <= i < outcomes.len() && (#[trigger] outcomes[i]).rows
                    == stats.rows_per_fragment_min
            &&& stats.rows_per_fragment_max == 0 || exists|i: int|
                0 <= i < outcomes.len() && (#[trigger] outcomes[i]).rows
                    == stats.rows_per_fragment_max
            &&& stats.fragment_open_aggregate_nanos == saturated_sum(
                outcomes,
                |outcome: FragmentOutcome| outcome.open_nanos,
            )
            &&& stats.fragment_read_aggregate_nanos == saturated_sum(
                outcomes,
                |outcome: FragmentOutcome| outcome.read_nanos,
            )
            &&& stats.fragment_total_elapsed_aggregate_nanos == saturated_sum(
                outcomes,
                |outcome: FragmentOutcome| outcome.total_elapsed_nanos,
            )
            &&& stats.fanout_concurrency_limit <= outcomes.len()
            &&& stats.fanout_concurrency_limit <= io_parallelism
            &&& stats.fanout_concurrency_limit == outcomes.len() || stats.fanout_concurrency_limit
                == io_parallelism
            &&& stats.parent_wall_nanos == timings.parent_wall_nanos
            &&& stats.plan_nanos == timings.plan_nanos
            &&& stats.grouping_nanos == timings.grouping_nanos
            &&& stats.fanout_collect_wall_nanos == timings.fanout_collect_wall_nanos
        }),
{
    outcomes_have_extremes(outcomes, |outcome: FragmentOutcome| outcome.open_nanos);
    outcomes_have_extremes(outcomes, |outcome: FragmentOutcome| outcome.read_nanos);
    outcomes_have_extremes(outcomes, |outcome: FragmentOutcome| outcome.total_elapsed_nanos);
    let open = |outcome: FragmentOutcome| outcome.open_nanos;
    let read = |outcome: FragmentOutcome| outcome.read_nanos;
    let elapsed = |outcome: FragmentOutcome| outcome.total_elapsed_nanos;
    assert forall|i: int| 0 <= i < outcomes.len() implies (#[trigger] outcomes[i]).open_nanos
        <= largest(outcomes, open) && outcomes[i].read_nanos <= largest(outcomes, read)
        && outcomes[i].total_elapsed_nanos <= largest(outcomes, elapsed) by {
        assert(open(outcomes[i]) <= largest(outcomes, open));
        assert(read(outcomes[i]) <= largest(outcomes, read));
        assert(elapsed(outcomes[i]) <= largest(outcomes, elapsed));
    }
}

/// A grouped read that shares a scheduler reports its counters for all fragments, and
/// another one none. One that was to share it and does not is a fallback.
#[verifier::spinoff_prover]
pub proof fn grouped_reads_report_their_scheduler(
    plan: ReadPlan,
    outcomes: Seq<FragmentOutcome>,
    timings: ReadTimings,
    scheduler: SchedulerCounters,
    snapshot: ReaderCacheQueryStatsSnapshot,
    io_parallelism: usize,
    must_add_row_offset: bool,
)
    requires
        outcomes.len() <= usize::MAX,
    ensures
        ({
            let stats = grouped_stats(
                plan,
                outcomes,
                timings,
                scheduler,
                snapshot,
                io_parallelism,
                must_add_row_offset,
            );
            &&& plan.use_shared_scheduler ==> {
                &&& stats.shared_scheduler_queries == 1
                &&& stats.shared_scheduler_fragments == outcomes.len()
                &&& stats.per_fragment_scheduler_queries == 0
                &&& stats.per_fragment_scheduler_fragments == 0
                &&& stats.scheduler_create_wall_nanos == timings.scheduler_create_wall_nanos
                &&& stats.scheduler_scoped_iops == scheduler.iops
                &&& stats.scheduler_scoped_requests == scheduler.requests
                &&& stats.scheduler_scoped_bytes_read == scheduler.bytes_read
                &&& stats.scheduler_stats_covered_fragments == outcomes.len()
                &&& stats.shared_scheduler_fallback_queries == 0
            }
            &&& !plan.use_shared_scheduler ==> {
                &&& stats.shared_scheduler_queries == 0
                &&& stats.shared_scheduler_fragments == 0
                &&& stats.per_fragment_scheduler_queries == 1
                &&& stats.per_fragment_scheduler_fragments == outcomes.len()
                &&& stats.scheduler_create_wall_nanos == 0
                &&& stats.scheduler_scoped_iops == 0
                &&& stats.scheduler_scoped_requests == 0
                &&& stats.scheduler_scoped_bytes_read == 0
                &&& stats.scheduler_stats_covered_fragments == 0
                &&& stats.shared_scheduler_fallback_queries == if plan.shared_scheduler_enabled {
                    1int
                } else {
                    0int
                }
            }
            &&& stats.row_offset_injection_wall_nanos == if must_add_row_offset {
                timings.row_offset_injection_wall_nanos
            } else {
                0
            }
        }),
{
}

/// A grouped read that caches readers reports the counters of the cache, and another
/// one none. One that was to cache them and does not is a fallback.
#[verifier::spinoff_prover]
pub proof fn grouped_reads_report_their_cache(
    plan: ReadPlan,
    outcomes: Seq<FragmentOutcome>,
    timings: ReadTimings,
    scheduler: SchedulerCounters,
    snapshot: ReaderCacheQueryStatsSnapshot,
    io_parallelism: usize,
    must_add_row_offset: bool,
)
    ensures
        ({
            let stats = grouped_stats(
                plan,
                outcomes,
                timings,
                scheduler,
                snapshot,
                io_parallelism,
                must_add_row_offset,
            );
            &&& plan.use_reader_cache ==> {
                &&& stats.reader_cache_queries == 1
                &&& stats.reader_cache_fallback_queries == 0
                &&& stats.reader_cache_resident_entries_end_approx
                    == snapshot.resident_entries_end_approx
                &&& stats.reader_cache_eligible_files == snapshot.counters.eligible_files
                &&& stats.reader_cache_lookup_files == snapshot.counters.lookup_files
                &&& stats.reader_cache_hit_files == snapshot.counters.hit_files
                &&& stats.reader_cache_miss_open_files == snapshot.counters.miss_open_files
                &&& stats.reader_cache_coalesced_files == snapshot.counters.coalesced_files
                &&& stats.reader_cache_bypass_files == snapshot.counters.bypass_files
                &&& stats.reader_cache_fallback_open_files == snapshot.counters.fallback_open_files
                &&& stats.reader_cache_open_failures == snapshot.counters.open_failures
                &&& stats.reader_cache_resident_entries_start_approx
                    == snapshot.counters.resident_entries_start_approx
                &&& stats.reader_cache_capacity == snapshot.counters.capacity
                &&& stats.reader_cache_fd_soft_limit == snapshot.counters.fd_soft_limit
                &&& stats.reader_cache_lookup_nanos == snapshot.counters.lookup_nanos
                &&& stats.reader_cache_acquire_nanos == snapshot.counters.acquire_nanos
                &&& stats.reader_cache_physical_open_nanos == snapshot.counters.physical_open_nanos
                &&& stats.reader_cache_bind_nanos == snapshot.counters.bind_nanos
            }
            &&& !plan.use_reader_cache ==> {
                &&& stats.reader_cache_queries == 0
                &&& stats.reader_cache_fallback_queries == if plan.reader_cache_enabled {
                    1int
                } else {
                    0int
                }
                &&& stats.reader_cache_resident_entries_end_approx == 0
                &&& stats.reader_cache_eligible_files == 0
                &&& stats.reader_cache_lookup_files == 0
                &&& stats.reader_cache_hit_files == 0
                &&& stats.reader_cache_miss_open_files == 0
                &&& stats.reader_cache_coalesced_files == 0
                &&& stats.reader_cache_bypass_files == 0
                &&& stats.reader_cache_fallback_open_files == 0
                &&& stats.reader_cache_open_failures == 0
                &&& stats.reader_cache_resident_entries_start_approx == 0
                &&& stats.reader_cache_capacity == 0
                &&& stats.reader_cache_fd_soft_limit == 0
                &&& stats.reader_cache_lookup_nanos == 0
                &&& stats.reader_cache_acquire_nanos == 0
                &&& stats.reader_cache_physical_open_nanos == 0
                &&& stats.reader_cache_bind_nanos == 0
            }
            &&& stats.reader_cache_fallback_capacity_queries == if plan.over_capacity() {
                1int
            } else {
                0int
            }
        }),
{
}

/// Fragments that do not allow a shared scheduler or a cache are counted under their
/// reasons.
#[verifier::spinoff_prover]
pub proof fn grouped_reads_report_their_reasons(
    plan: ReadPlan,
    outcomes: Seq<FragmentOutcome>,
    timings: ReadTimings,
    scheduler: SchedulerCounters,
    snapshot: ReaderCacheQueryStatsSnapshot,
    io_parallelism: usize,
    must_add_row_offset: bool,
)
    requires
        plan.plans.len() <= usize::MAX,
    ensures
        ({
            let stats = grouped_stats(
                plan,
                outcomes,
                timings,
                scheduler,
                snapshot,
                io_parallelism,
                must_add_row_offset,
            );
            &&& stats.shared_scheduler_fallback_legacy_fragments == plan.plans.filter(
                |one: FragmentPlan| one.shared == FragmentSharedSchedulerEligibility::Legacy,
            ).len()
            &&& stats.shared_scheduler_fallback_nonprimary_fragments == plan.plans.filter(
                |one: FragmentPlan| one.shared == FragmentSharedSchedulerEligibility::NonPrimaryBase,
            ).len()
            &&& stats.shared_scheduler_fallback_unsupported_fragments == plan.plans.filter(
                |one: FragmentPlan| one.shared == FragmentSharedSchedulerEligibility::Unsupported,
            ).len()
            &&& stats.reader_cache_fallback_legacy_fragments == plan.plans.filter(
                |one: FragmentPlan| one.cache == FragmentReaderCacheEligibility::Legacy,
            ).len()
            &&& stats.reader_cache_fallback_nonprimary_fragments == plan.plans.filter(
                |one: FragmentPlan| one.cache == FragmentReaderCacheEligibility::NonPrimaryBase,
            ).len()
            &&& stats.reader_cache_fallback_nonlocal_fragments == plan.plans.filter(
                |one: FragmentPlan| one.cache == FragmentReaderCacheEligibility::NonLocalStore,
            ).len()
            &&& stats.reader_cache_fallback_unknown_size_fragments == plan.plans.filter(
                |one: FragmentPlan| one.cache == FragmentReaderCacheEligibility::UnknownSize,
            ).len()
            &&& stats.reader_cache_fallback_small_file_fragments == plan.plans.filter(
                |one: FragmentPlan| one.cache == FragmentReaderCacheEligibility::SmallFile,
            ).len()
            &&& stats.reader_cache_fallback_unsupported_fragments == plan.plans.filter(
                |one: FragmentPlan| one.cache == FragmentReaderCacheEligibility::Unsupported,
            ).len()
        }),
{
    shared_counts_are_filters(plan.plans, FragmentSharedSchedulerEligibility::Legacy);
    shared_counts_are_filters(plan.plans, FragmentSharedSchedulerEligibility::NonPrimaryBase);
    shared_counts_are_filters(plan.plans, FragmentSharedSchedulerEligibility::Unsupported);
    cache_counts_are_filters(plan.plans, FragmentReaderCacheEligibility::Legacy);
    cache_counts_are_filters(plan.plans, FragmentReaderCacheEligibility::NonPrimaryBase);
    cache_counts_are_filters(plan.plans, FragmentReaderCacheEligibility::NonLocalStore);
    cache_counts_are_filters(plan.plans, FragmentReaderCacheEligibility::UnknownSize);
    cache_counts_are_filters(plan.plans, FragmentReaderCacheEligibility::SmallFile);
    cache_counts_are_filters(plan.plans, FragmentReaderCacheEligibility::Unsupported);
}

proof fn shared_counts_are_filters(
    plans: Seq<FragmentPlan>,
    shared: FragmentSharedSchedulerEligibility,
)
    ensures
        count_shared(plans, shared) == plans.filter(
            |one: FragmentPlan| one.shared == shared,
        ).len(),
        count_shared(plans, shared) <= plans.len(),
    decreases plans.len(),
{
    reveal(Seq::filter);
    if plans.len() > 0 {
        shared_counts_are_filters(plans.drop_last(), shared);
    }
}

proof fn cache_counts_are_filters(
    plans: Seq<FragmentPlan>,
    cache: FragmentReaderCacheEligibility,
)
    ensures
        count_cache(plans, cache) == plans.filter(|one: FragmentPlan| one.cache == cache).len(),
        count_cache(plans, cache) <= plans.len(),
    decreases plans.len(),
{
    reveal(Seq::filter);
    if plans.len() > 0 {
        cache_counts_are_filters(plans.drop_last(), cache);
    }
}

} // verus!
