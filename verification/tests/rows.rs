use lance_plaid::database::{
    file_descriptor_soft_limit, fragment_id, new_from_parts, plaid_error, row_offset, AddressSet,
    DatabaseError, RowAddrMask, TOMBSTONE_ROW,
};
use lance_plaid::grouped_read::{
    row_offset_ranges, FragmentAnswers, FragmentOutcome, FragmentReaderCacheEligibility,
    FragmentSharedSchedulerEligibility, ReadTimings, SchedulerCounters,
};
use lance_plaid::reader_cache::{
    global_reader_fd_budget, CacheAction, CacheEvent, DataFileReaderCache, DataFileReaderCacheKey,
    ProcessReaderBudget,
};
use lance_plaid::take::{
    check_row_addrs, distinct_addresses, group_by_fragment, row_offsets_to_row_addresses,
    FragmentRows,
};
use lance_plaid::take_plan::{
    plan_take, remap_rows, take, take_scan, taken_validity, ProjectionFlags, TakeBuilder, TakePlan,
};
use lance_plaid::Error;
use std::collections::hash_map::DefaultHasher;
use std::hash::{Hash, Hasher};

fn fragment(id: u32, live_rows: u64, deleted: Vec<u32>) -> FragmentRows {
    FragmentRows {
        id,
        live_rows,
        deleted,
    }
}

fn plain_projection() -> ProjectionFlags {
    ProjectionFlags {
        with_row_id: false,
        with_row_addr: false,
        with_row_created_at_version: false,
        with_row_last_updated_at_version: false,
        must_add_row_offset: false,
    }
}

#[test]
fn row_offsets_count_live_rows() {
    let fragments = [fragment(0, 100, vec![]), fragment(1, 100, vec![])];
    assert_eq!(
        row_offsets_to_row_addresses(&fragments, &[150, 0, 199, 200]),
        vec![
            new_from_parts(1, 50),
            new_from_parts(0, 0),
            new_from_parts(1, 99),
            TOMBSTONE_ROW
        ]
    );
}

#[test]
fn row_offsets_skip_deleted_rows() {
    // One fragment with 100 rows of which rows 50 to 59 are deleted.
    let fragments = [
        fragment(0, 90, (50..60).collect()),
        fragment(1, 100, vec![]),
    ];
    assert_eq!(
        row_offsets_to_row_addresses(&fragments, &[70, 100, 49, 50]),
        vec![
            new_from_parts(0, 80),
            new_from_parts(1, 10),
            new_from_parts(0, 49),
            new_from_parts(0, 60)
        ]
    );
}

#[test]
fn takes_of_nothing_are_not_planned() {
    let fragments = [fragment(0, 40, vec![]), fragment(1, 40, vec![])];
    assert!(take(&fragments, &[], plain_projection()).is_none());
    let mut builder = take(&fragments, &[41, 3], plain_projection()).unwrap();
    assert!(!builder.is_empty());
    match builder.execute(None, &[0, 1]).unwrap() {
        Some(TakePlan::Reorder(groups)) => {
            assert_eq!(groups.len(), 2);
            assert_eq!(groups[0].fragment_id, 0);
            assert_eq!(groups[0].row_offsets, vec![3]);
            assert_eq!(groups[1].row_offsets, vec![1]);
        }
        _ => panic!("unsorted rows are put in order afterwards"),
    }
    let mut empty = TakeBuilder::try_new_from_ids(vec![], plain_projection()).unwrap();
    assert!(empty.is_empty());
    assert!(empty.execute(None, &[0]).unwrap().is_none());
    assert_eq!(take_scan(3, 6), vec![3, 4, 5]);
    assert!(take_scan(6, 3).is_empty());
}

#[test]
fn identifiers_are_looked_up_and_missing_ones_left_out() {
    let mut builder = TakeBuilder::try_new_from_ids(vec![7, 8, 9], plain_projection()).unwrap();
    assert_eq!(builder.unresolved_row_ids(), Some(&vec![7, 8, 9]));
    let addresses = builder.get_row_addrs(Some(&vec![Some(30), None, Some(10)]));
    assert_eq!(addresses, vec![30, 10]);
    assert!(builder.unresolved_row_ids().is_none());
    let mut gone = TakeBuilder::try_new_from_ids(vec![7], plain_projection()).unwrap();
    assert!(gone.execute(Some(&vec![None]), &[0]).unwrap().is_none());
    assert!(!gone.empty_result_has_row_address());
    assert!(gone.with_row_address(true).empty_result_has_row_address());
    let nothing = TakeBuilder::try_new_from_ids(vec![], plain_projection()).unwrap();
    assert!(!nothing.with_row_address(true).empty_result_has_row_address());
    let mut physical = TakeBuilder::try_new_from_ids(vec![7], plain_projection()).unwrap();
    assert_eq!(physical.get_row_addrs(None), vec![7]);
}

#[test]
fn address_lists_are_told_apart() {
    let stats = check_row_addrs(&[]);
    assert!(stats.sorted && stats.contiguous);
    let stats = check_row_addrs(&[5, 6, 7]);
    assert!(stats.sorted && stats.contiguous);
    let stats = check_row_addrs(&[5, 5, 9]);
    assert!(stats.sorted && !stats.contiguous);
    let stats = check_row_addrs(&[6, 5]);
    assert!(!stats.sorted && !stats.contiguous);
    let last = new_from_parts(0, u32::MAX);
    let stats = check_row_addrs(&[last, last + 1]);
    assert!(stats.sorted && !stats.contiguous);
}

#[test]
fn contiguous_takes_are_ranges() {
    let start = new_from_parts(2, 10);
    match plan_take(&vec![start, start + 1, start + 2], &[0, 2]).unwrap() {
        TakePlan::Range {
            fragment_id,
            start,
            end,
        } => assert_eq!((fragment_id, start, end), (2, 10, 13)),
        _ => panic!("rows that follow each other are one range"),
    }
    let error = plan_take(&vec![start], &[0]).unwrap_err();
    assert_eq!(
        error.to_string(),
        "rowaddr start: 8589934602 belongs to non-existent fragment: 2"
    );
}

#[test]
fn sorted_takes_are_read_fragment_by_fragment() {
    let rows = vec![
        new_from_parts(0, 3),
        new_from_parts(0, 7),
        new_from_parts(2, 1),
    ];
    match plan_take(&rows, &[0, 1, 2]).unwrap() {
        TakePlan::Concatenate(groups) => {
            assert_eq!(groups.len(), 2);
            assert_eq!(groups[0].row_offsets, vec![3, 7]);
            assert_eq!(groups[1].fragment_id, 2);
        }
        _ => panic!("sorted rows are read in order"),
    }
    let error = plan_take(&rows, &[0, 1]).unwrap_err();
    assert_eq!(
        error.to_string(),
        "rowaddr 8589934593 belongs to non-existent fragment: 2"
    );
    assert_eq!(group_by_fragment(&rows).len(), 2);
    assert_eq!(distinct_addresses(&vec![5, 3, 5, 4]), vec![3, 4, 5]);
}

#[test]
fn returned_rows_are_put_back_in_the_requested_order() {
    // Row 30 was deleted, and row 10 is requested twice.
    assert_eq!(remap_rows(&[10, 20, 40], &[40, 10, 30, 10]), vec![2, 0, 0]);
    assert_eq!(
        taken_validity(&[true, false], &[Some(1), Some(0), None]),
        vec![false, true, false]
    );
}

#[test]
fn address_columns_are_added_only_to_complete_takes() {
    let builder = TakeBuilder::try_new_from_addresses(vec![1, 2], plain_projection())
        .unwrap()
        .with_row_address(true);
    let columns = builder.added_columns(2, 2, false, false).unwrap();
    assert!(columns.row_address && !columns.row_offset);
    let columns = builder.added_columns(2, 2, false, true).unwrap();
    assert!(!columns.row_address);
    let error = builder.added_columns(2, 1, false, false).unwrap_err();
    assert_eq!(
        error.to_string(),
        "Expected 2 rows, got 1.  A take operation that includes row addresses must not target deleted rows."
    );
    assert!(builder.appends_row_address(&vec!["id".to_string()]));
    assert!(!builder.appends_row_address(&vec!["id".to_string(), "_rowaddr".to_string()]));
    let without = TakeBuilder::try_new_from_addresses(vec![1], plain_projection()).unwrap();
    assert!(!without.appends_row_address(&vec![]));
    assert!(without.added_columns(1, 0, false, false).is_ok());
}

fn answers(
    id: u32,
    shared: Option<FragmentSharedSchedulerEligibility>,
    cache: Option<FragmentReaderCacheEligibility>,
) -> FragmentAnswers {
    FragmentAnswers {
        id,
        shared_scheduler: shared,
        reader_cache: cache,
    }
}

fn outcome(rows: usize, nanos: u64) -> FragmentOutcome {
    FragmentOutcome {
        open_nanos: nanos,
        read_nanos: 2 * nanos,
        total_elapsed_nanos: 3 * nanos,
        rows,
        bytes: 8 * rows,
    }
}

fn timings() -> ReadTimings {
    ReadTimings {
        parent_wall_nanos: 100,
        plan_nanos: 1,
        grouping_nanos: 2,
        scheduler_create_wall_nanos: 3,
        fanout_collect_wall_nanos: 4,
        row_offset_injection_wall_nanos: 5,
    }
}

fn scheduler() -> SchedulerCounters {
    SchedulerCounters {
        iops: 11,
        requests: 12,
        bytes_read: 13,
    }
}

fn two_fragment_take(projection: ProjectionFlags) -> TakeBuilder {
    TakeBuilder::try_new_from_addresses(
        vec![
            new_from_parts(0, 3),
            new_from_parts(0, 7),
            new_from_parts(2, 1),
        ],
        projection,
    )
    .unwrap()
}

#[test]
fn grouped_reads_share_what_every_fragment_can_share() {
    let builder = two_fragment_take(plain_projection());
    let cache = DataFileReaderCache::new(global_reader_fd_budget(1_024));
    let fragments = [
        answers(
            0,
            Some(FragmentSharedSchedulerEligibility::Eligible),
            Some(FragmentReaderCacheEligibility::Eligible { files: 2 }),
        ),
        answers(
            2,
            Some(FragmentSharedSchedulerEligibility::Eligible),
            Some(FragmentReaderCacheEligibility::Eligible { files: 1 }),
        ),
    ];
    let plan = builder
        .read_sorted_physical_by_fragment_with_options(
            &fragments,
            true,
            true,
            cache.max_eligible_files_per_query(),
        )
        .unwrap()
        .unwrap();
    assert!(plan.use_shared_scheduler && plan.use_reader_cache);
    assert_eq!(plan.eligible_files, 3);
    assert_eq!(plan.plans[1].reader_priority, 1);
    assert_eq!(plan.plans[0].group.row_offsets, vec![3, 7]);

    let mut query_stats = cache.begin_query(plan.eligible_files, 0);
    cache.get_or_open(&mut query_stats, CacheEvent::Requested);
    let snapshot = cache.finish_query(&query_stats, 3);
    let stats = plan
        .finish(
            3,
            false,
            &[outcome(2, 10), outcome(1, 30)],
            timings(),
            scheduler(),
            snapshot,
            8,
        )
        .unwrap();
    assert_eq!(stats.fragment_open_aggregate_nanos, 40);
    assert_eq!(stats.fragment_open_max_nanos, 30);
    assert_eq!(stats.fragment_read_max_nanos, 60);
    assert_eq!(stats.rows, 3);
    assert_eq!(stats.batch_bytes, 24);
    assert_eq!(stats.rows_per_fragment_min, 1);
    assert_eq!(stats.rows_per_fragment_max, 2);
    assert_eq!(stats.fanout_concurrency_limit, 2);
    assert_eq!(stats.scheduler_create_wall_nanos, 3);
    assert_eq!(stats.scheduler_scoped_iops, 11);
    assert_eq!(stats.shared_scheduler_fragments, 2);
    assert_eq!(stats.per_fragment_scheduler_fragments, 0);
    assert_eq!(stats.reader_cache_queries, 1);
    assert_eq!(stats.reader_cache_eligible_files, 3);
    assert_eq!(stats.reader_cache_lookup_files, 1);
    assert_eq!(stats.reader_cache_resident_entries_end_approx, 3);
    assert_eq!(stats.reader_cache_capacity, 128);
    assert_eq!(stats.row_offset_injection_wall_nanos, 0);
}

#[test]
fn grouped_reads_and_plain_takes_read_the_same_rows() {
    let fragments = [answers(0, None, None), answers(2, None, None)];
    let rows = [
        vec![new_from_parts(2, 5), new_from_parts(2, 6)],
        vec![
            new_from_parts(0, 3),
            new_from_parts(0, 3),
            new_from_parts(2, 0),
            new_from_parts(2, 8),
        ],
    ];
    for addresses in rows {
        let plain = match plan_take(&addresses, &[0, 2]).unwrap() {
            TakePlan::Range {
                fragment_id,
                start,
                end,
            } => (u64::from(start)..end)
                .map(|offset| new_from_parts(fragment_id, offset as u32))
                .collect::<Vec<_>>(),
            TakePlan::Concatenate(groups) => groups
                .iter()
                .flat_map(|group| {
                    group
                        .row_offsets
                        .iter()
                        .map(|offset| new_from_parts(group.fragment_id, *offset))
                })
                .collect(),
            TakePlan::Reorder(_) => panic!("sorted rows are read in order"),
        };
        assert_eq!(plain, addresses);
        let builder =
            TakeBuilder::try_new_from_addresses(addresses.clone(), plain_projection()).unwrap();
        for (shared_scheduler, reader_cache) in
            [(false, false), (true, false), (false, true), (true, true)]
        {
            let plan = builder
                .read_sorted_physical_by_fragment_with_options(
                    &fragments,
                    shared_scheduler,
                    reader_cache,
                    8,
                )
                .unwrap()
                .unwrap();
            let grouped = plan
                .plans
                .iter()
                .flat_map(|plan| {
                    plan.group
                        .row_offsets
                        .iter()
                        .map(|offset| new_from_parts(plan.group.fragment_id, *offset))
                })
                .collect::<Vec<_>>();
            assert_eq!(grouped, plain);
            let mut read = plan
                .plans
                .iter()
                .map(|plan| plan.group.fragment_id)
                .collect::<Vec<_>>();
            read.dedup();
            assert_eq!(read.len(), plan.plans.len());
        }
    }
}

#[test]
fn one_legacy_fragment_keeps_a_grouped_read_from_sharing() {
    let builder = two_fragment_take(plain_projection());
    let fragments = [
        answers(
            0,
            Some(FragmentSharedSchedulerEligibility::Legacy),
            Some(FragmentReaderCacheEligibility::SmallFile),
        ),
        answers(2, None, None),
    ];
    let plan = builder
        .read_sorted_physical_by_fragment_with_options(&fragments, true, true, 64)
        .unwrap()
        .unwrap();
    assert!(!plan.use_shared_scheduler && !plan.use_reader_cache);
    let cache = DataFileReaderCache::new(global_reader_fd_budget(1_024));
    let snapshot = cache.begin_query(0, 0).snapshot(0);
    let stats = plan
        .finish(
            3,
            false,
            &[outcome(2, 10), outcome(1, u64::MAX / 4)],
            timings(),
            scheduler(),
            snapshot,
            1,
        )
        .unwrap();
    assert_eq!(stats.fanout_concurrency_limit, 1);
    assert_eq!(stats.shared_scheduler_fallback_queries, 1);
    assert_eq!(stats.shared_scheduler_fallback_legacy_fragments, 1);
    assert_eq!(stats.shared_scheduler_fallback_unsupported_fragments, 1);
    assert_eq!(stats.per_fragment_scheduler_fragments, 2);
    assert_eq!(stats.scheduler_create_wall_nanos, 0);
    assert_eq!(stats.scheduler_scoped_iops, 0);
    assert_eq!(stats.reader_cache_fallback_queries, 1);
    assert_eq!(stats.reader_cache_fallback_small_file_fragments, 1);
    assert_eq!(stats.reader_cache_fallback_unsupported_fragments, 1);
    assert_eq!(stats.reader_cache_fallback_capacity_queries, 0);
    assert_eq!(stats.reader_cache_capacity, 0);
}

#[test]
fn too_many_files_bypass_the_reader_cache() {
    let builder = two_fragment_take(plain_projection());
    let eligible = Some(FragmentReaderCacheEligibility::Eligible { files: 40 });
    let fragments = [answers(0, None, eligible), answers(2, None, eligible)];
    let plan = builder
        .read_sorted_physical_by_fragment_with_options(&fragments, false, true, 64)
        .unwrap()
        .unwrap();
    assert!(!plan.use_reader_cache);
    let cache = DataFileReaderCache::new(global_reader_fd_budget(1_024));
    let stats = plan
        .finish(
            3,
            false,
            &[outcome(2, 1), outcome(1, 1)],
            timings(),
            scheduler(),
            cache.begin_query(0, 0).snapshot(0),
            8,
        )
        .unwrap();
    assert_eq!(stats.reader_cache_fallback_capacity_queries, 1);
    assert_eq!(stats.shared_scheduler_fallback_queries, 0);
}

#[test]
fn grouped_reads_decline_what_they_cannot_read() {
    let fragments = [answers(0, None, None), answers(2, None, None)];
    let unsorted = TakeBuilder::try_new_from_addresses(vec![7, 3], plain_projection()).unwrap();
    assert!(unsorted
        .read_sorted_physical_by_fragment(&fragments)
        .unwrap()
        .is_none());
    let by_id = TakeBuilder::try_new_from_ids(vec![3], plain_projection()).unwrap();
    assert!(by_id
        .read_sorted_physical_by_fragment(&fragments)
        .unwrap()
        .is_none());
    let with_addresses = two_fragment_take(plain_projection()).with_row_address(true);
    assert!(with_addresses
        .read_sorted_physical_by_fragment(&fragments)
        .unwrap()
        .is_none());
    let error = two_fragment_take(plain_projection())
        .read_sorted_physical_by_fragment_with_shared_scheduler(&fragments[..1], true)
        .unwrap_err();
    assert_eq!(
        error.to_string(),
        "rowaddr 8589934593 belongs to non-existent fragment: 2"
    );
}

#[test]
fn row_offsets_are_added_only_to_complete_reads() {
    let builder = two_fragment_take(plain_projection());
    let fragments = [answers(0, None, None), answers(2, None, None)];
    let plan = builder
        .read_sorted_physical_by_fragment(&fragments)
        .unwrap()
        .unwrap();
    let cache = DataFileReaderCache::new(global_reader_fd_budget(1_024));
    let snapshot = cache.begin_query(0, 0).snapshot(0);
    let incomplete = [outcome(2, 1), outcome(0, 1)];
    let error = plan
        .finish(3, true, &incomplete, timings(), scheduler(), snapshot, 8)
        .unwrap_err();
    assert!(error.to_string().contains("Expected 3 rows, got 2"));
    let complete = [outcome(2, 1), outcome(1, 1)];
    let stats = plan
        .finish(3, true, &complete, timings(), scheduler(), snapshot, 8)
        .unwrap();
    assert_eq!(stats.row_offset_injection_wall_nanos, 5);
    assert_eq!(row_offset_ranges(&complete), vec![(0, 2), (2, 1)]);
}

#[test]
fn reader_budgets_leave_descriptors_for_everything_else() {
    assert_eq!(
        global_reader_fd_budget(u64::MAX).max_cached_readers,
        4_096
    );
    assert_eq!(global_reader_fd_budget(1_024).max_cached_readers, 256);
    assert_eq!(global_reader_fd_budget(3).max_cached_readers, 0);
    let small = DataFileReaderCache::new(global_reader_fd_budget(80));
    assert_eq!(small.capacity(), 20);
    assert_eq!(small.max_in_flight(), 20);
    assert_eq!(small.max_eligible_files_per_query(), 20);
    let none = DataFileReaderCache::new(global_reader_fd_budget(0));
    assert_eq!(none.capacity(), 0);
    assert_eq!(none.max_in_flight(), 1);
    assert_eq!(none.max_eligible_files_per_query(), 0);
    let large = DataFileReaderCache::new(global_reader_fd_budget(1 << 20));
    assert_eq!(large.capacity(), 128);
    assert_eq!(large.max_in_flight(), 64);
    assert_eq!(large.fd_soft_limit(), 1 << 20);
}

#[test]
fn cached_opens_settle_as_hits_misses_or_waits() {
    let cache = DataFileReaderCache::new(global_reader_fd_budget(1_024));
    let mut stats = cache.begin_query(3, 5);
    let looked_up = |found: bool| CacheEvent::LookedUp {
        found,
        lookup_nanos: 1,
        total_nanos: 2,
    };
    let loaded = |loader_ran: bool, failed: bool| CacheEvent::Loaded {
        loader_ran,
        failed,
        acquire_nanos: 3,
        physical_open_nanos: 4,
        coordination_nanos: 5,
        total_nanos: 6,
    };
    assert_eq!(
        cache.get_or_open(&mut stats, CacheEvent::Requested),
        CacheAction::LookUp
    );
    assert_eq!(
        cache.get_or_open(&mut stats, looked_up(true)),
        CacheAction::ReturnCached
    );
    assert_eq!(
        cache.get_or_open(&mut stats, CacheEvent::Requested),
        CacheAction::LookUp
    );
    assert_eq!(
        cache.get_or_open(&mut stats, looked_up(false)),
        CacheAction::Load
    );
    assert_eq!(
        cache.get_or_open(&mut stats, CacheEvent::OpenPermit { granted: true }),
        CacheAction::AcquireFd
    );
    assert_eq!(
        cache.get_or_open(&mut stats, CacheEvent::FdPermit { granted: true }),
        CacheAction::Open
    );
    assert_eq!(
        cache.get_or_open(&mut stats, loaded(true, false)),
        CacheAction::ReturnOpened
    );
    assert_eq!(
        cache.get_or_open(&mut stats, CacheEvent::Requested),
        CacheAction::LookUp
    );
    assert_eq!(
        cache.get_or_open(&mut stats, loaded(false, false)),
        CacheAction::ReturnOpened
    );
    assert_eq!(stats.lookup_files, 3);
    assert_eq!(stats.hit_files, 1);
    assert_eq!(stats.miss_open_files, 1);
    assert_eq!(stats.coalesced_files, 1);
    assert_eq!(stats.physical_open_nanos, 4);
    assert_eq!(stats.coalesced_wait_nanos, 5);

    let closed = cache.get_or_open(&mut stats, CacheEvent::OpenPermit { granted: false });
    assert_eq!(
        closed.failure(),
        Some("data-file reader cache admission semaphore closed")
    );
    let exhausted = cache.get_or_open(&mut stats, CacheEvent::FdPermit { granted: false });
    assert_eq!(
        exhausted.failure(),
        Some("process-wide data-file reader cache FD budget exhausted")
    );
    assert_eq!(
        cache.get_or_open(&mut stats, loaded(true, true)),
        CacheAction::FailOpen
    );
    assert_eq!(stats.fd_budget_rejections, 1);
    assert_eq!(stats.open_failures, 1);
    assert_eq!(stats.miss_open_files, 2);
    assert_eq!(
        cache.get_or_open(&mut stats, loaded(false, true)),
        CacheAction::FailOpen
    );
    assert_eq!(stats.open_failures, 1);
    assert!(stats.open_failures <= stats.miss_open_files);
    stats.add_bind_duration(9);
    stats.record_bypass();
    stats.record_fallback_open();
    let snapshot = cache.finish_query(&stats, 7);
    assert_eq!(snapshot.counters.bind_nanos, 9);
    assert_eq!(snapshot.counters.bypass_files, 1);
    assert_eq!(snapshot.counters.fallback_open_files, 1);
    assert_eq!(snapshot.counters.resident_entries_start_approx, 5);
    assert_eq!(snapshot.resident_entries_end_approx, 7);
}

#[test]
fn processes_read_their_limit_once() {
    let mut readers = ProcessReaderBudget::new();
    assert_eq!(readers.get(), None);
    assert!(!readers.try_acquire());
    let budget = readers.get_or_init(9);
    assert_eq!(budget.fd_soft_limit, 9);
    assert_eq!(budget.max_cached_readers, 2);
    for limit in [0, 1_024, u64::MAX] {
        assert_eq!(readers.get_or_init(limit), budget);
        assert_eq!(readers.get(), Some(budget));
    }
    assert!(readers.try_acquire());
    assert!(readers.try_acquire());
    assert!(!readers.try_acquire());
    readers.release();
    assert!(readers.try_acquire());
    assert!(!readers.try_acquire());
    let mut unknown = ProcessReaderBudget::new();
    assert_eq!(unknown.get_or_init(u64::MAX).max_cached_readers, 4_096);
}

#[test]
fn equal_keys_hash_alike() {
    let key = |store: u64, path: &str, size: usize| {
        DataFileReaderCacheKey::new(store, path.to_string(), size, 2, 1)
    };
    let hash = |key: &DataFileReaderCacheKey| {
        let mut hasher = DefaultHasher::new();
        key.hashed_parts().hash(&mut hasher);
        hasher.finish()
    };
    let first = key(1, "data/a.lance", 512);
    let again = key(1, "data/a.lance", 512);
    assert!(first.is_same_file(&again));
    assert_eq!(first.hashed_parts(), (1, "data/a.lance", 512, 2, 1));
    assert_eq!(hash(&first), hash(&again));
    for other in [
        key(2, "data/a.lance", 512),
        key(1, "data/b.lance", 512),
        key(1, "data/a.lance", 513),
    ] {
        assert!(!first.is_same_file(&other));
        assert!(first.hashed_parts() != other.hashed_parts());
    }
}

#[test]
fn cache_keys_tell_files_apart() {
    let key = |size: usize| DataFileReaderCacheKey::new(1, "data/0.lance".to_string(), size, 2, 1);
    assert!(key(10).is_same_file(&key(10)));
    assert!(!key(10).is_same_file(&key(11)));
    assert!(key(10).is_at(1, &"data/0.lance".to_string()));
    assert!(!key(10).is_at(2, &"data/0.lance".to_string()));
}

#[test]
fn descriptor_limits_that_are_not_known_are_unbounded() {
    assert_eq!(file_descriptor_soft_limit(Some(256)), 256);
    assert_eq!(file_descriptor_soft_limit(None), u64::MAX);
}

#[test]
fn addresses_are_fragments_and_offsets() {
    let address = new_from_parts(3, 17);
    assert_eq!(address, 3 * (1_u64 << 32) + 17);
    assert_eq!(fragment_id(address), 3);
    assert_eq!(row_offset(address), 17);
}

#[test]
fn masks_allow_or_block_rows_and_fragments() {
    let set = || AddressSet {
        addresses: vec![5, 9],
        whole_fragments: vec![1],
    };
    let allow = RowAddrMask::AllowList(set());
    let block = RowAddrMask::BlockList(set());
    for address in [4, 5, 9, 10, new_from_parts(1, 0), new_from_parts(2, 0)] {
        assert_eq!(allow.selected(address), !block.selected(address));
    }
    assert!(allow.selected(new_from_parts(1, 7)));
    assert!(allow.iter_addrs().is_none());
    assert!(allow.max_len().is_none());
    assert!(!block.is_select_all());
    let listed = RowAddrMask::AllowList(AddressSet {
        addresses: vec![5, 9],
        whole_fragments: vec![],
    });
    assert_eq!(listed.max_len(), Some(2));
}

#[test]
fn errors_say_where_they_come_from() {
    let error = plaid_error(Error::InvalidInput("no rows".to_string()));
    assert_eq!(
        error.to_string(),
        "PLAID index error: invalid PLAID input: no rows"
    );
    assert!(matches!(error, DatabaseError::Index(_)));
    assert_eq!(
        Error::CorruptFile("bad magic".to_string()).to_string(),
        "corrupt PLAID file: bad magic"
    );
}
