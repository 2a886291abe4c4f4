//! Session-local cache of open data-file readers: budgets, identity and
//! per-query accounting.
//!
//! The readers themselves and the waiting are kept outside. This module decides
//! what is admitted, what comes next and what is counted.

use crate::search::{capped, duration_nanos};
use vstd::prelude::*;

verus! {

/// Largest number of readers that one cache keeps.
pub const DEFAULT_MAX_ENTRIES: u64 = 128;

/// Largest number of opens under way at one time.
pub const DEFAULT_MAX_IN_FLIGHT_OPENS: usize = 64;

/// Largest number of readers that all caches of a process keep.
pub const DEFAULT_PROCESS_MAX_CACHED_READERS: usize = 4096;

/// Seconds after which an unused reader is dropped.
pub const DEFAULT_TIME_TO_IDLE_SECONDS: u64 = 300;

/// The smaller of two numbers.
pub open spec fn lesser(left: int, right: int) -> int {
    if left < right {
        left
    } else {
        right
    }
}

/// How many readers all caches of a process may keep, given the limit of open
/// file descriptors: a quarter of a known limit, within a fixed ceiling.
pub open spec fn reader_budget(fd_soft_limit: u64) -> int {
    if fd_soft_limit == u64::MAX {
        DEFAULT_PROCESS_MAX_CACHED_READERS as int
    } else {
        lesser(DEFAULT_PROCESS_MAX_CACHED_READERS as int, fd_soft_limit as int / 4)
    }
}

/// The budget of cached readers that all caches of a process share.
#[derive(Clone, Copy, Debug, PartialEq, Eq, Structural)]
pub struct GlobalReaderFdBudget {
    pub max_cached_readers: usize,
    pub fd_soft_limit: u64,
}

/// Derives the budget of cached readers from the limit of open file descriptors.
pub fn global_reader_fd_budget(fd_soft_limit: u64) -> (result: GlobalReaderFdBudget)
    ensures
        result.fd_soft_limit == fd_soft_limit,
        result.max_cached_readers == reader_budget(fd_soft_limit),
{
    let max_cached_readers: usize = if fd_soft_limit == u64::MAX || fd_soft_limit / 4
        >= DEFAULT_PROCESS_MAX_CACHED_READERS as u64 {
        DEFAULT_PROCESS_MAX_CACHED_READERS
    } else {
        (fd_soft_limit / 4) as usize
    };
    GlobalReaderFdBudget { max_cached_readers, fd_soft_limit }
}

/// Cached readers never take more than a quarter of the limit of open file
/// descriptors.
pub proof fn budget_leaves_three_quarters(fd_soft_limit: u64)
    ensures
        reader_budget(fd_soft_limit) == lesser(
            DEFAULT_PROCESS_MAX_CACHED_READERS as int,
            fd_soft_limit as int / 4,
        ),
        4 * reader_budget(fd_soft_limit) <= fd_soft_limit,
{
}

/// The budget of a process as a mathematical object.
pub struct BudgetState {
    /// The limit of open file descriptors that was read, once it was.
    pub limit: Option<u64>,
    /// Readers that caches keep or queries still hold.
    pub held: nat,
}

impl BudgetState {
    /// No more readers are kept than there are permits.
    pub open spec fn wf(self) -> bool {
        &&& self.permits() >= 0
        &&& self.limit is None ==> self.held == 0
    }

    /// The budget, once the limit was read.
    pub open spec fn budget(self) -> Option<GlobalReaderFdBudget> {
        match self.limit {
            Some(limit) => Some(
                GlobalReaderFdBudget {
                    max_cached_readers: reader_budget(limit) as usize,
                    fd_soft_limit: limit,
                },
            ),
            None => None,
        }
    }

    /// Permits that are left.
    pub open spec fn permits(self) -> int {
        match self.limit {
            Some(limit) => reader_budget(limit) - self.held,
            None => 0,
        }
    }

    /// The state once a limit is offered: the first one counts.
    pub open spec fn offered(self, limit: u64) -> BudgetState {
        BudgetState {
            limit: match self.limit {
                Some(first) => Some(first),
                None => Some(limit),
            },
            ..self
        }
    }

    /// The state once some limits were offered, one after the other.
    pub open spec fn offered_all(self, limits: Seq<u64>) -> BudgetState
        decreases limits.len(),
    {
        if limits.len() == 0 {
            self
        } else {
            self.offered_all(limits.drop_last()).offered(limits.last())
        }
    }
}

/// The reader budget of a process. The limit of open file descriptors is read
/// once, and every reader that is kept takes one permit.
#[derive(Debug)]
pub struct ProcessReaderBudget {
    budget: Option<GlobalReaderFdBudget>,
    held: usize,
}

impl View for ProcessReaderBudget {
    type V = BudgetState;

    closed spec fn view(&self) -> BudgetState {
        BudgetState {
            limit: match self.budget {
                Some(budget) => Some(budget.fd_soft_limit),
                None => None,
            },
            held: self.held as nat,
        }
    }
}

impl ProcessReaderBudget {
    #[verifier::type_invariant]
    spec fn inv(self) -> bool {
        self@.wf() && self@.budget() == self.budget
    }

    /// Nothing was read yet, and no reader is kept.
    pub fn new() -> (result: ProcessReaderBudget)
        ensures
            result@.wf(),
            result@ == (BudgetState { limit: None, held: 0 }),
    {
        ProcessReaderBudget { budget: None, held: 0 }
    }

    /// The budget, once the limit was read.
    pub fn get(&self) -> (result: Option<GlobalReaderFdBudget>)
        ensures
            self@.wf(),
            result == self@.budget(),
    {
        proof {
            use_type_invariant(self);
        }
        self.budget
    }

    /// The budget. The first limit that is offered settles it, and later ones
    /// change nothing.
    pub fn get_or_init(&mut self, fd_soft_limit: u64) -> (result: GlobalReaderFdBudget)
        ensures
            final(self)@.wf(),
            final(self)@ == old(self)@.offered(fd_soft_limit),
            final(self)@.budget() == Some(result),
            old(self)@.budget() is Some ==> old(self)@.budget() == Some(result),
            old(self)@.budget() is None ==> result.fd_soft_limit == fd_soft_limit
                && final(self)@.permits() == result.max_cached_readers,
    {
        proof {
            use_type_invariant(&*self);
        }
        match self.budget {
            Some(budget) => budget,
            None => {
                let budget = global_reader_fd_budget(fd_soft_limit);
                *self = ProcessReaderBudget { budget: Some(budget), held: 0 };
                budget
            },
        }
    }

    /// Takes a permit for a reader, without waiting, where one is left.
    pub fn try_acquire(&mut self) -> (result: bool)
        ensures
            final(self)@.wf(),
            result == (old(self)@.permits() > 0),
            final(self)@ == (BudgetState {
                held: old(self)@.held + if result {
                    1nat
                } else {
                    0nat
                },
                ..old(self)@
            }),
    {
        proof {
            use_type_invariant(&*self);
        }
        match self.budget {
            Some(budget) => if self.held < budget.max_cached_readers {
                *self = ProcessReaderBudget { budget: Some(budget), held: self.held + 1 };
                true
            } else {
                false
            },
            None => false,
        }
    }

    /// Gives back the permit of a reader that nobody holds any more.
    pub fn release(&mut self)
        requires
            old(self)@.held > 0,
        ensures
            final(self)@.wf(),
            final(self)@ == (BudgetState { held: (old(self)@.held - 1) as nat, ..old(self)@ }),
    {
        proof {
            use_type_invariant(&*self);
        }
        *self = ProcessReaderBudget { budget: self.budget, held: self.held - 1 };
    }
}

/// However often a process asks for its budget, and whatever limits are read
/// then, it gets the budget of the first limit.
pub proof fn budget_is_read_once(state: BudgetState, limits: Seq<u64>)
    requires
        state.limit is Some || limits.len() > 0,
    ensures
        state.offered_all(limits).limit == Some(
            if state.limit is Some {
                state.limit->0
            } else {
                limits[0]
            },
        ),
        state.limit is Some ==> state.offered_all(limits) == state,
        state.limit is Some ==> state.offered_all(limits).budget() == state.budget(),
    decreases limits.len(),
{
    if limits.len() > 0 {
        let earlier = limits.drop_last();
        if state.limit is Some || earlier.len() > 0 {
            budget_is_read_once(state, earlier);
        } else {
            assert(state.offered_all(earlier) == state);
        }
    }
}

/// The readers that all caches of a process keep never exceed its budget, and
/// leave at least three quarters of the limit of open file descriptors.
pub proof fn kept_readers_stay_within_the_budget(state: BudgetState)
    requires
        state.wf(),
        state.limit is Some,
    ensures
        state.held <= reader_budget(state.limit->0),
        4 * state.held <= state.limit->0,
{
    budget_leaves_three_quarters(state.limit->0);
}

/// An immutable identity for one physical data file.
///
/// The store is part of it: two stores with the same textual prefix must not
/// share a reader.
#[derive(Debug)]
pub struct DataFileReaderCacheKey {
    /// Identity of the object store.
    pub store: u64,
    /// Path of the file in the store.
    pub path: String,
    /// Size of the file.
    pub known_size: usize,
    /// Version of the file format.
    pub file_major_version: u32,
    pub file_minor_version: u32,
}

impl DataFileReaderCacheKey {
    /// Names a file.
    pub fn new(
        store: u64,
        path: String,
        known_size: usize,
        file_major_version: u32,
        file_minor_version: u32,
    ) -> (result: DataFileReaderCacheKey)
        ensures
            result == (DataFileReaderCacheKey {
                store,
                path,
                known_size,
                file_major_version,
                file_minor_version,
            }),
    {
        DataFileReaderCacheKey { store, path, known_size, file_major_version, file_minor_version }
    }

    /// Both keys name the same file.
    pub open spec fn same_file(self, other: DataFileReaderCacheKey) -> bool {
        &&& self.store == other.store
        &&& self.path@ == other.path@
        &&& self.known_size == other.known_size
        &&& self.file_major_version == other.file_major_version
        &&& self.file_minor_version == other.file_minor_version
    }

    /// The parts of a key that tell files apart, in the order in which they are
    /// hashed.
    pub open spec fn parts(self) -> (u64, Seq<char>, usize, u32, u32) {
        (
            self.store,
            self.path@,
            self.known_size,
            self.file_major_version,
            self.file_minor_version,
        )
    }

    /// The parts of a key that are hashed.
    pub fn hashed_parts(&self) -> (result: (u64, &str, usize, u32, u32))
        ensures
            (result.0, result.1@, result.2, result.3, result.4) == self.parts(),
    {
        (
            self.store,
            self.path.as_str(),
            self.known_size,
            self.file_major_version,
            self.file_minor_version,
        )
    }

    /// Whether both keys name the same file.
    pub fn is_same_file(&self, other: &DataFileReaderCacheKey) -> (result: bool)
        ensures
            result == self.same_file(*other),
    {
        self.store == other.store && self.path == other.path && self.known_size == other.known_size
            && self.file_major_version == other.file_major_version && self.file_minor_version
            == other.file_minor_version
    }

    /// Whether the file lies at a path of a store, whatever its size and version.
    /// A file that was removed from there is dropped from the cache.
    pub fn is_at(&self, store: u64, path: &String) -> (result: bool)
        ensures
            result == (self.store == store && self.path@ == path@),
    {
        self.store == store && self.path == *path
    }
}

/// Keys that name the same file hash alike: exactly they have the same hashed
/// parts.
pub proof fn same_files_hash_alike(left: DataFileReaderCacheKey, right: DataFileReaderCacheKey)
    ensures
        left.same_file(right) <==> left.parts() == right.parts(),
{
}

/// Two stores never share a reader, whatever their paths.
pub proof fn stores_share_no_reader(left: DataFileReaderCacheKey, right: DataFileReaderCacheKey)
    requires
        left.store != right.store,
    ensures
        !left.same_file(right),
{
}

/// Per-query counters.
#[derive(Clone, Copy, Debug, PartialEq, Eq, Structural)]
pub struct ReaderCacheQueryStats {
    /// Entries in the cache when the query began, as far as the cache had counted.
    pub resident_entries_start_approx: u64,
    /// Files that the query may read through the cache.
    pub eligible_files: u64,
    /// Capacity of the cache.
    pub capacity: u64,
    /// Limit of open file descriptors.
    pub fd_soft_limit: u64,
    /// Files looked up in the cache.
    pub lookup_files: u64,
    /// Files found in the cache.
    pub hit_files: u64,
    /// Files that this query opened for the cache.
    pub miss_open_files: u64,
    /// Files that another query was already opening.
    pub coalesced_files: u64,
    /// Files read without the cache.
    pub bypass_files: u64,
    /// Files opened in the ordinary way after the cache failed.
    pub fallback_open_files: u64,
    /// Opens for the cache that failed.
    pub open_failures: u64,
    /// Opens refused for want of file descriptors.
    pub fd_budget_rejections: u64,
    /// Time of lookups.
    pub lookup_nanos: u64,
    /// Time from request to reader.
    pub get_or_open_nanos: u64,
    /// Time spent waiting for another query's open.
    pub coalesced_wait_nanos: u64,
    /// Time spent waiting for permits.
    pub acquire_nanos: u64,
    /// Time of physical opens.
    pub physical_open_nanos: u64,
    /// Time spent binding readers to queries.
    pub bind_nanos: u64,
}

/// Per-query counters once the query is done.
#[derive(Clone, Copy, Debug, PartialEq, Eq, Structural)]
pub struct ReaderCacheQueryStatsSnapshot {
    /// The counters.
    pub counters: ReaderCacheQueryStats,
    /// Entries in the cache when the query ended, as far as the cache had counted.
    pub resident_entries_end_approx: u64,
}

/// A sum that starts over behind the largest 64-bit number.
pub open spec fn wrapped(left: u64, right: u64) -> u64 {
    left.wrapping_add(right)
}

impl ReaderCacheQueryStats {
    /// Counters of a query that has not begun.
    pub open spec fn initial(
        resident_entries: u64,
        eligible_files: u64,
        capacity: u64,
        fd_soft_limit: u64,
    ) -> ReaderCacheQueryStats {
        ReaderCacheQueryStats {
            resident_entries_start_approx: resident_entries,
            eligible_files,
            capacity,
            fd_soft_limit,
            lookup_files: 0,
            hit_files: 0,
            miss_open_files: 0,
            coalesced_files: 0,
            bypass_files: 0,
            fallback_open_files: 0,
            open_failures: 0,
            fd_budget_rejections: 0,
            lookup_nanos: 0,
            get_or_open_nanos: 0,
            coalesced_wait_nanos: 0,
            acquire_nanos: 0,
            physical_open_nanos: 0,
            bind_nanos: 0,
        }
    }

    /// Every file that was looked up was found, opened or waited for.
    pub open spec fn settled(self) -> bool {
        self.lookup_files == wrapped(
            wrapped(self.hit_files, self.miss_open_files),
            self.coalesced_files,
        )
    }

    /// Starts counting for a query.
    pub fn new(
        resident_entries_start_approx: u64,
        eligible_files: u64,
        capacity: u64,
        fd_soft_limit: u64,
    ) -> (result: ReaderCacheQueryStats)
        ensures
            result == ReaderCacheQueryStats::initial(
                resident_entries_start_approx,
                eligible_files,
                capacity,
                fd_soft_limit,
            ),
            result.settled(),
    {
        ReaderCacheQueryStats {
            resident_entries_start_approx,
            eligible_files,
            capacity,
            fd_soft_limit,
            lookup_files: 0,
            hit_files: 0,
            miss_open_files: 0,
            coalesced_files: 0,
            bypass_files: 0,
            fallback_open_files: 0,
            open_failures: 0,
            fd_budget_rejections: 0,
            lookup_nanos: 0,
            get_or_open_nanos: 0,
            coalesced_wait_nanos: 0,
            acquire_nanos: 0,
            physical_open_nanos: 0,
            bind_nanos: 0,
        }
    }

    /// Adds the time spent binding a reader.
    pub fn add_bind_duration(&mut self, nanos: u128)
        ensures
            *final(self) == (ReaderCacheQueryStats {
                bind_nanos: wrapped(old(self).bind_nanos, capped(nanos as nat)),
                ..*old(self)
            }),
    {
        self.bind_nanos = self.bind_nanos.wrapping_add(duration_nanos(nanos));
    }

    /// Counts a file read without the cache.
    pub fn record_bypass(&mut self)
        ensures
            *final(self) == (ReaderCacheQueryStats {
                bypass_files: wrapped(old(self).bypass_files, 1),
                ..*old(self)
            }),
    {
        self.bypass_files = self.bypass_files.wrapping_add(1);
    }

    /// Counts a file opened in the ordinary way after the cache failed.
    pub fn record_fallback_open(&mut self)
        ensures
            *final(self) == (ReaderCacheQueryStats {
                fallback_open_files: wrapped(old(self).fallback_open_files, 1),
                ..*old(self)
            }),
    {
        self.fallback_open_files = self.fallback_open_files.wrapping_add(1);
    }

    /// The counters at the end of a query.
    pub fn snapshot(&self, resident_entries_end_approx: u64) -> (result:
        ReaderCacheQueryStatsSnapshot)
        ensures
            result == (ReaderCacheQueryStatsSnapshot {
                counters: *self,
                resident_entries_end_approx,
            }),
    {
        ReaderCacheQueryStatsSnapshot { counters: *self, resident_entries_end_approx }
    }
}

/// What the cache is told while it serves a request.
#[derive(Clone, Copy, Debug)]
pub enum CacheEvent {
    /// A reader is requested.
    Requested,
    /// The cache was searched.
    LookedUp { found: bool, lookup_nanos: u64, total_nanos: u64 },
    /// The wait for a permit to open ended.
    OpenPermit { granted: bool },
    /// A descriptor was asked for.
    FdPermit { granted: bool },
    /// The open ended, by this request's own loader or by that of another one.
    Loaded {
        loader_ran: bool,
        failed: bool,
        acquire_nanos: u64,
        physical_open_nanos: u64,
        coordination_nanos: u64,
        total_nanos: u64,
    },
}

/// What the cache does next.
#[derive(Clone, Copy, Debug, PartialEq, Eq, Structural)]
pub enum CacheAction {
    /// Search the cache.
    LookUp,
    /// Hand out the reader that was found.
    ReturnCached,
    /// Wait for an open under way, or become its loader.
    Load,
    /// Ask for a descriptor.
    AcquireFd,
    /// Open the file.
    Open,
    /// Hand out the reader that was opened.
    ReturnOpened,
    /// Give up, because no permits are handed out any more.
    FailAdmissionClosed,
    /// Give up, because all descriptors are in use.
    FailBudgetExhausted,
    /// Give up, because the open failed.
    FailOpen,
}

impl CacheAction {
    /// Why the cache gave up.
    pub fn failure(self) -> (result: Option<&'static str>)
        ensures
            match self {
                CacheAction::FailAdmissionClosed => result is Some && result->0@
                    == "data-file reader cache admission semaphore closed"@,
                CacheAction::FailBudgetExhausted => result is Some && result->0@
                    == "process-wide data-file reader cache FD budget exhausted"@,
                _ => result is None,
            },
    {
        match self {
            CacheAction::FailAdmissionClosed => Some(
                "data-file reader cache admission semaphore closed",
            ),
            CacheAction::FailBudgetExhausted => Some(
                "process-wide data-file reader cache FD budget exhausted",
            ),
            _ => None,
        }
    }
}

/// The counters after an event.
pub open spec fn counted(stats: ReaderCacheQueryStats, event: CacheEvent) -> ReaderCacheQueryStats {
    match event {
        CacheEvent::Requested => ReaderCacheQueryStats {
            lookup_files: wrapped(stats.lookup_files, 1),
            ..stats
        },
        CacheEvent::LookedUp { found, lookup_nanos, total_nanos } => if found {
            ReaderCacheQueryStats {
                lookup_nanos: wrapped(stats.lookup_nanos, lookup_nanos),
                hit_files: wrapped(stats.hit_files, 1),
                get_or_open_nanos: wrapped(stats.get_or_open_nanos, total_nanos),
                ..stats
            }
        } else {
            ReaderCacheQueryStats {
                lookup_nanos: wrapped(stats.lookup_nanos, lookup_nanos),
                ..stats
            }
        },
        CacheEvent::OpenPermit { granted } => stats,
        CacheEvent::FdPermit { granted } => if granted {
            stats
        } else {
            ReaderCacheQueryStats {
                fd_budget_rejections: wrapped(stats.fd_budget_rejections, 1),
                ..stats
            }
        },
        CacheEvent::Loaded {
            loader_ran,
            failed,
            acquire_nanos,
            physical_open_nanos,
            coordination_nanos,
            total_nanos,
        } => if loader_ran {
            ReaderCacheQueryStats {
                get_or_open_nanos: wrapped(stats.get_or_open_nanos, total_nanos),
                miss_open_files: wrapped(stats.miss_open_files, 1),
                acquire_nanos: wrapped(stats.acquire_nanos, acquire_nanos),
                physical_open_nanos: wrapped(stats.physical_open_nanos, physical_open_nanos),
                open_failures: if failed {
                    wrapped(stats.open_failures, 1)
                } else {
                    stats.open_failures
                },
                ..stats
            }
        } else {
            ReaderCacheQueryStats {
                get_or_open_nanos: wrapped(stats.get_or_open_nanos, total_nanos),
                coalesced_files: wrapped(stats.coalesced_files, 1),
                coalesced_wait_nanos: wrapped(stats.coalesced_wait_nanos, coordination_nanos),
                ..stats
            }
        },
    }
}

/// What follows an event.
pub open spec fn following_action(event: CacheEvent) -> CacheAction {
    match event {
        CacheEvent::Requested => CacheAction::LookUp,
        CacheEvent::LookedUp { found, .. } => if found {
            CacheAction::ReturnCached
        } else {
            CacheAction::Load
        },
        CacheEvent::OpenPermit { granted } => if granted {
            CacheAction::AcquireFd
        } else {
            CacheAction::FailAdmissionClosed
        },
        CacheEvent::FdPermit { granted } => if granted {
            CacheAction::Open
        } else {
            CacheAction::FailBudgetExhausted
        },
        CacheEvent::Loaded { failed, .. } => if failed {
            CacheAction::FailOpen
        } else {
            CacheAction::ReturnOpened
        },
    }
}

/// Bounds of one session-local cache of bare data-file readers.
#[derive(Clone, Copy, Debug)]
pub struct DataFileReaderCache {
    capacity: u64,
    fd_soft_limit: u64,
}

impl DataFileReaderCache {
    /// Number of readers that the cache keeps.
    pub closed spec fn holds(self) -> u64 {
        self.capacity
    }

    /// Limit of open file descriptors.
    pub closed spec fn limit(self) -> u64 {
        self.fd_soft_limit
    }

    /// The cache stays within its own bound.
    #[verifier::type_invariant]
    pub open spec fn wf(self) -> bool {
        self.holds() <= DEFAULT_MAX_ENTRIES
    }

    /// A cache within the budget of its process.
    pub fn new(budget: GlobalReaderFdBudget) -> (result: DataFileReaderCache)
        ensures
            result.holds() == lesser(DEFAULT_MAX_ENTRIES as int, budget.max_cached_readers as int),
            result.holds() <= 128,
            result.holds() <= budget.max_cached_readers,
            result.holds() == 128 || result.holds() == budget.max_cached_readers,
            result.limit() == budget.fd_soft_limit,
    {
        let capacity: u64 = if (budget.max_cached_readers as u64) < DEFAULT_MAX_ENTRIES {
            budget.max_cached_readers as u64
        } else {
            DEFAULT_MAX_ENTRIES
        };
        DataFileReaderCache { capacity, fd_soft_limit: budget.fd_soft_limit }
    }

    /// Number of readers that the cache keeps.
    pub fn capacity(&self) -> (result: u64)
        ensures
            result == self.holds(),
    {
        self.capacity
    }

    /// Limit of open file descriptors.
    pub fn fd_soft_limit(&self) -> (result: u64)
        ensures
            result == self.limit(),
    {
        self.fd_soft_limit
    }

    /// Number of opens that may be under way at one time, never zero.
    pub fn max_in_flight(&self) -> (result: usize)
        ensures
            result == if self.holds() == 0 {
                1
            } else {
                lesser(DEFAULT_MAX_IN_FLIGHT_OPENS as int, self.holds() as int)
            },
            1 <= result <= 64,
            self.holds() >= 64 ==> result == 64,
            1 <= self.holds() < 64 ==> result == self.holds(),
    {
        proof {
            use_type_invariant(self);
        }
        if self.capacity == 0 {
            1
        } else if (self.capacity as usize) < DEFAULT_MAX_IN_FLIGHT_OPENS {
            self.capacity as usize
        } else {
            DEFAULT_MAX_IN_FLIGHT_OPENS
        }
    }

    /// Conservative whole-query admission threshold, not a concurrency limit.
    pub fn max_eligible_files_per_query(&self) -> (result: usize)
        ensures
            result == lesser(DEFAULT_MAX_IN_FLIGHT_OPENS as int, self.holds() as int),
            result <= 64,
            self.holds() >= 64 ==> result == 64,
            self.holds() < 64 ==> result == self.holds(),
    {
        proof {
            use_type_invariant(self);
        }
        if (self.capacity as usize) < DEFAULT_MAX_IN_FLIGHT_OPENS {
            self.capacity as usize
        } else {
            DEFAULT_MAX_IN_FLIGHT_OPENS
        }
    }

    /// Starts counting for a query.
    pub fn begin_query(&self, eligible_files: usize, resident_entries_approx: u64) -> (result:
        ReaderCacheQueryStats)
        ensures
            result == ReaderCacheQueryStats::initial(
                resident_entries_approx,
                eligible_files as u64,
                self.holds(),
                self.limit(),
            ),
    {
        ReaderCacheQueryStats::new(
            resident_entries_approx,
            eligible_files as u64,
            self.capacity,
            self.fd_soft_limit,
        )
    }

    /// The counters at the end of a query.
    pub fn finish_query(&self, stats: &ReaderCacheQueryStats, resident_entries_approx: u64) -> (result:
        ReaderCacheQueryStatsSnapshot)
        ensures
            result == (ReaderCacheQueryStatsSnapshot {
                counters: *stats,
                resident_entries_end_approx: resident_entries_approx,
            }),
    {
        stats.snapshot(resident_entries_approx)
    }

    /// Serves a request for a reader step by step: counts an event and tells
    /// what comes next.
    pub fn get_or_open(&self, stats: &mut ReaderCacheQueryStats, event: CacheEvent) -> (result:
        CacheAction)
        ensures
            result == following_action(event),
            *final(stats) == counted(*old(stats), event),
    {
        match event {
            CacheEvent::Requested => {
                stats.lookup_files = stats.lookup_files.wrapping_add(1);
                CacheAction::LookUp
            },
            CacheEvent::LookedUp { found, lookup_nanos, total_nanos } => {
                stats.lookup_nanos = stats.lookup_nanos.wrapping_add(lookup_nanos);
                if found {
                    stats.hit_files = stats.hit_files.wrapping_add(1);
                    stats.get_or_open_nanos = stats.get_or_open_nanos.wrapping_add(total_nanos);
                    CacheAction::ReturnCached
                } else {
                    CacheAction::Load
                }
            },
            CacheEvent::OpenPermit { granted } => if granted {
                CacheAction::AcquireFd
            } else {
                CacheAction::FailAdmissionClosed
            },
            CacheEvent::FdPermit { granted } => if granted {
                CacheAction::Open
            } else {
                stats.fd_budget_rejections = stats.fd_budget_rejections.wrapping_add(1);
                CacheAction::FailBudgetExhausted
            },
            CacheEvent::Loaded {
                loader_ran,
                failed,
                acquire_nanos,
                physical_open_nanos,
                coordination_nanos,
                total_nanos,
            } => {
                stats.get_or_open_nanos = stats.get_or_open_nanos.wrapping_add(total_nanos);
                if loader_ran {
                    stats.miss_open_files = stats.miss_open_files.wrapping_add(1);
                    stats.acquire_nanos = stats.acquire_nanos.wrapping_add(acquire_nanos);
                    stats.physical_open_nanos = stats.physical_open_nanos.wrapping_add(
                        physical_open_nanos,
                    );
                    if failed {
                        stats.open_failures = stats.open_failures.wrapping_add(1);
                    }
                } else {
                    stats.coalesced_files = stats.coalesced_files.wrapping_add(1);
                    stats.coalesced_wait_nanos = stats.coalesced_wait_nanos.wrapping_add(
                        coordination_nanos,
                    );
                }
                if failed {
                    CacheAction::FailOpen
                } else {
                    CacheAction::ReturnOpened
                }
            },
        }
    }
}

/// The counters after a request that was found in the cache.
pub open spec fn cached_request(
    stats: ReaderCacheQueryStats,
    lookup_nanos: u64,
    total_nanos: u64,
) -> ReaderCacheQueryStats {
    counted(
        counted(stats, CacheEvent::Requested),
        (CacheEvent::LookedUp { found: true, lookup_nanos, total_nanos }),
    )
}

/// The counters after a request that was not found in the cache and then loaded.
pub open spec fn loaded_request(
    stats: ReaderCacheQueryStats,
    lookup_nanos: u64,
    lookup_total_nanos: u64,
    loaded: CacheEvent,
) -> ReaderCacheQueryStats {
    counted(
        counted(
            counted(stats, CacheEvent::Requested),
            (CacheEvent::LookedUp { found: false, lookup_nanos, total_nanos: lookup_total_nanos }),
        ),
        loaded,
    )
}

/// A request that is found in the cache keeps the counters settled.
pub proof fn hits_stay_settled(stats: ReaderCacheQueryStats, lookup_nanos: u64, total_nanos: u64)
    requires
        stats.settled(),
    ensures
        cached_request(stats, lookup_nanos, total_nanos).settled(),
{
}

/// A request that is not found and then loaded keeps the counters settled,
/// whoever ran the loader and however it ended.
pub proof fn loads_stay_settled(
    stats: ReaderCacheQueryStats,
    lookup_nanos: u64,
    lookup_total_nanos: u64,
    loaded: CacheEvent,
)
    requires
        stats.settled(),
        loaded is Loaded,
    ensures
        loaded_request(stats, lookup_nanos, lookup_total_nanos, loaded).settled(),
{
}

/// No more opens failed than were made.
pub open spec fn failures_are_opens(stats: ReaderCacheQueryStats) -> bool {
    stats.open_failures <= stats.miss_open_files
}

/// Whatever happens to a request, no more opens fail than are made.
pub proof fn failures_stay_opens(stats: ReaderCacheQueryStats, event: CacheEvent)
    requires
        failures_are_opens(stats),
        stats.miss_open_files < u64::MAX,
    ensures
        failures_are_opens(counted(stats, event)),
{
}

/// A request that is found in the cache is counted once as a lookup and once as a
/// hit. No open and no failure comes of it.
pub proof fn hits_count_once(stats: ReaderCacheQueryStats, lookup_nanos: u64, total_nanos: u64)
    requires
        stats.lookup_files < u64::MAX,
        stats.hit_files < u64::MAX,
        failures_are_opens(stats),
    ensures
        ({
            let after = cached_request(stats, lookup_nanos, total_nanos);
            &&& after.lookup_files == stats.lookup_files + 1
            &&& after.hit_files == stats.hit_files + 1
            &&& after.miss_open_files == stats.miss_open_files
            &&& after.coalesced_files == stats.coalesced_files
            &&& after.open_failures == stats.open_failures
            &&& failures_are_opens(after)
        }),
{
}

/// A completed request that was not found in the cache is counted once as a
/// lookup and once as an open or a wait. It is counted as a failure exactly where
/// its own loader ran and failed, and no more opens fail than are made.
pub proof fn loads_count_once(
    stats: ReaderCacheQueryStats,
    lookup_nanos: u64,
    lookup_total_nanos: u64,
    loaded: CacheEvent,
)
    requires
        loaded is Loaded,
        stats.lookup_files < u64::MAX,
        stats.miss_open_files < u64::MAX,
        stats.coalesced_files < u64::MAX,
        failures_are_opens(stats),
    ensures
        ({
            let after = loaded_request(stats, lookup_nanos, lookup_total_nanos, loaded);
            &&& after.lookup_files == stats.lookup_files + 1
            &&& after.hit_files == stats.hit_files
            &&& after.miss_open_files == stats.miss_open_files + if loaded->loader_ran {
                1int
            } else {
                0int
            }
            &&& after.coalesced_files == stats.coalesced_files + if loaded->loader_ran {
                0int
            } else {
                1int
            }
            &&& after.open_failures == stats.open_failures + if loaded->loader_ran
                && loaded->failed {
                1int
            } else {
                0int
            }
            &&& failures_are_opens(after)
        }),
{
}

/// A process keeps at most 4096 readers, and at most one for every four files that
/// it may have open.
pub proof fn a_quarter_of_the_files_may_be_kept(fd_soft_limit: u64)
    ensures
        reader_budget(fd_soft_limit) <= 4096,
        4 * reader_budget(fd_soft_limit) <= fd_soft_limit,
        reader_budget(fd_soft_limit) == 4096 || 4 * reader_budget(fd_soft_limit) + 4
            > fd_soft_limit,
{
}

/// Each event has one answer: a request is looked up, a reader that was found is
/// returned and another loaded, which takes a permit to open and a permit to keep.
/// Without either, and where opening fails, the request fails.
pub proof fn events_have_one_answer(event: CacheEvent)
    ensures
        match event {
            CacheEvent::Requested => following_action(event) == CacheAction::LookUp,
            CacheEvent::LookedUp { found, .. } => if found {
                following_action(event) == CacheAction::ReturnCached
            } else {
                following_action(event) == CacheAction::Load
            },
            CacheEvent::OpenPermit { granted } => if granted {
                following_action(event) == CacheAction::AcquireFd
            } else {
                following_action(event) == CacheAction::FailAdmissionClosed
            },
            CacheEvent::FdPermit { granted } => if granted {
                following_action(event) == CacheAction::Open
            } else {
                following_action(event) == CacheAction::FailBudgetExhausted
            },
            CacheEvent::Loaded { failed, .. } => if failed {
                following_action(event) == CacheAction::FailOpen
            } else {
                following_action(event) == CacheAction::ReturnOpened
            },
        },
{
}

/// Two keys name one file exactly where they agree in the store, the path, the size
/// and both numbers of the version.
pub proof fn keys_of_one_file_agree_in_all_parts(
    left: DataFileReaderCacheKey,
    right: DataFileReaderCacheKey,
)
    ensures
        left.same_file(right) <==> {
            &&& left.store == right.store
            &&& left.path@ == right.path@
            &&& left.known_size == right.known_size
            &&& left.file_major_version == right.file_major_version
            &&& left.file_minor_version == right.file_minor_version
        },
        left.parts().0 == left.store,
        left.parts().1 == left.path@,
        left.parts().2 == left.known_size,
        left.parts().3 == left.file_major_version,
        left.parts().4 == left.file_minor_version,
{
}

/// As long as no timer overflows, the times of an event are added to their own
/// timers, and a refused permit to keep a reader is counted.
pub proof fn events_take_their_time(stats: ReaderCacheQueryStats, event: CacheEvent)
    requires
        stats.lookup_nanos < 0x8000_0000_0000_0000,
        stats.get_or_open_nanos < 0x8000_0000_0000_0000,
        stats.coalesced_wait_nanos < 0x8000_0000_0000_0000,
        stats.acquire_nanos < 0x8000_0000_0000_0000,
        stats.physical_open_nanos < 0x8000_0000_0000_0000,
        stats.fd_budget_rejections < u64::MAX,
        match event {
            CacheEvent::LookedUp { lookup_nanos, total_nanos, .. } => lookup_nanos
                < 0x8000_0000_0000_0000 && total_nanos < 0x8000_0000_0000_0000,
            CacheEvent::Loaded {
                acquire_nanos,
                physical_open_nanos,
                coordination_nanos,
                total_nanos,
                ..
            } => acquire_nanos < 0x8000_0000_0000_0000 && physical_open_nanos
                < 0x8000_0000_0000_0000 && coordination_nanos < 0x8000_0000_0000_0000
                && total_nanos < 0x8000_0000_0000_0000,
            _ => true,
        },
    ensures
        ({
            let after = counted(stats, event);
            match event {
                CacheEvent::LookedUp { found, lookup_nanos, total_nanos } => {
                    &&& after.lookup_nanos == stats.lookup_nanos + lookup_nanos
                    &&& after.get_or_open_nanos == stats.get_or_open_nanos + if found {
                        total_nanos as int
                    } else {
                        0
                    }
                },
                CacheEvent::FdPermit { granted } => after.fd_budget_rejections
                    == stats.fd_budget_rejections + if granted {
                    0int
                } else {
                    1int
                },
                CacheEvent::Loaded {
                    loader_ran,
                    acquire_nanos,
                    physical_open_nanos,
                    coordination_nanos,
                    total_nanos,
                    ..
                } => {
                    &&& after.get_or_open_nanos == stats.get_or_open_nanos + total_nanos
                    &&& loader_ran ==> after.acquire_nanos == stats.acquire_nanos + acquire_nanos
                        && after.physical_open_nanos == stats.physical_open_nanos
                        + physical_open_nanos && after.coalesced_wait_nanos
                        == stats.coalesced_wait_nanos
                    &&& !loader_ran ==> after.coalesced_wait_nanos == stats.coalesced_wait_nanos
                        + coordination_nanos && after.acquire_nanos == stats.acquire_nanos
                        && after.physical_open_nanos == stats.physical_open_nanos
                },
                _ => true,
            }
        }),
{
}

/// Readers that are kept and permits that are left make up the budget. Before a limit
/// is known there are none.
pub proof fn permits_complete_the_budget(state: BudgetState, limit: u64)
    ensures
        state.limit is Some ==> state.permits() + state.held == reader_budget(state.limit->0),
        state.limit is None ==> state.permits() == 0,
        state.limit is None ==> state.offered(limit).limit == Some(limit),
        state.limit is Some ==> state.offered(limit) == state,
        state.offered(limit).held == state.held,
{
}

/// A query starts with what is known of the cache, and with nothing counted.
pub proof fn queries_start_with_nothing_counted(
    resident_entries: u64,
    eligible_files: u64,
    capacity: u64,
    fd_soft_limit: u64,
)
    ensures
        ({
            let stats = ReaderCacheQueryStats::initial(
                resident_entries,
                eligible_files,
                capacity,
                fd_soft_limit,
            );
            &&& stats.resident_entries_start_approx == resident_entries
            &&& stats.eligible_files == eligible_files
            &&& stats.capacity == capacity
            &&& stats.fd_soft_limit == fd_soft_limit
            &&& stats.lookup_files == 0 && stats.hit_files == 0 && stats.miss_open_files == 0
            &&& stats.coalesced_files == 0 && stats.bypass_files == 0
            &&& stats.fallback_open_files == 0 && stats.open_failures == 0
            &&& stats.fd_budget_rejections == 0 && stats.lookup_nanos == 0
            &&& stats.get_or_open_nanos == 0 && stats.coalesced_wait_nanos == 0
            &&& stats.acquire_nanos == 0 && stats.physical_open_nanos == 0 && stats.bind_nanos == 0
            &&& stats.settled()
        }),
{
}

} // verus!
