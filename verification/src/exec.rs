//! A complete query over the segments of an index.

use crate::config::DirectResidualConfig;
use crate::database::{
    increasing, kernel_trouble, listed_addresses_are_selected, DatabaseError, DatabaseResult,
    RowAddrMask, Trouble,
};
use crate::hits::{
    check_row_ids, enumerates, fetches, merge_segment_hits, row_count_trouble, rows_to_fetch,
    with_hits, Candidates, ScoredRow,
};
use crate::matrix::{Grid, Matrix};
use crate::metrics::{
    counters_wrap, lengthened, one_if, raised, raised_by, timed, timed_by, timers_take_the_time,
    wrapped, PlaidExecMetrics, ResidualQueryUsage, ResidualSegmentPath,
};
use crate::pipeline::{
    adaptive_fault, all_have_tokens, direct_fault, event_fits, SearchAction, SearchEvent,
};
use crate::policy::{
    count_decision, direct_residual_plan, direct_search_needs_few_documents, precheck,
    small_filter_exact_fallback, underfilled_filter_exact_fallback, DirectResidualDecision,
    DirectResidualPlan, PlaidExecutionMode,
};
use crate::row_mask::{live_rows_stay_selected, plaid_address_mask, stands_for, RowIdIndex};
use crate::search::{smaller, PlaidSearchParams, PlaidSearchStats, SearchHit};
use crate::take::distinct_addresses;
use crate::text::{decimal, push_decimal};
use crate::vector_index::{
    at_least_both, candidate_budgets, candidates_step, desired_count, direct_step,
    is_plaid_index_metadata, listed_ordinals, lowercase, plans_candidates, query_to_array,
    query_trouble, PlaidCandidatePlan, PlaidVectorIndex, Query,
    PLAID_DEFAULT_DECOMPRESS_DOCUMENTS,
};
use vstd::prelude::*;

verus! {

/// What the manifest says of an index segment.
#[derive(Debug)]
pub struct SegmentMetadata {
    /// Name of the index.
    pub name: String,
    /// The text under `lance.plaid` among its hints.
    pub runtime_hint: Option<String>,
}

/// The hints mark a segment as PLAID.
pub open spec fn is_plaid(metadata: SegmentMetadata) -> bool {
    match metadata.runtime_hint {
        Some(value) => lowercase(value@) == "true"@,
        None => false,
    }
}

/// Where the rows that a filter lets through come from.
#[derive(Clone, Copy, Debug, PartialEq, Eq, Structural)]
pub enum PreFilterSource {
    /// There is no filter.
    Unfiltered,
    FilteredRowIds,
    ScalarIndexQuery,
}

/// One physical operator for the complete database-native PLAID query pipeline.
#[derive(Debug)]
pub struct PlaidSearchExec {
    /// Name of the index.
    pub name: String,
    /// Number of segments.
    pub segments: usize,
    pub query: Query,
    pub mode: PlaidExecutionMode,
    pub direct_residual_config: DirectResidualConfig,
}

/// The trouble of a refine factor that cannot be used.
pub open spec fn refine_trouble(query: Query) -> Option<Trouble> {
    match query.refine_factor {
        None => None,
        Some(factor) => if factor == 0 {
            Some(Trouble::InvalidInput("PLAID refine factor must be positive"@))
        } else if query.k * factor > usize::MAX {
            Some(Trouble::InvalidInput("PLAID raw refinement budget overflow"@))
        } else {
            None
        },
    }
}

/// Why segments cannot be searched.
pub open spec fn exec_trouble(indices: Seq<SegmentMetadata>, query: Query) -> Option<Trouble> {
    if indices.len() == 0 {
        Some(Trouble::InvalidInput("PlaidSearchExec requires at least one index segment"@))
    } else if exists|i: int| 0 <= i < indices.len() && !is_plaid(#[trigger] indices[i]) {
        Some(Trouble::InvalidInput("PlaidSearchExec received a non-PLAID index segment"@))
    } else {
        refine_trouble(query)
    }
}

/// A setting and its value, as query plans show them.
pub open spec fn shown(name: Seq<char>, value: Seq<char>) -> Seq<char> {
    name + value
}

fn show(text: &mut String, separator: &str, name: &str, value: &str)
    ensures
        final(text)@ == old(text)@ + separator@ + shown(name@, value@),
{
    text.push_str(separator);
    text.push_str(name);
    text.push_str(value);
    assert(text@ =~= old(text)@ + separator@ + shown(name@, value@));
}

fn show_number(text: &mut String, separator: &str, name: &str, value: u64)
    ensures
        final(text)@ == old(text)@ + separator@ + shown(name@, decimal(value as nat)),
{
    text.push_str(separator);
    text.push_str(name);
    push_decimal(text, value);
    assert(text@ =~= old(text)@ + separator@ + shown(name@, decimal(value as nat)));
}

impl PlaidSearchExec {
    /// Checks the segments of an index and a query.
    pub fn try_new(
        indices: &Vec<SegmentMetadata>,
        query: Query,
        direct_residual_config: DirectResidualConfig,
    ) -> (result: DatabaseResult<PlaidSearchExec>)
        ensures
            match result {
                Ok(exec) => {
                    &&& exec_trouble(indices@, query) is None
                    &&& exec.name@ == indices@[0].name@
                    &&& exec.segments == indices@.len()
                    &&& exec.query == query
                    &&& exec.direct_residual_config == direct_residual_config
                    &&& exec.mode == match query.refine_factor {
                        None => PlaidExecutionMode::IndexOnly,
                        Some(factor) => PlaidExecutionMode::Exact {
                            raw_refinement_budget: (query.k * factor) as usize,
                        },
                    }
                },
                Err(error) => exec_trouble(indices@, query) == Some(error@),
            },
    {
        if indices.len() == 0 {
            return Err(
                DatabaseError::invalid_input("PlaidSearchExec requires at least one index segment"),
            );
        }
        let mut i: usize = 0;
        while i < indices.len()
            invariant
                i <= indices@.len(),
                forall|j: int| 0 <= j < i ==> is_plaid(#[trigger] indices@[j]),
            decreases indices@.len() - i,
        {
            let marked = match &indices[i].runtime_hint {
                Some(value) => is_plaid_index_metadata(Some(value.as_str())),
                None => is_plaid_index_metadata(None),
            };
            if !marked {
                assert(!is_plaid(indices@[i as int]));
                return Err(
                    DatabaseError::invalid_input(
                        "PlaidSearchExec received a non-PLAID index segment",
                    ),
                );
            }
            i += 1;
        }
        let mode = PlaidExecutionMode::try_from_query(&query)?;
        Ok(
            PlaidSearchExec {
                name: indices[0].name.clone(),
                segments: indices.len(),
                query,
                mode,
                direct_residual_config,
            },
        )
    }

    /// The operator as text: a head, and settings with a separator between them.
    pub open spec fn described(self, head: Seq<char>, separator: Seq<char>) -> Seq<char> {
        head + shown("name="@, self.name@) + separator + shown("k="@, decimal(self.query.k as nat))
            + separator + shown("segments="@, decimal(self.segments as nat)) + separator + shown(
            "mode="@,
            match self.mode {
                PlaidExecutionMode::IndexOnly => "index_only"@,
                PlaidExecutionMode::Exact { .. } => "exact"@,
            },
        ) + separator + shown(
            "core_residual_budget="@,
            decimal(
                at_least_both(
                    self.mode.requested(self.query.k as nat),
                    PLAID_DEFAULT_DECOMPRESS_DOCUMENTS as nat,
                ),
            ),
        ) + separator + shown("raw_refinement_budget="@, decimal(self.mode.budget())) + separator
            + shown("filter_exact_fallback="@, "enabled"@) + separator + shown(
            "direct_residual_mode="@,
            if self.direct_residual_config.enabled {
                "enabled"@
            } else {
                "disabled"@
            },
        ) + separator + shown(
            "direct_residual_max_documents="@,
            decimal(self.direct_residual_config.max_documents as nat),
        )
    }

    fn describe(&self, head: &str, separator: &str) -> (result: String)
        ensures
            result@ == self.described(head@, separator@),
    {
        let mut text = head.to_owned();
        text.push_str("name=");
        text.push_str(self.name.as_str());
        assert(text@ =~= head@ + shown("name="@, self.name@));
        show_number(&mut text, separator, "k=", self.query.k as u64);
        show_number(&mut text, separator, "segments=", self.segments as u64);
        show(&mut text, separator, "mode=", self.mode.name());
        show_number(
            &mut text,
            separator,
            "core_residual_budget=",
            self.mode.core_residual_budget(self.query.k) as u64,
        );
        show_number(
            &mut text,
            separator,
            "raw_refinement_budget=",
            self.mode.raw_refinement_budget() as u64,
        );
        show(&mut text, separator, "filter_exact_fallback=", "enabled");
        show(
            &mut text,
            separator,
            "direct_residual_mode=",
            self.direct_residual_config.mode_name(),
        );
        show_number(
            &mut text,
            separator,
            "direct_residual_max_documents=",
            self.direct_residual_config.max_documents as u64,
        );
        text
    }

    /// The operator on one line of a query plan.
    pub fn display(&self) -> (result: String)
        ensures
            result@ == self.described("PlaidSearch: "@, ", "@),
    {
        self.describe("PlaidSearch: ", ", ")
    }

    /// The operator as a node of a rendered tree.
    pub fn display_tree(&self) -> (result: String)
        ensures
            result@ == self.described("PlaidSearch\n"@, "\n"@),
    {
        self.describe("PlaidSearch\n", "\n")
    }

    /// Number of inputs of the operator.
    pub fn child_count(source: PreFilterSource) -> (result: usize)
        ensures
            result == if source == PreFilterSource::Unfiltered {
                0int
            } else {
                1int
            },
    {
        match source {
            PreFilterSource::Unfiltered => 0,
            PreFilterSource::FilteredRowIds => 1,
            PreFilterSource::ScalarIndexQuery => 1,
        }
    }

    /// Checks new inputs of the operator.
    pub fn check_children(source: PreFilterSource, children: usize) -> (result: DatabaseResult<()>)
        ensures
            ({
                let expected = if source == PreFilterSource::Unfiltered {
                    0int
                } else {
                    1int
                };
                match result {
                    Ok(()) => children == expected,
                    Err(error) => children != expected && error@ == Trouble::Internal(
                        "PlaidSearchExec child count does not match its prefilter source"@,
                    ),
                }
            }),
    {
        if children != Self::child_count(source) {
            return Err(
                DatabaseError::internal(
                    "PlaidSearchExec child count does not match its prefilter source",
                ),
            );
        }
        Ok(())
    }
}

/// The rows that a filter lets through, as the filter delivered them.
#[derive(Debug)]
pub struct FilterMask<'a> {
    /// Rows are known by identifiers that stay when rows move.
    pub uses_stable_row_ids: bool,
    /// Where the live rows lie.
    pub row_id_index: Option<&'a RowIdIndex>,
    /// Some fragment has deleted rows.
    pub has_deletions: bool,
    pub mask: RowAddrMask,
}

impl<'a> FilterMask<'a> {
    pub open spec fn wf(self) -> bool {
        &&& self.mask.wf()
        &&& self.row_id_index is Some ==> (self.row_id_index->0).wf()
    }

    /// A mask of addresses stands for what the filter delivered.
    pub open spec fn translates_to(self, mask: RowAddrMask) -> bool {
        if self.uses_stable_row_ids {
            self.row_id_index is Some && stands_for(
                *(self.row_id_index->0),
                self.has_deletions,
                self.mask,
                mask,
            )
        } else {
            mask == self.mask
        }
    }

    /// What is missing.
    pub open spec fn trouble(self) -> Option<Trouble> {
        if self.uses_stable_row_ids && self.row_id_index is None {
            Some(Trouble::Internal("stable-row-id dataset has no row-id index"@))
        } else {
            None
        }
    }
}

/// A query that is being answered.
#[derive(Debug)]
pub struct QueryExecution {
    pub query: Query,
    pub mode: PlaidExecutionMode,
    pub config: DirectResidualConfig,
    /// The query, one row for each token.
    pub tokens: Matrix,
    /// Rows that may be returned.
    pub mask: RowAddrMask,
    pub requested_candidates: usize,
    /// Some rows may not be returned.
    pub filtered: bool,
    /// So few rows may be returned that all of them are scored exactly.
    pub small_filter_exact: bool,
    pub candidates: Candidates,
    pub usage: ResidualQueryUsage,
}

impl QueryExecution {
    pub open spec fn wf(self) -> bool {
        &&& self.mask.wf()
        &&& self.candidates.wf()
        &&& self.requested_candidates == self.mode.requested(self.query.k as nat)
        &&& self.filtered == !self.mask.select_all()
        &&& self.small_filter_exact == (self.mask.listed() is Some && 0 < (
        self.mask.listed()->0).len() <= self.requested_candidates)
    }

    /// Nothing was found yet.
    pub open spec fn fresh(self) -> bool {
        &&& self.candidates@ == Map::<u64, u32>::empty()
        &&& !self.usage.used_direct
        &&& !self.usage.used_legacy
    }

    /// Begins to answer a query. Where the filter lets no row through there is
    /// nothing to search, and the result is empty.
    pub fn begin(
        exec: &PlaidSearchExec,
        values: Option<&[u32]>,
        null_count: usize,
        dimension: usize,
        filter: FilterMask,
        metrics: &mut PlaidExecMetrics,
    ) -> (result: DatabaseResult<Option<QueryExecution>>)
        requires
            filter.wf(),
            dimension > 0,
        ensures
            ({
                let given = match values {
                    Some(values) => Some(values@),
                    None => None,
                };
                let trouble = query_trouble(given, null_count as nat, dimension as nat);
                let begun = old(metrics).after_mode(exec.mode);
                match result {
                    Ok(Some(execution)) => {
                        &&& trouble is None
                        &&& execution.wf()
                        &&& execution.fresh()
                        &&& execution.query == exec.query
                        &&& execution.mode == exec.mode
                        &&& execution.config == exec.direct_residual_config
                        &&& execution.tokens@ == (Grid {
                            rows: (given->0).len() / dimension as nat,
                            columns: dimension as nat,
                            values: given->0,
                        })
                        &&& filter.translates_to(execution.mask)
                        &&& !lists_nothing(execution.mask)
                        &&& *final(metrics) == (PlaidExecMetrics {
                            direct_residual_small_exact_precedence_count: wrapped(
                                begun.direct_residual_small_exact_precedence_count,
                                one_if(execution.small_filter_exact),
                            ),
                            ..begun
                        })
                    },
                    Ok(None) => {
                        &&& trouble is None
                        &&& exists|mask: RowAddrMask| #[trigger]
                            filter.translates_to(mask) && lists_nothing(mask)
                        &&& *final(metrics) == (PlaidExecMetrics {
                            empty_filter_query_count: wrapped(begun.empty_filter_query_count, 1),
                            eligible_centroid_empty_count: wrapped(
                                begun.eligible_centroid_empty_count,
                                exec.segments as nat,
                            ),
                            direct_residual_empty_segment_count: wrapped(
                                begun.direct_residual_empty_segment_count,
                                exec.segments as nat,
                            ),
                            ..begun
                        })
                    },
                    Err(error) => *final(metrics) == begun && if trouble is Some {
                        trouble == Some(error@)
                    } else {
                        filter.trouble() == Some(error@)
                    },
                }
            }),
    {
        metrics.record_mode(exec.mode);
        let tokens = query_to_array(values, null_count, dimension)?;
        let ghost delivered = filter;
        let mask = plaid_address_mask(
            filter.uses_stable_row_ids,
            filter.row_id_index,
            filter.has_deletions,
            filter.mask,
        )?;
        assert(delivered.translates_to(mask));
        let max_len = mask.max_len();
        if let Some(count) = max_len {
            if count == 0 {
                metrics.empty_filter_query_count = raised(metrics.empty_filter_query_count, 1);
                metrics.eligible_centroid_empty_count =
                raised(metrics.eligible_centroid_empty_count, exec.segments as u64);
                metrics.direct_residual_empty_segment_count =
                raised(metrics.direct_residual_empty_segment_count, exec.segments as u64);
                assert(lists_nothing(mask));
                return Ok(None);
            }
        }
        let requested_candidates: usize = exec.mode.requested_candidates(exec.query.k);
        let small_filter_exact = small_filter_exact_fallback(max_len, requested_candidates);
        let filtered = !mask.is_select_all();
        if small_filter_exact {
            metrics.direct_residual_small_exact_precedence_count =
            raised(metrics.direct_residual_small_exact_precedence_count, 1);
        }
        Ok(
            Some(
                QueryExecution {
                    query: exec.query,
                    mode: exec.mode,
                    config: exec.direct_residual_config,
                    tokens,
                    mask,
                    requested_candidates,
                    filtered,
                    small_filter_exact,
                    candidates: Candidates::new(),
                    usage: ResidualQueryUsage::default(),
                },
            ),
        )
    }
}

/// The mask lists its rows, and there are none.
pub open spec fn lists_nothing(mask: RowAddrMask) -> bool {
    mask.listed() is Some && (mask.listed()->0).len() == 0
}

/// How one segment is being searched.
#[derive(Debug)]
pub enum SegmentSearch {
    /// All listed documents are scored.
    Direct { document_ordinals: Vec<u32>, params: PlaidSearchParams },
    /// The filter lists no row of the segment.
    Empty,
    /// The segment is probed, for this reason.
    Legacy { plan: PlaidCandidatePlan, decision: DirectResidualDecision },
}

impl QueryExecution {
    /// What rules out a direct search before the segment is looked at.
    pub open spec fn early_decision(self) -> Option<DirectResidualDecision> {
        precheck(self.config, self.query.maximum_nprobes, self.filtered)
    }

    /// The documents of a segment that the mask lists, where it lists its rows.
    pub open spec fn listed_in(self, index: PlaidVectorIndex) -> Option<Seq<u32>> {
        match self.mask.listed() {
            Some(addresses) => Some(listed_ordinals(index@, addresses)),
            None => None,
        }
    }

    /// What the number of listed documents decides.
    pub open spec fn late_decision(self, index: PlaidVectorIndex) -> DirectResidualDecision {
        count_decision(
            self.config,
            self.requested_candidates as nat,
            match self.listed_in(index) {
                Some(list) => Some(list.len()),
                None => None,
            },
        )
    }

    /// The segment is to be searched directly as far as the policy goes.
    pub open spec fn goes_direct(self, index: PlaidVectorIndex) -> bool {
        self.early_decision() is None && self.late_decision(index)
            == DirectResidualDecision::Direct
    }

    /// A search of a segment stays with the rows of the query: a direct one scores
    /// the listed documents, and a probing one has a plan of the segment's own.
    pub open spec fn searches(self, index: PlaidVectorIndex, search: SegmentSearch) -> bool {
        match search {
            SegmentSearch::Direct { document_ordinals, .. } => self.listed_in(index) == Some(
                document_ordinals@,
            ),
            SegmentSearch::Empty => true,
            SegmentSearch::Legacy { plan, .. } => plan.eligible_centroids@.belongs(
                index.identity(),
                index@.centroids.rows,
            ),
        }
    }

    /// Whether segments are searched at all. Where so few rows may be returned
    /// that all of them are scored exactly, segments are opened but not searched.
    pub fn searches_segments(&self) -> (result: bool)
        ensures
            result == !self.small_filter_exact,
    {
        !self.small_filter_exact
    }

    /// Decides how a segment is searched. A direct search falls back to probing
    /// where a listed document has no tokens.
    pub fn open_segment(&self, index: &PlaidVectorIndex) -> (result: DatabaseResult<SegmentSearch>)
        requires
            self.wf(),
            !self.small_filter_exact,
        ensures
            result is Ok ==> self.searches(*index, result->Ok_0),
            match result {
                Ok(SegmentSearch::Direct { document_ordinals, params }) => {
                    &&& self.goes_direct(*index)
                    &&& self.listed_in(*index) == Some(document_ordinals@)
                    &&& all_have_tokens(index@, document_ordinals@)
                    &&& direct_fault(index@, self.tokens@, document_ordinals@) is None
                    &&& params == candidate_budgets(
                        self.requested_candidates as nat,
                        document_ordinals@.len(),
                        1,
                    )
                },
                Ok(SegmentSearch::Empty) => self.early_decision() is None && self.late_decision(
                    *index,
                ) == DirectResidualDecision::EmptySegment,
                Ok(SegmentSearch::Legacy { plan, decision }) => {
                    &&& plans_candidates(
                        index@,
                        index.identity(),
                        self.query,
                        self.requested_candidates as nat,
                        self.tokens@.rows,
                        self.mask,
                        plan,
                    )
                    &&& plan.total_plan_nanos == 0
                    &&& if self.early_decision() is Some {
                        self.early_decision() == Some(decision)
                    } else if self.goes_direct(*index) {
                        decision == DirectResidualDecision::EmptyTokens && !all_have_tokens(
                            index@,
                            self.listed_in(*index)->0,
                        )
                    } else {
                        decision == self.late_decision(*index) && decision
                            != DirectResidualDecision::EmptySegment
                    }
                },
                Err(error) => {
                    let fault = direct_fault(index@, self.tokens@, self.listed_in(*index)->0);
                    &&& self.goes_direct(*index)
                    &&& fault is Some
                    &&& error@ == kernel_trouble(fault->0)
                },
            },
    {
        let decision = match direct_residual_plan(
            self.config,
            &self.query,
            self.requested_candidates,
            self.filtered,
            index,
            &self.mask,
        ) {
            DirectResidualPlan::Direct { document_ordinals, params } => {
                let mut stats = PlaidSearchStats::default();
                let first = index.search_quantized_residuals(
                    &self.tokens,
                    document_ordinals.as_slice(),
                    SearchEvent::Started,
                    &mut stats,
                )?;
                if first.is_some() {
                    return Ok(SegmentSearch::Direct { document_ordinals, params });
                }
                DirectResidualDecision::EmptyTokens
            },
            DirectResidualPlan::Empty => {
                return Ok(SegmentSearch::Empty);
            },
            DirectResidualPlan::Legacy(decision) => decision,
        };
        let plan = index.candidate_plan(
            &self.query,
            self.requested_candidates,
            self.tokens.rows(),
            &self.mask,
        )?;
        Ok(SegmentSearch::Legacy { plan, decision })
    }
}

impl QueryExecution {
    /// Counts a segment that is opened.
    pub fn count_segment(metrics: &mut PlaidExecMetrics)
        ensures
            *final(metrics) == (PlaidExecMetrics {
                segments_searched_count: wrapped(old(metrics).segments_searched_count, 1),
                ..*old(metrics)
            }),
    {
        metrics.segments_searched_count = raised(metrics.segments_searched_count, 1);
    }

    /// Goes on with the search of a segment.
    pub fn continue_segment(
        &self,
        index: &PlaidVectorIndex,
        search: &SegmentSearch,
        event: SearchEvent,
        stats: &mut PlaidSearchStats,
    ) -> (result: DatabaseResult<Option<SearchAction>>)
        requires
            self.wf(),
            event_fits(index@, event),
            search is Direct ==> event is Started || event is DocumentsScored,
            event is CentroidsScored && search is Legacy ==> adaptive_fault(
                index@,
                index.identity(),
                self.tokens@,
                search->plan.params,
                Some(search->plan.eligible_centroids@),
            ) is None,
        ensures
            match search {
                SegmentSearch::Direct { document_ordinals, .. } => direct_step(
                    index@,
                    self.tokens@,
                    document_ordinals@,
                    event,
                    *old(stats),
                    result,
                    *final(stats),
                ),
                SegmentSearch::Empty => result == DatabaseResult::<Option<SearchAction>>::Ok(None)
                    && *final(stats) == *old(stats),
                SegmentSearch::Legacy { plan, .. } => match result {
                    Ok(Some(action)) => candidates_step(
                        index@,
                        index.identity(),
                        self.tokens@,
                        *plan,
                        desired_count(index@, *plan),
                        self.mask,
                        event,
                        *old(stats),
                        Ok(action),
                        *final(stats),
                    ),
                    Ok(None) => false,
                    Err(error) => candidates_step(
                        index@,
                        index.identity(),
                        self.tokens@,
                        *plan,
                        desired_count(index@, *plan),
                        self.mask,
                        event,
                        *old(stats),
                        Err(error),
                        *final(stats),
                    ),
                },
            },
    {
        match search {
            SegmentSearch::Direct { document_ordinals, .. } => index.search_quantized_residuals(
                &self.tokens,
                document_ordinals.as_slice(),
                event,
                stats,
            ),
            SegmentSearch::Empty => Ok(None),
            SegmentSearch::Legacy { plan, .. } => {
                let desired: usize = index.desired_candidates(plan);
                match index.search_candidates(&self.tokens, plan, desired, &self.mask, event, stats) {
                    Ok(action) => Ok(Some(action)),
                    Err(error) => Err(error),
                }
            },
        }
    }
}

/// What came of searching one segment.
#[derive(Debug)]
pub enum SegmentSearchOutcome {
    Direct {
        hits: Vec<SearchHit>,
        stats: PlaidSearchStats,
        documents: usize,
        n_full_scores: usize,
        attempt_nanos: u64,
    },
    Empty,
    Legacy {
        hits: Vec<SearchHit>,
        stats: PlaidSearchStats,
        plan: PlaidCandidatePlan,
        direct_decision: DirectResidualDecision,
        direct_attempt_nanos: Option<u64>,
    },
}

impl SegmentSearch {
    /// What came of the search, once its hits are known and the time that it
    /// took. A direct attempt that fell back to probing took time too.
    pub fn finished(self, hits: Vec<SearchHit>, stats: PlaidSearchStats, attempt_nanos: u64) -> (result:
        SegmentSearchOutcome)
        ensures
            match self {
                SegmentSearch::Direct { document_ordinals, params } => result
                    == (SegmentSearchOutcome::Direct {
                    hits,
                    stats,
                    documents: document_ordinals.len(),
                    n_full_scores: params.n_full_scores,
                    attempt_nanos,
                }),
                SegmentSearch::Empty => result == SegmentSearchOutcome::Empty,
                SegmentSearch::Legacy { plan, decision } => result
                    == (SegmentSearchOutcome::Legacy {
                    hits,
                    stats,
                    plan,
                    direct_decision: decision,
                    direct_attempt_nanos: if decision == DirectResidualDecision::EmptyTokens {
                        Some(attempt_nanos)
                    } else {
                        None
                    },
                }),
            },
    {
        match self {
            SegmentSearch::Direct { document_ordinals, params } => SegmentSearchOutcome::Direct {
                hits,
                stats,
                documents: document_ordinals.len(),
                n_full_scores: params.n_full_scores,
                attempt_nanos,
            },
            SegmentSearch::Empty => SegmentSearchOutcome::Empty,
            SegmentSearch::Legacy { plan, decision } => {
                let direct_attempt_nanos: Option<u64> = if decision
                    == DirectResidualDecision::EmptyTokens {
                    Some(attempt_nanos)
                } else {
                    None
                };
                SegmentSearchOutcome::Legacy {
                    hits,
                    stats,
                    plan,
                    direct_decision: decision,
                    direct_attempt_nanos,
                }
            },
        }
    }
}

impl SegmentSearchOutcome {
    /// The hits of the segment.
    pub open spec fn hits(self) -> Seq<SearchHit> {
        match self {
            SegmentSearchOutcome::Direct { hits, .. } => hits@,
            SegmentSearchOutcome::Empty => Seq::empty(),
            SegmentSearchOutcome::Legacy { hits, .. } => hits@,
        }
    }

    /// Which way the segment was searched.
    pub open spec fn path(self) -> ResidualSegmentPath {
        match self {
            SegmentSearchOutcome::Direct { .. } => ResidualSegmentPath::Direct,
            SegmentSearchOutcome::Empty => ResidualSegmentPath::Empty,
            SegmentSearchOutcome::Legacy { .. } => ResidualSegmentPath::Legacy,
        }
    }

    /// The metrics once the segment is counted.
    pub open spec fn recorded(self, metrics: PlaidExecMetrics) -> PlaidExecMetrics {
        match self {
            SegmentSearchOutcome::Direct { stats, documents, n_full_scores, attempt_nanos, .. } => {
                let decided = metrics.after_decision(DirectResidualDecision::Direct);
                (PlaidExecMetrics {
                    direct_residual_document_count: wrapped(
                        decided.direct_residual_document_count,
                        documents as nat,
                    ),
                    direct_residual: timed(decided.direct_residual, attempt_nanos),
                    core_approximate_budget_count: wrapped(
                        decided.core_approximate_budget_count,
                        n_full_scores as nat,
                    ),
                    core_residual_budget_count: wrapped(
                        decided.core_residual_budget_count,
                        documents as nat,
                    ),
                    ..decided
                }).after_core(stats)
            },
            SegmentSearchOutcome::Empty => metrics.after_decision(
                DirectResidualDecision::EmptySegment,
            ),
            SegmentSearchOutcome::Legacy {
                stats,
                plan,
                direct_decision,
                direct_attempt_nanos,
                ..
            } => {
                let decided = metrics.after_decision(direct_decision);
                (PlaidExecMetrics {
                    direct_residual: match direct_attempt_nanos {
                        Some(nanos) => timed(decided.direct_residual, nanos),
                        None => decided.direct_residual,
                    },
                    core_approximate_budget_count: wrapped(
                        decided.core_approximate_budget_count,
                        plan.params.n_full_scores as nat,
                    ),
                    core_residual_budget_count: wrapped(
                        decided.core_residual_budget_count,
                        plan.params.top_k as nat,
                    ),
                    ..decided
                }).after_plan(plan.eligible_centroids@, plan.total_plan_nanos).after_core(stats)
            },
        }
    }
}

impl QueryExecution {
    /// What stays the same while segments are searched.
    pub open spec fn same_query(self, other: QueryExecution) -> bool {
        &&& self.query == other.query
        &&& self.mode == other.mode
        &&& self.config == other.config
        &&& self.tokens == other.tokens
        &&& self.mask == other.mask
        &&& self.requested_candidates == other.requested_candidates
        &&& self.filtered == other.filtered
        &&& self.small_filter_exact == other.small_filter_exact
    }

    /// The hits of one segment are taken in.
    pub open spec fn takes_in(self, before: QueryExecution, hits: Seq<SearchHit>) -> bool {
        self.same_query(before) && self.candidates@ == with_hits(before.candidates@, hits)
    }

    /// Takes in what came of one segment.
    pub fn record_segment(&mut self, outcome: SegmentSearchOutcome, metrics: &mut PlaidExecMetrics)
        requires
            old(self).wf(),
        ensures
            final(self).wf(),
            final(self).takes_in(*old(self), outcome.hits()),
            final(self).usage == old(self).usage.with(outcome.path()),
            *final(metrics) == outcome.recorded(*old(metrics)),
    {
        match outcome {
            SegmentSearchOutcome::Direct { hits, stats, documents, n_full_scores, attempt_nanos } => {
                self.usage.observe(ResidualSegmentPath::Direct);
                metrics.record_direct_residual_decision(DirectResidualDecision::Direct);
                metrics.direct_residual_document_count =
                raised(metrics.direct_residual_document_count, documents as u64);
                metrics.direct_residual = lengthened(metrics.direct_residual, attempt_nanos);
                metrics.core_approximate_budget_count =
                raised(metrics.core_approximate_budget_count, n_full_scores as u64);
                metrics.core_residual_budget_count =
                raised(metrics.core_residual_budget_count, documents as u64);
                metrics.record_core(&stats);
                merge_segment_hits(&mut self.candidates, &hits);
            },
            SegmentSearchOutcome::Empty => {
                self.usage.observe(ResidualSegmentPath::Empty);
                metrics.record_direct_residual_decision(DirectResidualDecision::EmptySegment);
            },
            SegmentSearchOutcome::Legacy {
                hits,
                stats,
                plan,
                direct_decision,
                direct_attempt_nanos,
            } => {
                self.usage.observe(ResidualSegmentPath::Legacy);
                if let Some(nanos) = direct_attempt_nanos {
                    metrics.direct_residual = lengthened(metrics.direct_residual, nanos);
                }
                metrics.record_direct_residual_decision(direct_decision);
                metrics.core_approximate_budget_count =
                raised(metrics.core_approximate_budget_count, plan.params.n_full_scores as u64);
                metrics.core_residual_budget_count =
                raised(metrics.core_residual_budget_count, plan.params.top_k as u64);
                metrics.record_eligible_centroid_plan(&plan);
                metrics.record_core(&stats);
                merge_segment_hits(&mut self.candidates, &hits);
            },
        }
    }

    /// A row of one of the segments that the mask selects.
    pub open spec fn eligible(self, indices: Seq<&PlaidVectorIndex>, address: u64) -> bool {
        self.mask.selects(address) && exists|j: int|
            0 <= j < indices.len() && (#[trigger] indices[j])@.row_addresses.contains(address)
    }

    /// The eligible rows of all segments, each once and in ascending order.
    pub open spec fn lists_eligible(self, indices: Seq<&PlaidVectorIndex>, addresses: Seq<u64>) -> bool {
        &&& increasing(addresses)
        &&& forall|address: u64| #[trigger]
            addresses.contains(address) <==> self.eligible(indices, address)
    }

    fn eligible_addresses(&self, indices: &Vec<&PlaidVectorIndex>) -> (result: Vec<u64>)
        requires
            self.wf(),
        ensures
            self.lists_eligible(indices@, result@),
    {
        let mut addresses: Vec<u64> = Vec::new();
        let mut i: usize = 0;
        while i < indices.len()
            invariant
                self.wf(),
                i <= indices@.len(),
                forall|address: u64| #[trigger]
                    addresses@.contains(address) <==> self.mask.selects(address) && exists|j: int|
                        0 <= j < i && (#[trigger] indices@[j])@.row_addresses.contains(address),
            decreases indices@.len() - i,
        {
            let ghost before = addresses@;
            let more = indices[i].eligible_row_addresses(&self.mask);
            proof {
                eligible_rows_of(self.mask, indices@[i as int]@.row_addresses, more@);
            }
            addresses.extend_from_slice(more.as_slice());
            proof {
                assert(addresses@ =~= before + more@);
                assert forall|address: u64| #[trigger]
                    addresses@.contains(address) <==> self.mask.selects(address) && exists|j: int|
                        0 <= j < i + 1 && (#[trigger] indices@[j])@.row_addresses.contains(
                            address,
                        ) by {
                    if addresses@.contains(address) {
                        let p = choose|p: int| 0 <= p < addresses@.len() && addresses@[p] == address;
                        if p < before.len() {
                            assert(before[p] == address);
                            assert(before.contains(address));
                        } else {
                            assert(more@[p - before.len()] == address);
                            assert(more@.contains(address));
                            assert(indices@[i as int]@.row_addresses.contains(address));
                        }
                    }
                    if self.mask.selects(address) && exists|j: int|
                        0 <= j < i + 1 && (#[trigger] indices@[j])@.row_addresses.contains(address) {
                        let j = choose|j: int|
                            0 <= j < i + 1 && (#[trigger] indices@[j])@.row_addresses.contains(
                                address,
                            );
                        if j < i {
                            assert(before.contains(address));
                            let p = choose|p: int| 0 <= p < before.len() && before[p] == address;
                            assert(addresses@[p] == address);
                        } else {
                            assert(more@.contains(address));
                            let p = choose|p: int| 0 <= p < more@.len() && more@[p] == address;
                            assert(addresses@[before.len() + p] == address);
                        }
                    }
                }
            }
            i += 1;
        }
        distinct_addresses(&addresses)
    }

    /// Every eligible row is to be scored exactly: so few rows are eligible that
    /// this costs no more than was asked for, or a filtered query found fewer
    /// rows than it could return.
    pub open spec fn falls_back(self, eligible: nat) -> bool {
        self.small_filter_exact || (self.filtered && self.candidates@.dom().len() < smaller(
            self.query.k as nat,
            eligible,
        ))
    }

    /// What settling a query does to its candidates: where it falls back, every
    /// eligible row becomes one, and else they stay. A filtered query has as many
    /// candidates as it can return rows.
    pub open spec fn settles(
        self,
        before: QueryExecution,
        indices: Seq<&PlaidVectorIndex>,
        fell_back: bool,
    ) -> bool {
        &&& self.same_query(before)
        &&& self.candidates@.dom().finite()
        &&& exists|addresses: Seq<u64>|
            {
                &&& #[trigger] before.lists_eligible(indices, addresses)
                &&& fell_back == before.falls_back(addresses.len())
                &&& fell_back ==> self.candidates@.dom() == addresses.to_set()
                &&& fell_back ==> self.candidates@.dom().len() == addresses.len()
                &&& before.filtered ==> self.candidates@.dom().len() >= smaller(
                    before.query.k as nat,
                    addresses.len(),
                )
            }
        &&& fell_back ==> forall|address: u64| #[trigger]
            self.candidates@.dom().contains(address) ==> self.candidates@[address] == 0
        &&& !fell_back ==> self.candidates@ == before.candidates@
    }

    /// Counts the query, and puts every eligible row among the candidates where
    /// the query falls back to scoring them exactly.
    pub fn settle(&mut self, indices: &Vec<&PlaidVectorIndex>, metrics: &mut PlaidExecMetrics) -> (result:
        bool)
        requires
            old(self).wf(),
        ensures
            final(self).wf(),
            final(self).usage == old(self).usage,
            final(self).settles(*old(self), indices@, result),
            ({
                let counted = old(metrics).after_query(old(self).usage);
                *final(metrics) == (PlaidExecMetrics {
                    filter_exact_small_count: wrapped(
                        counted.filter_exact_small_count,
                        one_if(result && old(self).small_filter_exact),
                    ),
                    filter_exact_underfilled_count: wrapped(
                        counted.filter_exact_underfilled_count,
                        one_if(result && !old(self).small_filter_exact),
                    ),
                    filter_exact_documents_count: wrapped(
                        counted.filter_exact_documents_count,
                        if result {
                            final(self).candidates@.dom().len()
                        } else {
                            0
                        },
                    ),
                    ..counted
                })
            }),
    {
        self.usage.record_query_metrics(metrics);
        let found: usize = self.candidates.len();
        let mut exact_addresses: Option<Vec<u64>> = None;
        if self.small_filter_exact {
            exact_addresses = Some(self.eligible_addresses(indices));
        } else if self.filtered && found < self.query.k {
            let eligible = self.eligible_addresses(indices);
            if underfilled_filter_exact_fallback(
                self.filtered,
                found,
                self.query.k,
                eligible.len(),
            ) {
                exact_addresses = Some(eligible);
            } else {
                assert(self.lists_eligible(indices@, eligible@));
                assert(!self.falls_back(eligible@.len()));
            }
        } else {
            proof {
                eligible_rows_can_be_listed(*self, indices@);
                let listed = choose|addresses: Seq<u64>| #[trigger]
                    self.lists_eligible(indices@, addresses);
                assert(!self.falls_back(listed.len()));
            }
        }
        match exact_addresses {
            Some(addresses) => {
                assert(old(self).lists_eligible(indices@, addresses@));
                assert(old(self).falls_back(addresses@.len()));
                self.candidates = Candidates::unscored(&addresses);
                proof {
                    assert(self.candidates@.dom() =~= addresses@.to_set());
                    assert(addresses@.no_duplicates());
                    addresses@.unique_seq_to_set();
                }
                let count: usize = self.candidates.len();
                if self.small_filter_exact {
                    metrics.filter_exact_small_count = raised(metrics.filter_exact_small_count, 1);
                } else {
                    metrics.filter_exact_underfilled_count =
                    raised(metrics.filter_exact_underfilled_count, 1);
                }
                metrics.filter_exact_documents_count =
                raised(metrics.filter_exact_documents_count, count as u64);
                true
            },
            None => false,
        }
    }
}

/// The eligible rows of one segment are those that the mask selects.
proof fn eligible_rows_of(mask: RowAddrMask, indexed: Seq<u64>, eligible: Seq<u64>)
    requires
        eligible == match mask.listed() {
            Some(addresses) => addresses.filter(|address: u64| indexed.contains(address)),
            None => indexed.filter(|address: u64| mask.selects(address)),
        },
    ensures
        forall|address: u64| #[trigger]
            eligible.contains(address) <==> mask.selects(address) && indexed.contains(address),
{
    match mask.listed() {
        Some(addresses) => {
            filtered_addresses(addresses, |address: u64| indexed.contains(address));
            assert forall|address: u64| #[trigger]
                eligible.contains(address) <==> mask.selects(address) && indexed.contains(
                    address,
                ) by {
                listed_addresses_are_selected(mask, address);
            }
        },
        None => {
            filtered_addresses(indexed, |address: u64| mask.selects(address));
        },
    }
}

/// Filtering keeps the addresses that satisfy the condition, and no others.
proof fn filtered_addresses(values: Seq<u64>, wanted: spec_fn(u64) -> bool)
    ensures
        forall|value: u64| #[trigger]
            values.filter(wanted).contains(value) <==> values.contains(value) && wanted(value),
    decreases values.len(),
{
    reveal(Seq::filter);
    if values.len() > 0 {
        let shorter = values.drop_last();
        let last = values.last();
        filtered_addresses(shorter, wanted);
        let kept = values.filter(wanted);
        let earlier = shorter.filter(wanted);
        assert forall|value: u64| #[trigger]
            kept.contains(value) <==> values.contains(value) && wanted(value) by {
            if kept.contains(value) {
                let i = choose|i: int| 0 <= i < kept.len() && kept[i] == value;
                if i < earlier.len() {
                    assert(earlier[i] == value);
                    assert(earlier.contains(value));
                    let k = choose|k: int| 0 <= k < shorter.len() && shorter[k] == value;
                    assert(values[k] == value);
                } else {
                    assert(values[values.len() - 1] == value);
                }
            }
            if values.contains(value) && wanted(value) {
                let k = choose|k: int| 0 <= k < values.len() && values[k] == value;
                if k < shorter.len() {
                    assert(shorter[k] == value);
                    assert(shorter.contains(value));
                    assert(earlier.contains(value));
                    let i = choose|i: int| 0 <= i < earlier.len() && earlier[i] == value;
                    assert(kept[i] == value);
                } else {
                    assert(kept[kept.len() - 1] == value);
                }
            }
        }
    }
}

/// Where a value belongs in an increasing sequence.
proof fn place_of(values: Seq<u64>, value: u64) -> (place: int)
    requires
        increasing(values),
    ensures
        0 <= place <= values.len(),
        forall|i: int| 0 <= i < place ==> #[trigger] values[i] < value,
        forall|i: int| place <= i < values.len() ==> #[trigger] values[i] >= value,
    decreases values.len(),
{
    if values.len() == 0 || values.last() < value {
        assert forall|i: int| 0 <= i < values.len() implies #[trigger] values[i] < value by {
            if i < values.len() - 1 {
                assert(values[i] < values[values.len() - 1]);
            }
        }
        values.len() as int
    } else {
        let shorter = values.drop_last();
        assert forall|i: int, j: int| 0 <= i < j < shorter.len() implies #[trigger] shorter[i]
            < #[trigger] shorter[j] by {
            assert(values[i] < values[j]);
        }
        let place = place_of(shorter, value);
        assert forall|i: int| 0 <= i < place implies #[trigger] values[i] < value by {
            assert(shorter[i] == values[i]);
        }
        assert forall|i: int| place <= i < values.len() implies #[trigger] values[i] >= value by {
            if i < shorter.len() {
                assert(shorter[i] == values[i]);
            }
        }
        place
    }
}

/// The values of a sequence, each once and in ascending order.
proof fn in_ascending_order(values: Seq<u64>) -> (result: Seq<u64>)
    ensures
        increasing(result),
        forall|value: u64| #[trigger] result.contains(value) <==> values.contains(value),
    decreases values.len(),
{
    if values.len() == 0 {
        values
    } else {
        let last = values.last();
        let shorter = values.drop_last();
        let earlier = in_ascending_order(shorter);
        let result = if earlier.contains(last) {
            earlier
        } else {
            let place = place_of(earlier, last);
            assert forall|i: int| place <= i < earlier.len() implies #[trigger] earlier[i]
                > last by {
                assert(earlier.contains(earlier[i]));
            }
            let longer = earlier.insert(place, last);
            assert forall|i: int, j: int| 0 <= i < j < longer.len() implies #[trigger] longer[i]
                < #[trigger] longer[j] by {
                let a = if i < place {
                    i
                } else {
                    i - 1
                };
                let b = if j < place {
                    j
                } else {
                    j - 1
                };
                if i != place && j != place {
                    assert(earlier[a] < earlier[b]);
                }
            }
            longer
        };
        assert forall|value: u64| #[trigger] result.contains(value) <==> values.contains(value) by {
            if result.contains(value) {
                let i = choose|i: int| 0 <= i < result.len() && result[i] == value;
                if value == last {
                    assert(values[values.len() - 1] == value);
                } else {
                    assert(earlier.contains(value)) by {
                        if !earlier.contains(last) {
                            let place = place_of(earlier, last);
                        }
                        assert(earlier.contains(last) || result.len() == earlier.len() + 1);
                        if !earlier.contains(last) {
                            let p = choose|p: int|
                                0 <= p <= earlier.len() && result == earlier.insert(p, last);
                            if i < p {
                                assert(earlier[i] == value);
                            } else {
                                assert(earlier[i - 1] == value);
                            }
                        }
                    }
                    let k = choose|k: int| 0 <= k < shorter.len() && shorter[k] == value;
                    assert(values[k] == value);
                }
            }
            if values.contains(value) {
                let k = choose|k: int| 0 <= k < values.len() && values[k] == value;
                if k < shorter.len() {
                    assert(shorter[k] == value);
                    assert(shorter.contains(value));
                }
                if !earlier.contains(last) {
                    let p = choose|p: int|
                        0 <= p <= earlier.len() && result == earlier.insert(p, last);
                    if value == last {
                        assert(result[p] == value);
                    } else {
                        assert(earlier.contains(value));
                        let i = choose|i: int| 0 <= i < earlier.len() && earlier[i] == value;
                        if i < p {
                            assert(result[i] == value);
                        } else {
                            assert(result[i + 1] == value);
                        }
                    }
                }
            }
        }
        result
    }
}

/// The eligible rows of the first segments, in some order.
proof fn eligible_rows(mask: RowAddrMask, indices: Seq<&PlaidVectorIndex>, count: nat) -> (result: Seq<
    u64,
>)
    requires
        count <= indices.len(),
    ensures
        forall|address: u64| #[trigger]
            result.contains(address) <==> mask.selects(address) && exists|j: int|
                0 <= j < count && (#[trigger] indices[j])@.row_addresses.contains(address),
    decreases count,
{
    if count == 0 {
        Seq::empty()
    } else {
        let last = count - 1;
        let wanted = |address: u64| mask.selects(address);
        let earlier = eligible_rows(mask, indices, last as nat);
        let own = indices[last]@.row_addresses.filter(wanted);
        filtered_addresses(indices[last]@.row_addresses, wanted);
        let result = earlier + own;
        assert forall|address: u64| #[trigger]
            result.contains(address) <==> mask.selects(address) && exists|j: int|
                0 <= j < count && (#[trigger] indices[j])@.row_addresses.contains(address) by {
            if result.contains(address) {
                let p = choose|p: int| 0 <= p < result.len() && result[p] == address;
                if p < earlier.len() {
                    assert(earlier[p] == address);
                    assert(earlier.contains(address));
                } else {
                    assert(own[p - earlier.len()] == address);
                    assert(own.contains(address));
                    assert(indices[last]@.row_addresses.contains(address));
                }
            }
            if mask.selects(address) && exists|j: int|
                0 <= j < count && (#[trigger] indices[j])@.row_addresses.contains(address) {
                let j = choose|j: int|
                    0 <= j < count && (#[trigger] indices[j])@.row_addresses.contains(address);
                if j < last {
                    assert(earlier.contains(address));
                    let p = choose|p: int| 0 <= p < earlier.len() && earlier[p] == address;
                    assert(result[p] == address);
                } else {
                    assert(own.contains(address));
                    let p = choose|p: int| 0 <= p < own.len() && own[p] == address;
                    assert(result[earlier.len() + p] == address);
                }
            }
        }
        result
    }
}

/// The eligible rows of all segments can be listed.
proof fn eligible_rows_can_be_listed(execution: QueryExecution, indices: Seq<&PlaidVectorIndex>)
    ensures
        exists|addresses: Seq<u64>| #[trigger] execution.lists_eligible(indices, addresses),
{
    let all = eligible_rows(execution.mask, indices, indices.len());
    let listed = in_ascending_order(all);
    assert forall|address: u64| #[trigger]
        listed.contains(address) <==> execution.eligible(indices, address) by {
        assert(all.contains(address) <==> execution.eligible(indices, address));
    }
    assert(execution.lists_eligible(indices, listed));
}

/// What remains to be done once all segments are searched.
#[derive(Debug)]
pub enum QueryFinish {
    /// No row was found.
    Empty,
    /// The candidates are the result, once their distances are known.
    IndexOnly(Vec<ScoredRow>),
    /// The stored vectors of these rows are fetched and scored.
    Refine(Vec<u64>),
}

impl QueryExecution {
    /// What remains to be done for the candidates of a query.
    pub open spec fn finishes(self, exact_fallback: bool, finish: QueryFinish) -> bool {
        match finish {
            QueryFinish::Empty => self.candidates@ == Map::<u64, u32>::empty(),
            QueryFinish::IndexOnly(rows) => {
                &&& self.candidates@ != Map::<u64, u32>::empty()
                &&& self.mode == PlaidExecutionMode::IndexOnly
                &&& !exact_fallback
                &&& enumerates(rows@, self.candidates@)
            },
            QueryFinish::Refine(addresses) => {
                &&& self.candidates@ != Map::<u64, u32>::empty()
                &&& self.mode != PlaidExecutionMode::IndexOnly || exact_fallback
                &&& fetches(
                    addresses@,
                    self.candidates@,
                    exact_fallback,
                    self.requested_candidates as nat,
                )
            },
        }
    }

    /// Decides what remains to be done.
    pub fn next(&self, exact_fallback: bool) -> (result: QueryFinish)
        requires
            self.wf(),
        ensures
            self.finishes(exact_fallback, result),
    {
        if self.candidates.len() == 0 {
            proof {
                assert(self.candidates@.dom() =~= Set::<u64>::empty());
                assert(self.candidates@ =~= Map::<u64, u32>::empty());
            }
            return QueryFinish::Empty;
        }
        assert(self.candidates@ != Map::<u64, u32>::empty()) by {
            assert(Map::<u64, u32>::empty().dom().len() == 0);
        }
        if self.mode == PlaidExecutionMode::IndexOnly && !exact_fallback {
            return QueryFinish::IndexOnly(self.candidates.rows());
        }
        QueryFinish::Refine(
            rows_to_fetch(&self.candidates, exact_fallback, self.requested_candidates),
        )
    }
}

/// The identifiers of ranked rows. Without stable identifiers an address is its
/// row's identifier, and nothing was fetched.
pub fn index_only_result_row_ids(
    uses_stable_row_ids: bool,
    row_addresses: &Vec<u64>,
    fetched: &Vec<u64>,
    metrics: &mut PlaidExecMetrics,
) -> (result: DatabaseResult<Vec<u64>>)
    ensures
        *final(metrics) == (PlaidExecMetrics {
            row_id_rows_count: wrapped(
                old(metrics).row_id_rows_count,
                if uses_stable_row_ids {
                    fetched@.len()
                } else {
                    0
                },
            ),
            ..*old(metrics)
        }),
        match result {
            Ok(row_ids) => if uses_stable_row_ids {
                fetched@.len() == row_addresses@.len() && row_ids@ == fetched@
            } else {
                row_ids@ == row_addresses@
            },
            Err(error) => uses_stable_row_ids && fetched@.len() != row_addresses@.len() && error@
                == row_count_trouble(
                "PLAID row-id-only take returned "@,
                fetched@.len(),
                row_addresses@.len(),
            ),
        },
{
    if !uses_stable_row_ids {
        let row_ids = row_addresses.clone();
        assert(row_ids@ =~= row_addresses@);
        return Ok(row_ids);
    }
    assert(fetched@.len() == fetched.len());
    metrics.row_id_rows_count = raised(metrics.row_id_rows_count, fetched.len() as u64);
    check_row_ids(fetched.len(), row_addresses.len())?;
    let row_ids = fetched.clone();
    assert(row_ids@ =~= fetched@);
    Ok(row_ids)
}

/// A search over segments is accepted exactly where there are segments, each of them
/// is marked as PLAID, and the rows to refine can be counted.
pub proof fn accepted_executions_have_plaid_segments(indices: Seq<SegmentMetadata>, query: Query)
    ensures
        exec_trouble(indices, query) is None <==> {
            &&& indices.len() > 0
            &&& forall|i: int|
                0 <= i < indices.len() ==> (#[trigger] indices[i]).runtime_hint is Some
                    && lowercase((indices[i].runtime_hint->0)@) == "true"@
            &&& query.refine_factor is Some ==> 1 <= query.refine_factor->0 && query.k
                * query.refine_factor->0 <= usize::MAX
        },
{
    if exists|i: int| 0 <= i < indices.len() && !is_plaid(#[trigger] indices[i]) {
        let i = choose|i: int| 0 <= i < indices.len() && !is_plaid(#[trigger] indices[i]);
        assert(!(indices[i].runtime_hint is Some && lowercase((indices[i].runtime_hint->0)@)
            == "true"@));
    } else {
        assert forall|i: int| 0 <= i < indices.len() implies (
        #[trigger] indices[i]).runtime_hint is Some && lowercase((indices[i].runtime_hint->0)@)
            == "true"@ by {
            assert(is_plaid(indices[i]));
        }
    }
}

/// All eligible rows are scored exactly where so few rows are listed that all of
/// them are asked for anyway, or where a filtered query found fewer rows than it is
/// to return and fewer than there are.
pub proof fn underfilled_queries_score_all_rows(execution: QueryExecution, eligible: nat)
    requires
        execution.wf(),
    ensures
        execution.falls_back(eligible) <==> {
            ||| execution.mask.listed() is Some && 1 <= (execution.mask.listed()->0).len()
                <= execution.requested_candidates
            ||| !execution.mask.select_all() && execution.candidates@.dom().len()
                < execution.query.k && execution.candidates@.dom().len() < eligible
        },
        execution.requested_candidates >= execution.query.k,
        execution.fresh() ==> forall|address: u64|
            !#[trigger] execution.candidates@.dom().contains(address),
{
}

/// A row is eligible where the mask selects it and some segment holds it.
pub proof fn eligible_rows_are_selected_and_held(
    execution: QueryExecution,
    indices: Seq<&PlaidVectorIndex>,
    addresses: Seq<u64>,
    address: u64,
)
    requires
        execution.lists_eligible(indices, addresses),
    ensures
        addresses.contains(address) <==> execution.mask.selects(address) && exists|j: int|
            0 <= j < indices.len() && (#[trigger] indices[j])@.row_addresses.contains(address),
        forall|i: int, j: int|
            0 <= i < j < addresses.len() ==> #[trigger] addresses[i] < #[trigger] addresses[j],
{
    assert(addresses.contains(address) <==> execution.eligible(indices, address));
}

/// A segment that was searched directly is recorded with its documents, which are
/// its budget too, with the documents that would have been approximated, and with
/// the time that it took.
#[verifier::spinoff_prover]
#[verifier::rlimit(30)]
pub proof fn direct_searches_are_recorded(outcome: SegmentSearchOutcome, metrics: PlaidExecMetrics)
    requires
        outcome is Direct,
    ensures
        ({
            let after = outcome.recorded(metrics);
            let documents = outcome->documents;
            &&& outcome.hits() == (outcome->Direct_hits)@
            &&& outcome.path() == ResidualSegmentPath::Direct
            &&& raised_by(
                metrics.direct_residual_document_count,
                after.direct_residual_document_count,
                documents as int,
            )
            &&& raised_by(
                metrics.core_approximate_budget_count,
                after.core_approximate_budget_count,
                outcome->n_full_scores as int,
            )
            &&& raised_by(
                metrics.core_residual_budget_count,
                after.core_residual_budget_count,
                documents as int,
            )
            &&& timed_by(metrics.direct_residual, after.direct_residual, outcome->attempt_nanos)
        }),
{
    let after = outcome.recorded(metrics);
    let documents = outcome->documents;
    counters_wrap(metrics.direct_residual_document_count, documents as nat);
    counters_wrap(metrics.core_approximate_budget_count, outcome->n_full_scores as nat);
    counters_wrap(metrics.core_residual_budget_count, documents as nat);
    timers_take_the_time(metrics.direct_residual, outcome->attempt_nanos);
}

/// A segment that was probed is recorded with the budgets of its plan, and with the
/// time of a direct attempt where there was one. A segment with no listed row gives
/// no hits and spends no budget.
#[verifier::spinoff_prover]
#[verifier::rlimit(30)]
pub proof fn probing_searches_are_recorded(
    outcome: SegmentSearchOutcome,
    metrics: PlaidExecMetrics,
)
    requires
        !(outcome is Direct),
    ensures
        ({
            let after = outcome.recorded(metrics);
            &&& after.direct_residual_document_count == metrics.direct_residual_document_count
            &&& outcome is Empty ==> {
                &&& outcome.hits().len() == 0
                &&& outcome.path() == ResidualSegmentPath::Empty
                &&& after.core_approximate_budget_count == metrics.core_approximate_budget_count
                &&& after.core_residual_budget_count == metrics.core_residual_budget_count
            }
            &&& outcome is Legacy ==> {
                &&& outcome.hits() == (outcome->Legacy_hits)@
                &&& outcome.path() == ResidualSegmentPath::Legacy
                &&& raised_by(
                    metrics.core_approximate_budget_count,
                    after.core_approximate_budget_count,
                    outcome->plan.params.n_full_scores as int,
                )
                &&& raised_by(
                    metrics.core_residual_budget_count,
                    after.core_residual_budget_count,
                    outcome->plan.params.top_k as int,
                )
                &&& outcome->direct_attempt_nanos is None ==> after.direct_residual
                    == metrics.direct_residual
                &&& outcome->direct_attempt_nanos is Some ==> timed_by(
                    metrics.direct_residual,
                    after.direct_residual,
                    outcome->direct_attempt_nanos->0,
                )
            }
        }),
{
    if outcome is Legacy {
        counters_wrap(
            metrics.core_approximate_budget_count,
            outcome->plan.params.n_full_scores as nat,
        );
        counters_wrap(metrics.core_residual_budget_count, outcome->plan.params.top_k as nat);
        if outcome->direct_attempt_nanos is Some {
            timers_take_the_time(metrics.direct_residual, outcome->direct_attempt_nanos->0);
        }
    }
}

/// A filter keeps its meaning: without stable row ids it is the mask itself, and with
/// them the address of a live row is selected exactly where its row id is.
pub proof fn filters_keep_their_rows(
    filter: FilterMask,
    mask: RowAddrMask,
    row_id: u64,
    address: u64,
)
    requires
        filter.wf(),
        filter.translates_to(mask),
    ensures
        filter.trouble() is None,
        !filter.uses_stable_row_ids ==> (mask.selects(address) <==> filter.mask.selects(address)),
        filter.uses_stable_row_ids && (filter.row_id_index->0).one_to_one() && (
        filter.row_id_index->0).places(row_id, address) ==> (mask.selects(address)
            <==> filter.mask.selects(row_id)),
{
    if filter.uses_stable_row_ids && (filter.row_id_index->0).one_to_one() && (
    filter.row_id_index->0).places(row_id, address) {
        live_rows_stay_selected(
            *(filter.row_id_index->0),
            filter.has_deletions,
            filter.mask,
            mask,
            row_id,
            address,
        );
    }
}

/// A segment is searched directly exactly where that is enabled, the query sets no
/// largest number of probes, and its filter lists some documents of the segment: no
/// more than the limit, and no more than are asked for or 1024.
pub proof fn narrow_queries_search_directly(execution: QueryExecution, index: PlaidVectorIndex)
    requires
        execution.wf(),
        execution.mask.listed() is Some ==> listed_ordinals(
            index@,
            execution.mask.listed()->0,
        ).len() <= usize::MAX,
    ensures
        execution.goes_direct(index) <==> {
            &&& execution.config.enabled
            &&& execution.query.maximum_nprobes is None
            &&& !execution.mask.select_all()
            &&& execution.mask.listed() is Some
            &&& {
                let count = listed_ordinals(index@, execution.mask.listed()->0).len();
                &&& 1 <= count <= execution.config.max_documents
                &&& count <= execution.requested_candidates || count <= 1024
            }
        },
{
    let documents = match execution.listed_in(index) {
        Some(list) => Some(list.len()),
        None => None,
    };
    direct_search_needs_few_documents(
        execution.config,
        execution.requested_candidates as nat,
        documents,
    );
}

} // verus!
