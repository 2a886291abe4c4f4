//! What a query did, counted and timed.

use crate::adaptive::{CentroidPlan, EligibleCentroidDecision};
use crate::policy::{DirectResidualDecision, PlaidExecutionMode};
use crate::search::PlaidSearchStats;
use crate::vector_index::PlaidCandidatePlan;
use vstd::prelude::*;

verus! {

/// Counters and timers of one query. Timers hold nanoseconds, and all of them wrap
/// around.
#[derive(Clone, Copy, Debug, PartialEq, Eq, Structural)]
pub struct PlaidExecMetrics {
    pub filter: u64,
    pub eligible_centroid_plan_total: u64,
    pub eligible_centroid_core_build_sub: u64,
    pub eligible_centroid_selection_sub: u64,
    pub centroid: u64,
    pub postings: u64,
    pub candidate: u64,
    pub approximate: u64,
    pub residual_rerank: u64,
    pub direct_residual: u64,
    pub row_id_fetch: u64,
    pub raw_vector_fetch: u64,
    pub exact: u64,
    pub sort: u64,
    pub total: u64,
    pub postings_count: u64,
    pub centroids_probed_count: u64,
    pub postings_eligible_count: u64,
    pub candidate_count: u64,
    pub approximate_documents_count: u64,
    pub residual_documents_count: u64,
    pub filter_exact_small_count: u64,
    pub filter_exact_underfilled_count: u64,
    pub filter_exact_documents_count: u64,
    pub row_id_rows_count: u64,
    pub raw_vector_rows_count: u64,
    pub index_only_query_count: u64,
    pub exact_query_count: u64,
    pub empty_filter_query_count: u64,
    pub segments_searched_count: u64,
    pub probe_retry_count: u64,
    pub probe_round_count: u64,
    pub configured_probes_count: u64,
    pub final_probes_count: u64,
    pub incremental_centroids_reused_count: u64,
    pub eligible_centroid_enabled_count: u64,
    pub eligible_centroid_empty_count: u64,
    pub eligible_centroid_unfiltered_count: u64,
    pub eligible_centroid_non_enumerable_count: u64,
    pub eligible_centroid_wide_count: u64,
    pub eligible_centroid_cost_count: u64,
    pub eligible_documents_count: u64,
    pub eligible_tokens_count: u64,
    pub eligible_token_codes_scanned_count: u64,
    pub eligible_centroids_count: u64,
    pub estimated_global_postings_count: u64,
    pub core_approximate_budget_count: u64,
    pub core_residual_budget_count: u64,
    pub raw_refinement_budget_count: u64,
    pub direct_residual_query_count: u64,
    pub direct_residual_segment_count: u64,
    pub direct_residual_document_count: u64,
    pub legacy_residual_query_count: u64,
    pub legacy_residual_segment_count: u64,
    pub direct_residual_small_exact_precedence_count: u64,
    pub direct_residual_disabled_count: u64,
    pub direct_residual_explicit_ceiling_count: u64,
    pub direct_residual_unfiltered_count: u64,
    pub direct_residual_non_enumerable_count: u64,
    pub direct_residual_empty_segment_count: u64,
    pub direct_residual_over_limit_count: u64,
    pub direct_residual_budget_mismatch_count: u64,
    pub direct_residual_empty_tokens_count: u64,
}

/// A counter that wraps around.
pub open spec fn wrapped(counter: u64, more: nat) -> u64 {
    ((counter + more) % 0x1_0000_0000_0000_0000) as u64
}

/// A timer after a duration was added. Every duration counts for at least one
/// nanosecond, so that a timer that was used differs from one that was not.
pub open spec fn timed(timer: u64, nanos: u64) -> u64 {
    wrapped(
        timer,
        if nanos == 0 {
            1
        } else {
            nanos as nat
        },
    )
}

/// Nothing was done yet.
pub open spec fn no_metrics() -> PlaidExecMetrics {
    PlaidExecMetrics {
        filter: 0,
        eligible_centroid_plan_total: 0,
        eligible_centroid_core_build_sub: 0,
        eligible_centroid_selection_sub: 0,
        centroid: 0,
        postings: 0,
        candidate: 0,
        approximate: 0,
        residual_rerank: 0,
        direct_residual: 0,
        row_id_fetch: 0,
        raw_vector_fetch: 0,
        exact: 0,
        sort: 0,
        total: 0,
        postings_count: 0,
        centroids_probed_count: 0,
        postings_eligible_count: 0,
        candidate_count: 0,
        approximate_documents_count: 0,
        residual_documents_count: 0,
        filter_exact_small_count: 0,
        filter_exact_underfilled_count: 0,
        filter_exact_documents_count: 0,
        row_id_rows_count: 0,
        raw_vector_rows_count: 0,
        index_only_query_count: 0,
        exact_query_count: 0,
        empty_filter_query_count: 0,
        segments_searched_count: 0,
        probe_retry_count: 0,
        probe_round_count: 0,
        configured_probes_count: 0,
        final_probes_count: 0,
        incremental_centroids_reused_count: 0,
        eligible_centroid_enabled_count: 0,
        eligible_centroid_empty_count: 0,
        eligible_centroid_unfiltered_count: 0,
        eligible_centroid_non_enumerable_count: 0,
        eligible_centroid_wide_count: 0,
        eligible_centroid_cost_count: 0,
        eligible_documents_count: 0,
        eligible_tokens_count: 0,
        eligible_token_codes_scanned_count: 0,
        eligible_centroids_count: 0,
        estimated_global_postings_count: 0,
        core_approximate_budget_count: 0,
        core_residual_budget_count: 0,
        raw_refinement_budget_count: 0,
        direct_residual_query_count: 0,
        direct_residual_segment_count: 0,
        direct_residual_document_count: 0,
        legacy_residual_query_count: 0,
        legacy_residual_segment_count: 0,
        direct_residual_small_exact_precedence_count: 0,
        direct_residual_disabled_count: 0,
        direct_residual_explicit_ceiling_count: 0,
        direct_residual_unfiltered_count: 0,
        direct_residual_non_enumerable_count: 0,
        direct_residual_empty_segment_count: 0,
        direct_residual_over_limit_count: 0,
        direct_residual_budget_mismatch_count: 0,
        direct_residual_empty_tokens_count: 0,
    }
}

/// A metric under the name that it is reported with.
#[derive(Clone, Copy, Debug)]
pub struct NamedMetric {
    pub name: &'static str,
    pub value: u64,
}

/// A counter after a number was added.
pub(crate) fn raised(counter: u64, more: u64) -> (result: u64)
    ensures
        result == wrapped(counter, more as nat),
{
    counter.wrapping_add(more)
}

/// Adds a duration to a timer.
pub fn add_duration(timer: &mut u64, nanos: u64)
    ensures
        *final(timer) == timed(*old(timer), nanos),
{
    *timer = lengthened(*timer, nanos);
}

/// A timer after a duration was added.
pub(crate) fn lengthened(timer: u64, nanos: u64) -> (result: u64)
    ensures
        result == timed(timer, nanos),
{
    if nanos == 0 {
        raised(timer, 1)
    } else {
        raised(timer, nanos)
    }
}

impl PlaidExecMetrics {
    /// Metrics of a query that has not begun.
    pub fn new() -> (result: PlaidExecMetrics)
        ensures
            result == no_metrics(),
    {
        PlaidExecMetrics {
            filter: 0,
            eligible_centroid_plan_total: 0,
            eligible_centroid_core_build_sub: 0,
            eligible_centroid_selection_sub: 0,
            centroid: 0,
            postings: 0,
            candidate: 0,
            approximate: 0,
            residual_rerank: 0,
            direct_residual: 0,
            row_id_fetch: 0,
            raw_vector_fetch: 0,
            exact: 0,
            sort: 0,
            total: 0,
            postings_count: 0,
            centroids_probed_count: 0,
            postings_eligible_count: 0,
            candidate_count: 0,
            approximate_documents_count: 0,
            residual_documents_count: 0,
            filter_exact_small_count: 0,
            filter_exact_underfilled_count: 0,
            filter_exact_documents_count: 0,
            row_id_rows_count: 0,
            raw_vector_rows_count: 0,
            index_only_query_count: 0,
            exact_query_count: 0,
            empty_filter_query_count: 0,
            segments_searched_count: 0,
            probe_retry_count: 0,
            probe_round_count: 0,
            configured_probes_count: 0,
            final_probes_count: 0,
            incremental_centroids_reused_count: 0,
            eligible_centroid_enabled_count: 0,
            eligible_centroid_empty_count: 0,
            eligible_centroid_unfiltered_count: 0,
            eligible_centroid_non_enumerable_count: 0,
            eligible_centroid_wide_count: 0,
            eligible_centroid_cost_count: 0,
            eligible_documents_count: 0,
            eligible_tokens_count: 0,
            eligible_token_codes_scanned_count: 0,
            eligible_centroids_count: 0,
            estimated_global_postings_count: 0,
            core_approximate_budget_count: 0,
            core_residual_budget_count: 0,
            raw_refinement_budget_count: 0,
            direct_residual_query_count: 0,
            direct_residual_segment_count: 0,
            direct_residual_document_count: 0,
            legacy_residual_query_count: 0,
            legacy_residual_segment_count: 0,
            direct_residual_small_exact_precedence_count: 0,
            direct_residual_disabled_count: 0,
            direct_residual_explicit_ceiling_count: 0,
            direct_residual_unfiltered_count: 0,
            direct_residual_non_enumerable_count: 0,
            direct_residual_empty_segment_count: 0,
            direct_residual_over_limit_count: 0,
            direct_residual_budget_mismatch_count: 0,
            direct_residual_empty_tokens_count: 0,
        }
    }

    /// Every time under its name.
    pub open spec fn named_times(self) -> Seq<(Seq<char>, u64)> {
        seq![
            ("plaid_filter_materialization_time"@, self.filter),
            ("plaid_eligible_centroid_plan_total_time"@, self.eligible_centroid_plan_total),
            ("plaid_eligible_centroid_core_build_sub_time"@, self.eligible_centroid_core_build_sub),
            ("plaid_eligible_centroid_selection_sub_time"@, self.eligible_centroid_selection_sub),
            ("plaid_centroid_probe_time"@, self.centroid),
            ("plaid_postings_time"@, self.postings),
            ("plaid_candidate_total_time"@, self.candidate),
            ("plaid_approximate_time"@, self.approximate),
            ("plaid_residual_rerank_time"@, self.residual_rerank),
            ("plaid_direct_residual_time"@, self.direct_residual),
            ("plaid_row_id_only_fetch_time"@, self.row_id_fetch),
            ("plaid_raw_vector_fetch_time"@, self.raw_vector_fetch),
            ("plaid_exact_maxsim_time"@, self.exact),
            ("plaid_sort_time"@, self.sort),
            ("plaid_total_time"@, self.total),
        ]
    }

    /// Every counter under its name.
    pub open spec fn named_counts(self) -> Seq<(Seq<char>, u64)> {
        seq![
            ("plaid_posting_entries"@, self.postings_count),
            ("plaid_centroids_probed"@, self.centroids_probed_count),
            ("plaid_posting_entries_eligible"@, self.postings_eligible_count),
            ("plaid_candidate_documents"@, self.candidate_count),
            ("plaid_approximate_documents"@, self.approximate_documents_count),
            ("plaid_residual_documents"@, self.residual_documents_count),
            ("plaid_filter_exact_small_filter_fallbacks"@, self.filter_exact_small_count),
            ("plaid_filter_exact_underfilled_fallbacks"@, self.filter_exact_underfilled_count),
            ("plaid_filter_exact_documents"@, self.filter_exact_documents_count),
            ("plaid_row_id_only_rows"@, self.row_id_rows_count),
            ("plaid_raw_vector_rows"@, self.raw_vector_rows_count),
            ("plaid_index_only_queries"@, self.index_only_query_count),
            ("plaid_exact_refinement_queries"@, self.exact_query_count),
            ("plaid_empty_filter_queries"@, self.empty_filter_query_count),
            ("plaid_segments_searched"@, self.segments_searched_count),
            ("plaid_probe_retries"@, self.probe_retry_count),
            ("plaid_probe_rounds"@, self.probe_round_count),
            ("plaid_configured_probes"@, self.configured_probes_count),
            ("plaid_final_probes"@, self.final_probes_count),
            ("plaid_incremental_centroids_reused"@, self.incremental_centroids_reused_count),
            ("plaid_eligible_centroid_enabled_segments"@, self.eligible_centroid_enabled_count),
            ("plaid_eligible_centroid_empty_segments"@, self.eligible_centroid_empty_count),
            (
                "plaid_eligible_centroid_skipped_unfiltered_segments"@,
                self.eligible_centroid_unfiltered_count,
            ),
            (
                "plaid_eligible_centroid_skipped_non_enumerable_segments"@,
                self.eligible_centroid_non_enumerable_count,
            ),
            ("plaid_eligible_centroid_skipped_wide_segments"@, self.eligible_centroid_wide_count),
            ("plaid_eligible_centroid_skipped_cost_segments"@, self.eligible_centroid_cost_count),
            ("plaid_eligible_documents"@, self.eligible_documents_count),
            ("plaid_eligible_tokens"@, self.eligible_tokens_count),
            ("plaid_eligible_token_codes_scanned"@, self.eligible_token_codes_scanned_count),
            ("plaid_eligible_centroids"@, self.eligible_centroids_count),
            ("plaid_estimated_global_postings"@, self.estimated_global_postings_count),
            ("plaid_core_approximate_budget"@, self.core_approximate_budget_count),
            ("plaid_core_residual_budget"@, self.core_residual_budget_count),
            ("plaid_raw_refinement_budget"@, self.raw_refinement_budget_count),
            ("plaid_direct_residual_queries"@, self.direct_residual_query_count),
            ("plaid_direct_residual_segments"@, self.direct_residual_segment_count),
            ("plaid_direct_residual_documents"@, self.direct_residual_document_count),
            ("plaid_legacy_residual_queries"@, self.legacy_residual_query_count),
            ("plaid_legacy_residual_segments"@, self.legacy_residual_segment_count),
            (
                "plaid_direct_residual_small_exact_precedence_queries"@,
                self.direct_residual_small_exact_precedence_count,
            ),
            (
                "plaid_direct_residual_skipped_disabled_segments"@,
                self.direct_residual_disabled_count,
            ),
            (
                "plaid_direct_residual_skipped_explicit_ceiling_segments"@,
                self.direct_residual_explicit_ceiling_count,
            ),
            (
                "plaid_direct_residual_skipped_unfiltered_segments"@,
                self.direct_residual_unfiltered_count,
            ),
            (
                "plaid_direct_residual_skipped_non_enumerable_segments"@,
                self.direct_residual_non_enumerable_count,
            ),
            (
                "plaid_direct_residual_skipped_empty_segments"@,
                self.direct_residual_empty_segment_count,
            ),
            (
                "plaid_direct_residual_skipped_over_limit_segments"@,
                self.direct_residual_over_limit_count,
            ),
            (
                "plaid_direct_residual_skipped_budget_mismatch_segments"@,
                self.direct_residual_budget_mismatch_count,
            ),
            (
                "plaid_direct_residual_skipped_empty_tokens_segments"@,
                self.direct_residual_empty_tokens_count,
            ),
        ]
    }

    /// Every time under the name that it is reported with.
    pub fn times(&self) -> (result: Vec<NamedMetric>)
        ensures
            result@.map_values(|one: NamedMetric| (one.name@, one.value)) == self.named_times(),
    {
        let mut times: Vec<NamedMetric> = Vec::new();
        times.push(NamedMetric { name: "plaid_filter_materialization_time", value: self.filter });
        times.push(
            NamedMetric {
                name: "plaid_eligible_centroid_plan_total_time",
                value: self.eligible_centroid_plan_total,
            },
        );
        times.push(
            NamedMetric {
                name: "plaid_eligible_centroid_core_build_sub_time",
                value: self.eligible_centroid_core_build_sub,
            },
        );
        times.push(
            NamedMetric {
                name: "plaid_eligible_centroid_selection_sub_time",
                value: self.eligible_centroid_selection_sub,
            },
        );
        times.push(NamedMetric { name: "plaid_centroid_probe_time", value: self.centroid });
        times.push(NamedMetric { name: "plaid_postings_time", value: self.postings });
        times.push(NamedMetric { name: "plaid_candidate_total_time", value: self.candidate });
        times.push(NamedMetric { name: "plaid_approximate_time", value: self.approximate });
        times.push(NamedMetric { name: "plaid_residual_rerank_time", value: self.residual_rerank });
        times.push(NamedMetric { name: "plaid_direct_residual_time", value: self.direct_residual });
        times.push(NamedMetric { name: "plaid_row_id_only_fetch_time", value: self.row_id_fetch });
        times.push(
            NamedMetric { name: "plaid_raw_vector_fetch_time", value: self.raw_vector_fetch },
        );
        times.push(NamedMetric { name: "plaid_exact_maxsim_time", value: self.exact });
        times.push(NamedMetric { name: "plaid_sort_time", value: self.sort });
        times.push(NamedMetric { name: "plaid_total_time", value: self.total });
        assert(times@.map_values(|one: NamedMetric| (one.name@, one.value)) =~= self.named_times());
        times
    }

    /// Every counter under the name that it is reported with.
    #[verifier::rlimit(60)]
    pub fn counts(&self) -> (result: Vec<NamedMetric>)
        ensures
            result@.map_values(|one: NamedMetric| (one.name@, one.value)) == self.named_counts(),
    {
        let mut counts: Vec<NamedMetric> = Vec::new();
        counts.push(NamedMetric { name: "plaid_posting_entries", value: self.postings_count });
        counts.push(
            NamedMetric { name: "plaid_centroids_probed", value: self.centroids_probed_count },
        );
        counts.push(
            NamedMetric {
                name: "plaid_posting_entries_eligible",
                value: self.postings_eligible_count,
            },
        );
        counts.push(NamedMetric { name: "plaid_candidate_documents", value: self.candidate_count });
        counts.push(
            NamedMetric {
                name: "plaid_approximate_documents",
                value: self.approximate_documents_count,
            },
        );
        counts.push(
            NamedMetric { name: "plaid_residual_documents", value: self.residual_documents_count },
        );
        counts.push(
            NamedMetric {
                name: "plaid_filter_exact_small_filter_fallbacks",
                value: self.filter_exact_small_count,
            },
        );
        counts.push(
            NamedMetric {
                name: "plaid_filter_exact_underfilled_fallbacks",
                value: self.filter_exact_underfilled_count,
            },
        );
        counts.push(
            NamedMetric {
                name: "plaid_filter_exact_documents",
                value: self.filter_exact_documents_count,
            },
        );
        counts.push(NamedMetric { name: "plaid_row_id_only_rows", value: self.row_id_rows_count });
        counts.push(
            NamedMetric { name: "plaid_raw_vector_rows", value: self.raw_vector_rows_count },
        );
        counts.push(
            NamedMetric { name: "plaid_index_only_queries", value: self.index_only_query_count },
        );
        counts.push(
            NamedMetric { name: "plaid_exact_refinement_queries", value: self.exact_query_count },
        );
        counts.push(
            NamedMetric {
                name: "plaid_empty_filter_queries",
                value: self.empty_filter_query_count,
            },
        );
        counts.push(
            NamedMetric { name: "plaid_segments_searched", value: self.segments_searched_count },
        );
        counts.push(NamedMetric { name: "plaid_probe_retries", value: self.probe_retry_count });
        counts.push(NamedMetric { name: "plaid_probe_rounds", value: self.probe_round_count });
        counts.push(
            NamedMetric { name: "plaid_configured_probes", value: self.configured_probes_count },
        );
        counts.push(NamedMetric { name: "plaid_final_probes", value: self.final_probes_count });
        counts.push(
            NamedMetric {
                name: "plaid_incremental_centroids_reused",
                value: self.incremental_centroids_reused_count,
            },
        );
        counts.push(
            NamedMetric {
                name: "plaid_eligible_centroid_enabled_segments",
                value: self.eligible_centroid_enabled_count,
            },
        );
        counts.push(
            NamedMetric {
                name: "plaid_eligible_centroid_empty_segments",
                value: self.eligible_centroid_empty_count,
            },
        );
        counts.push(
            NamedMetric {
                name: "plaid_eligible_centroid_skipped_unfiltered_segments",
                value: self.eligible_centroid_unfiltered_count,
            },
        );
        counts.push(
            NamedMetric {
                name: "plaid_eligible_centroid_skipped_non_enumerable_segments",
                value: self.eligible_centroid_non_enumerable_count,
            },
        );
        counts.push(
            NamedMetric {
                name: "plaid_eligible_centroid_skipped_wide_segments",
                value: self.eligible_centroid_wide_count,
            },
        );
        counts.push(
            NamedMetric {
                name: "plaid_eligible_centroid_skipped_cost_segments",
                value: self.eligible_centroid_cost_count,
            },
        );
        counts.push(
            NamedMetric { name: "plaid_eligible_documents", value: self.eligible_documents_count },
        );
        counts.push(
            NamedMetric { name: "plaid_eligible_tokens", value: self.eligible_tokens_count },
        );
        counts.push(
            NamedMetric {
                name: "plaid_eligible_token_codes_scanned",
                value: self.eligible_token_codes_scanned_count,
            },
        );
        counts.push(
            NamedMetric { name: "plaid_eligible_centroids", value: self.eligible_centroids_count },
        );
        counts.push(
            NamedMetric {
                name: "plaid_estimated_global_postings",
                value: self.estimated_global_postings_count,
            },
        );
        counts.push(
            NamedMetric {
                name: "plaid_core_approximate_budget",
                value: self.core_approximate_budget_count,
            },
        );
        counts.push(
            NamedMetric {
                name: "plaid_core_residual_budget",
                value: self.core_residual_budget_count,
            },
        );
        counts.push(
            NamedMetric {
                name: "plaid_raw_refinement_budget",
                value: self.raw_refinement_budget_count,
            },
        );
        counts.push(
            NamedMetric {
                name: "plaid_direct_residual_queries",
                value: self.direct_residual_query_count,
            },
        );
        counts.push(
            NamedMetric {
                name: "plaid_direct_residual_segments",
                value: self.direct_residual_segment_count,
            },
        );
        counts.push(
            NamedMetric {
                name: "plaid_direct_residual_documents",
                value: self.direct_residual_document_count,
            },
        );
        counts.push(
            NamedMetric {
                name: "plaid_legacy_residual_queries",
                value: self.legacy_residual_query_count,
            },
        );
        counts.push(
            NamedMetric {
                name: "plaid_legacy_residual_segments",
                value: self.legacy_residual_segment_count,
            },
        );
        counts.push(
            NamedMetric {
                name: "plaid_direct_residual_small_exact_precedence_queries",
                value: self.direct_residual_small_exact_precedence_count,
            },
        );
        counts.push(
            NamedMetric {
                name: "plaid_direct_residual_skipped_disabled_segments",
                value: self.direct_residual_disabled_count,
            },
        );
        counts.push(
            NamedMetric {
                name: "plaid_direct_residual_skipped_explicit_ceiling_segments",
                value: self.direct_residual_explicit_ceiling_count,
            },
        );
        counts.push(
            NamedMetric {
                name: "plaid_direct_residual_skipped_unfiltered_segments",
                value: self.direct_residual_unfiltered_count,
            },
        );
        counts.push(
            NamedMetric {
                name: "plaid_direct_residual_skipped_non_enumerable_segments",
                value: self.direct_residual_non_enumerable_count,
            },
        );
        counts.push(
            NamedMetric {
                name: "plaid_direct_residual_skipped_empty_segments",
                value: self.direct_residual_empty_segment_count,
            },
        );
        counts.push(
            NamedMetric {
                name: "plaid_direct_residual_skipped_over_limit_segments",
                value: self.direct_residual_over_limit_count,
            },
        );
        counts.push(
            NamedMetric {
                name: "plaid_direct_residual_skipped_budget_mismatch_segments",
                value: self.direct_residual_budget_mismatch_count,
            },
        );
        counts.push(
            NamedMetric {
                name: "plaid_direct_residual_skipped_empty_tokens_segments",
                value: self.direct_residual_empty_tokens_count,
            },
        );
        assert(counts@.map_values(|one: NamedMetric| (one.name@, one.value)) =~= self.named_counts());
        counts
    }

    /// The metrics once a query is counted by its mode.
    pub open spec fn after_mode(self, mode: PlaidExecutionMode) -> PlaidExecMetrics {
        PlaidExecMetrics {
            index_only_query_count: wrapped(
                self.index_only_query_count,
                one_if(mode is IndexOnly),
            ),
            exact_query_count: wrapped(self.exact_query_count, one_if(mode is Exact)),
            raw_refinement_budget_count: wrapped(
                self.raw_refinement_budget_count,
                mode.budget(),
            ),
            ..self
        }
    }

    /// Counts a query by its mode.
    pub fn record_mode(&mut self, mode: PlaidExecutionMode)
        ensures
            *final(self) == old(self).after_mode(mode),
    {
        match mode {
            PlaidExecutionMode::IndexOnly => {
                self.index_only_query_count = raised(self.index_only_query_count, 1);
            },
            PlaidExecutionMode::Exact { .. } => {
                self.exact_query_count = raised(self.exact_query_count, 1);
            },
        }
        self.raw_refinement_budget_count =
        raised(self.raw_refinement_budget_count, mode.raw_refinement_budget() as u64);
    }

    /// Counts how a segment was searched.
    pub fn record_direct_residual_decision(&mut self, decision: DirectResidualDecision)
        ensures
            *final(self) == old(self).after_decision(decision),
    {
        match decision {
            DirectResidualDecision::Direct => {
                self.direct_residual_segment_count = raised(self.direct_residual_segment_count, 1);
            },
            DirectResidualDecision::Disabled => {
                self.direct_residual_disabled_count =
                    raised(self.direct_residual_disabled_count, 1);
            },
            DirectResidualDecision::ExplicitProbeCeiling => {
                self.direct_residual_explicit_ceiling_count =
                    raised(self.direct_residual_explicit_ceiling_count, 1);
            },
            DirectResidualDecision::Unfiltered => {
                self.direct_residual_unfiltered_count =
                    raised(self.direct_residual_unfiltered_count, 1);
            },
            DirectResidualDecision::NonEnumerable => {
                self.direct_residual_non_enumerable_count =
                    raised(self.direct_residual_non_enumerable_count, 1);
            },
            DirectResidualDecision::EmptySegment => {
                self.direct_residual_empty_segment_count =
                    raised(self.direct_residual_empty_segment_count, 1);
            },
            DirectResidualDecision::OverLimit => {
                self.direct_residual_over_limit_count =
                    raised(self.direct_residual_over_limit_count, 1);
            },
            DirectResidualDecision::BudgetMismatch => {
                self.direct_residual_budget_mismatch_count =
                    raised(self.direct_residual_budget_mismatch_count, 1);
            },
            DirectResidualDecision::EmptyTokens => {
                self.direct_residual_empty_tokens_count =
                    raised(self.direct_residual_empty_tokens_count, 1);
            },
        }
        if is_legacy(decision) {
            self.legacy_residual_segment_count = raised(self.legacy_residual_segment_count, 1);
        }
    }

    /// The metrics once a decision is counted: under its own name, and where the
    /// segment was probed, among the probed segments.
    pub open spec fn after_decision(self, decision: DirectResidualDecision) -> PlaidExecMetrics {
        PlaidExecMetrics {
            legacy_residual_segment_count: wrapped(
                self.legacy_residual_segment_count,
                one_if(legacy(decision)),
            ),
            direct_residual_segment_count: wrapped(
                self.direct_residual_segment_count,
                one_if(decision == DirectResidualDecision::Direct),
            ),
            direct_residual_disabled_count: wrapped(
                self.direct_residual_disabled_count,
                one_if(decision == DirectResidualDecision::Disabled),
            ),
            direct_residual_explicit_ceiling_count: wrapped(
                self.direct_residual_explicit_ceiling_count,
                one_if(decision == DirectResidualDecision::ExplicitProbeCeiling),
            ),
            direct_residual_unfiltered_count: wrapped(
                self.direct_residual_unfiltered_count,
                one_if(decision == DirectResidualDecision::Unfiltered),
            ),
            direct_residual_non_enumerable_count: wrapped(
                self.direct_residual_non_enumerable_count,
                one_if(decision == DirectResidualDecision::NonEnumerable),
            ),
            direct_residual_empty_segment_count: wrapped(
                self.direct_residual_empty_segment_count,
                one_if(decision == DirectResidualDecision::EmptySegment),
            ),
            direct_residual_over_limit_count: wrapped(
                self.direct_residual_over_limit_count,
                one_if(decision == DirectResidualDecision::OverLimit),
            ),
            direct_residual_budget_mismatch_count: wrapped(
                self.direct_residual_budget_mismatch_count,
                one_if(decision == DirectResidualDecision::BudgetMismatch),
            ),
            direct_residual_empty_tokens_count: wrapped(
                self.direct_residual_empty_tokens_count,
                one_if(decision == DirectResidualDecision::EmptyTokens),
            ),
            ..self
        }
    }

    /// The metrics once a probing plan is counted.
    pub open spec fn after_plan(self, plan: CentroidPlan, total_plan_nanos: u64) -> PlaidExecMetrics {
        PlaidExecMetrics {
            eligible_centroid_plan_total: timed(
                self.eligible_centroid_plan_total,
                total_plan_nanos,
            ),
            eligible_centroid_core_build_sub: timed(
                self.eligible_centroid_core_build_sub,
                plan.core_build_nanos,
            ),
            eligible_documents_count: wrapped(
                self.eligible_documents_count,
                plan.eligible_documents as nat,
            ),
            eligible_tokens_count: wrapped(
                self.eligible_tokens_count,
                plan.eligible_tokens as nat,
            ),
            eligible_token_codes_scanned_count: wrapped(
                self.eligible_token_codes_scanned_count,
                plan.eligible_token_codes_scanned as nat,
            ),
            eligible_centroids_count: wrapped(
                self.eligible_centroids_count,
                (plan.centroids.len() as u64) as nat,
            ),
            estimated_global_postings_count: wrapped(
                self.estimated_global_postings_count,
                plan.estimated_global_postings as nat,
            ),
            eligible_centroid_enabled_count: wrapped(
                self.eligible_centroid_enabled_count,
                one_if(plan.decision == EligibleCentroidDecision::Enabled),
            ),
            eligible_centroid_empty_count: wrapped(
                self.eligible_centroid_empty_count,
                one_if(plan.decision == EligibleCentroidDecision::Empty),
            ),
            eligible_centroid_unfiltered_count: wrapped(
                self.eligible_centroid_unfiltered_count,
                one_if(plan.decision == EligibleCentroidDecision::Unfiltered),
            ),
            eligible_centroid_non_enumerable_count: wrapped(
                self.eligible_centroid_non_enumerable_count,
                one_if(plan.decision == EligibleCentroidDecision::NonEnumerable),
            ),
            eligible_centroid_wide_count: wrapped(
                self.eligible_centroid_wide_count,
                one_if(plan.decision == EligibleCentroidDecision::TooWide),
            ),
            eligible_centroid_cost_count: wrapped(
                self.eligible_centroid_cost_count,
                one_if(plan.decision == EligibleCentroidDecision::ScanCostTooHigh),
            ),
            ..self
        }
    }

    /// Counts how probing was planned.
    pub fn record_eligible_centroid_plan(&mut self, candidate_plan: &PlaidCandidatePlan)
        ensures
            *final(self) == old(self).after_plan(
                candidate_plan.eligible_centroids@,
                candidate_plan.total_plan_nanos,
            ),
    {
        let plan = &candidate_plan.eligible_centroids;
        self.eligible_centroid_plan_total =
        lengthened(self.eligible_centroid_plan_total, candidate_plan.total_plan_nanos);
        self.eligible_centroid_core_build_sub =
        lengthened(self.eligible_centroid_core_build_sub, plan.core_build_nanos());
        self.eligible_documents_count =
        raised(self.eligible_documents_count, plan.eligible_documents());
        self.eligible_tokens_count = raised(self.eligible_tokens_count, plan.eligible_tokens());
        self.eligible_token_codes_scanned_count =
        raised(self.eligible_token_codes_scanned_count, plan.eligible_token_codes_scanned());
        self.eligible_centroids_count =
        raised(self.eligible_centroids_count, plan.eligible_centroids());
        self.estimated_global_postings_count =
        raised(self.estimated_global_postings_count, plan.estimated_global_postings());
        match plan.decision() {
            EligibleCentroidDecision::Enabled => {
                self.eligible_centroid_enabled_count =
                    raised(self.eligible_centroid_enabled_count, 1);
            },
            EligibleCentroidDecision::Empty => {
                self.eligible_centroid_empty_count = raised(self.eligible_centroid_empty_count, 1);
            },
            EligibleCentroidDecision::Unfiltered => {
                self.eligible_centroid_unfiltered_count =
                    raised(self.eligible_centroid_unfiltered_count, 1);
            },
            EligibleCentroidDecision::NonEnumerable => {
                self.eligible_centroid_non_enumerable_count =
                    raised(self.eligible_centroid_non_enumerable_count, 1);
            },
            EligibleCentroidDecision::TooWide => {
                self.eligible_centroid_wide_count = raised(self.eligible_centroid_wide_count, 1);
            },
            EligibleCentroidDecision::ScanCostTooHigh => {
                self.eligible_centroid_cost_count = raised(self.eligible_centroid_cost_count, 1);
            },
        }
    }

    /// The metrics once the work of the kernel is counted.
    pub open spec fn after_core(self, stats: PlaidSearchStats) -> PlaidExecMetrics {
        PlaidExecMetrics {
            centroid: timed(self.centroid, stats.centroid_probe_nanos),
            eligible_centroid_selection_sub: timed(
                self.eligible_centroid_selection_sub,
                stats.eligible_centroid_selection_nanos,
            ),
            postings: timed(self.postings, stats.postings_nanos),
            approximate: timed(self.approximate, stats.approximate_score_nanos),
            residual_rerank: timed(self.residual_rerank, stats.exact_score_nanos),
            sort: timed(self.sort, stats.sort_nanos),
            postings_count: wrapped(self.postings_count, stats.posting_entries_read as nat),
            centroids_probed_count: wrapped(
                self.centroids_probed_count,
                stats.centroids_probed as nat,
            ),
            postings_eligible_count: wrapped(
                self.postings_eligible_count,
                stats.posting_entries_eligible as nat,
            ),
            candidate_count: wrapped(self.candidate_count, stats.candidate_documents as nat),
            approximate_documents_count: wrapped(
                self.approximate_documents_count,
                stats.approximate_documents as nat,
            ),
            residual_documents_count: wrapped(
                self.residual_documents_count,
                stats.exact_documents as nat,
            ),
            probe_retry_count: wrapped(self.probe_retry_count, stats.probe_retries as nat),
            probe_round_count: wrapped(self.probe_round_count, stats.probe_rounds as nat),
            configured_probes_count: wrapped(
                self.configured_probes_count,
                stats.configured_probes as nat,
            ),
            final_probes_count: wrapped(self.final_probes_count, stats.final_nprobe as nat),
            incremental_centroids_reused_count: wrapped(
                self.incremental_centroids_reused_count,
                stats.incremental_centroids_reused as nat,
            ),
            ..self
        }
    }

    /// Counts the work of the kernel.
    pub fn record_core(&mut self, stats: &PlaidSearchStats)
        ensures
            *final(self) == old(self).after_core(*stats),
    {
        self.centroid = lengthened(self.centroid, stats.centroid_probe_nanos);
        self.eligible_centroid_selection_sub = lengthened(
            self.eligible_centroid_selection_sub,
            stats.eligible_centroid_selection_nanos,
        );
        self.postings = lengthened(self.postings, stats.postings_nanos);
        self.approximate = lengthened(self.approximate, stats.approximate_score_nanos);
        self.residual_rerank = lengthened(self.residual_rerank, stats.exact_score_nanos);
        self.sort = lengthened(self.sort, stats.sort_nanos);
        self.postings_count = raised(self.postings_count, stats.posting_entries_read);
        self.centroids_probed_count = raised(self.centroids_probed_count, stats.centroids_probed);
        self.postings_eligible_count =
            raised(self.postings_eligible_count, stats.posting_entries_eligible);
        self.candidate_count = raised(self.candidate_count, stats.candidate_documents);
        self.approximate_documents_count =
            raised(self.approximate_documents_count, stats.approximate_documents);
        self.residual_documents_count =
            raised(self.residual_documents_count, stats.exact_documents);
        self.probe_retry_count = raised(self.probe_retry_count, stats.probe_retries);
        self.probe_round_count = raised(self.probe_round_count, stats.probe_rounds);
        self.configured_probes_count =
            raised(self.configured_probes_count, stats.configured_probes);
        self.final_probes_count = raised(self.final_probes_count, stats.final_nprobe);
        self.incremental_centroids_reused_count =
            raised(self.incremental_centroids_reused_count, stats.incremental_centroids_reused);
    }
}

/// One where something holds, else zero.
pub open spec fn one_if(holds: bool) -> nat {
    if holds {
        1
    } else {
        0
    }
}

/// The decision leads to a search by probing.
pub open spec fn legacy(decision: DirectResidualDecision) -> bool {
    decision != DirectResidualDecision::Direct && decision != DirectResidualDecision::EmptySegment
}

fn is_legacy(decision: DirectResidualDecision) -> (result: bool)
    ensures
        result == legacy(decision),
{
    decision != DirectResidualDecision::Direct && decision != DirectResidualDecision::EmptySegment
}

/// Which way a segment was searched.
#[derive(Clone, Copy, Debug, PartialEq, Eq, Structural)]
pub enum ResidualSegmentPath {
    Direct,
    Legacy,
    Empty,
}

/// Which ways the segments of a query were searched.
#[derive(Clone, Copy, Debug, PartialEq, Eq, Structural)]
pub struct ResidualQueryUsage {
    pub used_direct: bool,
    pub used_legacy: bool,
}

impl Default for ResidualQueryUsage {
    fn default() -> (result: ResidualQueryUsage)
        ensures
            !result.used_direct,
            !result.used_legacy,
    {
        ResidualQueryUsage { used_direct: false, used_legacy: false }
    }
}

impl ResidualQueryUsage {
    /// The usage once a segment was searched.
    pub open spec fn with(self, path: ResidualSegmentPath) -> ResidualQueryUsage {
        ResidualQueryUsage {
            used_direct: self.used_direct || path == ResidualSegmentPath::Direct,
            used_legacy: self.used_legacy || path == ResidualSegmentPath::Legacy,
        }
    }

    /// The usage once some segments were searched.
    pub open spec fn with_all(self, paths: Seq<ResidualSegmentPath>) -> ResidualQueryUsage
        decreases paths.len(),
    {
        if paths.len() == 0 {
            self
        } else {
            self.with_all(paths.drop_last()).with(paths.last())
        }
    }

    /// Notes which way a segment was searched.
    pub fn observe(&mut self, path: ResidualSegmentPath)
        ensures
            *final(self) == old(self).with(path),
    {
        match path {
            ResidualSegmentPath::Direct => {
                self.used_direct = true;
            },
            ResidualSegmentPath::Legacy => {
                self.used_legacy = true;
            },
            ResidualSegmentPath::Empty => {},
        }
    }

    /// Counts the query under each way that it used.
    pub fn record_query_metrics(&self, metrics: &mut PlaidExecMetrics)
        ensures
            *final(metrics) == old(metrics).after_query(*self),
    {
        if self.used_direct {
            metrics.direct_residual_query_count = raised(metrics.direct_residual_query_count, 1);
        }
        if self.used_legacy {
            metrics.legacy_residual_query_count = raised(metrics.legacy_residual_query_count, 1);
        }
    }
}

impl PlaidExecMetrics {
    /// The metrics once a query is counted under each way that it used.
    pub open spec fn after_query(self, usage: ResidualQueryUsage) -> PlaidExecMetrics {
        PlaidExecMetrics {
            direct_residual_query_count: wrapped(
                self.direct_residual_query_count,
                one_if(usage.used_direct),
            ),
            legacy_residual_query_count: wrapped(
                self.legacy_residual_query_count,
                one_if(usage.used_legacy),
            ),
            ..self
        }
    }
}

/// A query whose segments are all empty counts neither as direct nor as probing,
/// and each of its segments counts as empty alone.
pub proof fn empty_segments_claim_no_work(
    paths: Seq<ResidualSegmentPath>,
    metrics: PlaidExecMetrics,
    usage: ResidualQueryUsage,
)
    requires
        forall|i: int| 0 <= i < paths.len() ==> #[trigger] paths[i] == ResidualSegmentPath::Empty,
        !usage.used_direct,
        !usage.used_legacy,
    ensures
        usage.with_all(paths) == usage,
        metrics.after_query(usage.with_all(paths)) == metrics,
        metrics.after_decision(DirectResidualDecision::EmptySegment) == (PlaidExecMetrics {
            direct_residual_empty_segment_count: wrapped(
                metrics.direct_residual_empty_segment_count,
                1,
            ),
            ..metrics
        }),
    decreases paths.len(),
{
    if paths.len() > 0 {
        let earlier = paths.drop_last();
        assert forall|i: int| 0 <= i < earlier.len() implies #[trigger] earlier[i]
            == ResidualSegmentPath::Empty by {
            assert(paths[i] == ResidualSegmentPath::Empty);
        }
        empty_segments_claim_no_work(earlier, metrics, usage);
        assert(paths[paths.len() - 1] == ResidualSegmentPath::Empty);
    }
}

/// A segment counts as probed exactly where it counts under one reason why it
/// was not searched directly.
pub proof fn probed_segments_have_one_reason(
    metrics: PlaidExecMetrics,
    decision: DirectResidualDecision,
)
    ensures
        metrics.after_decision(decision).direct_residual_segment_count
            != metrics.direct_residual_segment_count <==> decision
            == DirectResidualDecision::Direct,
        metrics.after_decision(decision).legacy_residual_segment_count
            != metrics.legacy_residual_segment_count <==> legacy(decision),
{
}

/// A counter has been raised by a number, and starts again at zero behind the
/// largest 64-bit number.
pub open spec fn raised_by(before: u64, after: u64, more: int) -> bool {
    ||| after == before + more
    ||| after + 0x1_0000_0000_0000_0000 == before + more
}

/// A timer has been raised by a time, and by one nanosecond where the time is too
/// short to be measured.
pub open spec fn timed_by(before: u64, after: u64, nanos: u64) -> bool {
    ||| nanos > 0 && raised_by(before, after, nanos as int)
    ||| nanos == 0 && raised_by(before, after, 1)
}

pub(crate) proof fn counters_wrap(counter: u64, more: nat)
    requires
        more <= u64::MAX,
    ensures
        raised_by(counter, wrapped(counter, more), more as int),
{
}

pub(crate) proof fn timers_take_the_time(timer: u64, nanos: u64)
    ensures
        timed_by(timer, timed(timer, nanos), nanos),
{
}

/// Searching a segment raises each timer by the time that the search has taken.
#[verifier::spinoff_prover]
pub proof fn searches_take_their_time(metrics: PlaidExecMetrics, stats: PlaidSearchStats)
    ensures
        ({
            let after = metrics.after_core(stats);
            &&& timed_by(metrics.centroid, after.centroid, stats.centroid_probe_nanos)
            &&& timed_by(
                metrics.eligible_centroid_selection_sub,
                after.eligible_centroid_selection_sub,
                stats.eligible_centroid_selection_nanos,
            )
            &&& timed_by(metrics.postings, after.postings, stats.postings_nanos)
            &&& timed_by(metrics.approximate, after.approximate, stats.approximate_score_nanos)
            &&& timed_by(metrics.residual_rerank, after.residual_rerank, stats.exact_score_nanos)
            &&& timed_by(metrics.sort, after.sort, stats.sort_nanos)
            &&& after.total == metrics.total
            &&& after.exact == metrics.exact
            &&& after.direct_residual == metrics.direct_residual
            &&& after.segments_searched_count == metrics.segments_searched_count
        }),
{
    timers_take_the_time(metrics.centroid, stats.centroid_probe_nanos);
    timers_take_the_time(
        metrics.eligible_centroid_selection_sub,
        stats.eligible_centroid_selection_nanos,
    );
    timers_take_the_time(metrics.postings, stats.postings_nanos);
    timers_take_the_time(metrics.approximate, stats.approximate_score_nanos);
    timers_take_the_time(metrics.residual_rerank, stats.exact_score_nanos);
    timers_take_the_time(metrics.sort, stats.sort_nanos);
}

/// Searching a segment raises the counters of what was read and scored.
#[verifier::spinoff_prover]
pub proof fn searches_count_what_they_read(metrics: PlaidExecMetrics, stats: PlaidSearchStats)
    ensures
        ({
            let after = metrics.after_core(stats);
            &&& raised_by(
                metrics.postings_count,
                after.postings_count,
                stats.posting_entries_read as int,
            )
            &&& raised_by(
                metrics.centroids_probed_count,
                after.centroids_probed_count,
                stats.centroids_probed as int,
            )
            &&& raised_by(
                metrics.postings_eligible_count,
                after.postings_eligible_count,
                stats.posting_entries_eligible as int,
            )
            &&& raised_by(
                metrics.candidate_count,
                after.candidate_count,
                stats.candidate_documents as int,
            )
            &&& raised_by(
                metrics.approximate_documents_count,
                after.approximate_documents_count,
                stats.approximate_documents as int,
            )
            &&& raised_by(
                metrics.residual_documents_count,
                after.residual_documents_count,
                stats.exact_documents as int,
            )
        }),
{
    counters_wrap(metrics.postings_count, stats.posting_entries_read as nat);
    counters_wrap(metrics.centroids_probed_count, stats.centroids_probed as nat);
    counters_wrap(metrics.postings_eligible_count, stats.posting_entries_eligible as nat);
    counters_wrap(metrics.candidate_count, stats.candidate_documents as nat);
    counters_wrap(metrics.approximate_documents_count, stats.approximate_documents as nat);
    counters_wrap(metrics.residual_documents_count, stats.exact_documents as nat);
}

/// Searching a segment raises the counters of its probing rounds.
#[verifier::spinoff_prover]
pub proof fn searches_count_their_rounds(metrics: PlaidExecMetrics, stats: PlaidSearchStats)
    ensures
        ({
            let after = metrics.after_core(stats);
            &&& raised_by(
                metrics.probe_retry_count,
                after.probe_retry_count,
                stats.probe_retries as int,
            )
            &&& raised_by(
                metrics.probe_round_count,
                after.probe_round_count,
                stats.probe_rounds as int,
            )
            &&& raised_by(
                metrics.configured_probes_count,
                after.configured_probes_count,
                stats.configured_probes as int,
            )
            &&& raised_by(
                metrics.final_probes_count,
                after.final_probes_count,
                stats.final_nprobe as int,
            )
            &&& raised_by(
                metrics.incremental_centroids_reused_count,
                after.incremental_centroids_reused_count,
                stats.incremental_centroids_reused as int,
            )
        }),
{
    counters_wrap(metrics.probe_retry_count, stats.probe_retries as nat);
    counters_wrap(metrics.probe_round_count, stats.probe_rounds as nat);
    counters_wrap(metrics.configured_probes_count, stats.configured_probes as nat);
    counters_wrap(metrics.final_probes_count, stats.final_nprobe as nat);
    counters_wrap(
        metrics.incremental_centroids_reused_count,
        stats.incremental_centroids_reused as nat,
    );
}

/// A plan raises the counters of what it looked at, and the counter of its own
/// decision alone.
pub proof fn plans_raise_their_counters(
    metrics: PlaidExecMetrics,
    plan: CentroidPlan,
    total_plan_nanos: u64,
)
    requires
        plan.centroids.len() <= u64::MAX,
    ensures
        ({
            let after = metrics.after_plan(plan, total_plan_nanos);
            &&& timed_by(
                metrics.eligible_centroid_plan_total,
                after.eligible_centroid_plan_total,
                total_plan_nanos,
            )
            &&& timed_by(
                metrics.eligible_centroid_core_build_sub,
                after.eligible_centroid_core_build_sub,
                plan.core_build_nanos,
            )
            &&& raised_by(
                metrics.eligible_documents_count,
                after.eligible_documents_count,
                plan.eligible_documents as int,
            )
            &&& raised_by(
                metrics.eligible_tokens_count,
                after.eligible_tokens_count,
                plan.eligible_tokens as int,
            )
            &&& raised_by(
                metrics.eligible_token_codes_scanned_count,
                after.eligible_token_codes_scanned_count,
                plan.eligible_token_codes_scanned as int,
            )
            &&& raised_by(
                metrics.estimated_global_postings_count,
                after.estimated_global_postings_count,
                plan.estimated_global_postings as int,
            )
            &&& raised_by(
                metrics.eligible_centroids_count,
                after.eligible_centroids_count,
                plan.centroids.len() as int,
            )
            &&& if plan.decision == EligibleCentroidDecision::Enabled {
                raised_by(
                    metrics.eligible_centroid_enabled_count,
                    after.eligible_centroid_enabled_count,
                    1,
                )
            } else {
                after.eligible_centroid_enabled_count == metrics.eligible_centroid_enabled_count
            }
            &&& if plan.decision == EligibleCentroidDecision::Empty {
                raised_by(
                    metrics.eligible_centroid_empty_count,
                    after.eligible_centroid_empty_count,
                    1,
                )
            } else {
                after.eligible_centroid_empty_count == metrics.eligible_centroid_empty_count
            }
            &&& if plan.decision == EligibleCentroidDecision::Unfiltered {
                raised_by(
                    metrics.eligible_centroid_unfiltered_count,
                    after.eligible_centroid_unfiltered_count,
                    1,
                )
            } else {
                after.eligible_centroid_unfiltered_count
                    == metrics.eligible_centroid_unfiltered_count
            }
            &&& if plan.decision == EligibleCentroidDecision::NonEnumerable {
                raised_by(
                    metrics.eligible_centroid_non_enumerable_count,
                    after.eligible_centroid_non_enumerable_count,
                    1,
                )
            } else {
                after.eligible_centroid_non_enumerable_count
                    == metrics.eligible_centroid_non_enumerable_count
            }
            &&& if plan.decision == EligibleCentroidDecision::TooWide {
                raised_by(
                    metrics.eligible_centroid_wide_count,
                    after.eligible_centroid_wide_count,
                    1,
                )
            } else {
                after.eligible_centroid_wide_count == metrics.eligible_centroid_wide_count
            }
            &&& if plan.decision == EligibleCentroidDecision::ScanCostTooHigh {
                raised_by(
                    metrics.eligible_centroid_cost_count,
                    after.eligible_centroid_cost_count,
                    1,
                )
            } else {
                after.eligible_centroid_cost_count == metrics.eligible_centroid_cost_count
            }
        }),
{
}

/// A decision about a direct search raises the counter of that decision alone, and
/// the counter of probed segments unless the segment is searched directly or the
/// filter lists none of its rows.
pub proof fn decisions_raise_their_counters(
    metrics: PlaidExecMetrics,
    decision: DirectResidualDecision,
)
    ensures
        ({
            let after = metrics.after_decision(decision);
            &&& if decision == DirectResidualDecision::Direct {
                raised_by(
                    metrics.direct_residual_segment_count,
                    after.direct_residual_segment_count,
                    1,
                )
            } else {
                after.direct_residual_segment_count == metrics.direct_residual_segment_count
            }
            &&& if decision == DirectResidualDecision::Disabled {
                raised_by(
                    metrics.direct_residual_disabled_count,
                    after.direct_residual_disabled_count,
                    1,
                )
            } else {
                after.direct_residual_disabled_count == metrics.direct_residual_disabled_count
            }
            &&& if decision == DirectResidualDecision::ExplicitProbeCeiling {
                raised_by(
                    metrics.direct_residual_explicit_ceiling_count,
                    after.direct_residual_explicit_ceiling_count,
                    1,
                )
            } else {
                after.direct_residual_explicit_ceiling_count
                    == metrics.direct_residual_explicit_ceiling_count
            }
            &&& if decision == DirectResidualDecision::Unfiltered {
                raised_by(
                    metrics.direct_residual_unfiltered_count,
                    after.direct_residual_unfiltered_count,
                    1,
                )
            } else {
                after.direct_residual_unfiltered_count == metrics.direct_residual_unfiltered_count
            }
            &&& if decision == DirectResidualDecision::NonEnumerable {
                raised_by(
                    metrics.direct_residual_non_enumerable_count,
                    after.direct_residual_non_enumerable_count,
                    1,
                )
            } else {
                after.direct_residual_non_enumerable_count
                    == metrics.direct_residual_non_enumerable_count
            }
            &&& if decision == DirectResidualDecision::EmptySegment {
                raised_by(
                    metrics.direct_residual_empty_segment_count,
                    after.direct_residual_empty_segment_count,
                    1,
                )
            } else {
                after.direct_residual_empty_segment_count
                    == metrics.direct_residual_empty_segment_count
            }
            &&& if decision == DirectResidualDecision::OverLimit {
                raised_by(
                    metrics.direct_residual_over_limit_count,
                    after.direct_residual_over_limit_count,
                    1,
                )
            } else {
                after.direct_residual_over_limit_count == metrics.direct_residual_over_limit_count
            }
            &&& if decision == DirectResidualDecision::BudgetMismatch {
                raised_by(
                    metrics.direct_residual_budget_mismatch_count,
                    after.direct_residual_budget_mismatch_count,
                    1,
                )
            } else {
                after.direct_residual_budget_mismatch_count
                    == metrics.direct_residual_budget_mismatch_count
            }
            &&& if decision == DirectResidualDecision::EmptyTokens {
                raised_by(
                    metrics.direct_residual_empty_tokens_count,
                    after.direct_residual_empty_tokens_count,
                    1,
                )
            } else {
                after.direct_residual_empty_tokens_count
                    == metrics.direct_residual_empty_tokens_count
            }
            &&& if decision == DirectResidualDecision::Direct || decision
                == DirectResidualDecision::EmptySegment {
                after.legacy_residual_segment_count == metrics.legacy_residual_segment_count
            } else {
                raised_by(
                    metrics.legacy_residual_segment_count,
                    after.legacy_residual_segment_count,
                    1,
                )
            }
        }),
{
}

/// A query counts once, by its mode, with the rows that it refines.
pub proof fn queries_count_by_their_mode(metrics: PlaidExecMetrics, mode: PlaidExecutionMode)
    ensures
        ({
            let after = metrics.after_mode(mode);
            match mode {
                PlaidExecutionMode::IndexOnly => {
                    &&& raised_by(metrics.index_only_query_count, after.index_only_query_count, 1)
                    &&& after.exact_query_count == metrics.exact_query_count
                    &&& after.raw_refinement_budget_count == metrics.raw_refinement_budget_count
                },
                PlaidExecutionMode::Exact { raw_refinement_budget } => {
                    &&& after.index_only_query_count == metrics.index_only_query_count
                    &&& raised_by(metrics.exact_query_count, after.exact_query_count, 1)
                    &&& raised_by(
                        metrics.raw_refinement_budget_count,
                        after.raw_refinement_budget_count,
                        raw_refinement_budget as int,
                    )
                },
            }
        }),
{
}

/// A query counts as direct where it searched a segment directly, and as probing
/// where it probed one. It may count as both.
pub proof fn queries_count_by_the_ways_they_took(
    metrics: PlaidExecMetrics,
    usage: ResidualQueryUsage,
    paths: Seq<ResidualSegmentPath>,
)
    ensures
        usage.with_all(paths).used_direct <==> usage.used_direct || paths.contains(
            ResidualSegmentPath::Direct,
        ),
        usage.with_all(paths).used_legacy <==> usage.used_legacy || paths.contains(
            ResidualSegmentPath::Legacy,
        ),
        ({
            let after = metrics.after_query(usage);
            &&& if usage.used_direct {
                raised_by(
                    metrics.direct_residual_query_count,
                    after.direct_residual_query_count,
                    1,
                )
            } else {
                after.direct_residual_query_count == metrics.direct_residual_query_count
            }
            &&& if usage.used_legacy {
                raised_by(
                    metrics.legacy_residual_query_count,
                    after.legacy_residual_query_count,
                    1,
                )
            } else {
                after.legacy_residual_query_count == metrics.legacy_residual_query_count
            }
        }),
    decreases paths.len(),
{
    if paths.len() > 0 {
        let shorter = paths.drop_last();
        let last = paths.len() - 1;
        queries_count_by_the_ways_they_took(metrics, usage, shorter);
        assert(paths[last] == paths.last());
        assert forall|path: ResidualSegmentPath| #[trigger] paths.contains(path) <==>
            shorter.contains(path) || path == paths.last() by {
            if shorter.contains(path) {
                let i = choose|i: int| 0 <= i < shorter.len() && shorter[i] == path;
                assert(paths[i] == path);
            }
            if paths.contains(path) && path != paths.last() {
                let i = choose|i: int| 0 <= i < paths.len() && paths[i] == path;
                assert(shorter[i] == path);
            }
        }
    }
}

/// Each timer is reported under its own name, and starts at zero.
#[verifier::spinoff_prover]
pub proof fn times_are_reported_under_their_names(metrics: PlaidExecMetrics)
    ensures
        metrics.named_times().len() == 15,
        metrics.named_times()[0] == ("plaid_filter_materialization_time"@, metrics.filter),
        metrics.named_times()[1] == (
            "plaid_eligible_centroid_plan_total_time"@,
            metrics.eligible_centroid_plan_total,
        ),
        metrics.named_times()[2] == (
            "plaid_eligible_centroid_core_build_sub_time"@,
            metrics.eligible_centroid_core_build_sub,
        ),
        metrics.named_times()[3] == (
            "plaid_eligible_centroid_selection_sub_time"@,
            metrics.eligible_centroid_selection_sub,
        ),
        metrics.named_times()[4] == ("plaid_centroid_probe_time"@, metrics.centroid),
        metrics.named_times()[5] == ("plaid_postings_time"@, metrics.postings),
        metrics.named_times()[6] == ("plaid_candidate_total_time"@, metrics.candidate),
        metrics.named_times()[7] == ("plaid_approximate_time"@, metrics.approximate),
        metrics.named_times()[8] == ("plaid_residual_rerank_time"@, metrics.residual_rerank),
        metrics.named_times()[9] == ("plaid_direct_residual_time"@, metrics.direct_residual),
        metrics.named_times()[10] == ("plaid_row_id_only_fetch_time"@, metrics.row_id_fetch),
        metrics.named_times()[11] == ("plaid_raw_vector_fetch_time"@, metrics.raw_vector_fetch),
        metrics.named_times()[12] == ("plaid_exact_maxsim_time"@, metrics.exact),
        metrics.named_times()[13] == ("plaid_sort_time"@, metrics.sort),
        metrics.named_times()[14] == ("plaid_total_time"@, metrics.total),
        forall|i: int|
            0 <= i < 15 ==> (#[trigger] no_metrics().named_times()[i]).1 == 0,
{
}

/// Each counter is reported under its own name, and starts at zero.
#[verifier::spinoff_prover]
pub proof fn counts_are_reported_under_their_names(metrics: PlaidExecMetrics)
    ensures
        metrics.named_counts().len() == 48,
        metrics.named_counts()[0] == ("plaid_posting_entries"@, metrics.postings_count),
        metrics.named_counts()[1] == ("plaid_centroids_probed"@, metrics.centroids_probed_count),
        metrics.named_counts()[2] == (
            "plaid_posting_entries_eligible"@,
            metrics.postings_eligible_count,
        ),
        metrics.named_counts()[3] == ("plaid_candidate_documents"@, metrics.candidate_count),
        metrics.named_counts()[4] == (
            "plaid_approximate_documents"@,
            metrics.approximate_documents_count,
        ),
        metrics.named_counts()[5] == (
            "plaid_residual_documents"@,
            metrics.residual_documents_count,
        ),
        metrics.named_counts()[6] == (
            "plaid_filter_exact_small_filter_fallbacks"@,
            metrics.filter_exact_small_count,
        ),
        metrics.named_counts()[7] == (
            "plaid_filter_exact_underfilled_fallbacks"@,
            metrics.filter_exact_underfilled_count,
        ),
        metrics.named_counts()[8] == (
            "plaid_filter_exact_documents"@,
            metrics.filter_exact_documents_count,
        ),
        metrics.named_counts()[9] == ("plaid_row_id_only_rows"@, metrics.row_id_rows_count),
        metrics.named_counts()[10] == ("plaid_raw_vector_rows"@, metrics.raw_vector_rows_count),
        metrics.named_counts()[11] == ("plaid_index_only_queries"@, metrics.index_only_query_count),
        metrics.named_counts()[12] == (
            "plaid_exact_refinement_queries"@,
            metrics.exact_query_count,
        ),
        metrics.named_counts()[13] == (
            "plaid_empty_filter_queries"@,
            metrics.empty_filter_query_count,
        ),
        metrics.named_counts()[14] == ("plaid_segments_searched"@, metrics.segments_searched_count),
        metrics.named_counts()[15] == ("plaid_probe_retries"@, metrics.probe_retry_count),
        metrics.named_counts()[16] == ("plaid_probe_rounds"@, metrics.probe_round_count),
        metrics.named_counts()[17] == ("plaid_configured_probes"@, metrics.configured_probes_count),
        metrics.named_counts()[18] == ("plaid_final_probes"@, metrics.final_probes_count),
        metrics.named_counts()[19] == (
            "plaid_incremental_centroids_reused"@,
            metrics.incremental_centroids_reused_count,
        ),
        metrics.named_counts()[20] == (
            "plaid_eligible_centroid_enabled_segments"@,
            metrics.eligible_centroid_enabled_count,
        ),
        metrics.named_counts()[21] == (
            "plaid_eligible_centroid_empty_segments"@,
            metrics.eligible_centroid_empty_count,
        ),
        metrics.named_counts()[22] == (
            "plaid_eligible_centroid_skipped_unfiltered_segments"@,
            metrics.eligible_centroid_unfiltered_count,
        ),
        metrics.named_counts()[23] == (
            "plaid_eligible_centroid_skipped_non_enumerable_segments"@,
            metrics.eligible_centroid_non_enumerable_count,
        ),
        metrics.named_counts()[24] == (
            "plaid_eligible_centroid_skipped_wide_segments"@,
            metrics.eligible_centroid_wide_count,
        ),
        metrics.named_counts()[25] == (
            "plaid_eligible_centroid_skipped_cost_segments"@,
            metrics.eligible_centroid_cost_count,
        ),
        metrics.named_counts()[26] == (
            "plaid_eligible_documents"@,
            metrics.eligible_documents_count,
        ),
        metrics.named_counts()[27] == ("plaid_eligible_tokens"@, metrics.eligible_tokens_count),
        metrics.named_counts()[28] == (
            "plaid_eligible_token_codes_scanned"@,
            metrics.eligible_token_codes_scanned_count,
        ),
        metrics.named_counts()[29] == (
            "plaid_eligible_centroids"@,
            metrics.eligible_centroids_count,
        ),
        metrics.named_counts()[30] == (
            "plaid_estimated_global_postings"@,
            metrics.estimated_global_postings_count,
        ),
        metrics.named_counts()[31] == (
            "plaid_core_approximate_budget"@,
            metrics.core_approximate_budget_count,
        ),
        metrics.named_counts()[32] == (
            "plaid_core_residual_budget"@,
            metrics.core_residual_budget_count,
        ),
        metrics.named_counts()[33] == (
            "plaid_raw_refinement_budget"@,
            metrics.raw_refinement_budget_count,
        ),
        metrics.named_counts()[34] == (
            "plaid_direct_residual_queries"@,
            metrics.direct_residual_query_count,
        ),
        metrics.named_counts()[35] == (
            "plaid_direct_residual_segments"@,
            metrics.direct_residual_segment_count,
        ),
        metrics.named_counts()[36] == (
            "plaid_direct_residual_documents"@,
            metrics.direct_residual_document_count,
        ),
        metrics.named_counts()[37] == (
            "plaid_legacy_residual_queries"@,
            metrics.legacy_residual_query_count,
        ),
        metrics.named_counts()[38] == (
            "plaid_legacy_residual_segments"@,
            metrics.legacy_residual_segment_count,
        ),
        metrics.named_counts()[39] == (
            "plaid_direct_residual_small_exact_precedence_queries"@,
            metrics.direct_residual_small_exact_precedence_count,
        ),
        metrics.named_counts()[40] == (
            "plaid_direct_residual_skipped_disabled_segments"@,
            metrics.direct_residual_disabled_count,
        ),
        metrics.named_counts()[41] == (
            "plaid_direct_residual_skipped_explicit_ceiling_segments"@,
            metrics.direct_residual_explicit_ceiling_count,
        ),
        metrics.named_counts()[42] == (
            "plaid_direct_residual_skipped_unfiltered_segments"@,
            metrics.direct_residual_unfiltered_count,
        ),
        metrics.named_counts()[43] == (
            "plaid_direct_residual_skipped_non_enumerable_segments"@,
            metrics.direct_residual_non_enumerable_count,
        ),
        metrics.named_counts()[44] == (
            "plaid_direct_residual_skipped_empty_segments"@,
            metrics.direct_residual_empty_segment_count,
        ),
        metrics.named_counts()[45] == (
            "plaid_direct_residual_skipped_over_limit_segments"@,
            metrics.direct_residual_over_limit_count,
        ),
        metrics.named_counts()[46] == (
            "plaid_direct_residual_skipped_budget_mismatch_segments"@,
            metrics.direct_residual_budget_mismatch_count,
        ),
        metrics.named_counts()[47] == (
            "plaid_direct_residual_skipped_empty_tokens_segments"@,
            metrics.direct_residual_empty_tokens_count,
        ),
        forall|i: int|
            0 <= i < 48 ==> (#[trigger] no_metrics().named_counts()[i]).1 == 0,
{
}

} // verus!
